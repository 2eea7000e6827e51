//! The response envelope: a JSON object holding a sequence of
//! candidates, each with generated content made of text parts.  The
//! client consumes exactly the first candidate's first part's text; the
//! walk below extracts it while checking that the surrounding document
//! is well-formed JSON.  Sibling fields (finish reason, safety ratings,
//! usage counters and any others) are parsed generically and ignored.
//! An empty candidates or parts sequence is a reportable failure, not
//! an out-of-bounds access.

use vstd::prelude::*;
use crate::json::{
    spec_skip_ws, spec_lex_string, spec_skip_value, spec_skip_elems, spec_members_rest,
    skip_ws, lex_string, skip_value, skip_elems, members_rest,
};

verus! {

/// The bytes of the key `candidates`.
pub open spec fn spec_key_candidates() -> Seq<u8> {
    seq![
        ('c' as u8),
        ('a' as u8),
        ('n' as u8),
        ('d' as u8),
        ('i' as u8),
        ('d' as u8),
        ('a' as u8),
        ('t' as u8),
        ('e' as u8),
        ('s' as u8),
    ]
}

/// The bytes of the key `content`.
pub open spec fn spec_key_content() -> Seq<u8> {
    seq![('c' as u8), ('o' as u8), ('n' as u8), ('t' as u8), ('e' as u8), ('n' as u8), ('t' as u8)]
}

/// The bytes of the key `parts`.
pub open spec fn spec_key_parts() -> Seq<u8> {
    seq![('p' as u8), ('a' as u8), ('r' as u8), ('t' as u8), ('s' as u8)]
}

/// The bytes of the key `text`.
pub open spec fn spec_key_text() -> Seq<u8> {
    seq![('t' as u8), ('e' as u8), ('x' as u8), ('t' as u8)]
}

fn key_candidates_vec() -> (r: Vec<u8>)
    ensures
        r@ == spec_key_candidates(),
{
    let mut out: Vec<u8> = Vec::new();
    out.push('c' as u8);
    out.push('a' as u8);
    out.push('n' as u8);
    out.push('d' as u8);
    out.push('i' as u8);
    out.push('d' as u8);
    out.push('a' as u8);
    out.push('t' as u8);
    out.push('e' as u8);
    out.push('s' as u8);
    proof {
        assert(out@ =~= spec_key_candidates());
    }
    out
}

fn key_content_vec() -> (r: Vec<u8>)
    ensures
        r@ == spec_key_content(),
{
    let mut out: Vec<u8> = Vec::new();
    out.push('c' as u8);
    out.push('o' as u8);
    out.push('n' as u8);
    out.push('t' as u8);
    out.push('e' as u8);
    out.push('n' as u8);
    out.push('t' as u8);
    proof {
        assert(out@ =~= spec_key_content());
    }
    out
}

fn key_parts_vec() -> (r: Vec<u8>)
    ensures
        r@ == spec_key_parts(),
{
    let mut out: Vec<u8> = Vec::new();
    out.push('p' as u8);
    out.push('a' as u8);
    out.push('r' as u8);
    out.push('t' as u8);
    out.push('s' as u8);
    proof {
        assert(out@ =~= spec_key_parts());
    }
    out
}

fn key_text_vec() -> (r: Vec<u8>)
    ensures
        r@ == spec_key_text(),
{
    let mut out: Vec<u8> = Vec::new();
    out.push('t' as u8);
    out.push('e' as u8);
    out.push('x' as u8);
    out.push('t' as u8);
    proof {
        assert(out@ =~= spec_key_text());
    }
    out
}

fn vec_eq(a: &Vec<u8>, b: &Vec<u8>) -> (r: bool)
    ensures
        r == (a@ == b@),
{
    if a.len() != b.len() {
        return false;
    }
    let mut k: usize = 0;
    while k < a.len()
        invariant
            0 <= k <= a@.len(),
            a@.len() == b@.len(),
            forall|m: int| 0 <= m < k ==> a@[m] == b@[m],
        decreases a@.len() - k,
    {
        if a[k] != b[k] {
            return false;
        }
        k = k + 1;
    }
    proof {
        assert(a@ =~= b@);
    }
    true
}

/// Whether an executable extraction result agrees with the
/// specification's.
pub open spec fn walk_matches(r: Option<(Vec<u8>, usize)>, m: Option<(Seq<u8>, int)>) -> bool {
    match r {
        Some((t, e)) => m == Some((t@, e as int)),
        None => m == None::<(Seq<u8>, int)>,
    }
}

/// Walks the members of the response object from just after `{` or a
/// comma, looking for the key `candidates`; every other member is
/// skipped generically.  Yields the first candidate's text and the
/// position just past the object's closing brace.
pub open spec fn spec_walk_candidates(s: Seq<u8>, i: int, fuel: nat) -> Option<(Seq<u8>, int)>
    decreases fuel,
{
    if fuel == 0 {
        None
    } else {
        let j = spec_skip_ws(s, i);
        if j < s.len() && s[j] == ('"' as u8) {
            match spec_lex_string(s, j + 1) {
                Some((key, e)) => {
                    let c = spec_skip_ws(s, e);
                    if c < s.len() && s[c] == (':' as u8) {
                        if key == spec_key_candidates() {
                            match spec_first_candidate(s, c + 1, (fuel - 1) as nat) {
                                Some((t, ve)) => {
                                    match spec_members_rest(s, ve, (fuel - 1) as nat) {
                                        Some(end) => Some((t, end)),
                                        None => None,
                                    }
                                },
                                None => None,
                            }
                        } else {
                            match spec_skip_value(s, c + 1, (fuel - 1) as nat) {
                                Some(ve) => {
                                    let m = spec_skip_ws(s, ve);
                                    if m < s.len() && s[m] == (',' as u8) {
                                        spec_walk_candidates(s, m + 1, (fuel - 1) as nat)
                                    } else {
                                        None
                                    }
                                },
                                None => None,
                            }
                        }
                    } else {
                        None
                    }
                },
                None => None,
            }
        } else {
            None
        }
    }
}

/// The value of `candidates`: an array whose first element is a
/// candidate object; the remaining elements are skipped generically.
pub open spec fn spec_first_candidate(s: Seq<u8>, i: int, fuel: nat) -> Option<(Seq<u8>, int)>
    decreases fuel,
{
    if fuel == 0 {
        None
    } else {
        let j = spec_skip_ws(s, i);
        if j < s.len() && s[j] == ('[' as u8) {
            let k = spec_skip_ws(s, j + 1);
            if k < s.len() && s[k] == ('{' as u8) {
                match spec_walk_candidate(s, k + 1, (fuel - 1) as nat) {
                    Some((t, ce)) => {
                        let m = spec_skip_ws(s, ce);
                        if m < s.len() && s[m] == (',' as u8) {
                            match spec_skip_elems(s, m + 1, (fuel - 1) as nat) {
                                Some(end) => Some((t, end)),
                                None => None,
                            }
                        } else if m < s.len() && s[m] == (']' as u8) {
                            Some((t, m + 1))
                        } else {
                            None
                        }
                    },
                    None => None,
                }
            } else {
                None
            }
        } else {
            None
        }
    }
}

/// Walks a candidate object's members looking for `content`.
pub open spec fn spec_walk_candidate(s: Seq<u8>, i: int, fuel: nat) -> Option<(Seq<u8>, int)>
    decreases fuel,
{
    if fuel == 0 {
        None
    } else {
        let j = spec_skip_ws(s, i);
        if j < s.len() && s[j] == ('"' as u8) {
            match spec_lex_string(s, j + 1) {
                Some((key, e)) => {
                    let c = spec_skip_ws(s, e);
                    if c < s.len() && s[c] == (':' as u8) {
                        if key == spec_key_content() {
                            match spec_obj_content(s, c + 1, (fuel - 1) as nat) {
                                Some((t, ve)) => {
                                    match spec_members_rest(s, ve, (fuel - 1) as nat) {
                                        Some(end) => Some((t, end)),
                                        None => None,
                                    }
                                },
                                None => None,
                            }
                        } else {
                            match spec_skip_value(s, c + 1, (fuel - 1) as nat) {
                                Some(ve) => {
                                    let m = spec_skip_ws(s, ve);
                                    if m < s.len() && s[m] == (',' as u8) {
                                        spec_walk_candidate(s, m + 1, (fuel - 1) as nat)
                                    } else {
                                        None
                                    }
                                },
                                None => None,
                            }
                        }
                    } else {
                        None
                    }
                },
                None => None,
            }
        } else {
            None
        }
    }
}

/// The value of `content`: an object walked for `parts`.
pub open spec fn spec_obj_content(s: Seq<u8>, i: int, fuel: nat) -> Option<(Seq<u8>, int)>
    decreases fuel,
{
    if fuel == 0 {
        None
    } else {
        let j = spec_skip_ws(s, i);
        if j < s.len() && s[j] == ('{' as u8) {
            spec_walk_content(s, j + 1, (fuel - 1) as nat)
        } else {
            None
        }
    }
}

/// Walks the content object's members looking for `parts`.
pub open spec fn spec_walk_content(s: Seq<u8>, i: int, fuel: nat) -> Option<(Seq<u8>, int)>
    decreases fuel,
{
    if fuel == 0 {
        None
    } else {
        let j = spec_skip_ws(s, i);
        if j < s.len() && s[j] == ('"' as u8) {
            match spec_lex_string(s, j + 1) {
                Some((key, e)) => {
                    let c = spec_skip_ws(s, e);
                    if c < s.len() && s[c] == (':' as u8) {
                        if key == spec_key_parts() {
                            match spec_first_part(s, c + 1, (fuel - 1) as nat) {
                                Some((t, ve)) => {
                                    match spec_members_rest(s, ve, (fuel - 1) as nat) {
                                        Some(end) => Some((t, end)),
                                        None => None,
                                    }
                                },
                                None => None,
                            }
                        } else {
                            match spec_skip_value(s, c + 1, (fuel - 1) as nat) {
                                Some(ve) => {
                                    let m = spec_skip_ws(s, ve);
                                    if m < s.len() && s[m] == (',' as u8) {
                                        spec_walk_content(s, m + 1, (fuel - 1) as nat)
                                    } else {
                                        None
                                    }
                                },
                                None => None,
                            }
                        }
                    } else {
                        None
                    }
                },
                None => None,
            }
        } else {
            None
        }
    }
}

/// The value of `parts`: an array whose first element is a part
/// object; the remaining elements are skipped generically.
pub open spec fn spec_first_part(s: Seq<u8>, i: int, fuel: nat) -> Option<(Seq<u8>, int)>
    decreases fuel,
{
    if fuel == 0 {
        None
    } else {
        let j = spec_skip_ws(s, i);
        if j < s.len() && s[j] == ('[' as u8) {
            let k = spec_skip_ws(s, j + 1);
            if k < s.len() && s[k] == ('{' as u8) {
                match spec_walk_part(s, k + 1, (fuel - 1) as nat) {
                    Some((t, ce)) => {
                        let m = spec_skip_ws(s, ce);
                        if m < s.len() && s[m] == (',' as u8) {
                            match spec_skip_elems(s, m + 1, (fuel - 1) as nat) {
                                Some(end) => Some((t, end)),
                                None => None,
                            }
                        } else if m < s.len() && s[m] == (']' as u8) {
                            Some((t, m + 1))
                        } else {
                            None
                        }
                    },
                    None => None,
                }
            } else {
                None
            }
        } else {
            None
        }
    }
}

/// Walks a part object's members looking for `text`, whose value must
/// be a string: the extracted reply.
pub open spec fn spec_walk_part(s: Seq<u8>, i: int, fuel: nat) -> Option<(Seq<u8>, int)>
    decreases fuel,
{
    if fuel == 0 {
        None
    } else {
        let j = spec_skip_ws(s, i);
        if j < s.len() && s[j] == ('"' as u8) {
            match spec_lex_string(s, j + 1) {
                Some((key, e)) => {
                    let c = spec_skip_ws(s, e);
                    if c < s.len() && s[c] == (':' as u8) {
                        if key == spec_key_text() {
                            let v = spec_skip_ws(s, c + 1);
                            if v < s.len() && s[v] == ('"' as u8) {
                                match spec_lex_string(s, v + 1) {
                                    Some((t, ve)) => {
                                        match spec_members_rest(s, ve, (fuel - 1) as nat) {
                                            Some(end) => Some((t, end)),
                                            None => None,
                                        }
                                    },
                                    None => None,
                                }
                            } else {
                                None
                            }
                        } else {
                            match spec_skip_value(s, c + 1, (fuel - 1) as nat) {
                                Some(ve) => {
                                    let m = spec_skip_ws(s, ve);
                                    if m < s.len() && s[m] == (',' as u8) {
                                        spec_walk_part(s, m + 1, (fuel - 1) as nat)
                                    } else {
                                        None
                                    }
                                },
                                None => None,
                            }
                        }
                    } else {
                        None
                    }
                },
                None => None,
            }
        } else {
            None
        }
    }
}

/// The fuel that bounds the walk's recursion: two units for every
/// input byte and a little more, generous because every recursive step
/// follows at least one consumed byte.
pub open spec fn spec_fuel(s: Seq<u8>) -> nat {
    (2 * s.len() + 8) as nat
}

/// The reply text carried by a response body: the first candidate's
/// first part's text field, provided the whole body is one well-formed
/// JSON object shaped as the response envelope, with nothing but
/// whitespace after it.
pub open spec fn spec_reply(s: Seq<u8>) -> Option<Seq<u8>> {
    let j = spec_skip_ws(s, 0);
    if j < s.len() && s[j] == ('{' as u8) {
        match spec_walk_candidates(s, j + 1, spec_fuel(s)) {
            Some((t, end)) => {
                if spec_skip_ws(s, end) == s.len() {
                    Some(t)
                } else {
                    None
                }
            },
            None => None,
        }
    } else {
        None
    }
}

fn walk_candidates(s: &[u8], i: usize, fuel: usize) -> (r: Option<(Vec<u8>, usize)>)
    requires
        i <= s@.len(),
    ensures
        walk_matches(r, spec_walk_candidates(s@, i as int, fuel as nat)),
        r matches Some((t, e)) ==> e <= s@.len(),
    decreases fuel,
{
    if fuel == 0 {
        return None;
    }
    let j = skip_ws(s, i);
    if j < s.len() && s[j] == ('"' as u8) {
        match lex_string(s, j + 1) {
            Some((key, e)) => {
                let c = skip_ws(s, e);
                if c < s.len() && s[c] == (':' as u8) {
                    let lit = key_candidates_vec();
                    if vec_eq(&key, &lit) {
                        match first_candidate(s, c + 1, fuel - 1) {
                            Some((t, ve)) => {
                                match members_rest(s, ve, fuel - 1) {
                                    Some(end) => Some((t, end)),
                                    None => None,
                                }
                            },
                            None => None,
                        }
                    } else {
                        match skip_value(s, c + 1, fuel - 1) {
                            Some(ve) => {
                                let m = skip_ws(s, ve);
                                if m < s.len() && s[m] == (',' as u8) {
                                    walk_candidates(s, m + 1, fuel - 1)
                                } else {
                                    None
                                }
                            },
                            None => None,
                        }
                    }
                } else {
                    None
                }
            },
            None => None,
        }
    } else {
        None
    }
}

fn first_candidate(s: &[u8], i: usize, fuel: usize) -> (r: Option<(Vec<u8>, usize)>)
    requires
        i <= s@.len(),
    ensures
        walk_matches(r, spec_first_candidate(s@, i as int, fuel as nat)),
        r matches Some((t, e)) ==> e <= s@.len(),
    decreases fuel,
{
    if fuel == 0 {
        return None;
    }
    let j = skip_ws(s, i);
    if j < s.len() && s[j] == ('[' as u8) {
        let k = skip_ws(s, j + 1);
        if k < s.len() && s[k] == ('{' as u8) {
            match walk_candidate(s, k + 1, fuel - 1) {
                Some((t, ce)) => {
                    let m = skip_ws(s, ce);
                    if m < s.len() && s[m] == (',' as u8) {
                        match skip_elems(s, m + 1, fuel - 1) {
                            Some(end) => Some((t, end)),
                            None => None,
                        }
                    } else if m < s.len() && s[m] == (']' as u8) {
                        Some((t, m + 1))
                    } else {
                        None
                    }
                },
                None => None,
            }
        } else {
            None
        }
    } else {
        None
    }
}

fn walk_candidate(s: &[u8], i: usize, fuel: usize) -> (r: Option<(Vec<u8>, usize)>)
    requires
        i <= s@.len(),
    ensures
        walk_matches(r, spec_walk_candidate(s@, i as int, fuel as nat)),
        r matches Some((t, e)) ==> e <= s@.len(),
    decreases fuel,
{
    if fuel == 0 {
        return None;
    }
    let j = skip_ws(s, i);
    if j < s.len() && s[j] == ('"' as u8) {
        match lex_string(s, j + 1) {
            Some((key, e)) => {
                let c = skip_ws(s, e);
                if c < s.len() && s[c] == (':' as u8) {
                    let lit = key_content_vec();
                    if vec_eq(&key, &lit) {
                        match obj_content(s, c + 1, fuel - 1) {
                            Some((t, ve)) => {
                                match members_rest(s, ve, fuel - 1) {
                                    Some(end) => Some((t, end)),
                                    None => None,
                                }
                            },
                            None => None,
                        }
                    } else {
                        match skip_value(s, c + 1, fuel - 1) {
                            Some(ve) => {
                                let m = skip_ws(s, ve);
                                if m < s.len() && s[m] == (',' as u8) {
                                    walk_candidate(s, m + 1, fuel - 1)
                                } else {
                                    None
                                }
                            },
                            None => None,
                        }
                    }
                } else {
                    None
                }
            },
            None => None,
        }
    } else {
        None
    }
}

fn obj_content(s: &[u8], i: usize, fuel: usize) -> (r: Option<(Vec<u8>, usize)>)
    requires
        i <= s@.len(),
    ensures
        walk_matches(r, spec_obj_content(s@, i as int, fuel as nat)),
        r matches Some((t, e)) ==> e <= s@.len(),
    decreases fuel,
{
    if fuel == 0 {
        return None;
    }
    let j = skip_ws(s, i);
    if j < s.len() && s[j] == ('{' as u8) {
        walk_content(s, j + 1, fuel - 1)
    } else {
        None
    }
}

fn walk_content(s: &[u8], i: usize, fuel: usize) -> (r: Option<(Vec<u8>, usize)>)
    requires
        i <= s@.len(),
    ensures
        walk_matches(r, spec_walk_content(s@, i as int, fuel as nat)),
        r matches Some((t, e)) ==> e <= s@.len(),
    decreases fuel,
{
    if fuel == 0 {
        return None;
    }
    let j = skip_ws(s, i);
    if j < s.len() && s[j] == ('"' as u8) {
        match lex_string(s, j + 1) {
            Some((key, e)) => {
                let c = skip_ws(s, e);
                if c < s.len() && s[c] == (':' as u8) {
                    let lit = key_parts_vec();
                    if vec_eq(&key, &lit) {
                        match first_part(s, c + 1, fuel - 1) {
                            Some((t, ve)) => {
                                match members_rest(s, ve, fuel - 1) {
                                    Some(end) => Some((t, end)),
                                    None => None,
                                }
                            },
                            None => None,
                        }
                    } else {
                        match skip_value(s, c + 1, fuel - 1) {
                            Some(ve) => {
                                let m = skip_ws(s, ve);
                                if m < s.len() && s[m] == (',' as u8) {
                                    walk_content(s, m + 1, fuel - 1)
                                } else {
                                    None
                                }
                            },
                            None => None,
                        }
                    }
                } else {
                    None
                }
            },
            None => None,
        }
    } else {
        None
    }
}

fn first_part(s: &[u8], i: usize, fuel: usize) -> (r: Option<(Vec<u8>, usize)>)
    requires
        i <= s@.len(),
    ensures
        walk_matches(r, spec_first_part(s@, i as int, fuel as nat)),
        r matches Some((t, e)) ==> e <= s@.len(),
    decreases fuel,
{
    if fuel == 0 {
        return None;
    }
    let j = skip_ws(s, i);
    if j < s.len() && s[j] == ('[' as u8) {
        let k = skip_ws(s, j + 1);
        if k < s.len() && s[k] == ('{' as u8) {
            match walk_part(s, k + 1, fuel - 1) {
                Some((t, ce)) => {
                    let m = skip_ws(s, ce);
                    if m < s.len() && s[m] == (',' as u8) {
                        match skip_elems(s, m + 1, fuel - 1) {
                            Some(end) => Some((t, end)),
                            None => None,
                        }
                    } else if m < s.len() && s[m] == (']' as u8) {
                        Some((t, m + 1))
                    } else {
                        None
                    }
                },
                None => None,
            }
        } else {
            None
        }
    } else {
        None
    }
}

fn walk_part(s: &[u8], i: usize, fuel: usize) -> (r: Option<(Vec<u8>, usize)>)
    requires
        i <= s@.len(),
    ensures
        walk_matches(r, spec_walk_part(s@, i as int, fuel as nat)),
        r matches Some((t, e)) ==> e <= s@.len(),
    decreases fuel,
{
    if fuel == 0 {
        return None;
    }
    let j = skip_ws(s, i);
    if j < s.len() && s[j] == ('"' as u8) {
        match lex_string(s, j + 1) {
            Some((key, e)) => {
                let c = skip_ws(s, e);
                if c < s.len() && s[c] == (':' as u8) {
                    let lit = key_text_vec();
                    if vec_eq(&key, &lit) {
                        let v = skip_ws(s, c + 1);
                        if v < s.len() && s[v] == ('"' as u8) {
                            match lex_string(s, v + 1) {
                                Some((t, ve)) => {
                                    match members_rest(s, ve, fuel - 1) {
                                        Some(end) => Some((t, end)),
                                        None => None,
                                    }
                                },
                                None => None,
                            }
                        } else {
                            None
                        }
                    } else {
                        match skip_value(s, c + 1, fuel - 1) {
                            Some(ve) => {
                                let m = skip_ws(s, ve);
                                if m < s.len() && s[m] == (',' as u8) {
                                    walk_part(s, m + 1, fuel - 1)
                                } else {
                                    None
                                }
                            },
                            None => None,
                        }
                    }
                } else {
                    None
                }
            },
            None => None,
        }
    } else {
        None
    }
}

/// Extracts the reply text from a response body: the first candidate's
/// first part's text, provided the body deserializes as the response
/// envelope.  Returns `None` exactly where the body is not valid JSON
/// of the expected shape.
pub fn parse_reply(s: &[u8]) -> (r: Option<Vec<u8>>)
    requires
        2 * s@.len() + 8 <= usize::MAX,
    ensures
        match r {
            Some(t) => spec_reply(s@) == Some(t@),
            None => spec_reply(s@) == None::<Seq<u8>>,
        },
{
    let fuel: usize = 2 * s.len() + 8;
    let j = skip_ws(s, 0);
    if j < s.len() && s[j] == ('{' as u8) {
        match walk_candidates(s, j + 1, fuel) {
            Some((t, end)) => {
                if skip_ws(s, end) == s.len() {
                    Some(t)
                } else {
                    None
                }
            },
            None => None,
        }
    } else {
        None
    }
}

} // verus!
