//! The request envelope: one content object with role `"user"` holding
//! one part with the trimmed input line.  Encoding produces the fixed
//! JSON template with the escaped line substituted for the text field;
//! decoding recovers the line from exactly that template.

use vstd::prelude::*;
use crate::json::{
    spec_escape, spec_lex_string, escape_push, lex_string, lemma_lex_escaped, spec_is_ws, is_ws,
    spec_match_at, bytes_match_at,
};

verus! {

/// The bytes of the template before the text field's content:
/// `{"contents":[{"parts":[{"text":"`.
pub open spec fn spec_req_prefix() -> Seq<u8> {
    seq![
        ('{' as u8),
        ('"' as u8),
        ('c' as u8),
        ('o' as u8),
        ('n' as u8),
        ('t' as u8),
        ('e' as u8),
        ('n' as u8),
        ('t' as u8),
        ('s' as u8),
        ('"' as u8),
        (':' as u8),
        ('[' as u8),
        ('{' as u8),
        ('"' as u8),
        ('p' as u8),
        ('a' as u8),
        ('r' as u8),
        ('t' as u8),
        ('s' as u8),
        ('"' as u8),
        (':' as u8),
        ('[' as u8),
        ('{' as u8),
        ('"' as u8),
        ('t' as u8),
        ('e' as u8),
        ('x' as u8),
        ('t' as u8),
        ('"' as u8),
        (':' as u8),
        ('"' as u8),
    ]
}

/// The bytes of the template after the text field's closing quote:
/// `}],"role":"user"}]}`.
pub open spec fn spec_req_tail() -> Seq<u8> {
    seq![
        ('}' as u8),
        (']' as u8),
        (',' as u8),
        ('"' as u8),
        ('r' as u8),
        ('o' as u8),
        ('l' as u8),
        ('e' as u8),
        ('"' as u8),
        (':' as u8),
        ('"' as u8),
        ('u' as u8),
        ('s' as u8),
        ('e' as u8),
        ('r' as u8),
        ('"' as u8),
        ('}' as u8),
        (']' as u8),
        ('}' as u8),
    ]
}

/// The serialized request body for a given text: the fixed template
/// with the escaped text substituted for the text field.
pub open spec fn spec_request_json(text: Seq<u8>) -> Seq<u8> {
    spec_req_prefix() + spec_escape(text) + seq![('"' as u8)] + spec_req_tail()
}

fn push_req_prefix(out: &mut Vec<u8>)
    ensures
        final(out)@ == old(out)@ + spec_req_prefix(),
{
    out.push('{' as u8);
    out.push('"' as u8);
    out.push('c' as u8);
    out.push('o' as u8);
    out.push('n' as u8);
    out.push('t' as u8);
    out.push('e' as u8);
    out.push('n' as u8);
    out.push('t' as u8);
    out.push('s' as u8);
    out.push('"' as u8);
    out.push(':' as u8);
    out.push('[' as u8);
    out.push('{' as u8);
    out.push('"' as u8);
    out.push('p' as u8);
    out.push('a' as u8);
    out.push('r' as u8);
    out.push('t' as u8);
    out.push('s' as u8);
    out.push('"' as u8);
    out.push(':' as u8);
    out.push('[' as u8);
    out.push('{' as u8);
    out.push('"' as u8);
    out.push('t' as u8);
    out.push('e' as u8);
    out.push('x' as u8);
    out.push('t' as u8);
    out.push('"' as u8);
    out.push(':' as u8);
    out.push('"' as u8);
    proof {
        assert(out@ =~= old(out)@ + spec_req_prefix());
    }
}

fn push_req_tail(out: &mut Vec<u8>)
    ensures
        final(out)@ == old(out)@ + spec_req_tail(),
{
    out.push('}' as u8);
    out.push(']' as u8);
    out.push(',' as u8);
    out.push('"' as u8);
    out.push('r' as u8);
    out.push('o' as u8);
    out.push('l' as u8);
    out.push('e' as u8);
    out.push('"' as u8);
    out.push(':' as u8);
    out.push('"' as u8);
    out.push('u' as u8);
    out.push('s' as u8);
    out.push('e' as u8);
    out.push('r' as u8);
    out.push('"' as u8);
    out.push('}' as u8);
    out.push(']' as u8);
    out.push('}' as u8);
    proof {
        assert(out@ =~= old(out)@ + spec_req_tail());
    }
}

/// Serializes the request envelope for the given text: the fixed JSON
/// template with the escaped text substituted verbatim.
pub fn encode_request(text: &[u8]) -> (r: Vec<u8>)
    ensures
        r@ == spec_request_json(text@),
{
    let mut out: Vec<u8> = Vec::new();
    push_req_prefix(&mut out);
    escape_push(text, &mut out);
    out.push('"' as u8);
    push_req_tail(&mut out);
    proof {
        assert(out@ =~= spec_request_json(text@));
    }
    out
}

/// Decoding a request body: where `s` is exactly the fixed template
/// around some string content, yields the decoded text field.
pub open spec fn spec_decode_request(s: Seq<u8>) -> Option<Seq<u8>> {
    if spec_match_at(s, 0, spec_req_prefix()) {
        match spec_lex_string(s, spec_req_prefix().len() as int) {
            Some((t, e)) => {
                if e + spec_req_tail().len() == s.len() && spec_match_at(s, e, spec_req_tail()) {
                    Some(t)
                } else {
                    None
                }
            },
            None => None,
        }
    } else {
        None
    }
}

fn req_prefix_vec() -> (r: Vec<u8>)
    ensures
        r@ == spec_req_prefix(),
{
    let mut out: Vec<u8> = Vec::new();
    push_req_prefix(&mut out);
    out
}

fn req_tail_vec() -> (r: Vec<u8>)
    ensures
        r@ == spec_req_tail(),
{
    let mut out: Vec<u8> = Vec::new();
    push_req_tail(&mut out);
    out
}

/// Parses a serialized request body back into the text field's content.
/// Succeeds exactly where the body is the fixed template around a
/// well-formed string content.
pub fn decode_request(s: &[u8]) -> (r: Option<Vec<u8>>)
    ensures
        match r {
            Some(t) => spec_decode_request(s@) == Some(t@),
            None => spec_decode_request(s@) == None::<Seq<u8>>,
        },
{
    let pre = req_prefix_vec();
    if !bytes_match_at(s, 0, &pre) {
        return None;
    }
    match lex_string(s, pre.len()) {
        Some((t, e)) => {
            let tail = req_tail_vec();
            if s.len() - e != tail.len() {
                return None;
            }
            if !bytes_match_at(s, e, &tail) {
                return None;
            }
            Some(t)
        },
        None => None,
    }
}

/// Encoding then decoding a request envelope yields the same text: the
/// request round trip is the identity on the text field.
pub proof fn lemma_request_round_trip(text: Seq<u8>)
    ensures
        spec_decode_request(spec_request_json(text)) == Some(text),
{
    let s = spec_request_json(text);
    let p = spec_req_prefix();
    let esc = spec_escape(text);
    let tail = spec_req_tail();
    assert forall|k: int| 0 <= k < p.len() implies s[k] == p[k] by {
        assert(s[k] == (p + esc + seq![('"' as u8)] + tail)[k]);
    }
    assert(spec_match_at(s, 0, p));
    let pl = p.len() as int;
    let el = esc.len() as int;
    assert forall|k: int| 0 <= k < el implies s[pl + k] == esc[k] by {
        assert(s[pl + k] == (p + esc + seq![('"' as u8)] + tail)[pl + k]);
    }
    assert(s[pl + el] == ('"' as u8)) by {
        assert(s[pl + el] == (p + esc + seq![('"' as u8)] + tail)[pl + el]);
    }
    lemma_lex_escaped(s, pl, text);
    let e = pl + el + 1;
    assert(spec_lex_string(s, pl) == Some((text, e)));
    assert(e + tail.len() == s.len());
    assert forall|k: int| 0 <= k < tail.len() implies s[e + k] == tail[k] by {
        assert(s[e + k] == (p + esc + seq![('"' as u8)] + tail)[e + k]);
    }
    assert(spec_match_at(s, e, tail));
}

/// Whitespace as the input trim removes it: space, tab, line feed,
/// carriage return.
pub open spec fn spec_trim_start(s: Seq<u8>) -> Seq<u8>
    decreases s.len(),
{
    if s.len() > 0 && spec_is_ws(s[0]) {
        spec_trim_start(s.skip(1))
    } else {
        s
    }
}

/// The sequence with trailing whitespace removed.
pub open spec fn spec_trim_end(s: Seq<u8>) -> Seq<u8>
    decreases s.len(),
{
    if s.len() > 0 && spec_is_ws(s[s.len() - 1]) {
        spec_trim_end(s.take(s.len() - 1))
    } else {
        s
    }
}

/// The sequence with leading and trailing whitespace removed.
pub open spec fn spec_trim(s: Seq<u8>) -> Seq<u8> {
    spec_trim_end(spec_trim_start(s))
}

/// Removes leading and trailing ASCII whitespace from the input line.
pub fn trim_bytes(s: &[u8]) -> (r: Vec<u8>)
    ensures
        r@ == spec_trim(s@),
{
    let mut lo: usize = 0;
    proof {
        assert(s@.skip(0) =~= s@);
    }
    while lo < s.len() && is_ws(s[lo])
        invariant
            lo <= s@.len(),
            spec_trim_start(s@) == spec_trim_start(s@.skip(lo as int)),
        decreases s@.len() - lo,
    {
        proof {
            assert(s@.skip(lo as int)[0] == s@[lo as int]);
            assert(s@.skip(lo as int).skip(1) =~= s@.skip(lo + 1));
        }
        lo = lo + 1;
    }
    proof {
        if lo < s@.len() {
            assert(spec_trim_start(s@.skip(lo as int)) == s@.skip(lo as int));
        } else {
            assert(s@.skip(lo as int) =~= Seq::<u8>::empty());
        }
        assert(spec_trim_start(s@) == s@.skip(lo as int));
        assert(s@.subrange(lo as int, s@.len() as int) =~= s@.skip(lo as int));
    }
    let mut hi: usize = s.len();
    while hi > lo && is_ws(s[hi - 1])
        invariant
            lo <= hi <= s@.len(),
            spec_trim_end(s@.skip(lo as int)) == spec_trim_end(
                s@.subrange(lo as int, hi as int),
            ),
        decreases hi,
    {
        proof {
            let sub = s@.subrange(lo as int, hi as int);
            assert(sub[sub.len() - 1] == s@[hi - 1]);
            assert(sub.take(sub.len() - 1) =~= s@.subrange(lo as int, hi - 1));
        }
        hi = hi - 1;
    }
    proof {
        let sub = s@.subrange(lo as int, hi as int);
        if hi > lo {
            assert(spec_trim_end(sub) == sub);
        } else {
            assert(sub =~= Seq::<u8>::empty());
        }
        assert(spec_trim(s@) == s@.subrange(lo as int, hi as int));
    }
    let mut out: Vec<u8> = Vec::new();
    proof {
        assert(Seq::<u8>::empty() =~= s@.subrange(lo as int, lo as int));
    }
    let mut k: usize = lo;
    while k < hi
        invariant
            lo <= k <= hi <= s@.len(),
            out@ == s@.subrange(lo as int, k as int),
        decreases hi - k,
    {
        out.push(s[k]);
        proof {
            assert(out@ =~= s@.subrange(lo as int, k + 1));
        }
        k = k + 1;
    }
    proof {
        assert(out@ == s@.subrange(lo as int, hi as int));
    }
    out
}

/// Builds the serialized request body for one input line: the line is
/// trimmed of surrounding whitespace and substituted, escaped, into the
/// fixed JSON template.
pub fn build_request(line: &[u8]) -> (r: Vec<u8>)
    ensures
        r@ == spec_request_json(spec_trim(line@)),
{
    let t = trim_bytes(line);
    encode_request(t.as_slice())
}

} // verus!
