//! The JSON text format used by the chat protocol, stated over byte
//! sequences: string escaping as the encoder emits it, and lexing of
//! strings, numbers and whitespace as the decoder reads them.
//!
//! The grammar is the subset of JSON the remote service exchanges with
//! this client: object, array, string, integer number, `true`, `false`,
//! `null`.  String escapes are the two-character short forms plus
//! `\u00xx` for ASCII control bytes; string contents are raw bytes, so
//! UTF-8 text passes through unchanged.

use vstd::prelude::*;

verus! {

/// JSON insignificant whitespace: space, tab, line feed, carriage
/// return.
pub open spec fn spec_is_ws(b: u8) -> bool {
    b == 32 || b == 9 || b == 10 || b == 13
}

/// Whether `b` is JSON whitespace.
pub fn is_ws(b: u8) -> (r: bool)
    ensures
        r == spec_is_ws(b),
{
    b == 32 || b == 9 || b == 10 || b == 13
}

/// The lowercase hex digit for a value below 16.
pub open spec fn spec_hex_digit(n: u8) -> u8 {
    if n < 10 {
        (n + 48) as u8
    } else {
        (n + 87) as u8
    }
}

/// Whether `c` is an ASCII hex digit.
pub open spec fn spec_is_hex(c: u8) -> bool {
    (48 <= c <= 57) || (97 <= c <= 102) || (65 <= c <= 70)
}

/// The value of an ASCII hex digit.
pub open spec fn spec_hex_val(c: u8) -> u8 {
    if 48 <= c <= 57 {
        (c - 48) as u8
    } else if 97 <= c {
        (c - 87) as u8
    } else {
        (c - 55) as u8
    }
}

proof fn lemma_hex_digit_val(n: u8)
    requires
        n < 16,
    ensures
        spec_is_hex(spec_hex_digit(n)),
        spec_hex_val(spec_hex_digit(n)) == n,
{
}

/// How one byte of string content is written inside a JSON string
/// literal: quote, backslash and the common control bytes get their
/// two-character escapes, other control bytes get `\u00xx`, and every
/// remaining byte stands for itself.
pub open spec fn spec_escape_byte(b: u8) -> Seq<u8> {
    if b == ('"' as u8) {
        seq![('\\' as u8), ('"' as u8)]
    } else if b == ('\\' as u8) {
        seq![('\\' as u8), ('\\' as u8)]
    } else if b == 8 {
        seq![('\\' as u8), ('b' as u8)]
    } else if b == 9 {
        seq![('\\' as u8), ('t' as u8)]
    } else if b == 10 {
        seq![('\\' as u8), ('n' as u8)]
    } else if b == 12 {
        seq![('\\' as u8), ('f' as u8)]
    } else if b == 13 {
        seq![('\\' as u8), ('r' as u8)]
    } else if b < 32 {
        seq![
            ('\\' as u8),
            ('u' as u8),
            ('0' as u8),
            ('0' as u8),
            spec_hex_digit(b / 16),
            spec_hex_digit(b % 16),
        ]
    } else {
        seq![b]
    }
}

/// The escaped form of a whole string content.
pub open spec fn spec_escape(s: Seq<u8>) -> Seq<u8>
    decreases s.len(),
{
    if s.len() == 0 {
        Seq::empty()
    } else {
        spec_escape_byte(s[0]) + spec_escape(s.skip(1))
    }
}

/// Appends the escaped form of `s` to `out`.
pub fn escape_push(s: &[u8], out: &mut Vec<u8>)
    ensures
        final(out)@ == old(out)@ + spec_escape(s@),
{
    let mut i: usize = 0;
    proof {
        assert(s@.skip(0) =~= s@);
        assert(out@ + spec_escape(s@) == old(out)@ + spec_escape(s@));
    }
    while i < s.len()
        invariant
            i <= s.len(),
            old(out)@ + spec_escape(s@) == out@ + spec_escape(s@.skip(i as int)),
        decreases s.len() - i,
    {
        let ghost out0 = out@;
        let ghost rest = s@.skip(i as int);
        let b = s[i];
        if b == ('"' as u8) {
            out.push('\\' as u8);
            out.push('"' as u8);
        } else if b == ('\\' as u8) {
            out.push('\\' as u8);
            out.push('\\' as u8);
        } else if b == 8 {
            out.push('\\' as u8);
            out.push('b' as u8);
        } else if b == 9 {
            out.push('\\' as u8);
            out.push('t' as u8);
        } else if b == 10 {
            out.push('\\' as u8);
            out.push('n' as u8);
        } else if b == 12 {
            out.push('\\' as u8);
            out.push('f' as u8);
        } else if b == 13 {
            out.push('\\' as u8);
            out.push('r' as u8);
        } else if b < 32 {
            out.push('\\' as u8);
            out.push('u' as u8);
            out.push('0' as u8);
            out.push('0' as u8);
            out.push(hex_digit(b / 16));
            out.push(hex_digit(b % 16));
        } else {
            out.push(b);
        }
        proof {
            assert(rest[0] == s@[i as int]);
            assert(out@ =~= out0 + spec_escape_byte(b));
            assert(rest.skip(1) =~= s@.skip(i + 1));
            assert(spec_escape(rest) == spec_escape_byte(b) + spec_escape(s@.skip(i + 1)));
            assert(out0 + (spec_escape_byte(b) + spec_escape(s@.skip(i + 1))) =~= (out0
                + spec_escape_byte(b)) + spec_escape(s@.skip(i + 1)));
        }
        i = i + 1;
    }
    proof {
        assert(s@.skip(s@.len() as int) =~= Seq::<u8>::empty());
        assert(out@ + Seq::<u8>::empty() =~= out@);
    }
}

/// The lowercase hex digit for a value below 16.
pub fn hex_digit(n: u8) -> (r: u8)
    requires
        n < 16,
    ensures
        r == spec_hex_digit(n),
{
    if n < 10 {
        n + 48
    } else {
        n + 87
    }
}

/// Prefixes a decoded byte to the result of lexing the rest of a string.
pub open spec fn spec_prepend(b: u8, r: Option<(Seq<u8>, int)>) -> Option<(Seq<u8>, int)> {
    match r {
        Some((t, e)) => Some((seq![b] + t, e)),
        None => None,
    }
}

/// Lexes the contents of a JSON string from position `i` (just after the
/// opening quote) to the closing quote.  Yields the decoded content and
/// the position after the closing quote, or `None` where the input is
/// not a well-formed string remainder.
pub open spec fn spec_lex_string(s: Seq<u8>, i: int) -> Option<(Seq<u8>, int)>
    decreases s.len() - i,
{
    if i < 0 || i >= s.len() {
        None
    } else if s[i] == ('"' as u8) {
        Some((Seq::empty(), i + 1))
    } else if s[i] == ('\\' as u8) {
        if i + 2 > s.len() {
            None
        } else {
            let c = s[i + 1];
            if c == ('"' as u8) || c == ('\\' as u8) || c == ('/' as u8) {
                spec_prepend(c, spec_lex_string(s, i + 2))
            } else if c == ('b' as u8) {
                spec_prepend(8, spec_lex_string(s, i + 2))
            } else if c == ('t' as u8) {
                spec_prepend(9, spec_lex_string(s, i + 2))
            } else if c == ('n' as u8) {
                spec_prepend(10, spec_lex_string(s, i + 2))
            } else if c == ('f' as u8) {
                spec_prepend(12, spec_lex_string(s, i + 2))
            } else if c == ('r' as u8) {
                spec_prepend(13, spec_lex_string(s, i + 2))
            } else if c == ('u' as u8) {
                if i + 6 <= s.len() && s[i + 2] == ('0' as u8) && s[i + 3] == ('0' as u8)
                    && spec_is_hex(s[i + 4]) && spec_is_hex(s[i + 5]) && 16 * spec_hex_val(
                    s[i + 4],
                ) + spec_hex_val(s[i + 5]) < 128 {
                    spec_prepend(
                        (16 * spec_hex_val(s[i + 4]) + spec_hex_val(s[i + 5])) as u8,
                        spec_lex_string(s, i + 6),
                    )
                } else {
                    None
                }
            } else {
                None
            }
        }
    } else if s[i] < 32 {
        None
    } else {
        spec_prepend(s[i], spec_lex_string(s, i + 1))
    }
}

/// Whether the executable result of string lexing agrees with the
/// specification's.
pub open spec fn lex_matches(r: Option<(Vec<u8>, usize)>, m: Option<(Seq<u8>, int)>) -> bool {
    match r {
        Some((t, e)) => m == Some((t@, e as int)),
        None => m == None::<(Seq<u8>, int)>,
    }
}

/// Whether `c` is an ASCII hex digit.
pub fn is_hex(c: u8) -> (r: bool)
    ensures
        r == spec_is_hex(c),
{
    (48 <= c && c <= 57) || (97 <= c && c <= 102) || (65 <= c && c <= 70)
}

/// The value of an ASCII hex digit.
pub fn hex_val(c: u8) -> (r: u8)
    requires
        spec_is_hex(c),
    ensures
        r == spec_hex_val(c),
        r < 16,
{
    if 48 <= c && c <= 57 {
        c - 48
    } else if 97 <= c {
        c - 87
    } else {
        c - 55
    }
}

/// Lexes the contents of a JSON string from position `i`, just after the
/// opening quote, mirroring [`spec_lex_string`].
pub fn lex_string(s: &[u8], i: usize) -> (r: Option<(Vec<u8>, usize)>)
    ensures
        lex_matches(r, spec_lex_string(s@, i as int)),
        r matches Some((t, e)) ==> i <= e <= s.len(),
{
    let mut out: Vec<u8> = Vec::new();
    let mut j: usize = i;
    while j < s.len()
        invariant
            i <= j,
            spec_lex_string(s@, i as int) == spec_acc(out@, spec_lex_string(s@, j as int)),
        decreases s.len() - j,
    {
        let b = s[j];
        if b == ('"' as u8) {
            proof {
                assert(out@ + Seq::<u8>::empty() =~= out@);
            }
            return Some((out, j + 1));
        } else if b == ('\\' as u8) {
            if s.len() - j < 2 {
                return None;
            }
            let c = s[j + 1];
            let d: u8;
            let adv: usize;
            if c == ('"' as u8) || c == ('\\' as u8) || c == ('/' as u8) {
                d = c;
                adv = 2;
            } else if c == ('b' as u8) {
                d = 8;
                adv = 2;
            } else if c == ('t' as u8) {
                d = 9;
                adv = 2;
            } else if c == ('n' as u8) {
                d = 10;
                adv = 2;
            } else if c == ('f' as u8) {
                d = 12;
                adv = 2;
            } else if c == ('r' as u8) {
                d = 13;
                adv = 2;
            } else if c == ('u' as u8) {
                if s.len() - j < 6 {
                    return None;
                }
                if !(s[j + 2] == ('0' as u8) && s[j + 3] == ('0' as u8) && is_hex(s[j + 4])
                    && is_hex(s[j + 5])) {
                    return None;
                }
                let v = 16 * hex_val(s[j + 4]) + hex_val(s[j + 5]);
                if v >= 128 {
                    return None;
                }
                d = v;
                adv = 6;
            } else {
                return None;
            }
            out.push(d);
            proof {
                lemma_acc_push(out@.drop_last(), d, spec_lex_string(s@, j + adv));
            }
            j = j + adv;
        } else if b < 32 {
            return None;
        } else {
            out.push(b);
            proof {
                lemma_acc_push(out@.drop_last(), b, spec_lex_string(s@, j + 1));
            }
            j = j + 1;
        }
    }
    None
}

/// Prefixes already-decoded content to the result of lexing the rest of
/// a string.
pub open spec fn spec_acc(acc: Seq<u8>, r: Option<(Seq<u8>, int)>) -> Option<(Seq<u8>, int)> {
    match r {
        Some((t, e)) => Some((acc + t, e)),
        None => None,
    }
}

proof fn lemma_acc_push(acc: Seq<u8>, b: u8, r: Option<(Seq<u8>, int)>)
    ensures
        spec_acc(acc, spec_prepend(b, r)) == spec_acc(acc.push(b), r),
{
    match r {
        Some((t, e)) => {
            assert(acc + (seq![b] + t) =~= acc.push(b) + t);
        },
        None => {},
    }
}

/// An ASCII decimal digit.
pub open spec fn spec_is_digit(b: u8) -> bool {
    48 <= b <= 57
}

/// Whether `b` is an ASCII decimal digit.
pub fn is_digit(b: u8) -> (r: bool)
    ensures
        r == spec_is_digit(b),
{
    48 <= b && b <= 57
}

/// The first position at or after `i` holding no whitespace.
pub open spec fn spec_skip_ws(s: Seq<u8>, i: int) -> int
    decreases s.len() - i,
{
    if 0 <= i < s.len() && spec_is_ws(s[i]) {
        spec_skip_ws(s, i + 1)
    } else {
        i
    }
}

/// Advances past whitespace.
pub fn skip_ws(s: &[u8], i: usize) -> (r: usize)
    requires
        i <= s@.len(),
    ensures
        r == spec_skip_ws(s@, i as int),
        i <= r <= s@.len(),
{
    let mut j: usize = i;
    while j < s.len() && is_ws(s[j])
        invariant
            i <= j <= s@.len(),
            spec_skip_ws(s@, i as int) == spec_skip_ws(s@, j as int),
        decreases s@.len() - j,
    {
        j = j + 1;
    }
    j
}

/// The first position at or after `i` holding no decimal digit.
pub open spec fn spec_skip_digits(s: Seq<u8>, i: int) -> int
    decreases s.len() - i,
{
    if 0 <= i < s.len() && spec_is_digit(s[i]) {
        spec_skip_digits(s, i + 1)
    } else {
        i
    }
}

/// Advances past decimal digits.
pub fn skip_digits(s: &[u8], i: usize) -> (r: usize)
    requires
        i <= s@.len(),
    ensures
        r == spec_skip_digits(s@, i as int),
        i <= r <= s@.len(),
{
    let mut j: usize = i;
    while j < s.len() && is_digit(s[j])
        invariant
            i <= j <= s@.len(),
            spec_skip_digits(s@, i as int) == spec_skip_digits(s@, j as int),
        decreases s@.len() - j,
    {
        j = j + 1;
    }
    j
}

/// The end of an optional fraction part starting at `i`.
pub open spec fn spec_lex_frac(s: Seq<u8>, i: int) -> Option<int> {
    if 0 <= i < s.len() && s[i] == ('.' as u8) {
        let f = spec_skip_digits(s, i + 1);
        if f == i + 1 {
            None
        } else {
            Some(f)
        }
    } else {
        Some(i)
    }
}

/// The end of an optional exponent part starting at `i`.
pub open spec fn spec_lex_exp(s: Seq<u8>, i: int) -> Option<int> {
    if 0 <= i < s.len() && (s[i] == ('e' as u8) || s[i] == ('E' as u8)) {
        let j = if i + 1 < s.len() && (s[i + 1] == ('+' as u8) || s[i + 1] == ('-' as u8)) {
            i + 2
        } else {
            i + 1
        };
        let f = spec_skip_digits(s, j);
        if f == j {
            None
        } else {
            Some(f)
        }
    } else {
        Some(i)
    }
}

/// The end of a JSON number token starting at `i`: an optional minus,
/// digits, an optional fraction and an optional exponent.
pub open spec fn spec_lex_number(s: Seq<u8>, i: int) -> Option<int> {
    let d0 = if 0 <= i < s.len() && s[i] == ('-' as u8) {
        i + 1
    } else {
        i
    };
    let d1 = spec_skip_digits(s, d0);
    if d1 == d0 {
        None
    } else {
        match spec_lex_frac(s, d1) {
            Some(d2) => spec_lex_exp(s, d2),
            None => None,
        }
    }
}

/// Advances past one number token, mirroring [`spec_lex_number`].
pub fn lex_number(s: &[u8], i: usize) -> (r: Option<usize>)
    requires
        i <= s@.len(),
    ensures
        idx_matches(r, spec_lex_number(s@, i as int)),
        r matches Some(e) ==> i <= e <= s@.len(),
{
    let d0: usize = if i < s.len() && s[i] == ('-' as u8) {
        i + 1
    } else {
        i
    };
    let d1 = skip_digits(s, d0);
    if d1 == d0 {
        return None;
    }
    let d2: usize;
    if d1 < s.len() && s[d1] == ('.' as u8) {
        let f = skip_digits(s, d1 + 1);
        if f == d1 + 1 {
            return None;
        }
        d2 = f;
    } else {
        d2 = d1;
    }
    if d2 < s.len() && (s[d2] == ('e' as u8) || s[d2] == ('E' as u8)) {
        let j: usize = if d2 + 1 < s.len() && (s[d2 + 1] == ('+' as u8) || s[d2 + 1] == ('-' as u8)) {
            d2 + 2
        } else {
            d2 + 1
        };
        let f = skip_digits(s, j);
        if f == j {
            return None;
        }
        Some(f)
    } else {
        Some(d2)
    }
}

/// Whether an executable position result agrees with the
/// specification's.
pub open spec fn idx_matches(r: Option<usize>, m: Option<int>) -> bool {
    match r {
        Some(e) => m == Some(e as int),
        None => m == None::<int>,
    }
}

/// Whether the bytes of `p` stand in `s` at position `i`.
pub open spec fn spec_match_at(s: Seq<u8>, i: int, p: Seq<u8>) -> bool {
    &&& 0 <= i
    &&& i + p.len() <= s.len()
    &&& forall|k: int| 0 <= k < p.len() ==> s[i + k] == p[k]
}

/// Whether the bytes of `p` stand in `s` at position `i`.
pub fn bytes_match_at(s: &[u8], i: usize, p: &Vec<u8>) -> (r: bool)
    requires
        i <= s@.len(),
    ensures
        r == spec_match_at(s@, i as int, p@),
{
    let n = s.len();
    if n - i < p.len() {
        return false;
    }
    let mut k: usize = 0;
    while k < p.len()
        invariant
            0 <= k <= p@.len(),
            n == s@.len(),
            i + p@.len() <= n,
            forall|m: int| 0 <= m < k ==> s@[i + m] == p@[m],
        decreases p@.len() - k,
    {
        if s[i + k] != p[k] {
            assert(!(s@[i + k as int] == p@[k as int]));
            return false;
        }
        k = k + 1;
    }
    true
}

/// The bytes of the literal `true`.
pub open spec fn spec_lit_true() -> Seq<u8> {
    seq![('t' as u8), ('r' as u8), ('u' as u8), ('e' as u8)]
}

/// The bytes of the literal `false`.
pub open spec fn spec_lit_false() -> Seq<u8> {
    seq![('f' as u8), ('a' as u8), ('l' as u8), ('s' as u8), ('e' as u8)]
}

/// The bytes of the literal `null`.
pub open spec fn spec_lit_null() -> Seq<u8> {
    seq![('n' as u8), ('u' as u8), ('l' as u8), ('l' as u8)]
}

fn lit_true_vec() -> (r: Vec<u8>)
    ensures
        r@ == spec_lit_true(),
{
    let mut out: Vec<u8> = Vec::new();
    out.push('t' as u8);
    out.push('r' as u8);
    out.push('u' as u8);
    out.push('e' as u8);
    proof {
        assert(out@ =~= spec_lit_true());
    }
    out
}

fn lit_false_vec() -> (r: Vec<u8>)
    ensures
        r@ == spec_lit_false(),
{
    let mut out: Vec<u8> = Vec::new();
    out.push('f' as u8);
    out.push('a' as u8);
    out.push('l' as u8);
    out.push('s' as u8);
    out.push('e' as u8);
    proof {
        assert(out@ =~= spec_lit_false());
    }
    out
}

fn lit_null_vec() -> (r: Vec<u8>)
    ensures
        r@ == spec_lit_null(),
{
    let mut out: Vec<u8> = Vec::new();
    out.push('n' as u8);
    out.push('u' as u8);
    out.push('l' as u8);
    out.push('l' as u8);
    proof {
        assert(out@ =~= spec_lit_null());
    }
    out
}

/// The position just past one JSON value starting (after whitespace) at
/// `i`, or `None` where no well-formed value stands there.  The fuel
/// bounds the recursion; every recursive step follows at least one
/// consumed byte, so a fuel generous in the input's length, as
/// [`crate::response::spec_fuel`] is, does not run out on it.
pub open spec fn spec_skip_value(s: Seq<u8>, i: int, fuel: nat) -> Option<int>
    decreases fuel,
{
    if fuel == 0 {
        None
    } else {
        let j = spec_skip_ws(s, i);
        if !(0 <= j < s.len()) {
            None
        } else if s[j] == ('"' as u8) {
            match spec_lex_string(s, j + 1) {
                Some((t, e)) => Some(e),
                None => None,
            }
        } else if s[j] == ('{' as u8) {
            let k = spec_skip_ws(s, j + 1);
            if k < s.len() && s[k] == ('}' as u8) {
                Some(k + 1)
            } else {
                spec_skip_members(s, j + 1, (fuel - 1) as nat)
            }
        } else if s[j] == ('[' as u8) {
            let k = spec_skip_ws(s, j + 1);
            if k < s.len() && s[k] == (']' as u8) {
                Some(k + 1)
            } else {
                spec_skip_elems(s, j + 1, (fuel - 1) as nat)
            }
        } else if s[j] == ('t' as u8) {
            if spec_match_at(s, j, spec_lit_true()) {
                Some(j + 4)
            } else {
                None
            }
        } else if s[j] == ('f' as u8) {
            if spec_match_at(s, j, spec_lit_false()) {
                Some(j + 5)
            } else {
                None
            }
        } else if s[j] == ('n' as u8) {
            if spec_match_at(s, j, spec_lit_null()) {
                Some(j + 4)
            } else {
                None
            }
        } else if s[j] == ('-' as u8) || spec_is_digit(s[j]) {
            spec_lex_number(s, j)
        } else {
            None
        }
    }
}

/// The position just past the rest of an array, from just after `[` or
/// a separating comma.
pub open spec fn spec_skip_elems(s: Seq<u8>, i: int, fuel: nat) -> Option<int>
    decreases fuel,
{
    if fuel == 0 {
        None
    } else {
        match spec_skip_value(s, i, (fuel - 1) as nat) {
            Some(e) => {
                let j = spec_skip_ws(s, e);
                if j < s.len() && s[j] == (',' as u8) {
                    spec_skip_elems(s, j + 1, (fuel - 1) as nat)
                } else if j < s.len() && s[j] == (']' as u8) {
                    Some(j + 1)
                } else {
                    None
                }
            },
            None => None,
        }
    }
}

/// The position just past the rest of an object, from just after `{` or
/// a separating comma.
pub open spec fn spec_skip_members(s: Seq<u8>, i: int, fuel: nat) -> Option<int>
    decreases fuel,
{
    if fuel == 0 {
        None
    } else {
        let j = spec_skip_ws(s, i);
        if j < s.len() && s[j] == ('"' as u8) {
            match spec_lex_string(s, j + 1) {
                Some((key, e)) => {
                    let c = spec_skip_ws(s, e);
                    if c < s.len() && s[c] == (':' as u8) {
                        match spec_skip_value(s, c + 1, (fuel - 1) as nat) {
                            Some(ve) => spec_members_rest(s, ve, (fuel - 1) as nat),
                            None => None,
                        }
                    } else {
                        None
                    }
                },
                None => None,
            }
        } else {
            None
        }
    }
}

/// After one member's value: either a comma and further members, or the
/// closing brace.
pub open spec fn spec_members_rest(s: Seq<u8>, i: int, fuel: nat) -> Option<int>
    decreases fuel,
{
    if fuel == 0 {
        None
    } else {
        let m = spec_skip_ws(s, i);
        if m < s.len() && s[m] == (',' as u8) {
            spec_skip_members(s, m + 1, (fuel - 1) as nat)
        } else if m < s.len() && s[m] == ('}' as u8) {
            Some(m + 1)
        } else {
            None
        }
    }
}

/// Advances past one JSON value, mirroring [`spec_skip_value`].
pub fn skip_value(s: &[u8], i: usize, fuel: usize) -> (r: Option<usize>)
    requires
        i <= s@.len(),
    ensures
        idx_matches(r, spec_skip_value(s@, i as int, fuel as nat)),
        r matches Some(e) ==> e <= s@.len(),
    decreases fuel,
{
    if fuel == 0 {
        return None;
    }
    let j = skip_ws(s, i);
    if j >= s.len() {
        return None;
    }
    let b = s[j];
    if b == ('"' as u8) {
        match lex_string(s, j + 1) {
            Some((t, e)) => Some(e),
            None => None,
        }
    } else if b == ('{' as u8) {
        let k = skip_ws(s, j + 1);
        if k < s.len() && s[k] == ('}' as u8) {
            Some(k + 1)
        } else {
            skip_members(s, j + 1, fuel - 1)
        }
    } else if b == ('[' as u8) {
        let k = skip_ws(s, j + 1);
        if k < s.len() && s[k] == (']' as u8) {
            Some(k + 1)
        } else {
            skip_elems(s, j + 1, fuel - 1)
        }
    } else if b == ('t' as u8) {
        let lit = lit_true_vec();
        if bytes_match_at(s, j, &lit) {
            Some(j + 4)
        } else {
            None
        }
    } else if b == ('f' as u8) {
        let lit = lit_false_vec();
        if bytes_match_at(s, j, &lit) {
            Some(j + 5)
        } else {
            None
        }
    } else if b == ('n' as u8) {
        let lit = lit_null_vec();
        if bytes_match_at(s, j, &lit) {
            Some(j + 4)
        } else {
            None
        }
    } else if b == ('-' as u8) || is_digit(b) {
        lex_number(s, j)
    } else {
        None
    }
}

/// Advances past the rest of an array, mirroring [`spec_skip_elems`].
pub fn skip_elems(s: &[u8], i: usize, fuel: usize) -> (r: Option<usize>)
    requires
        i <= s@.len(),
    ensures
        idx_matches(r, spec_skip_elems(s@, i as int, fuel as nat)),
        r matches Some(e) ==> e <= s@.len(),
    decreases fuel,
{
    if fuel == 0 {
        return None;
    }
    match skip_value(s, i, fuel - 1) {
        Some(e) => {
            let j = skip_ws(s, e);
            if j < s.len() && s[j] == (',' as u8) {
                skip_elems(s, j + 1, fuel - 1)
            } else if j < s.len() && s[j] == (']' as u8) {
                Some(j + 1)
            } else {
                None
            }
        },
        None => None,
    }
}

/// Advances past the rest of an object, mirroring [`spec_skip_members`].
pub fn skip_members(s: &[u8], i: usize, fuel: usize) -> (r: Option<usize>)
    requires
        i <= s@.len(),
    ensures
        idx_matches(r, spec_skip_members(s@, i as int, fuel as nat)),
        r matches Some(e) ==> e <= s@.len(),
    decreases fuel,
{
    if fuel == 0 {
        return None;
    }
    let j = skip_ws(s, i);
    if j < s.len() && s[j] == ('"' as u8) {
        match lex_string(s, j + 1) {
            Some((key, e)) => {
                let c = skip_ws(s, e);
                if c < s.len() && s[c] == (':' as u8) {
                    match skip_value(s, c + 1, fuel - 1) {
                        Some(ve) => members_rest(s, ve, fuel - 1),
                        None => None,
                    }
                } else {
                    None
                }
            },
            None => None,
        }
    } else {
        None
    }
}

/// Advances past a member separator or the closing brace, mirroring
/// [`spec_members_rest`].
pub fn members_rest(s: &[u8], i: usize, fuel: usize) -> (r: Option<usize>)
    requires
        i <= s@.len(),
    ensures
        idx_matches(r, spec_members_rest(s@, i as int, fuel as nat)),
        r matches Some(e) ==> e <= s@.len(),
    decreases fuel,
{
    if fuel == 0 {
        return None;
    }
    let m = skip_ws(s, i);
    if m < s.len() && s[m] == (',' as u8) {
        skip_members(s, m + 1, fuel - 1)
    } else if m < s.len() && s[m] == ('}' as u8) {
        Some(m + 1)
    } else {
        None
    }
}

/// Lexing inverts escaping: where the escaped form of `t`, followed by a
/// closing quote, stands in `s` at position `i`, the string lexer
/// recovers exactly `t` and stops just past that quote.
pub proof fn lemma_lex_escaped(s: Seq<u8>, i: int, t: Seq<u8>)
    requires
        0 <= i,
        i + spec_escape(t).len() + 1 <= s.len(),
        forall|k: int| 0 <= k < spec_escape(t).len() ==> s[i + k] == spec_escape(t)[k],
        s[i + spec_escape(t).len()] == ('"' as u8),
    ensures
        spec_lex_string(s, i) == Some((t, i + spec_escape(t).len() + 1)),
    decreases t.len(),
{
    if t.len() == 0 {
        assert(t =~= Seq::<u8>::empty());
    } else {
        let b = t[0];
        let eb = spec_escape_byte(b);
        let rest = spec_escape(t.skip(1));
        assert(spec_escape(t) == eb + rest);
        let e2 = i + eb.len();
        assert forall|k: int| 0 <= k < rest.len() implies s[e2 + k] == rest[k] by {
            assert(s[i + (eb.len() + k)] == spec_escape(t)[eb.len() + k]);
            assert((eb + rest)[eb.len() + k] == rest[k]);
        }
        assert(s[e2 + rest.len()] == ('"' as u8));
        lemma_lex_escaped(s, e2, t.skip(1));
        let end = i + spec_escape(t).len() + 1;
        assert(spec_lex_string(s, e2) == Some((t.skip(1), end)));
        assert(s[i + 0] == (eb + rest)[0]);
        assert(s[i] == eb[0]);
        assert(seq![b] + t.skip(1) =~= t);
        if b == ('"' as u8) || b == ('\\' as u8) {
            assert(s[i + 1] == (eb + rest)[1]);
            assert(spec_lex_string(s, i) == spec_prepend(b, spec_lex_string(s, i + 2)));
        } else if b == 8 || b == 9 || b == 10 || b == 12 || b == 13 {
            assert(s[i + 1] == (eb + rest)[1]);
            assert(spec_lex_string(s, i) == spec_prepend(b, spec_lex_string(s, i + 2)));
        } else if b < 32 {
            assert(s[i + 1] == (eb + rest)[1]);
            assert(s[i + 2] == (eb + rest)[2]);
            assert(s[i + 3] == (eb + rest)[3]);
            assert(s[i + 4] == (eb + rest)[4]);
            assert(s[i + 5] == (eb + rest)[5]);
            assert(s[i + 4] == spec_hex_digit(b / 16));
            assert(s[i + 5] == spec_hex_digit(b % 16));
            lemma_hex_digit_val(b / 16);
            lemma_hex_digit_val(b % 16);
            assert(16 * spec_hex_val(s[i + 4]) + spec_hex_val(s[i + 5]) == 16 * (b / 16) + (b
                % 16));
            assert(16 * (b / 16) + (b % 16) == b) by (nonlinear_arith)
                requires
                    b < 32,
            ;
            assert(spec_lex_string(s, i) == spec_prepend(b, spec_lex_string(s, i + 6)));
        } else {
            assert(spec_lex_string(s, i) == spec_prepend(b, spec_lex_string(s, i + 1)));
        }
    }
}

} // verus!
