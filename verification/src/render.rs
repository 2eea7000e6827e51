//! Preparing reply text for terminal display: every literal triple-backtick
//! sequence is replaced by a triple-single-quote sequence, so that code
//! fences in the reply do not break markdown rendering in the terminal.

use vstd::prelude::*;

verus! {

/// The replacement, stated over byte sequences: scanning left to right,
/// each non-overlapping occurrence of ``` (three backticks) becomes '''
/// (three single quotes); every other byte is kept as it is.
pub open spec fn spec_replace_ticks(s: Seq<u8>) -> Seq<u8>
    decreases s.len(),
{
    if s.len() == 0 {
        Seq::empty()
    } else if s.len() >= 3 && s[0] == ('`' as u8) && s[1] == ('`' as u8) && s[2] == ('`' as u8) {
        seq![('\'' as u8), ('\'' as u8), ('\'' as u8)] + spec_replace_ticks(s.skip(3))
    } else {
        seq![s[0]] + spec_replace_ticks(s.skip(1))
    }
}

/// Replaces every triple-backtick sequence in the reply text with a
/// triple-single-quote sequence.
pub fn format_json(text: &[u8]) -> (r: Vec<u8>)
    ensures
        r@ == spec_replace_ticks(text@),
{
    let mut out: Vec<u8> = Vec::new();
    let mut i: usize = 0;
    proof {
        assert(text@.skip(0) =~= text@);
    }
    while i < text.len()
        invariant
            i <= text.len(),
            spec_replace_ticks(text@) == out@ + spec_replace_ticks(text@.skip(i as int)),
        decreases text.len() - i,
    {
        if text.len() - i > 2 && text[i] == ('`' as u8) && text[i + 1] == ('`' as u8) && text[i + 2] == ('`' as u8) {
            out.push(('\'' as u8));
            out.push(('\'' as u8));
            out.push(('\'' as u8));
            proof {
                assert(text@.skip(i as int).skip(3) =~= text@.skip(i + 3));
            }
            i = i + 3;
        } else {
            out.push(text[i]);
            proof {
                assert(text@.skip(i as int).skip(1) =~= text@.skip(i + 1));
            }
            i = i + 1;
        }
    }
    proof {
        assert(text@.skip(text.len() as int) =~= Seq::<u8>::empty());
    }
    out
}

} // verus!
