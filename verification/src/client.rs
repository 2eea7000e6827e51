//! One iteration of the chat loop, as pure decisions: the request body
//! built from the input line stands in [`crate::request::build_request`];
//! here a received response body becomes the bytes printed to the
//! terminal, or nothing where the body does not deserialize.

use vstd::prelude::*;
use crate::render::{spec_replace_ticks, format_json};
use crate::response::{spec_reply, parse_reply};

verus! {

/// The bytes printed for a reply text: one leading newline, the text
/// with triple backticks replaced by triple single quotes, one trailing
/// newline.
pub open spec fn spec_rendered(t: Seq<u8>) -> Seq<u8> {
    seq![('\n' as u8)] + spec_replace_ticks(t) + seq![('\n' as u8)]
}

/// Turns a response body into the bytes to print: the first
/// candidate's first part's text, escaped for the terminal and wrapped
/// in newlines.  Returns `None` exactly where the body does not
/// deserialize as the response envelope; the caller reports that and
/// prompts again.
pub fn handle_response(body: &[u8]) -> (r: Option<Vec<u8>>)
    requires
        2 * body@.len() + 8 <= usize::MAX,
    ensures
        match spec_reply(body@) {
            Some(t) => r matches Some(out) && out@ == spec_rendered(t),
            None => r is None,
        },
{
    match parse_reply(body) {
        Some(t) => {
            let mut out: Vec<u8> = Vec::new();
            out.push('\n' as u8);
            let mut mid = format_json(t.as_slice());
            out.append(&mut mid);
            out.push('\n' as u8);
            proof {
                assert(out@ =~= spec_rendered(t@));
            }
            Some(out)
        },
        None => None,
    }
}

} // verus!
