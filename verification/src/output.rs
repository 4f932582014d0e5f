//! What is shown while something is going on.

use vstd::prelude::*;
use vstd::string::StringExecFns;
use crate::text::{byte_len, bytes_len, pad_to, padded};

verus! {

/// The pictures of the spinner.
pub const SPINNER_FRAMES: [char; 10] = [
    '\u{280b}',
    '\u{2819}',
    '\u{2839}',
    '\u{2838}',
    '\u{283c}',
    '\u{2834}',
    '\u{2826}',
    '\u{2827}',
    '\u{2807}',
    '\u{280f}',
];

/// What the spinner writes at a step: from the start of the line the next picture, round and round,
/// and the message.
pub fn spinner_text(step: usize, message: &str) -> (r: String)
    ensures
        r@ == "\r"@.push(SPINNER_FRAMES@[step as int % 10]) + " "@ + message@,
{
    let mut s: String = String::from_str("\r");
    let frames = SPINNER_FRAMES;
    s.push(frames[step % 10]);
    s.append(" ");
    s.append(message);
    s
}

/// What the spinner writes at its end: it blanks the line.
pub fn spinner_end(message: &str) -> (r: String)
    ensures
        r@ == "\r"@ + pad_to(Seq::empty(), byte_len(message@)) + "   \r"@,
{
    let mut s: String = String::from_str("\r");
    proof {
        reveal_strlit("");
        assert(""@ =~= Seq::<char>::empty());
    }
    let blank = padded("", bytes_len(message));
    s.append(&blank);
    s.append("   \r");
    s
}

} // verus!
