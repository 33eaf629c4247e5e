//! What a simple client does with the bytes it has read.

use vstd::prelude::*;
use vstd::slice::slice_to_vec;
use crate::message::Message;
use crate::parser::parse_result;

verus! {

/// What is left of a buffer once its first line is dealt with: the bytes
/// behind the line where the buffer parses, and nothing where it does not.
pub open spec fn left_of(buf: Seq<u8>) -> Seq<u8> {
    match parse_result(buf) {
        Ok((_, rest)) => rest,
        Err(_) => Seq::empty(),
    }
}

/// Reads the message at the head of `buf` and returns the bytes behind it,
/// with which the next read starts. A buffer that does not parse is given
/// up as a whole.
pub fn handle_line(buf: &Vec<u8>) -> (r: Vec<u8>)
    ensures
        r@ == left_of(buf@),
{
    match Message::parse(buf.as_slice()) {
        Ok((_, remaining)) => slice_to_vec(remaining),
        Err(_) => Vec::new(),
    }
}

} // verus!
