//! A prefix varint codec for unsigned 64-bit integers: the length of each
//! encoding (1 to 9 bytes) is read off the count of leading one bits of its
//! first byte. Beside the codec stand stream helpers and timing harnesses that
//! compare it with unsigned LEB128.
use vstd::prelude::*;

pub mod bench;
pub mod codec;
pub mod decoding;
pub mod encoding;
pub mod leb;
pub mod reader;

verus! {

} // verus!
