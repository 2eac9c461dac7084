use vstd::prelude::*;

verus! {

/// The number of bytes left to read in `input`.
pub fn remaining(input: &[u8]) -> (r: usize)
    ensures
        r == input@.len(),
{
    input.len()
}

/// The next byte of `input`, without consuming it; `None` at the end.
pub fn peek(input: &[u8]) -> (r: Option<u8>)
    ensures
        r == if input@.len() > 0 {
            Some(input@[0])
        } else {
            None::<u8>
        },
{
    if input.len() > 0 {
        Some(input[0])
    } else {
        None
    }
}

/// Consumes exactly `k` bytes from the front of `input` and returns them.
/// Where fewer than `k` remain, returns `None` and consumes nothing.
pub fn take<'a>(input: &mut &'a [u8], k: usize) -> (r: Option<&'a [u8]>)
    ensures
        if k <= old(input)@.len() {
            r matches Some(s) && s@ == old(input)@.take(k as int) && final(input)@ == old(
                input,
            )@.skip(k as int)
        } else {
            r is None && final(input)@ == old(input)@
        },
{
    if k > input.len() {
        return None;
    }
    let front = vstd::slice::slice_subrange(*input, 0, k);
    *input = vstd::slice::slice_subrange(*input, k, input.len());
    Some(front)
}

} // verus!
