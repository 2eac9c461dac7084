use vstd::prelude::*;
use crate::bench::{clock_now, generate_array, nanos_between, Measurement};
use crate::leb::{leb128_bytes, leb128_bytes_all, leb128_write};
use crate::codec::{encode, encode_all, lemma_encode_all_push};

verus! {

/// Appends the encodings of the values of `src`, in order, to `dst`.
fn encode_values(dst: &mut Vec<u8>, src: &[u64])
    ensures
        final(dst)@ == old(dst)@ + encode_all(src@),
{
    let mut i: usize = 0;
    while i < src.len()
        invariant
            i <= src@.len(),
            dst@ == old(dst)@ + encode_all(src@.take(i as int)),
        decreases src@.len() - i,
    {
        proof {
            lemma_encode_all_push(src@.take(i as int), src@[i as int]);
            assert(src@.take(i as int).push(src@[i as int]) =~= src@.take(i + 1));
        }
        encode(src[i], dst);
        i = i + 1;
        assert(dst@ =~= old(dst)@ + encode_all(src@.take(i as int)));
    }
    assert(src@.take(i as int) =~= src@);
}

/// Appends the encodings of the values of `src`, in order, to `dst`.
pub fn run_varint(dst: &mut Vec<u8>, src: &[u64])
    ensures
        final(dst)@ == old(dst)@ + encode_all(src@),
{
    encode_values(dst, src);
}

/// Writes the encodings of the values of `src`, in order, to the end of
/// `dst`.
pub fn run_varint_write(dst: &mut Vec<u8>, src: &[u64])
    ensures
        final(dst)@ == old(dst)@ + encode_all(src@),
{
    encode_values(dst, src);
}

/// Draws `ops` values of up to `bytes` bytes each and times encoding them:
/// one warm-up pass, then one pass under the clock.
fn timed_encode(bytes: usize, ops: usize) -> (r: Measurement)
    requires
        bytes >= 1,
    ensures
        r.ops == ops,
        r.bytes == bytes,
{
    let input_value = generate_array(ops, bytes);
    let mut buf: Vec<u8> = Vec::with_capacity(ops);
    encode_values(&mut buf, input_value.as_slice());
    buf.clear();
    let before = clock_now();
    encode_values(&mut buf, input_value.as_slice());
    let after = clock_now();
    Measurement { ops, bytes, nanos: nanos_between(&before, &after) }
}

/// Times encoding `ops` values of up to `bytes` bytes each.
pub fn bench_varint(bytes: usize, ops: usize) -> (r: Measurement)
    requires
        bytes >= 1,
    ensures
        r.ops == ops,
        r.bytes == bytes,
{
    timed_encode(bytes, ops)
}

/// Times writing `ops` values of up to `bytes` bytes each.
pub fn bench_varint_write(bytes: usize, ops: usize) -> (r: Measurement)
    requires
        bytes >= 1,
    ensures
        r.ops == ops,
        r.bytes == bytes,
{
    timed_encode(bytes, ops)
}

/// Appends the unsigned LEB128 bytes of the values of `src`, in order, to
/// `dst`.
pub fn run_leb128(dst: &mut Vec<u8>, src: &[u64])
    ensures
        final(dst)@ == old(dst)@ + leb128_bytes_all(src@),
{
    let mut i: usize = 0;
    while i < src.len()
        invariant
            i <= src@.len(),
            dst@ == old(dst)@ + leb128_bytes_all(src@.take(i as int)),
        decreases src@.len() - i,
    {
        leb128_write(dst, src[i]);
        i = i + 1;
        assert(src@.take(i as int).drop_last() =~= src@.take(i - 1));
        assert(dst@ =~= old(dst)@ + leb128_bytes_all(src@.take(i as int)));
    }
    assert(src@.take(i as int) =~= src@);
}

/// Draws `ops` values of up to `bytes` bytes each and times writing them as
/// unsigned LEB128: one warm-up pass, then one pass under the clock.
pub fn bench_leb128(bytes: usize, ops: usize) -> (r: Measurement)
    requires
        bytes >= 1,
    ensures
        r.ops == ops,
        r.bytes == bytes,
{
    let input_value = generate_array(ops, bytes);
    let mut buf: Vec<u8> = Vec::with_capacity(ops);
    run_leb128(&mut buf, input_value.as_slice());
    buf.clear();
    let before = clock_now();
    run_leb128(&mut buf, input_value.as_slice());
    let after = clock_now();
    Measurement { ops, bytes, nanos: nanos_between(&before, &after) }
}

} // verus!
