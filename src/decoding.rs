use vstd::prelude::*;
use crate::bench::{clock_now, nanos_between, Measurement};
use crate::leb::{leb128_read, leb128_read_from, leb128_read_many, lemma_leb128_read_within, Leb128Error};
use crate::codec::{decode, decode_fast, decode_many, DecodeError};

verus! {

/// Decodes `num_ops` values from the front of `input` into `dst`, with the
/// windowed path when `fast` holds and the byte-by-byte path otherwise.
fn decode_values(input: &[u8], dst: &mut Vec<u64>, num_ops: usize, fast: bool) -> (r: Result<
    (),
    DecodeError,
>)
    ensures
        final(dst)@ == old(dst)@ + decode_many(input@, num_ops as nat).0,
        match decode_many(input@, num_ops as nat).1 {
            Ok(_) => r is Ok,
            Err(e) => r == Err::<(), DecodeError>(e),
        },
{
    let ghost done: Seq<u64> = Seq::empty();
    let mut cur: &[u8] = input;
    let mut i: usize = 0;
    while i < num_ops
        invariant
            i <= num_ops,
            cur@.len() <= input@.len(),
            cur@ == input@.subrange(input@.len() - cur@.len(), input@.len() as int),
            dst@ == old(dst)@ + done,
            decode_many(input@, num_ops as nat).0 == done + decode_many(
                cur@,
                (num_ops - i) as nat,
            ).0,
            decode_many(input@, num_ops as nat).1 == match decode_many(
                cur@,
                (num_ops - i) as nat,
            ).1 {
                Ok(m) => Ok::<nat, DecodeError>(m + (input@.len() - cur@.len()) as nat),
                Err(e) => Err(e),
            },
        decreases num_ops - i,
    {
        let ghost before = cur@;
        let res = if fast {
            decode_fast(&mut cur)
        } else {
            decode(&mut cur)
        };
        match res {
            Ok(v) => {
                dst.push(v);
                proof {
                    done = done.push(v);
                    assert(seq![v] + decode_many(cur@, (num_ops - i - 1) as nat).0 =~= decode_many(
                        before,
                        (num_ops - i) as nat,
                    ).0);
                    assert(done + decode_many(cur@, (num_ops - i - 1) as nat).0 =~= (done.drop_last()
                        + seq![v]) + decode_many(cur@, (num_ops - i - 1) as nat).0);
                }
                i = i + 1;
            },
            Err(e) => {
                proof {
                    assert(decode_many(before, (num_ops - i) as nat).0 =~= Seq::<u64>::empty());
                    assert(done + Seq::<u64>::empty() =~= done);
                }
                return Err(e);
            },
        }
    }
    assert(done + Seq::<u64>::empty() =~= done);
    Ok(())
}

/// Decodes `num_ops` values from the front of `input` and appends them to
/// `dst`. Stops at the first value that cannot be decoded, with its error.
pub fn run_varint(input: &[u8], dst: &mut Vec<u64>, num_ops: usize) -> (r: Result<(), DecodeError>)
    ensures
        final(dst)@ == old(dst)@ + decode_many(input@, num_ops as nat).0,
        match decode_many(input@, num_ops as nat).1 {
            Ok(_) => r is Ok,
            Err(e) => r == Err::<(), DecodeError>(e),
        },
{
    decode_values(input, dst, num_ops, true)
}

/// Decodes `num_ops` values from the front of `input` into `dst` one byte at a
/// time. Stops at the first value that cannot be decoded, with its error.
pub fn run_varint_read(input: &[u8], dst: &mut Vec<u64>, num_ops: usize) -> (r: Result<
    (),
    DecodeError,
>)
    ensures
        final(dst)@ == old(dst)@ + decode_many(input@, num_ops as nat).0,
        match decode_many(input@, num_ops as nat).1 {
            Ok(_) => r is Ok,
            Err(e) => r == Err::<(), DecodeError>(e),
        },
{
    decode_values(input, dst, num_ops, false)
}

/// Decodes `num_ops` values from the front of `input` into `dst`, reading a
/// nine-byte window at a time where one is available. Stops at the first
/// value that cannot be decoded, with its error.
pub fn run_varint_read_buf(input: &[u8], dst: &mut Vec<u64>, num_ops: usize) -> (r: Result<
    (),
    DecodeError,
>)
    ensures
        final(dst)@ == old(dst)@ + decode_many(input@, num_ops as nat).0,
        match decode_many(input@, num_ops as nat).1 {
            Ok(_) => r is Ok,
            Err(e) => r == Err::<(), DecodeError>(e),
        },
{
    decode_values(input, dst, num_ops, true)
}

/// Decodes `ops` values from `input` once to warm up, then once more under
/// the clock.
fn timed_decode(bytes: usize, ops: usize, input: &[u8], fast: bool) -> (r: Result<
    Measurement,
    DecodeError,
>)
    ensures
        match decode_many(input@, ops as nat).1 {
            Ok(_) => r matches Ok(m) && m.ops == ops && m.bytes == bytes,
            Err(e) => r == Err::<Measurement, DecodeError>(e),
        },
{
    let mut buf: Vec<u64> = Vec::with_capacity(ops);
    decode_values(input, &mut buf, ops, fast)?;
    buf.clear();
    let before = clock_now();
    decode_values(input, &mut buf, ops, fast)?;
    let after = clock_now();
    Ok(Measurement { ops, bytes, nanos: nanos_between(&before, &after) })
}

/// Times decoding `ops` values of up to `bytes` bytes each from `input`.
pub fn bench_varint(bytes: usize, ops: usize, input: &[u8]) -> (r: Result<Measurement, DecodeError>)
    ensures
        match decode_many(input@, ops as nat).1 {
            Ok(_) => r matches Ok(m) && m.ops == ops && m.bytes == bytes,
            Err(e) => r == Err::<Measurement, DecodeError>(e),
        },
{
    timed_decode(bytes, ops, input, true)
}

/// Times decoding `ops` values of up to `bytes` bytes each from `input`, one
/// byte at a time.
pub fn bench_varint_read(bytes: usize, ops: usize, input: &[u8]) -> (r: Result<
    Measurement,
    DecodeError,
>)
    ensures
        match decode_many(input@, ops as nat).1 {
            Ok(_) => r matches Ok(m) && m.ops == ops && m.bytes == bytes,
            Err(e) => r == Err::<Measurement, DecodeError>(e),
        },
{
    timed_decode(bytes, ops, input, false)
}

/// Times decoding `ops` values of up to `bytes` bytes each from `input`,
/// through nine-byte windows.
pub fn bench_varint_read_buf(bytes: usize, ops: usize, input: &[u8]) -> (r: Result<
    Measurement,
    DecodeError,
>)
    ensures
        match decode_many(input@, ops as nat).1 {
            Ok(_) => r matches Ok(m) && m.ops == ops && m.bytes == bytes,
            Err(e) => r == Err::<Measurement, DecodeError>(e),
        },
{
    timed_decode(bytes, ops, input, true)
}

/// Reads `num_ops` unsigned LEB128 numbers from the front of `input` and
/// appends them to `dst`. Stops at the first number that cannot be read, with
/// its error.
pub fn run_leb128(input: &[u8], dst: &mut Vec<u64>, num_ops: usize) -> (r: Result<(), Leb128Error>)
    ensures
        final(dst)@ == old(dst)@ + leb128_read_many(input@, num_ops as nat).0,
        match leb128_read_many(input@, num_ops as nat).1 {
            Ok(_) => r is Ok,
            Err(e) => r == Err::<(), Leb128Error>(e),
        },
{
    let ghost done: Seq<u64> = Seq::empty();
    let mut cur: &[u8] = input;
    let mut i: usize = 0;
    while i < num_ops
        invariant
            i <= num_ops,
            cur@.len() <= input@.len(),
            dst@ == old(dst)@ + done,
            leb128_read_many(input@, num_ops as nat).0 == done + leb128_read_many(
                cur@,
                (num_ops - i) as nat,
            ).0,
            leb128_read_many(input@, num_ops as nat).1 == match leb128_read_many(
                cur@,
                (num_ops - i) as nat,
            ).1 {
                Ok(m) => Ok::<nat, Leb128Error>(m + (input@.len() - cur@.len()) as nat),
                Err(e) => Err(e),
            },
        decreases num_ops - i,
    {
        let ghost before = cur@;
        proof {
            lemma_leb128_read_within(before, 0);
        }
        match leb128_read(&mut cur) {
            Ok(v) => {
                dst.push(v);
                proof {
                    done = done.push(v);
                    let (w, n) = leb128_read_from(before, 0)->Ok_0;
                    assert(v == w as u64);
                    assert(seq![v] + leb128_read_many(cur@, (num_ops - i - 1) as nat).0
                        =~= leb128_read_many(before, (num_ops - i) as nat).0);
                    assert(done + leb128_read_many(cur@, (num_ops - i - 1) as nat).0 =~= (
                    done.drop_last() + seq![v]) + leb128_read_many(cur@, (num_ops - i - 1) as nat).0);
                }
                i = i + 1;
            },
            Err(e) => {
                proof {
                    assert(leb128_read_many(before, (num_ops - i) as nat).0 =~= Seq::<u64>::empty());
                    assert(done + Seq::<u64>::empty() =~= done);
                }
                return Err(e);
            },
        }
    }
    assert(done + Seq::<u64>::empty() =~= done);
    Ok(())
}

/// Times reading `ops` unsigned LEB128 numbers of up to `bytes` bytes each
/// from `input`: one warm-up pass, then one pass under the clock.
pub fn bench_leb128(bytes: usize, ops: usize, input: &[u8]) -> (r: Result<Measurement, Leb128Error>)
    ensures
        match leb128_read_many(input@, ops as nat).1 {
            Ok(_) => r matches Ok(m) && m.ops == ops && m.bytes == bytes,
            Err(e) => r == Err::<Measurement, Leb128Error>(e),
        },
{
    let mut buf: Vec<u64> = Vec::with_capacity(ops);
    run_leb128(input, &mut buf, ops)?;
    buf.clear();
    let before = clock_now();
    run_leb128(input, &mut buf, ops)?;
    let after = clock_now();
    Ok(Measurement { ops, bytes, nanos: nanos_between(&before, &after) })
}

} // verus!
