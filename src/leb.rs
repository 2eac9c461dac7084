use vstd::prelude::*;

verus! {

/// Why reading an unsigned LEB128 number failed.
#[derive(Debug, Clone, Copy, PartialEq, Eq, Structural)]
pub enum Leb128Error {
    /// The input ended before the last byte of the number.
    Truncated,
    /// The number does not fit in 64 bits.
    Overflow,
}

/// The unsigned LEB128 bytes of `v`: seven bits per byte, lowest first, the
/// top bit set on every byte but the last.
pub open spec fn leb128_bytes(v: u64) -> Seq<u8>
    decreases v,
{
    if v < 0x80 {
        seq![v as u8]
    } else {
        seq![((v % 0x80) + 0x80) as u8] + leb128_bytes(v / 0x80)
    }
}

/// Reading an unsigned LEB128 number from `b` whose first `i` bytes are
/// already read: the value of the groups from byte `i` on, scaled to start
/// at bit zero, and the number of bytes from `i` on that it takes. The tenth
/// byte may only be 0 or 1; any other value there is an overflow, reported
/// once a byte without the top bit ends the number, else the input is
/// truncated.
pub open spec fn leb128_read_from(b: Seq<u8>, i: nat) -> Result<(int, nat), Leb128Error>
    decreases 9 - i,
{
    if i >= b.len() {
        Err(Leb128Error::Truncated)
    } else if i >= 9 {
        if b[i as int] == 0 || b[i as int] == 1 {
            Ok((b[i as int] as int, 1))
        } else if exists|j: int| i <= j < b.len() && b[j] < 0x80 {
            Err(Leb128Error::Overflow)
        } else {
            Err(Leb128Error::Truncated)
        }
    } else if b[i as int] < 0x80 {
        Ok((b[i as int] as int, 1))
    } else {
        match leb128_read_from(b, i + 1) {
            Ok((v, n)) => Ok((b[i as int] - 0x80 + 0x80 * v, n + 1)),
            Err(e) => Err(e),
        }
    }
}

/// A number read from byte `i` on lies within `b`.
pub proof fn lemma_leb128_read_within(b: Seq<u8>, i: nat)
    ensures
        leb128_read_from(b, i) matches Ok((v, n)) ==> i + n <= b.len() && n >= 1,
    decreases 9 - i,
{
    if i < b.len() && i < 9 && b[i as int] >= 0x80 {
        lemma_leb128_read_within(b, i + 1);
    }
}

/// Relies on leb128::write::unsigned: it appends the unsigned LEB128 bytes of
/// `value`; writing into a `Vec` does not fail.
#[verifier::external_body]
pub(crate) fn leb128_write(out: &mut Vec<u8>, value: u64)
    ensures
        final(out)@ == old(out)@ + leb128_bytes(value),
{
    let _ = leb128::write::unsigned(out, value);
}

/// Relies on leb128::read::unsigned over a byte slice: on success the value
/// and the slice moved past the number's bytes; its I/O error from a slice is
/// only the end of input. On failure the slice has moved forward by some
/// number of bytes.
#[verifier::external_body]
pub(crate) fn leb128_read(input: &mut &[u8]) -> (r: Result<u64, Leb128Error>)
    ensures
        match leb128_read_from(old(input)@, 0) {
            Ok((v, n)) => r matches Ok(x) && x as int == v && final(input)@ == old(input)@.subrange(
                n as int,
                old(input)@.len() as int,
            ),
            Err(e) => r == Err::<u64, Leb128Error>(e) && exists|k: int|
                0 <= k <= old(input)@.len() && final(input)@ == old(input)@.subrange(
                    k,
                    old(input)@.len() as int,
                ),
        },
{
    match leb128::read::unsigned(input) {
        Ok(v) => Ok(v),
        Err(leb128::read::Error::Overflow) => Err(Leb128Error::Overflow),
        Err(leb128::read::Error::IoError(_)) => Err(Leb128Error::Truncated),
    }
}

/// Reading up to `count` unsigned LEB128 numbers one after another from the
/// front of `b`: the values read, and either the bytes they took or the error
/// that stopped the run.
pub open spec fn leb128_read_many(b: Seq<u8>, count: nat) -> (Seq<u64>, Result<nat, Leb128Error>)
    decreases count,
{
    if count == 0 {
        (Seq::empty(), Ok(0))
    } else {
        match leb128_read_from(b, 0) {
            Err(e) => (Seq::empty(), Err(e)),
            Ok((v, n)) => {
                let (vs, status) = leb128_read_many(
                    b.subrange(n as int, b.len() as int),
                    (count - 1) as nat,
                );
                (
                    seq![v as u64] + vs,
                    match status {
                        Ok(m) => Ok(n + m),
                        Err(e) => Err(e),
                    },
                )
            },
        }
    }
}

/// The unsigned LEB128 bytes of the values of `vs`, one after another.
pub open spec fn leb128_bytes_all(vs: Seq<u64>) -> Seq<u8>
    decreases vs.len(),
{
    if vs.len() == 0 {
        Seq::empty()
    } else {
        leb128_bytes_all(vs.drop_last()) + leb128_bytes(vs.last())
    }
}

} // verus!
