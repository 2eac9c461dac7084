use vstd::prelude::*;
use crate::reader::{peek, take};

verus! {

/// Number of bytes in the encoding of `v`: the smallest `n` in `1..=8` whose
/// `7 * n` payload bits hold `v`, or 9 for the escape form.
pub open spec fn spec_required_len(v: u64) -> nat {
    if v < 1u64 << 7u64 {
        1
    } else if v < 1u64 << 14u64 {
        2
    } else if v < 1u64 << 21u64 {
        3
    } else if v < 1u64 << 28u64 {
        4
    } else if v < 1u64 << 35u64 {
        5
    } else if v < 1u64 << 42u64 {
        6
    } else if v < 1u64 << 49u64 {
        7
    } else if v < 1u64 << 56u64 {
        8
    } else {
        9
    }
}

/// Returns how many bytes the encoding of `value` takes (1 to 9).
pub fn required_len(value: u64) -> (r: u32)
    ensures
        r as nat == spec_required_len(value),
        1 <= r <= 9,
{
    if value < 1u64 << 7u64 {
        1
    } else if value < 1u64 << 14u64 {
        2
    } else if value < 1u64 << 21u64 {
        3
    } else if value < 1u64 << 28u64 {
        4
    } else if value < 1u64 << 35u64 {
        5
    } else if value < 1u64 << 42u64 {
        6
    } else if value < 1u64 << 49u64 {
        7
    } else if value < 1u64 << 56u64 {
        8
    } else {
        9
    }
}

/// The marker that opens an encoding of `n` bytes (`n` in `1..=8`): the top
/// `n - 1` bits set, the rest clear. For `n == 9` it is `0xFF`.
pub open spec fn length_marker(n: nat) -> u8 {
    !(0xFFu8 >> ((n - 1) as u8))
}

/// Byte `i` of the `n`-byte encoding of `v`.
pub open spec fn encoded_byte(v: u64, n: nat, i: nat) -> u8 {
    if i == 0 {
        if n == 9 {
            0xFFu8
        } else {
            length_marker(n) | ((v >> ((8 * (n - 1)) as u64)) as u8)
        }
    } else {
        (v >> ((8 * (i - 1)) as u64)) as u8
    }
}

/// The encoding of `v`, in its minimal length.
pub open spec fn spec_encode(v: u64) -> Seq<u8> {
    let n = spec_required_len(v);
    Seq::new(n, |i: int| encoded_byte(v, n, i as nat))
}

/// Total length of an encoding, read off its first byte.
pub open spec fn first_byte_len(b0: u8) -> nat {
    if b0 == 0xFFu8 {
        9
    } else {
        (vstd::std_specs::bits::u8_leading_ones(b0) + 1) as nat
    }
}

/// Little-endian value of the bytes `b[1]`, ..., `b[k - 1]`.
pub open spec fn trailing_value(b: Seq<u8>, k: nat) -> u64
    decreases k,
{
    if k <= 1 {
        0
    } else {
        trailing_value(b, (k - 1) as nat) | ((b[k - 1] as u64) << ((8 * (k - 2)) as u64))
    }
}

/// The value held by the first `n` bytes of `b`, an encoding of length `n`.
pub open spec fn decoded_value(b: Seq<u8>, n: nat) -> u64 {
    if n == 9 {
        trailing_value(b, 9)
    } else {
        trailing_value(b, n) | (((b[0] as u64) & (0xFFu64 >> (n as u64))) << ((8 * (n - 1)) as u64))
    }
}

/// Why a decode failed.
#[derive(Debug, Clone, Copy, PartialEq, Eq, Structural)]
pub enum DecodeError {
    /// Fewer bytes remain than the first byte announces.
    Truncated,
    /// The value does not fit the requested integer width.
    RangeError,
}

/// What decoding the front of `b` gives: the value and the number of bytes
/// it takes, or why there is none.
pub open spec fn spec_decode(b: Seq<u8>) -> Result<(u64, nat), DecodeError> {
    if b.len() == 0 {
        Err(DecodeError::Truncated)
    } else if b.len() < first_byte_len(b[0]) {
        Err(DecodeError::Truncated)
    } else {
        let n = first_byte_len(b[0]);
        Ok((decoded_value(b, n), n))
    }
}

/// Appends the encoding of `value` to `out`.
pub fn encode(value: u64, out: &mut Vec<u8>)
    ensures
        final(out)@ == old(out)@ + spec_encode(value),
{
    let ghost start = out@;
    let n = required_len(value);
    if n == 9 {
        out.push(0xFFu8);
    } else {
        let marker: u8 = !(0xFFu8 >> ((n - 1) as u8));
        out.push(marker | ((value >> (8 * (n - 1)) as u64) as u8));
    }
    let mut i: u32 = 1;
    while i < n
        invariant
            1 <= i <= n <= 9,
            n as nat == spec_required_len(value),
            out@ == start + spec_encode(value).subrange(0, i as int),
        decreases n - i,
    {
        out.push((value >> (8 * (i - 1)) as u64) as u8);
        i = i + 1;
        assert(out@ =~= start + spec_encode(value).subrange(0, i as int));
    }
    assert(spec_encode(value).subrange(0, n as int) =~= spec_encode(value));
}

/// Computes the value of an encoding of `n` bytes at the front of `b`.
fn read_value(b: &[u8], n: usize) -> (r: u64)
    requires
        n <= b@.len(),
        b@.len() > 0,
        n == first_byte_len(b@[0]),
    ensures
        r == decoded_value(b@, n as nat),
{
    broadcast use vstd::std_specs::bits::axiom_u8_leading_ones;

    let mut value: u64 = 0;
    let mut i: usize = 1;
    while i < n
        invariant
            1 <= i <= n <= 9,
            n <= b@.len(),
            n == first_byte_len(b@[0]),
            value == trailing_value(b@, i as nat),
        decreases n - i,
    {
        value = value | ((b[i] as u64) << (8 * (i - 1)) as u64);
        i = i + 1;
    }
    if n < 9 {
        value = value | (((b[0] as u64) & (0xFFu64 >> n as u64)) << (8 * (n - 1)) as u64);
    }
    value
}

/// Decodes one value from the front of `input` and moves `input` past it. On
/// failure `input` is left as it was.
pub fn decode(input: &mut &[u8]) -> (r: Result<u64, DecodeError>)
    ensures
        match spec_decode(old(input)@) {
            Ok((v, n)) => r == Ok::<u64, DecodeError>(v) && final(input)@ == old(input)@.subrange(
                n as int,
                old(input)@.len() as int,
            ),
            Err(e) => r == Err::<u64, DecodeError>(e) && final(input)@ == old(input)@,
        },
{
    broadcast use vstd::std_specs::bits::axiom_u8_leading_ones;

    let b0 = match peek(*input) {
        Some(b) => b,
        None => return Err(DecodeError::Truncated),
    };
    let n: usize = if b0 == 0xFFu8 {
        9
    } else {
        b0.leading_ones() as usize + 1
    };
    let ghost before = input@;
    match take(input, n) {
        Some(bytes) => {
            proof {
                lemma_trailing_prefix(bytes@, before, n as nat);
            }
            Ok(read_value(bytes, n))
        },
        None => Err(DecodeError::Truncated),
    }
}

} // verus!

verus! {

/// `trailing_value` reads back the low bytes of `v` from bytes that hold them
/// in little-endian order.
proof fn lemma_trailing_of_bytes(v: u64, b: Seq<u8>, k: nat)
    requires
        1 <= k <= 9,
        k <= b.len(),
        forall|i: int| 1 <= i < k ==> b[i] == #[trigger] ((v >> ((8 * (i - 1)) as u64)) as u8),
    ensures
        k <= 8 ==> trailing_value(b, k) == v & ((1u64 << ((8 * (k - 1)) as u64)) - 1) as u64,
        k == 9 ==> trailing_value(b, k) == v,
    decreases k,
{
    if k == 1 {
        assert(v & ((1u64 << 0u64) - 1) as u64 == 0) by (bit_vector);
    } else {
        lemma_trailing_of_bytes(v, b, (k - 1) as nat);
        let s = (8 * (k - 2)) as u64;
        assert(b[k - 1] == ((v >> s) as u8));
        if k <= 8 {
            assert(s <= 48 ==> (v & ((1u64 << s) - 1) as u64) | (((v >> s) as u8 as u64) << s) == v
                & ((1u64 << (s + 8) as u64) - 1) as u64) by (bit_vector);
            assert((s + 8) as u64 == (8 * (k - 1)) as u64);
        } else {
            assert(s == 56 ==> (v & ((1u64 << s) - 1) as u64) | (((v >> s) as u8 as u64) << s)
                == v) by (bit_vector);
        }
    }
}

/// The bytes `b[1]`, ..., `b[k - 1]` hold fewer than `8 * (k - 1)` bits.
proof fn lemma_trailing_bound(b: Seq<u8>, k: nat)
    requires
        1 <= k <= 8,
    ensures
        trailing_value(b, k) < 1u64 << ((8 * (k - 1)) as u64),
    decreases k,
{
    if k == 1 {
        assert(1u64 << 0u64 == 1) by (bit_vector);
    } else {
        lemma_trailing_bound(b, (k - 1) as nat);
        let s = (8 * (k - 2)) as u64;
        let t = trailing_value(b, (k - 1) as nat);
        let x = b[k - 1];
        assert(s <= 48 && t < (1u64 << s) ==> (t | ((x as u64) << s)) < (1u64 << (s + 8) as u64))
            by (bit_vector);
        assert((s + 8) as u64 == (8 * (k - 1)) as u64);
    }
}

/// Below the escape form, the encoding length `n` of `v` leaves room for it:
/// `v < 2^(7 * n)`.
proof fn lemma_required_len_fits(v: u64)
    ensures
        1 <= spec_required_len(v) <= 9,
        spec_required_len(v) <= 8 ==> v < 1u64 << ((7 * spec_required_len(v)) as u64),
        spec_required_len(v) == 9 ==> v >= 1u64 << 56u64,
{
}

/// The first byte of a minimal encoding announces its length, and its low
/// bits give the top of the value.
proof fn lemma_first_byte(v: u64)
    ensures
        first_byte_len(encoded_byte(v, spec_required_len(v), 0)) == spec_required_len(v),
        spec_required_len(v) <= 8 ==> ((encoded_byte(v, spec_required_len(v), 0) as u64) & (0xFFu64
            >> (spec_required_len(v) as u64))) == v >> ((8 * (spec_required_len(v) - 1)) as u64),
{
    broadcast use vstd::std_specs::bits::axiom_u8_leading_ones;

    lemma_required_len_fits(v);
    let n = spec_required_len(v);
    if n <= 8 {
        let m = n as u64;
        let f = encoded_byte(v, n, 0);
        assert(f == !(0xFFu8 >> ((m - 1) as u8)) | ((v >> ((8 * (m - 1)) as u64)) as u8));
        assert(1 <= m <= 8 && v < 1u64 << ((7 * m) as u64) ==> (v >> ((8 * (m - 1)) as u64)) < (1u64 << ((8 - m) as u64)))
            by (bit_vector);
        let t = v >> ((8 * (m - 1)) as u64);
        assert(1 <= m <= 8 && t < (1u64 << ((8 - m) as u64)) ==> ((!(0xFFu8 >> ((m - 1) as u8)) | (t as u8))
            as u64) & (0xFFu64 >> m) == t) by (bit_vector);
        let k = vstd::std_specs::bits::u8_leading_ones(f) as u8;
        assert(1 <= m <= 8 && t < (1u64 << ((8 - m) as u64)) ==> (!(0xFFu8 >> ((m - 1) as u8)) | (t as u8))
            != 0xFFu8) by (bit_vector);
        assert(1 <= m <= 8 && t < (1u64 << ((8 - m) as u64)) && k <= 8 && (k < 8 ==> (f >> ((7 - k) as u8)) & 1u8
            == 0u8) && (!f) >> ((8 - k) as u8) == 0 && f == (!(0xFFu8 >> ((m - 1) as u8)) | (t as u8))
            ==> k as u64 == (m - 1) as u64) by (bit_vector);
    }
}

/// Decoding the encoding of `v`, with any bytes after it, gives `v` back and
/// consumes exactly the encoding.
pub proof fn lemma_round_trip(v: u64, rest: Seq<u8>)
    ensures
        spec_decode(spec_encode(v) + rest) == Ok::<(u64, nat), DecodeError>(
            (v, spec_required_len(v)),
        ),
{
    let n = spec_required_len(v);
    let b = spec_encode(v) + rest;
    lemma_first_byte(v);
    lemma_required_len_fits(v);
    assert(b[0] == encoded_byte(v, n, 0));
    assert forall|i: int| 1 <= i < n implies b[i] == #[trigger] ((v >> ((8 * (i - 1)) as u64)) as u8) by {
        assert(b[i] == encoded_byte(v, n, i as nat));
    }
    lemma_trailing_of_bytes(v, b, n);
    if n <= 8 {
        let s = (8 * (n - 1)) as u64;
        assert(s <= 56 ==> (v & ((1u64 << s) - 1) as u64) | ((v >> s) << s) == v) by (bit_vector);
    }
}

} // verus!

verus! {

/// The encoding of `v` is `spec_required_len(v)` bytes long, and no
/// well-formed encoding of `v` is shorter: whatever bytes decode to `v` take at
/// least that many.
pub proof fn lemma_minimal(b: Seq<u8>, v: u64, n: nat)
    requires
        spec_decode(b) == Ok::<(u64, nat), DecodeError>((v, n)),
    ensures
        spec_encode(v).len() == spec_required_len(v),
        spec_required_len(v) <= n,
{
    if n <= 8 {
        lemma_trailing_bound(b, n);
        let m = n as u64;
        let t = trailing_value(b, n);
        let top = (b[0] as u64) & (0xFFu64 >> m);
        let b0 = b[0];
        assert(v == t | (top << ((8 * (m - 1)) as u64)));
        assert(1 <= m <= 8 && t < 1u64 << ((8 * (m - 1)) as u64) ==> (t | (((b0 as u64) & (0xFFu64
            >> m)) << ((8 * (m - 1)) as u64))) < 1u64 << ((7 * m) as u64)) by (bit_vector);
        assert(v < 1u64 << ((7 * m) as u64));
    }
}

/// A larger value never takes fewer bytes.
pub proof fn lemma_required_len_monotonic(a: u64, b: u64)
    requires
        a <= b,
    ensures
        spec_required_len(a) <= spec_required_len(b),
{
}

} // verus!

verus! {

/// `trailing_value` looks at the first `k` bytes only.
proof fn lemma_trailing_prefix(b: Seq<u8>, c: Seq<u8>, k: nat)
    requires
        k <= b.len(),
        k <= c.len(),
        forall|i: int| 0 <= i < k ==> b[i] == c[i],
    ensures
        trailing_value(b, k) == trailing_value(c, k),
    decreases k,
{
    if k > 1 {
        lemma_trailing_prefix(b, c, (k - 1) as nat);
    }
}

/// Decodes one value like `decode`, but where at least nine bytes remain it
/// takes them as one window and reads the value from that window, with a
/// single length check and a single move of `input`.
pub fn decode_fast(input: &mut &[u8]) -> (r: Result<u64, DecodeError>)
    ensures
        match spec_decode(old(input)@) {
            Ok((v, n)) => r == Ok::<u64, DecodeError>(v) && final(input)@ == old(input)@.subrange(
                n as int,
                old(input)@.len() as int,
            ),
            Err(e) => r == Err::<u64, DecodeError>(e) && final(input)@ == old(input)@,
        },
{
    broadcast use vstd::std_specs::bits::axiom_u8_leading_ones;

    if input.len() < 9 {
        return decode(input);
    }
    let window = vstd::slice::slice_subrange(*input, 0, 9);
    let b0 = window[0];
    let n: usize = if b0 == 0xFFu8 {
        9
    } else {
        b0.leading_ones() as usize + 1
    };
    let value = read_value(window, n);
    proof {
        lemma_trailing_prefix(window@, input@, n as nat);
    }
    *input = vstd::slice::slice_subrange(*input, n, input.len());
    Ok(value)
}

/// Decodes one value that must fit in a `u8`. A value that does not fit
/// gives `RangeError`, after its bytes have been consumed.
pub fn decode_u8(input: &mut &[u8]) -> (r: Result<u8, DecodeError>)
    ensures
        match spec_decode(old(input)@) {
            Ok((v, n)) => final(input)@ == old(input)@.subrange(n as int, old(input)@.len() as int)
                && if v <= u8::MAX {
                r == Ok::<u8, DecodeError>(v as u8)
            } else {
                r == Err::<u8, DecodeError>(DecodeError::RangeError)
            },
            Err(e) => r == Err::<u8, DecodeError>(e) && final(input)@ == old(input)@,
        },
{
    match decode_fast(input) {
        Ok(v) => if v <= u8::MAX as u64 {
            Ok(v as u8)
        } else {
            Err(DecodeError::RangeError)
        },
        Err(e) => Err(e),
    }
}

/// Decodes one value that must fit in a `u16`. A value that does not fit
/// gives `RangeError`, after its bytes have been consumed.
pub fn decode_u16(input: &mut &[u8]) -> (r: Result<u16, DecodeError>)
    ensures
        match spec_decode(old(input)@) {
            Ok((v, n)) => final(input)@ == old(input)@.subrange(n as int, old(input)@.len() as int)
                && if v <= u16::MAX {
                r == Ok::<u16, DecodeError>(v as u16)
            } else {
                r == Err::<u16, DecodeError>(DecodeError::RangeError)
            },
            Err(e) => r == Err::<u16, DecodeError>(e) && final(input)@ == old(input)@,
        },
{
    match decode_fast(input) {
        Ok(v) => if v <= u16::MAX as u64 {
            Ok(v as u16)
        } else {
            Err(DecodeError::RangeError)
        },
        Err(e) => Err(e),
    }
}

/// Decodes one value that must fit in a `u32`. A value that does not fit
/// gives `RangeError`, after its bytes have been consumed.
pub fn decode_u32(input: &mut &[u8]) -> (r: Result<u32, DecodeError>)
    ensures
        match spec_decode(old(input)@) {
            Ok((v, n)) => final(input)@ == old(input)@.subrange(n as int, old(input)@.len() as int)
                && if v <= u32::MAX {
                r == Ok::<u32, DecodeError>(v as u32)
            } else {
                r == Err::<u32, DecodeError>(DecodeError::RangeError)
            },
            Err(e) => r == Err::<u32, DecodeError>(e) && final(input)@ == old(input)@,
        },
{
    match decode_fast(input) {
        Ok(v) => if v <= u32::MAX as u64 {
            Ok(v as u32)
        } else {
            Err(DecodeError::RangeError)
        },
        Err(e) => Err(e),
    }
}

/// Decodes one value into a `u64`; every value fits, so this never gives
/// `RangeError`.
pub fn decode_u64(input: &mut &[u8]) -> (r: Result<u64, DecodeError>)
    ensures
        match spec_decode(old(input)@) {
            Ok((v, n)) => r == Ok::<u64, DecodeError>(v) && final(input)@ == old(input)@.subrange(
                n as int,
                old(input)@.len() as int,
            ),
            Err(e) => r == Err::<u64, DecodeError>(e) && final(input)@ == old(input)@,
        },
{
    decode_fast(input)
}

/// Returns the encoding of `value` as a new vector.
pub fn encode_to_vec(value: u64) -> (r: Vec<u8>)
    ensures
        r@ == spec_encode(value),
{
    let mut out: Vec<u8> = Vec::new();
    encode(value, &mut out);
    assert(out@ =~= spec_encode(value));
    out
}

} // verus!

verus! {

/// The encodings of the values of `vs`, one after another.
pub open spec fn encode_all(vs: Seq<u64>) -> Seq<u8>
    decreases vs.len(),
{
    if vs.len() == 0 {
        Seq::empty()
    } else {
        spec_encode(vs[0]) + encode_all(vs.drop_first())
    }
}

/// Decoding up to `count` values one after another from the front of `b`:
/// the values decoded, and either the number of bytes they took or the error
/// that stopped the run.
pub open spec fn decode_many(b: Seq<u8>, count: nat) -> (Seq<u64>, Result<nat, DecodeError>)
    decreases count,
{
    if count == 0 {
        (Seq::empty(), Ok(0))
    } else {
        match spec_decode(b) {
            Err(e) => (Seq::empty(), Err(e)),
            Ok((v, n)) => {
                let (vs, status) = decode_many(b.subrange(n as int, b.len() as int), (count - 1) as nat);
                (
                    seq![v] + vs,
                    match status {
                        Ok(m) => Ok(n + m),
                        Err(e) => Err(e),
                    },
                )
            },
        }
    }
}

/// Encoding one more value appends its encoding.
pub proof fn lemma_encode_all_push(vs: Seq<u64>, v: u64)
    ensures
        encode_all(vs.push(v)) == encode_all(vs) + spec_encode(v),
    decreases vs.len(),
{
    if vs.len() == 0 {
        assert(vs.push(v).drop_first() =~= Seq::<u64>::empty());
        assert(vs =~= Seq::<u64>::empty());
        assert(encode_all(Seq::<u64>::empty()) == Seq::<u8>::empty());
        assert(encode_all(vs.push(v)) =~= encode_all(vs) + spec_encode(v));
    } else {
        lemma_encode_all_push(vs.drop_first(), v);
        assert(vs.push(v).drop_first() =~= vs.drop_first().push(v));
        assert(vs.push(v)[0] == vs[0]);
        assert(encode_all(vs.push(v)) =~= encode_all(vs) + spec_encode(v));
    }
}

/// Encoding a sequence of values and then decoding as many values from the
/// bytes, with anything after them, gives the sequence back and consumes
/// exactly its encoding.
pub proof fn lemma_stream_round_trip(vs: Seq<u64>, rest: Seq<u8>)
    ensures
        decode_many(encode_all(vs) + rest, vs.len()) == (
            vs,
            Ok::<nat, DecodeError>(encode_all(vs).len()),
        ),
    decreases vs.len(),
{
    if vs.len() > 0 {
        let tail = encode_all(vs.drop_first()) + rest;
        let b = encode_all(vs) + rest;
        assert(b =~= spec_encode(vs[0]) + tail);
        lemma_round_trip(vs[0], tail);
        let n = spec_required_len(vs[0]);
        assert(b.subrange(n as int, b.len() as int) =~= tail);
        lemma_stream_round_trip(vs.drop_first(), rest);
        assert(seq![vs[0]] + vs.drop_first() =~= vs);
    }
}

} // verus!

verus! {

/// Bytes that end before the length their first byte announces decode to
/// `Truncated`; in particular every proper prefix of an encoding does.
pub proof fn lemma_truncated(v: u64, b: Seq<u8>, k: nat)
    ensures
        b.len() == 0 || b.len() < first_byte_len(b[0]) ==> spec_decode(b) == Err::<
            (u64, nat),
            DecodeError,
        >(DecodeError::Truncated),
        k < spec_required_len(v) ==> spec_decode(spec_encode(v).take(k as int)) == Err::<
            (u64, nat),
            DecodeError,
        >(DecodeError::Truncated),
{
    lemma_first_byte(v);
    if 0 < k < spec_required_len(v) {
        assert(spec_encode(v).take(k as int)[0] == encoded_byte(v, spec_required_len(v), 0));
    }
}

/// Zero encodes as the single byte 0; 127 is the largest value of one byte;
/// `2^56` is the smallest value that needs the nine-byte escape form; and
/// `u64::MAX` round-trips through the escape form.
pub proof fn lemma_boundary_values(v: u64)
    ensures
        spec_encode(0) == seq![0u8],
        spec_required_len(v) == 1 <==> v <= 127,
        spec_required_len(v) == 9 <==> v >= 1u64 << 56u64,
        spec_encode(u64::MAX).len() == 9 && spec_encode(u64::MAX)[0] == 0xFFu8,
        spec_decode(spec_encode(u64::MAX)) == Ok::<(u64, nat), DecodeError>((u64::MAX, 9)),
{
    assert(1u64 << 7u64 == 128) by (bit_vector);
    assert(1u64 << 7u64 <= 1u64 << 14u64 <= 1u64 << 21u64 <= 1u64 << 28u64 <= 1u64 << 35u64
        <= 1u64 << 42u64 <= 1u64 << 49u64 <= 1u64 << 56u64) by (bit_vector);
    assert(!(0xFFu8 >> 0u8) | ((0u64 >> 0u64) as u8) == 0) by (bit_vector);
    assert(spec_encode(0) =~= seq![0u8]);
    assert(u64::MAX >= 1u64 << 56u64) by (bit_vector);
    lemma_round_trip(u64::MAX, Seq::empty());
    assert(spec_encode(u64::MAX) + Seq::<u8>::empty() =~= spec_encode(u64::MAX));
}

} // verus!
