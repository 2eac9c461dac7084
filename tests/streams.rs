use prefix_varint::bench::generate_array;
use prefix_varint::codec::{encode_to_vec, required_len, DecodeError};
use prefix_varint::decoding;
use prefix_varint::encoding;
use prefix_varint::leb::Leb128Error;

#[test]
fn encode_then_decode_stream() {
    let values = vec![0u64, 1, 127, 128, 16384, 1 << 56, u64::MAX];
    let mut bytes = Vec::new();
    encoding::run_varint(&mut bytes, &values);
    let mut expected = Vec::new();
    for v in &values {
        expected.extend(encode_to_vec(*v));
    }
    assert_eq!(bytes, expected);

    let mut out = Vec::new();
    assert_eq!(decoding::run_varint(&bytes, &mut out, values.len()), Ok(()));
    assert_eq!(out, values);

    let mut out = Vec::new();
    assert_eq!(decoding::run_varint_read(&bytes, &mut out, values.len()), Ok(()));
    assert_eq!(out, values);

    let mut out = Vec::new();
    assert_eq!(decoding::run_varint_read_buf(&bytes, &mut out, values.len()), Ok(()));
    assert_eq!(out, values);
}

#[test]
fn run_varint_write_matches_run_varint() {
    let values = vec![5u64, 300, 1 << 30, u64::MAX];
    let mut a = vec![9u8];
    let mut b = vec![9u8];
    encoding::run_varint(&mut a, &values);
    encoding::run_varint_write(&mut b, &values);
    assert_eq!(a, b);
    assert_eq!(a[0], 9);
    assert_eq!(a.len(), 1 + 1 + 2 + 5 + 9);
}

#[test]
fn decode_stream_stops_at_truncation() {
    let values = vec![1u64, 300];
    let mut bytes = Vec::new();
    encoding::run_varint(&mut bytes, &values);
    let mut out = vec![42];
    assert_eq!(
        decoding::run_varint(&bytes, &mut out, 3),
        Err(DecodeError::Truncated)
    );
    assert_eq!(out, vec![42, 1, 300]);
}

#[test]
fn leb128_stream_round_trip() {
    let values = vec![0u64, 1, 127, 128, 300, 1 << 56, u64::MAX];
    let mut bytes = Vec::new();
    encoding::run_leb128(&mut bytes, &values);
    assert_eq!(&bytes[..6], &[0x00, 0x01, 0x7F, 0x80, 0x01, 0xAC]);
    assert_eq!(bytes[6], 0x02);
    let mut out = Vec::new();
    assert_eq!(decoding::run_leb128(&bytes, &mut out, values.len()), Ok(()));
    assert_eq!(out, values);
}

#[test]
fn leb128_errors() {
    let mut out = Vec::new();
    assert_eq!(
        decoding::run_leb128(&[0x80], &mut out, 1),
        Err(Leb128Error::Truncated)
    );
    let mut too_long = vec![0xFFu8; 9];
    too_long.push(0x02);
    assert_eq!(
        decoding::run_leb128(&too_long, &mut out, 1),
        Err(Leb128Error::Overflow)
    );
    assert!(out.is_empty());
}

#[test]
fn generated_values_fit_their_width() {
    for max_bytes in 1..=9usize {
        let vs = generate_array(200, max_bytes);
        assert_eq!(vs.len(), 200);
        for v in vs {
            assert!(v >= 1);
            assert!(required_len(v) as usize <= max_bytes);
        }
    }
    assert_eq!(generate_array(50, 3), generate_array(50, 3));
}

#[test]
fn bench_decoders_report_counts() {
    let values = generate_array(100, 4);
    let mut bytes = Vec::new();
    encoding::run_varint(&mut bytes, &values);
    let m = decoding::bench_varint(4, 100, &bytes).unwrap();
    assert_eq!((m.ops, m.bytes), (100, 4));
    let m = decoding::bench_varint_read(4, 100, &bytes).unwrap();
    assert_eq!((m.ops, m.bytes), (100, 4));
    let m = decoding::bench_varint_read_buf(4, 100, &bytes).unwrap();
    assert_eq!((m.ops, m.bytes), (100, 4));
    assert_eq!(
        decoding::bench_varint(4, 101, &bytes),
        Err(DecodeError::Truncated)
    );

    let mut leb = Vec::new();
    encoding::run_leb128(&mut leb, &values);
    let m = decoding::bench_leb128(4, 100, &leb).unwrap();
    assert_eq!((m.ops, m.bytes), (100, 4));
}

#[test]
fn bench_encoders_report_counts() {
    let m = encoding::bench_varint(2, 50);
    assert_eq!((m.ops, m.bytes), (50, 2));
    let m = encoding::bench_varint_write(9, 50);
    assert_eq!((m.ops, m.bytes), (50, 9));
    let m = encoding::bench_leb128(3, 50);
    assert_eq!((m.ops, m.bytes), (50, 3));
}
