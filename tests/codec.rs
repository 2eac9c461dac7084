use prefix_varint::codec::{
    decode, decode_fast, decode_u16, decode_u32, decode_u64, decode_u8, encode, encode_to_vec,
    required_len, DecodeError,
};

fn sample_values() -> Vec<u64> {
    let mut vs = vec![0u64, 1, 2, 126, 127, 128, 200, 255, 256, 300, 16383, 16384, u64::MAX];
    for shift in 0..64u32 {
        let p = 1u64 << shift;
        vs.push(p - 1);
        vs.push(p);
        vs.push(p | (p >> 1));
    }
    vs
}

#[test]
fn required_len_boundaries() {
    assert_eq!(required_len(0), 1);
    assert_eq!(required_len(127), 1);
    assert_eq!(required_len(128), 2);
    assert_eq!(required_len((1 << 14) - 1), 2);
    assert_eq!(required_len(1 << 14), 3);
    assert_eq!(required_len((1 << 49) - 1), 7);
    assert_eq!(required_len(1 << 49), 8);
    assert_eq!(required_len((1 << 56) - 1), 8);
    assert_eq!(required_len(1 << 56), 9);
    assert_eq!(required_len(u64::MAX), 9);
}

#[test]
fn required_len_is_monotonic() {
    let mut vs = sample_values();
    vs.sort();
    for w in vs.windows(2) {
        assert!(required_len(w[0]) <= required_len(w[1]));
    }
}

#[test]
fn encode_exact_bytes() {
    assert_eq!(encode_to_vec(0), vec![0x00]);
    assert_eq!(encode_to_vec(1), vec![0x01]);
    assert_eq!(encode_to_vec(127), vec![0x7F]);
    assert_eq!(encode_to_vec(128), vec![0x80, 0x80]);
    assert_eq!(encode_to_vec(300), vec![0x81, 0x2C]);
    assert_eq!(encode_to_vec(16383), vec![0xBF, 0xFF]);
    assert_eq!(encode_to_vec(16384), vec![0xC0, 0x00, 0x40]);
    assert_eq!(
        encode_to_vec((1 << 56) - 1),
        vec![0xFE, 0xFF, 0xFF, 0xFF, 0xFF, 0xFF, 0xFF, 0xFF]
    );
    assert_eq!(encode_to_vec(1 << 56), vec![0xFF, 0, 0, 0, 0, 0, 0, 0, 1]);
    assert_eq!(encode_to_vec(u64::MAX), vec![0xFF; 9]);
}

#[test]
fn encode_appends() {
    let mut out = vec![0xAA];
    encode(300, &mut out);
    assert_eq!(out, vec![0xAA, 0x81, 0x2C]);
}

#[test]
fn encode_length_is_required_len() {
    for v in sample_values() {
        assert_eq!(encode_to_vec(v).len() as u32, required_len(v));
    }
}

#[test]
fn boundary_values() {
    assert_eq!(encode_to_vec(0), vec![0]);
    assert_eq!(encode_to_vec(127).len(), 1);
    assert_eq!(encode_to_vec(128).len(), 2);
    assert_eq!(encode_to_vec((1 << 56) - 1).len(), 8);
    assert_eq!(encode_to_vec(1 << 56).len(), 9);
    let bytes = encode_to_vec(u64::MAX);
    assert_eq!(bytes[0], 0xFF);
    let mut cur: &[u8] = &bytes;
    assert_eq!(decode(&mut cur), Ok(u64::MAX));
    assert!(cur.is_empty());
}

#[test]
fn round_trip_all_samples() {
    for v in sample_values() {
        let bytes = encode_to_vec(v);
        let mut cur: &[u8] = &bytes;
        assert_eq!(decode(&mut cur), Ok(v));
        assert!(cur.is_empty());
        let mut cur: &[u8] = &bytes;
        assert_eq!(decode_fast(&mut cur), Ok(v));
        assert!(cur.is_empty());
    }
}

#[test]
fn round_trip_leaves_trailing_bytes() {
    for v in sample_values() {
        let mut bytes = encode_to_vec(v);
        let n = bytes.len();
        bytes.extend_from_slice(&[1, 2, 3, 4, 5, 6, 7, 8, 9, 10]);
        let mut cur: &[u8] = &bytes;
        assert_eq!(decode_fast(&mut cur), Ok(v));
        assert_eq!(cur.len(), bytes.len() - n);
        let mut cur: &[u8] = &bytes;
        assert_eq!(decode(&mut cur), Ok(v));
        assert_eq!(cur, &[1, 2, 3, 4, 5, 6, 7, 8, 9, 10]);
    }
}

#[test]
fn non_minimal_encoding_is_accepted() {
    let bytes = [0x80u8, 0x05];
    let mut cur: &[u8] = &bytes;
    assert_eq!(decode(&mut cur), Ok(5));
    assert!(cur.is_empty());
}

#[test]
fn truncated_input_keeps_cursor() {
    let empty: [u8; 0] = [];
    let mut cur: &[u8] = &empty;
    assert_eq!(decode(&mut cur), Err(DecodeError::Truncated));

    let bytes = [0xC0u8, 0x00];
    let mut cur: &[u8] = &bytes;
    assert_eq!(decode(&mut cur), Err(DecodeError::Truncated));
    assert_eq!(cur.len(), 2);

    let bytes = [0xFFu8, 1, 2, 3, 4, 5, 6, 7];
    let mut cur: &[u8] = &bytes;
    assert_eq!(decode(&mut cur), Err(DecodeError::Truncated));
    assert_eq!(cur.len(), 8);
    assert_eq!(decode_fast(&mut cur), Err(DecodeError::Truncated));
    assert_eq!(cur.len(), 8);

    let full = encode_to_vec(1 << 40);
    for cut in 0..full.len() {
        let mut cur: &[u8] = &full[..cut];
        assert_eq!(decode_fast(&mut cur), Err(DecodeError::Truncated));
        assert_eq!(cur.len(), cut);
    }
}

#[test]
fn fast_and_safe_paths_agree() {
    let mut bytes = Vec::new();
    for v in sample_values() {
        encode(v, &mut bytes);
    }
    let mut a: &[u8] = &bytes;
    let mut b: &[u8] = &bytes;
    loop {
        let x = decode(&mut a);
        let y = decode_fast(&mut b);
        assert_eq!(x, y);
        assert_eq!(a.len(), b.len());
        if x.is_err() {
            break;
        }
    }
    assert!(a.is_empty());
}

#[test]
fn narrowing_to_u8() {
    let bytes = encode_to_vec(300);
    let mut cur: &[u8] = &bytes;
    assert_eq!(decode_u8(&mut cur), Err(DecodeError::RangeError));

    let bytes = encode_to_vec(200);
    let mut cur: &[u8] = &bytes;
    assert_eq!(decode_u8(&mut cur), Ok(200));
    assert!(cur.is_empty());

    let bytes = encode_to_vec(255);
    let mut cur: &[u8] = &bytes;
    assert_eq!(decode_u8(&mut cur), Ok(255));
    let bytes = encode_to_vec(256);
    let mut cur: &[u8] = &bytes;
    assert_eq!(decode_u8(&mut cur), Err(DecodeError::RangeError));
}

#[test]
fn narrowing_to_wider_types() {
    let bytes = encode_to_vec(65535);
    let mut cur: &[u8] = &bytes;
    assert_eq!(decode_u16(&mut cur), Ok(65535));
    let bytes = encode_to_vec(65536);
    let mut cur: &[u8] = &bytes;
    assert_eq!(decode_u16(&mut cur), Err(DecodeError::RangeError));

    let bytes = encode_to_vec(u32::MAX as u64);
    let mut cur: &[u8] = &bytes;
    assert_eq!(decode_u32(&mut cur), Ok(u32::MAX));
    let bytes = encode_to_vec(u32::MAX as u64 + 1);
    let mut cur: &[u8] = &bytes;
    assert_eq!(decode_u32(&mut cur), Err(DecodeError::RangeError));

    let bytes = encode_to_vec(u64::MAX);
    let mut cur: &[u8] = &bytes;
    assert_eq!(decode_u64(&mut cur), Ok(u64::MAX));

    let bytes = [0x81u8];
    let mut cur: &[u8] = &bytes;
    assert_eq!(decode_u8(&mut cur), Err(DecodeError::Truncated));
    assert_eq!(cur.len(), 1);
}

#[test]
fn concrete_sequence_scenario() {
    let values = [0u64, 1, 127, 128, 16384, 1 << 56, u64::MAX];
    let mut bytes = Vec::new();
    for v in values {
        encode(v, &mut bytes);
    }
    assert_eq!(bytes.len(), 1 + 1 + 1 + 2 + 3 + 9 + 9);
    for _ in 0..5 {
        let mut cur: &[u8] = &bytes;
        let mut decoded = Vec::new();
        while !cur.is_empty() {
            decoded.push(decode(&mut cur).unwrap());
        }
        assert_eq!(decoded, values.to_vec());
        assert_eq!(cur.len(), 0);
    }
}
