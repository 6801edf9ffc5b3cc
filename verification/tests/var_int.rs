use vigilant_guard::var_int::{VarInt, VarIntDecodeError};

fn encoded(value: i32) -> Vec<u8> {
    let mut out = Vec::new();
    VarInt(value).encode(&mut out);
    out
}

#[test]
fn var_int_known_encodings() {
    assert_eq!(encoded(0), vec![0x00]);
    assert_eq!(encoded(1), vec![0x01]);
    assert_eq!(encoded(127), vec![0x7f]);
    assert_eq!(encoded(128), vec![0x80, 0x01]);
    assert_eq!(encoded(255), vec![0xff, 0x01]);
    assert_eq!(encoded(25565), vec![0xdd, 0xc7, 0x01]);
    assert_eq!(encoded(2097151), vec![0xff, 0xff, 0x7f]);
    assert_eq!(encoded(i32::MAX), vec![0xff, 0xff, 0xff, 0xff, 0x07]);
    assert_eq!(encoded(-1), vec![0xff, 0xff, 0xff, 0xff, 0x0f]);
    assert_eq!(encoded(i32::MIN), vec![0x80, 0x80, 0x80, 0x80, 0x08]);
}

#[test]
fn var_int_round_trip_on_samples() {
    for value in [0, 1, -1, 127, 128, 300, 16383, 16384, 2097151, 2097152, i32::MAX, i32::MIN, -12345] {
        let bytes = encoded(value);
        assert_eq!(bytes.len(), VarInt(value).written_size());
        assert_eq!(VarInt::decode(&bytes, 0), Ok((VarInt(value), bytes.len())));
    }
}

#[test]
fn var_int_incomplete_and_too_large() {
    assert_eq!(VarInt::decode(&[], 0), Err(VarIntDecodeError::Incomplete));
    assert_eq!(VarInt::decode(&[0x80], 0), Err(VarIntDecodeError::Incomplete));
    assert_eq!(VarInt::decode(&[0x80, 0x80, 0x80, 0x80, 0x80], 0), Err(VarIntDecodeError::TooLarge));
    assert_eq!(VarInt::decode(&[0xff, 0xff, 0xff, 0xff, 0x10], 0), Err(VarIntDecodeError::TooLarge));
    assert_eq!(VarInt::decode(&[0xff, 0xff, 0xff, 0xff, 0x7f], 0), Err(VarIntDecodeError::TooLarge));
    assert_eq!(VarInt::decode(&[1], 1), Err(VarIntDecodeError::Incomplete));
    assert_eq!(VarInt::decode(&[1], 9), Err(VarIntDecodeError::Incomplete));
}

#[test]
fn var_int_longer_than_needed_is_refused() {
    assert_eq!(VarInt::decode(&[0x80, 0x00], 0), Err(VarIntDecodeError::NotMinimal));
    assert_eq!(VarInt::decode(&[0xff, 0x80, 0x00], 0), Err(VarIntDecodeError::NotMinimal));
    assert_eq!(VarInt::decode(&[0x80, 0x80, 0x80, 0x80, 0x00], 0), Err(VarIntDecodeError::NotMinimal));
    assert_eq!(VarInt::decode(&[0x80, 0x80, 0x01], 0), Ok((VarInt(16384), 3)));
    assert_eq!(VarInt::decode(&[0x00], 0), Ok((VarInt(0), 1)));
}

#[test]
fn var_int_reads_at_a_position() {
    assert_eq!(VarInt::decode(&[9, 9, 0xac, 0x02, 9], 2), Ok((VarInt(300), 4)));
    assert_eq!(VarInt::decode(&[9, 9, 0xac], 2), Err(VarIntDecodeError::Incomplete));
}

#[test]
fn only_the_encoding_reads_as_the_value() {
    for value in [0, 1, 127, 128, 16383, 16384, -1, i32::MIN] {
        let bytes = encoded(value);
        for extra in [vec![0x00u8], vec![0x80, 0x00]] {
            if bytes.len() + extra.len() > 5 {
                continue;
            }
            let mut padded = bytes.clone();
            let last = padded.len() - 1;
            padded[last] |= 0x80;
            padded.extend_from_slice(&extra);
            assert_eq!(VarInt::decode(&padded, 0), Err(VarIntDecodeError::NotMinimal));
        }
    }
}
