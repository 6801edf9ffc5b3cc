use vigilant_guard::codec::{
    get_be, get_bool, get_string, get_var_int, put_be, put_bool, put_bytes, put_string,
    put_var_int, slice_range, DecodeError,
};

#[test]
fn big_endian_numbers_are_written_high_byte_first() {
    let mut out = Vec::new();
    put_be(&mut out, 25565, 2);
    assert_eq!(out, vec![0x63, 0xdd]);
    let mut out = Vec::new();
    put_be(&mut out, 42, 8);
    assert_eq!(out, vec![0, 0, 0, 0, 0, 0, 0, 42]);
    let mut out = Vec::new();
    put_be(&mut out, 0x0102_0304_0506_0708_090a_0b0c_0d0e_0f10, 16);
    assert_eq!(out, (1u8..=16).collect::<Vec<u8>>());
}

#[test]
fn big_endian_numbers_read_back() {
    assert_eq!(get_be(&[0x63, 0xdd], 0, 2), Ok((25565, 2)));
    assert_eq!(get_be(&[9, 0, 0, 0, 0, 0, 0, 0, 42], 1, 8), Ok((42, 9)));
    assert_eq!(get_be(&[], 0, 0), Ok((0, 0)));
    assert_eq!(get_be(&[1], 0, 2), Err(DecodeError::UnexpectedEof));
}

#[test]
fn put_be_keeps_only_the_low_bytes() {
    let mut out = Vec::new();
    put_be(&mut out, 0x1_0203, 2);
    assert_eq!(out, vec![0x02, 0x03]);
}

#[test]
fn booleans_are_one_byte() {
    let mut out = Vec::new();
    put_bool(&mut out, true);
    put_bool(&mut out, false);
    assert_eq!(out, vec![1, 0]);
    assert_eq!(get_bool(&out, 0), Ok((true, 1)));
    assert_eq!(get_bool(&out, 1), Ok((false, 2)));
    assert_eq!(get_bool(&out, 2), Err(DecodeError::UnexpectedEof));
    assert_eq!(get_bool(&[2], 0), Err(DecodeError::InvalidBool));
}

#[test]
fn var_ints_read_as_signed() {
    let mut out = Vec::new();
    put_var_int(&mut out, -1);
    put_var_int(&mut out, 300);
    assert_eq!(out, vec![0xff, 0xff, 0xff, 0xff, 0x0f, 0xac, 0x02]);
    assert_eq!(get_var_int(&out, 0), Ok((-1, 5)));
    assert_eq!(get_var_int(&out, 5), Ok((300, 7)));
    assert_eq!(get_var_int(&out, 7), Err(DecodeError::UnexpectedEof));
    assert_eq!(get_var_int(&[0x80, 0x80, 0x80, 0x80, 0x80, 0x00], 0), Err(DecodeError::VarIntTooLarge));
}

#[test]
fn var_int_padded_with_empty_groups_is_refused() {
    assert_eq!(get_var_int(&[0x81, 0x80, 0x00], 0), Err(DecodeError::VarIntNotMinimal));
    assert_eq!(get_var_int(&[0x80, 0x00], 0), Err(DecodeError::VarIntNotMinimal));
    assert_eq!(get_var_int(&[0x80, 0x80, 0x80, 0x80, 0x00], 0), Err(DecodeError::VarIntNotMinimal));
    assert_eq!(get_var_int(&[0x81, 0x80], 0), Err(DecodeError::UnexpectedEof));
    assert_eq!(get_var_int(&[0x00], 0), Ok((0, 1)));
    assert_eq!(get_var_int(&[0x80, 0x01], 0), Ok((128, 2)));
    assert_eq!(get_var_int(&[5], 7), Err(DecodeError::UnexpectedEof));
}

#[test]
fn text_is_length_prefixed_utf8() {
    let mut out = Vec::new();
    put_string(&mut out, "h\u{e9}llo");
    assert_eq!(out, vec![6, b'h', 0xc3, 0xa9, b'l', b'l', b'o']);
    assert_eq!(get_string(&out, 0), Ok(("h\u{e9}llo".to_string(), 7)));
    let mut empty = Vec::new();
    put_string(&mut empty, "");
    assert_eq!(empty, vec![0]);
    assert_eq!(get_string(&empty, 0), Ok((String::new(), 1)));
}

#[test]
fn text_errors() {
    assert_eq!(get_string(&[], 0), Err(DecodeError::UnexpectedEof));
    assert_eq!(get_string(&[3, b'a', b'b'], 0), Err(DecodeError::UnexpectedEof));
    assert_eq!(get_string(&[2, 0xc3, 0x28], 0), Err(DecodeError::InvalidUtf8));
    assert_eq!(get_string(&[0xff, 0xff, 0xff, 0xff, 0x0f], 0), Err(DecodeError::NegativeLength));
    assert_eq!(get_string(&[0x80, 0x80, 0x80, 0x80, 0x80], 0), Err(DecodeError::VarIntTooLarge));
}

#[test]
fn long_text_has_a_two_byte_length() {
    let text = "x".repeat(200);
    let mut out = Vec::new();
    put_string(&mut out, &text);
    assert_eq!(&out[..2], &[0xc8, 0x01]);
    assert_eq!(out.len(), 202);
    assert_eq!(get_string(&out, 0), Ok((text, 202)));
}

#[test]
fn bytes_are_appended_and_cut() {
    let mut out = vec![1u8];
    put_bytes(&mut out, &[2, 3]);
    assert_eq!(out, vec![1, 2, 3]);
    assert_eq!(slice_range(&out, 1, 3), vec![2, 3]);
    assert_eq!(slice_range(&out, 2, 2), Vec::<u8>::new());
}
