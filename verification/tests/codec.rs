use halo2_plonk::bits::{pack, unpack, write_bits};
use halo2_plonk::codec::{
    read_i32, read_name, read_u16, read_u32, read_u8, write_all, write_i32, write_name, write_u16,
    write_u32, write_u64, ErrorKind, ReadError, Reader,
};
use halo2_plonk::column::Any;
use halo2_plonk::text::{append_bool, append_hex_byte, append_i32, append_quoted, append_usize};

#[test]
fn integers_are_written_lowest_byte_first() {
    let mut out = vec![0xff];
    write_u16(&mut out, 0x1234);
    write_u32(&mut out, 0x89ab_cdef);
    write_u64(&mut out, 0x0102_0304_0506_0708);
    write_i32(&mut out, -2);
    write_all(&mut out, &[9, 8]);
    assert_eq!(
        out,
        vec![
            0xff, 0x34, 0x12, 0xef, 0xcd, 0xab, 0x89, 8, 7, 6, 5, 4, 3, 2, 1, 0xfe, 0xff, 0xff,
            0xff, 9, 8
        ]
    );
}

#[test]
fn integers_are_cut_to_their_size() {
    let mut out = Vec::new();
    write_u16(&mut out, 0x1_0002);
    assert_eq!(out, vec![2, 0]);
}

#[test]
fn integers_are_read_back() {
    let mut out = Vec::new();
    for x in [i32::MIN, -1, 0, 1, 0x1234, i32::MAX] {
        write_i32(&mut out, x);
    }
    let mut reader = Reader::new(&out);
    for x in [i32::MIN, -1, 0, 1, 0x1234, i32::MAX] {
        assert_eq!(read_i32(&mut reader), Ok(x));
    }
    assert_eq!(read_u8(&mut reader), Err(ReadError::UnexpectedEof));

    let bytes = [7, 0x34, 0x12, 0x78, 0x56, 0x34, 0x12, 1];
    let mut reader = Reader::new(&bytes);
    assert_eq!(read_u8(&mut reader), Ok(7));
    assert_eq!(read_u16(&mut reader), Ok(0x1234));
    assert_eq!(read_u32(&mut reader), Ok(0x1234_5678));
    assert_eq!(reader.remaining(), &[1]);
    assert_eq!(read_u16(&mut reader), Err(ReadError::UnexpectedEof));
    assert_eq!(read_u32(&mut reader), Err(ReadError::UnexpectedEof));
    assert_eq!(read_i32(&mut reader), Err(ReadError::UnexpectedEof));
}

#[test]
fn names_are_read_back() {
    let mut out = Vec::new();
    write_name(&mut out, "na\u{ef}ve \u{1f511}");
    write_name(&mut out, "");
    assert_eq!(out[0..2], [11, 0]);
    let mut reader = Reader::new(&out);
    assert_eq!(read_name(&mut reader), Ok("na\u{ef}ve \u{1f511}".to_string()));
    assert_eq!(read_name(&mut reader), Ok(String::new()));
    assert!(reader.remaining().is_empty());
}

#[test]
fn bad_names_are_refused() {
    let mut reader = Reader::new(&[2, 0, 0xc3, 0x28, 5]);
    assert_eq!(
        read_name(&mut reader),
        Err(ReadError::InvalidName { valid_up_to: 0, error_len: Some(1) })
    );
    let mut reader = Reader::new(&[3, 0, b'a', b'b']);
    assert_eq!(read_name(&mut reader), Err(ReadError::UnexpectedEof));
    let mut reader = Reader::new(&[3]);
    assert_eq!(read_name(&mut reader), Err(ReadError::UnexpectedEof));
}

#[test]
fn bad_names_are_explained_as_std_explains_them() {
    let cases: [&[u8]; 8] = [
        &[0xff],
        &[b'a', b'b', 0xc3, 0x28, b'c'],
        &[b'a', 0xe2, 0x82],
        &[0xe2, 0x82, b'x'],
        &[b'z', 0xf0, 0x9f, 0x94],
        &[0xf0, 0x9f, 0x94, b'!'],
        &[0xed, 0xa0, 0x80],
        &[b'o', b'k', 0xc3, 0xaf, 0x80],
    ];
    for bytes in cases {
        let mut input = vec![bytes.len() as u8, 0];
        input.extend_from_slice(bytes);
        let error = read_name(&mut Reader::new(&input)).unwrap_err();
        let expected = String::from_utf8(bytes.to_vec()).unwrap_err();
        assert_eq!(
            error,
            ReadError::InvalidName {
                valid_up_to: expected.utf8_error().valid_up_to(),
                error_len: expected.utf8_error().error_len(),
            }
        );
        assert_eq!(error.message(), expected.to_string());
    }
}

#[test]
fn bits_are_packed_lowest_first() {
    assert_eq!(pack(&[]), 0);
    assert_eq!(pack(&[true]), 1);
    assert_eq!(pack(&[false, true, true]), 6);
    assert_eq!(pack(&[true; 8]), 255);
    let mut out = vec![1];
    let rows = vec![
        false, false, false, false, false, false, false, true, true, false, true,
    ];
    write_bits(&mut out, &rows);
    assert_eq!(out, vec![1, 0x80, 5]);
    assert_eq!(unpack(&out[1..], 11), rows);
    assert_eq!(unpack(&[0xff, 0xff], 9), vec![true; 9]);
    let mut none = Vec::new();
    write_bits(&mut none, &Vec::new());
    assert!(none.is_empty());
}

#[test]
fn numbers_are_printed_in_decimal() {
    let mut out = String::new();
    append_usize(&mut out, 0);
    out.push(' ');
    append_usize(&mut out, 1_234_567_890);
    out.push(' ');
    append_i32(&mut out, -2_147_483_648);
    out.push(' ');
    append_i32(&mut out, 42);
    out.push(' ');
    append_bool(&mut out, true);
    append_bool(&mut out, false);
    append_quoted(&mut out, "0x40");
    append_hex_byte(&mut out, 0x0a);
    assert_eq!(out, "0 1234567890 -2147483648 42 truefalse\"0x40\"0a");
}

#[test]
fn errors_say_what_is_wrong() {
    let cases = [
        (ReadError::UnexpectedEof, "failed to fill whole buffer"),
        (ReadError::InvalidFieldElement, "Invalid field element"),
        (ReadError::InvalidScaleFactor, "Invalid field element in Scaled"),
        (
            ReadError::QueryOutOfBounds { kind: Any::Fixed, index: 7, len: 3 },
            "Fixed query index 7 out of bounds (len=3)",
        ),
        (
            ReadError::QueryOutOfBounds { kind: Any::Advice, index: 10, len: 0 },
            "Advice query index 10 out of bounds (len=0)",
        ),
        (
            ReadError::QueryOutOfBounds { kind: Any::Instance, index: 1, len: 1 },
            "Instance query index 1 out of bounds (len=1)",
        ),
        (ReadError::InvalidExpressionTag(9), "Invalid expression tag: 0x09"),
        (ReadError::InvalidExpressionTag(0xfe), "Invalid expression tag: 0xfe"),
        (
            ReadError::InvalidName { valid_up_to: 12, error_len: Some(2) },
            "invalid utf-8 sequence of 2 bytes from index 12",
        ),
        (
            ReadError::InvalidName { valid_up_to: 3, error_len: None },
            "incomplete utf-8 byte sequence from index 3",
        ),
        (ReadError::InvalidColumnType(17), "Invalid column type: 17"),
        (ReadError::InvalidMinimumDegree, "Invalid minimum_degree flag"),
        (
            ReadError::UnexpectedVersion(2),
            "unexpected version byte: 0x02 (expected 0x01)",
        ),
        (
            ReadError::SelectorCountMismatch { expected: 3, found: 12 },
            "selector count mismatch: CS has 3, VK has 12",
        ),
        (ReadError::InvalidPoint, "invalid point encoding in proof"),
    ];
    for (error, message) in cases {
        assert_eq!(error.message(), message);
    }
}

#[test]
fn errors_are_of_three_kinds() {
    assert_eq!(ReadError::UnexpectedEof.kind(), ErrorKind::UnexpectedEof);
    assert_eq!(ReadError::InvalidPoint.kind(), ErrorKind::Other);
    assert_eq!(ReadError::InvalidFieldElement.kind(), ErrorKind::InvalidData);
    assert_eq!(
        ReadError::InvalidName { valid_up_to: 0, error_len: None }.kind(),
        ErrorKind::InvalidData
    );
    assert_eq!(ReadError::UnexpectedVersion(2).kind(), ErrorKind::InvalidData);
    assert_eq!(ReadError::InvalidColumnType(9).kind(), ErrorKind::InvalidData);
}
