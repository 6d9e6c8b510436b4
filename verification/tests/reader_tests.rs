use token_codec::error::DecodeError;
use token_codec::reader::ByteReader;

#[test]
fn reads_little_endian_integers_in_order() {
    let mut src = ByteReader::new(vec![0x34, 0x12, 0x78, 0x56, 0x34, 0x12, 0xFF]);
    assert_eq!(src.read_u16_le().unwrap(), 0x1234);
    assert_eq!(src.read_u32_le().unwrap(), 0x12345678);
    assert_eq!(src.read_u8().unwrap(), 0xFF);
    assert_eq!(src.bytes_remaining(), 0);
}

#[test]
fn short_reads_fail_with_unexpected_eof() {
    let mut src = ByteReader::new(vec![0x01]);
    assert_eq!(src.read_u16_le(), Err(DecodeError::UnexpectedEof));
    assert_eq!(src.read_u32_le(), Err(DecodeError::UnexpectedEof));
    assert_eq!(src.read_u8(), Ok(0x01));
    assert_eq!(src.read_u8(), Err(DecodeError::UnexpectedEof));
}

#[test]
fn read_text_counts_character_units_not_bytes() {
    let mut src = ByteReader::new(vec![0x48, 0x00, 0x69, 0x00]);
    let text = src.read_utf16_text(2).unwrap();
    assert_eq!(text, "Hi");
    assert_eq!(src.bytes_remaining(), 0);
}

#[test]
fn read_text_of_zero_units_is_empty() {
    let mut src = ByteReader::new(vec![0x48, 0x00]);
    let text = src.read_utf16_text(0).unwrap();
    assert_eq!(text, "");
    assert_eq!(src.bytes_remaining(), 2);
}

#[test]
fn read_text_with_half_a_unit_is_eof() {
    let mut src = ByteReader::new(vec![0x48, 0x00, 0x69]);
    assert_eq!(src.read_utf16_text(2), Err(DecodeError::UnexpectedEof));
}
