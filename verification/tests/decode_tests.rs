use token_codec::error::DecodeError;
use token_codec::reader::ByteReader;
use token_codec::token_error::TokenError;
use token_codec::version::{FeatureLevel, WIDE_LINE_INTRO_LEVEL};

fn narrow_level() -> FeatureLevel {
    FeatureLevel { level: WIDE_LINE_INTRO_LEVEL }
}

fn wide_level() -> FeatureLevel {
    FeatureLevel { level: WIDE_LINE_INTRO_LEVEL + 1 }
}

fn reference_record_narrow() -> Vec<u8> {
    vec![
        0x00, 0x00, // declared body length (informational)
        0x01, 0x00, 0x00, 0x00, // code = 1
        0x02, // state = 2
        0x0A, // class = 10
        0x05, 0x00, // message length: 5 units
        0x45, 0x00, 0x72, 0x00, 0x72, 0x00, 0x6F, 0x00, 0x72, 0x00, // "Error"
        0x02, // server length: 2 units
        0x64, 0x00, 0x62, 0x00, // "db"
        0x00, // procedure length: 0 units
        0x07, 0x00, // line = 7, narrow
    ]
}

fn reference_record_wide() -> Vec<u8> {
    let mut bytes = reference_record_narrow();
    bytes.truncate(bytes.len() - 2);
    bytes.extend_from_slice(&[0x07, 0x00, 0x00, 0x00]);
    bytes
}

#[test]
fn decodes_reference_record_narrow() {
    let mut src = ByteReader::new(reference_record_narrow());
    let token = TokenError::decode(&mut src, narrow_level()).unwrap();
    assert_eq!(token.code, 1);
    assert_eq!(token.state, 2);
    assert_eq!(token.class, 10);
    assert_eq!(token.message, "Error");
    assert_eq!(token.server, "db");
    assert_eq!(token.procedure, "");
    assert_eq!(token.line, 7);
    assert_eq!(src.bytes_remaining(), 0);
}

#[test]
fn decodes_reference_record_wide() {
    let mut src = ByteReader::new(reference_record_wide());
    let token = TokenError::decode(&mut src, wide_level()).unwrap();
    assert_eq!(token.code, 1);
    assert_eq!(token.state, 2);
    assert_eq!(token.class, 10);
    assert_eq!(token.message, "Error");
    assert_eq!(token.server, "db");
    assert_eq!(token.procedure, "");
    assert_eq!(token.line, 7);
    assert_eq!(src.bytes_remaining(), 0);
}

#[test]
fn level_below_threshold_takes_narrow_branch() {
    let below = FeatureLevel { level: WIDE_LINE_INTRO_LEVEL - 1 };
    let mut src = ByteReader::new(reference_record_narrow());
    let token = TokenError::decode(&mut src, below).unwrap();
    assert_eq!(token.line, 7);
    assert_eq!(src.bytes_remaining(), 0);
}

#[test]
fn version_gate_boundaries() {
    assert!(!FeatureLevel { level: WIDE_LINE_INTRO_LEVEL - 1 }.wide_line_numbers());
    assert!(!FeatureLevel { level: WIDE_LINE_INTRO_LEVEL }.wide_line_numbers());
    assert!(FeatureLevel { level: WIDE_LINE_INTRO_LEVEL + 1 }.wide_line_numbers());
}

#[test]
fn zero_length_texts_decode_to_empty() {
    let bytes = vec![
        0x08, 0x00, // declared body length
        0xFE, 0xFF, 0xFF, 0xFF, // code
        0x00, // state
        0x01, // class
        0x00, 0x00, // message length: 0 units
        0x00, // server length: 0 units
        0x00, // procedure length: 0 units
        0x2A, 0x00, // line = 42, narrow
    ];
    let mut src = ByteReader::new(bytes);
    let token = TokenError::decode(&mut src, narrow_level()).unwrap();
    assert_eq!(token.code, 0xFFFF_FFFE);
    assert_eq!(token.message, "");
    assert_eq!(token.server, "");
    assert_eq!(token.procedure, "");
    assert_eq!(token.line, 42);
    assert_eq!(src.bytes_remaining(), 0);
}

#[test]
fn truncation_anywhere_gives_unexpected_eof_narrow() {
    let full = reference_record_narrow();
    for cut in 0..full.len() {
        let mut src = ByteReader::new(full[..cut].to_vec());
        let got = TokenError::decode(&mut src, narrow_level());
        assert!(matches!(got, Err(DecodeError::UnexpectedEof)), "cut at {}", cut);
    }
}

#[test]
fn truncation_anywhere_gives_unexpected_eof_wide() {
    let full = reference_record_wide();
    for cut in 0..full.len() {
        let mut src = ByteReader::new(full[..cut].to_vec());
        let got = TokenError::decode(&mut src, wide_level());
        assert!(matches!(got, Err(DecodeError::UnexpectedEof)), "cut at {}", cut);
    }
}

#[test]
fn narrow_tail_under_wide_version_is_eof() {
    let mut src = ByteReader::new(reference_record_narrow());
    let got = TokenError::decode(&mut src, wide_level());
    assert!(matches!(got, Err(DecodeError::UnexpectedEof)));
}

#[test]
fn lone_high_surrogate_is_invalid_encoding() {
    let bytes = vec![
        0x00, 0x00, // declared body length
        0x01, 0x00, 0x00, 0x00, // code
        0x00, // state
        0x00, // class
        0x01, 0x00, // message length: 1 unit
        0x00, 0xD8, // unit 0xD800: first half of a pair, alone
        0x00, // server length
        0x00, // procedure length
        0x00, 0x00, // line
    ];
    let mut src = ByteReader::new(bytes);
    let got = TokenError::decode(&mut src, narrow_level());
    assert!(matches!(got, Err(DecodeError::InvalidEncoding)));
}

#[test]
fn lone_low_surrogate_is_invalid_encoding() {
    let bytes = vec![
        0x00, 0x00, 0x01, 0x00, 0x00, 0x00, 0x00, 0x00, 0x01, 0x00, 0x00, 0xDC, 0x00, 0x00,
        0x00, 0x00,
    ];
    let mut src = ByteReader::new(bytes);
    let got = TokenError::decode(&mut src, narrow_level());
    assert!(matches!(got, Err(DecodeError::InvalidEncoding)));
}

#[test]
fn high_surrogate_without_low_is_invalid_encoding() {
    let bytes = vec![
        0x00, 0x00, 0x01, 0x00, 0x00, 0x00, 0x00, 0x00, 0x02, 0x00, // two units
        0x00, 0xD8, // high surrogate
        0x41, 0x00, // 'A': not a low surrogate
        0x00, 0x00, 0x00, 0x00,
    ];
    let mut src = ByteReader::new(bytes);
    let got = TokenError::decode(&mut src, narrow_level());
    assert!(matches!(got, Err(DecodeError::InvalidEncoding)));
}

#[test]
fn surrogate_pair_decodes_to_one_character() {
    let bytes = vec![
        0x00, 0x00, 0x01, 0x00, 0x00, 0x00, 0x00, 0x00, 0x02, 0x00, // two units
        0x3D, 0xD8, 0x00, 0xDE, // U+1F600 as the pair 0xD83D 0xDE00
        0x00, 0x00, 0x09, 0x00,
    ];
    let mut src = ByteReader::new(bytes);
    let token = TokenError::decode(&mut src, narrow_level()).unwrap();
    assert_eq!(token.message, "\u{1F600}");
    assert_eq!(token.line, 9);
}

#[test]
fn declared_length_is_not_used_to_bound_reads() {
    let mut bytes = reference_record_narrow();
    bytes[0] = 0xFF;
    bytes[1] = 0xFF;
    let mut src = ByteReader::new(bytes);
    let token = TokenError::decode(&mut src, narrow_level()).unwrap();
    assert_eq!(token.message, "Error");
    assert_eq!(token.line, 7);
}

#[test]
fn trailing_bytes_are_left_unread() {
    let mut bytes = reference_record_narrow();
    bytes.extend_from_slice(&[0xAA, 0xBB, 0xCC]);
    let mut src = ByteReader::new(bytes);
    let token = TokenError::decode(&mut src, narrow_level()).unwrap();
    assert_eq!(token.server, "db");
    assert_eq!(src.bytes_remaining(), 3);
}
