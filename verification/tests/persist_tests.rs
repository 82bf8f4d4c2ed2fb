use minic::error::DecodeError;
use minic::lexer::{scan, LexerOutput};
use minic::persist::output;
use minic::token::{Identifier, Position, Token, TokenKind};

fn chars(s: &str) -> Vec<char> {
    s.chars().collect()
}

#[test]
fn test_output() {
    let lexer_output = LexerOutput {
        tokens: vec![
            Token { kind: TokenKind::Id(0), pos: Position { line: 1, col: 1 } },
            Token { kind: TokenKind::Else, pos: Position { line: 1, col: 5 } },
        ],
        id_table: vec![Identifier { text_begin: 0, text_len: 3 }],
        text: b"abc".to_vec(),
    };
    let v = output(&lexer_output);
    let lexer_output_read = LexerOutput::try_from(&v).unwrap();
    assert_eq!(lexer_output, lexer_output_read);
}

#[test]
fn empty_output_round_trips() {
    let empty = LexerOutput { tokens: vec![], id_table: vec![], text: vec![] };
    let v = output(&empty);
    assert_eq!(v.len(), 48);
    assert_eq!(LexerOutput::try_from(&v).unwrap(), empty);
}

#[test]
fn scanned_output_round_trips() {
    let out = scan(&chars("int a[3]; double pi = 3.14; a = a + 1;")).unwrap();
    let v = output(&out);
    assert_eq!(LexerOutput::try_from(&v).unwrap(), out);
}

#[test]
fn header_layout_is_byte_exact() {
    // Three {offset, len} descriptors; the token section starts right after
    // the header and each section starts where the previous one ends.
    let out = scan(&chars("ab = 1;")).unwrap();
    assert_eq!(out.tokens.len(), 4);
    assert_eq!(out.id_table.len(), 1);
    assert_eq!(out.text, b"ab".to_vec());
    let v = output(&out);
    let read = |o: usize| u64::from_le_bytes(v[o..o + 8].try_into().unwrap());
    assert_eq!(read(0), 48); // token section offset
    assert_eq!(read(8), 4); // token count
    assert_eq!(read(16), 48 + 4 * 41); // identifier section offset
    assert_eq!(read(24), 1); // identifier count
    assert_eq!(read(32), 48 + 4 * 41 + 1 * 16); // text section offset
    assert_eq!(read(40), 2); // text byte length
    assert_eq!(v.len(), 48 + 4 * 41 + 16 + 2);
    assert_eq!(&v[v.len() - 2..], b"ab");
}

#[test]
fn truncated_buffer_is_rejected() {
    assert_eq!(LexerOutput::try_from(&vec![0u8; 47]).unwrap_err(), DecodeError::Truncated);
    let out = scan(&chars("x")).unwrap();
    let mut v = output(&out);
    v.pop();
    assert_eq!(LexerOutput::try_from(&v).unwrap_err(), DecodeError::Truncated);
}

#[test]
fn inconsistent_section_offset_is_rejected() {
    let out = scan(&chars("x")).unwrap();
    let mut v = output(&out);
    v[16] = v[16].wrapping_add(1); // shift the identifier section offset
    assert_eq!(LexerOutput::try_from(&v).unwrap_err(), DecodeError::SectionMismatch);
}

#[test]
fn unknown_token_tag_is_rejected() {
    let out = scan(&chars("x")).unwrap();
    let mut v = output(&out);
    v[48] = 200; // the first record's tag byte
    assert_eq!(LexerOutput::try_from(&v).unwrap_err(), DecodeError::BadRecord);
}

#[test]
fn invalid_utf8_text_is_rejected() {
    let out = scan(&chars("x")).unwrap();
    let mut v = output(&out);
    let text_off = v.len() - 1;
    v[text_off] = 0xff; // no UTF-8 sequence starts with 0xff
    assert_eq!(LexerOutput::try_from(&v).unwrap_err(), DecodeError::InvalidUtf8);
}

#[test]
fn every_token_kind_round_trips() {
    let out = scan(&chars("int double void if else while for do x 1 2.5 + - * / = == < <= > >= ! != ( ) [ ] { } ; ,")).unwrap();
    let v = output(&out);
    assert_eq!(LexerOutput::try_from(&v).unwrap(), out);
}

#[test]
fn trailing_bytes_are_ignored() {
    let out = scan(&chars("x")).unwrap();
    let mut v = output(&out);
    v.push(0u8);
    assert_eq!(LexerOutput::try_from(&v).unwrap(), out);
}
