use rpdf::cursor::Cursor;
use rpdf::error::{LexError, LexReason};
use rpdf::lexer::{peek_token, read_token};
use rpdf::token::{Real, Token};

fn lex_all(data: &[u8]) -> Vec<Result<Token, LexError>> {
    let mut c = Cursor::new(data);
    let mut out = Vec::new();
    loop {
        let before = c.pos;
        let t = read_token(&mut c);
        let eof = matches!(t, Err(LexError { reason: LexReason::UnexpectedEof, .. }));
        out.push(t);
        if eof || c.pos == before {
            break;
        }
    }
    out
}

#[test]
fn name_escape_decodes_to_byte() {
    let mut c = Cursor::new(b"/A#4AB ");
    assert_eq!(read_token(&mut c), Ok(Token::Name("AJB".to_string())));
    assert_eq!(c.pos, 6);
}

#[test]
fn literal_string_octal_escapes() {
    let mut c = Cursor::new(b"(\\101\\102)");
    assert_eq!(read_token(&mut c), Ok(Token::LiteralString(b"AB".to_vec())));
    assert_eq!(c.pos, 10);
}

#[test]
fn peek_then_read_see_the_same_token() {
    let data = b"  % note\n 42 true";
    let mut c = Cursor::new(data);
    let peeked = peek_token(&mut c);
    assert_eq!(c.pos, 0);
    let read = read_token(&mut c);
    assert_eq!(peeked, read);
    assert_eq!(read, Ok(Token::Integer(42)));
    assert_eq!(c.pos, 12);
    assert_eq!(read_token(&mut c), Ok(Token::Bool(true)));
}

#[test]
fn keywords_and_delimiters() {
    let toks = lex_all(b"<< >> [ ] obj endobj stream endstream R null false");
    let expected = vec![
        Ok(Token::DictBegin),
        Ok(Token::DictEnd),
        Ok(Token::ArrayBegin),
        Ok(Token::ArrayEnd),
        Ok(Token::ObjBegin),
        Ok(Token::ObjEnd),
        Ok(Token::StreamBegin),
        Ok(Token::StreamEnd),
        Ok(Token::IndirectRefMarker),
        Ok(Token::Null),
        Ok(Token::Bool(false)),
        Err(LexError { offset: 50, reason: LexReason::UnexpectedEof }),
    ];
    assert_eq!(toks, expected);
}

#[test]
fn numbers() {
    let toks = lex_all(b"12 -7 +3 1.5 -.25 4. 1-2 . 9223372036854775808 -9223372036854775808");
    let expected = vec![
        Ok(Token::Integer(12)),
        Ok(Token::Integer(-7)),
        Ok(Token::Integer(3)),
        Ok(Token::Real(Real { mantissa: 15, scale: 1 })),
        Ok(Token::Real(Real { mantissa: -25, scale: 2 })),
        Ok(Token::Real(Real { mantissa: 4, scale: 0 })),
        Err(LexError { offset: 21, reason: LexReason::MalformedNumber }),
        Err(LexError { offset: 25, reason: LexReason::MalformedNumber }),
        Err(LexError { offset: 27, reason: LexReason::NumberOutOfRange }),
        Ok(Token::Integer(i64::MIN)),
        Err(LexError { offset: 67, reason: LexReason::UnexpectedEof }),
    ];
    assert_eq!(toks, expected);
}

#[test]
fn hex_strings() {
    let mut c = Cursor::new(b"<48 65 6c6C 6f7>");
    assert_eq!(read_token(&mut c), Ok(Token::LiteralString(b"Hellop".to_vec())));
    let mut c = Cursor::new(b"<4x>");
    assert_eq!(read_token(&mut c), Err(LexError { offset: 2, reason: LexReason::BadHexDigit }));
    assert_eq!(c.pos, 3);
    let mut c = Cursor::new(b"<41");
    assert_eq!(
        read_token(&mut c),
        Err(LexError { offset: 3, reason: LexReason::UnterminatedHexString })
    );
}

#[test]
fn string_escapes() {
    let mut c = Cursor::new(b"(a\\nb\\tc\\\\d\\(e\\)f\\bg\\fh\\\ni\\zj\\7k\\53l)");
    assert_eq!(read_token(&mut c), Ok(Token::LiteralString(b"a\nb\tc\\d(e)ghij\x07k+l".to_vec())));
    let mut c = Cursor::new(b"(a(b)c)x");
    assert_eq!(read_token(&mut c), Ok(Token::LiteralString(b"ab)c".to_vec())));
    assert_eq!(c.pos, 7);
    let mut c = Cursor::new(b"(never closed");
    assert_eq!(
        read_token(&mut c),
        Err(LexError { offset: 13, reason: LexReason::UnterminatedString })
    );
    let mut c = Cursor::new(b"(\\777)");
    assert_eq!(read_token(&mut c), Ok(Token::LiteralString(vec![0xff])));
    let mut c = Cursor::new(b"(\xff\xfe)");
    assert_eq!(read_token(&mut c), Ok(Token::LiteralString(vec![0xff, 0xfe])));
}

#[test]
fn lex_errors() {
    let mut c = Cursor::new(b"/A#4 ");
    assert_eq!(read_token(&mut c), Err(LexError { offset: 2, reason: LexReason::BadNameEscape }));
    assert_eq!(c.pos, 4);
    let mut c = Cursor::new(b"/A#ff ");
    assert_eq!(read_token(&mut c), Err(LexError { offset: 1, reason: LexReason::InvalidNameText }));
    let mut c = Cursor::new(b" ) ");
    assert_eq!(read_token(&mut c), Err(LexError { offset: 1, reason: LexReason::StrayDelimiter }));
    assert_eq!(c.pos, 2);
    let mut c = Cursor::new(b">x");
    assert_eq!(read_token(&mut c), Err(LexError { offset: 0, reason: LexReason::StrayGreater }));
    assert_eq!(c.pos, 1);
    let mut c = Cursor::new(b"xref ");
    assert_eq!(read_token(&mut c), Err(LexError { offset: 0, reason: LexReason::UnknownKeyword }));
    assert_eq!(c.pos, 4);
    let mut c = Cursor::new(b"");
    assert_eq!(read_token(&mut c), Err(LexError { offset: 0, reason: LexReason::UnexpectedEof }));
}
