use rpdf::chars::{
    hex_to_char, is_delimiter, is_digit, is_number, is_octal, is_regular, is_white,
};
use rpdf::cursor::Cursor;
use rpdf::error::{LexError, LexReason, ParseError};
use rpdf::lexer::{
    read_hex_string, read_name, read_number, read_raw, read_string, read_word, skip_comment,
    skip_run, skip_white, to_token,
};
use rpdf::number::{parse_number, read_unsigned};
use rpdf::pdf::read_until;
use rpdf::stream::read_stream;
use rpdf::text::str_equal;
use rpdf::token::{Real, Token};
use rpdf::xref::{has_word_at, read_entry, XrefEntry};

#[test]
fn white_space_bytes() {
    for b in 0..=255u8 {
        let expected = matches!(b, 0 | 9 | 10 | 12 | 13 | 32);
        assert_eq!(is_white(b), expected, "byte {}", b);
    }
}

#[test]
fn delimiter_bytes() {
    for b in 0..=255u8 {
        let expected = b"()<>[]{}/%".contains(&b);
        assert_eq!(is_delimiter(b), expected, "byte {}", b);
        assert_eq!(is_regular(b), !expected && !is_white(b), "byte {}", b);
    }
}

#[test]
fn number_bytes() {
    for b in 0..=255u8 {
        assert_eq!(is_number(b), b"+-.0123456789".contains(&b), "byte {}", b);
        assert_eq!(is_digit(b), b.is_ascii_digit(), "byte {}", b);
        assert_eq!(is_octal(b), (b'0'..=b'7').contains(&b), "byte {}", b);
    }
}

#[test]
fn hexadecimal_digits() {
    assert_eq!(hex_to_char(b'0'), Ok(0));
    assert_eq!(hex_to_char(b'9'), Ok(9));
    assert_eq!(hex_to_char(b'a'), Ok(10));
    assert_eq!(hex_to_char(b'f'), Ok(15));
    assert_eq!(hex_to_char(b'A'), Ok(10));
    assert_eq!(hex_to_char(b'F'), Ok(15));
    assert_eq!(hex_to_char(b'g'), Err(ParseError::new("not hex")));
    assert_eq!(hex_to_char(b'G'), Err(ParseError::new("not hex")));
    assert_eq!(hex_to_char(b'z'), Err(ParseError::new("not hex")));
    assert_eq!(hex_to_char(b' '), Err(ParseError::new("not hex")));
}

#[test]
fn cursor_reads_and_steps_back() {
    let mut c = Cursor::new(b"ab");
    assert_eq!(c.peek_byte(), Some(b'a'));
    assert_eq!(c.read_byte(), Some(b'a'));
    assert_eq!(c.read_byte(), Some(b'b'));
    assert_eq!(c.read_byte(), None);
    assert_eq!(c.pos, 2);
    c.unread_bytes(1);
    assert_eq!(c.peek_byte(), Some(b'b'));
    c.unread_bytes(5);
    assert_eq!(c.pos, 0);
    let c = Cursor::at(b"ab", 7);
    assert_eq!(c.peek_byte(), None);
}

#[test]
fn skipping() {
    let mut c = Cursor::new(b" \t\r\n\x0c\0x ");
    skip_white(&mut c);
    assert_eq!(c.pos, 6);
    skip_white(&mut c);
    assert_eq!(c.pos, 6);
    let mut c = Cursor::new(b"a comment\rnext");
    skip_comment(&mut c);
    assert_eq!(c.pos, 10);
    let mut c = Cursor::new(b"no end of line");
    skip_comment(&mut c);
    assert_eq!(c.pos, 14);
    let mut c = Cursor::new(b"word#20(");
    skip_run(&mut c);
    assert_eq!(c.pos, 7);
}

#[test]
fn names_after_the_solidus() {
    let mut c = Cursor::new(b"Type/Next");
    assert_eq!(read_name(&mut c), Ok(Token::Name("Type".to_string())));
    assert_eq!(c.pos, 4);
    let mut c = Cursor::new(b" x");
    assert_eq!(read_name(&mut c), Ok(Token::Name(String::new())));
    assert_eq!(c.pos, 0);
    let mut c = Cursor::new(b"A#20B#c3#a9");
    assert_eq!(read_name(&mut c), Ok(Token::Name("A B\u{e9}".to_string())));
    let mut c = Cursor::new(b"A#2");
    assert_eq!(read_name(&mut c), Err(LexError { offset: 1, reason: LexReason::BadNameEscape }));
    assert_eq!(c.pos, 3);
}

#[test]
fn numbers_after_their_first_byte() {
    let mut c = Cursor::new(b"23]");
    assert_eq!(read_number(&mut c, b'1'), Ok(Token::Integer(123)));
    assert_eq!(c.pos, 2);
    let mut c = Cursor::new(b"5 ");
    assert_eq!(read_number(&mut c, b'.'), Ok(Token::Real(Real { mantissa: 5, scale: 1 })));
    let mut c = Cursor::new(b"");
    assert_eq!(read_number(&mut c, b'7'), Ok(Token::Integer(7)));
    let mut c = Cursor::at(b"x-", 1);
    assert_eq!(
        read_number(&mut c, b'-'),
        Err(LexError { offset: 0, reason: LexReason::MalformedNumber })
    );
}

#[test]
fn number_values() {
    assert_eq!(parse_number(b"0"), Ok(Token::Integer(0)));
    assert_eq!(parse_number(b"-0"), Ok(Token::Integer(0)));
    assert_eq!(parse_number(b"+17"), Ok(Token::Integer(17)));
    assert_eq!(parse_number(b"000000000000000000000042"), Ok(Token::Integer(42)));
    assert_eq!(parse_number(b"9223372036854775807"), Ok(Token::Integer(i64::MAX)));
    assert_eq!(parse_number(b"9223372036854775808"), Err(LexReason::NumberOutOfRange));
    assert_eq!(parse_number(b"-9223372036854775809"), Err(LexReason::NumberOutOfRange));
    assert_eq!(parse_number(b"99999999999999999999999"), Err(LexReason::NumberOutOfRange));
    assert_eq!(parse_number(b"3.14"), Ok(Token::Real(Real { mantissa: 314, scale: 2 })));
    assert_eq!(parse_number(b"-0.001"), Ok(Token::Real(Real { mantissa: -1, scale: 3 })));
    assert_eq!(parse_number(b"10."), Ok(Token::Real(Real { mantissa: 10, scale: 0 })));
    for bad in [&b""[..], b"+", b"-", b".", b"+.", b"1.2.3", b"--1", b"1+", b"1e5", b"0x10"] {
        assert_eq!(parse_number(bad), Err(LexReason::MalformedNumber), "{:?}", bad);
    }
}

#[test]
fn unsigned_numbers() {
    let mut c = Cursor::new(b"0012 rest");
    assert_eq!(read_unsigned(&mut c), Some(12));
    assert_eq!(c.pos, 4);
    assert_eq!(read_unsigned(&mut c), None);
    assert_eq!(c.pos, 4);
    let mut c = Cursor::new(b"18446744073709551615");
    assert_eq!(read_unsigned(&mut c), Some(u64::MAX));
    let mut c = Cursor::new(b"18446744073709551616x");
    assert_eq!(read_unsigned(&mut c), None);
    assert_eq!(c.pos, 20);
}

#[test]
fn strings_after_their_opening_byte() {
    let mut c = Cursor::new(b"plain)");
    assert_eq!(read_string(&mut c), Ok(Token::LiteralString(b"plain".to_vec())));
    let mut c = Cursor::new(b"\\b\\bx)");
    assert_eq!(read_string(&mut c), Ok(Token::LiteralString(b"x".to_vec())));
    let mut c = Cursor::new(b"a\\\r\nb)");
    assert_eq!(read_string(&mut c), Ok(Token::LiteralString(b"a\nb".to_vec())));
    let mut c = Cursor::new(b"\\0\\08\\1234)");
    assert_eq!(read_string(&mut c), Ok(Token::LiteralString(b"\0\x008S4".to_vec())));
    let mut c = Cursor::new(b"abc\\");
    assert_eq!(
        read_string(&mut c),
        Err(LexError { offset: 4, reason: LexReason::UnterminatedString })
    );
    let mut c = Cursor::new(b"4a>");
    assert_eq!(read_hex_string(&mut c), Ok(Token::LiteralString(b"J".to_vec())));
    let mut c = Cursor::new(b">");
    assert_eq!(read_hex_string(&mut c), Ok(Token::LiteralString(Vec::new())));
}

#[test]
fn keywords() {
    assert_eq!(to_token("true"), Some(Token::Bool(true)));
    assert_eq!(to_token("false"), Some(Token::Bool(false)));
    assert_eq!(to_token("null"), Some(Token::Null));
    assert_eq!(to_token("obj"), Some(Token::ObjBegin));
    assert_eq!(to_token("endobj"), Some(Token::ObjEnd));
    assert_eq!(to_token("stream"), Some(Token::StreamBegin));
    assert_eq!(to_token("endstream"), Some(Token::StreamEnd));
    assert_eq!(to_token("R"), Some(Token::IndirectRefMarker));
    assert_eq!(to_token("r"), None);
    assert_eq!(to_token("True"), None);
    assert_eq!(to_token(""), None);
    let mut c = Cursor::new(b"endobj\n");
    assert_eq!(read_word(&mut c), Ok(Token::ObjEnd));
    assert_eq!(c.pos, 6);
    let mut c = Cursor::new(b"tr#75e ");
    assert_eq!(read_word(&mut c), Ok(Token::Bool(true)));
    let mut c = Cursor::new(b"trailer");
    assert_eq!(read_word(&mut c), Err(LexError { offset: 0, reason: LexReason::UnknownKeyword }));
}

#[test]
fn raw_bytes_of_exact_length() {
    let mut c = Cursor::at(b"0123456789", 2);
    assert_eq!(read_raw(&mut c, 3), Some(b"234".to_vec()));
    assert_eq!(c.pos, 5);
    assert_eq!(read_raw(&mut c, 6), None);
    assert_eq!(c.pos, 5);
    assert_eq!(read_raw(&mut c, 5), Some(b"56789".to_vec()));
    assert_eq!(read_raw(&mut c, 0), Some(Vec::new()));
    let mut c = Cursor::new(b"(not) a [token]");
    let s = read_stream(&mut c, 9).unwrap();
    assert_eq!(s.data, b"(not) a [".to_vec());
    assert_eq!(s.dict.len(), 0);
    assert!(!s.decoded);
    assert_eq!(c.pos, 9);
    assert_eq!(
        read_stream(&mut c, 7).unwrap_err(),
        LexError { offset: 9, reason: LexReason::UnexpectedEof }
    );
    assert_eq!(c.pos, 9);
}

#[test]
fn reading_until_a_delimiter() {
    let mut c = Cursor::new(b"first\rsecond\nthird");
    assert_eq!(read_until(&mut c, b"\n\r"), Some(b"first".to_vec()));
    assert_eq!(c.pos, 6);
    assert_eq!(read_until(&mut c, b"\n\r"), Some(b"second".to_vec()));
    assert_eq!(read_until(&mut c, b"\n\r"), None);
    assert_eq!(c.pos, 18);
    let mut c = Cursor::new(b"abc");
    assert_eq!(read_until(&mut c, b""), None);
}

#[test]
fn words_in_bytes() {
    assert!(has_word_at(b"an xref here", 3, b"xref"));
    assert!(!has_word_at(b"an xref here", 2, b"xref"));
    assert!(!has_word_at(b"xre", 0, b"xref"));
    assert!(!has_word_at(b"xref", 9, b"xref"));
    assert!(has_word_at(b"xref", 4, b""));
}

#[test]
fn cross_reference_entries() {
    let mut c = Cursor::new(b"0000000017 00003 n \n");
    assert_eq!(read_entry(&mut c), Some(XrefEntry::InUse { offset: 17, generation: 3 }));
    assert_eq!(c.pos, 18);
    let mut c = Cursor::new(b"9999999999 65535 f\r\n");
    assert_eq!(
        read_entry(&mut c),
        Some(XrefEntry::Free { next_free_id: 9999999999, generation: 65535 })
    );
    for bad in [
        &b"000000017 00003 n \n"[..],
        b"0000000017 0003 n  \n",
        b"0000000017 00003 x \n",
        b"0000000017_00003 n \n",
        b"0000000017 00003",
        b"00000000a7 00003 n \n",
    ] {
        let mut c = Cursor::new(bad);
        assert_eq!(read_entry(&mut c), None, "{:?}", bad);
        assert_eq!(c.pos, 0);
    }
}

#[test]
fn messages() {
    assert_eq!(ParseError::new("to_token").msg, "to_token");
    assert_eq!(LexReason::MalformedNumber.describe().msg, "malformed number");
    assert_eq!(LexReason::UnexpectedEof.describe().msg, "unexpected end of input");
    assert_eq!(LexReason::UnknownKeyword.describe().msg, "unknown keyword");
    assert!(str_equal("Root", "Root"));
    assert!(!str_equal("Root", "root"));
    assert!(!str_equal("Root", "Roots"));
    assert!(str_equal("", ""));
}
