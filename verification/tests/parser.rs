use rpdf::cursor::Cursor;
use rpdf::error::{Context, LexReason, StructuralError, StructuralReason};
use rpdf::parser::{parse_array, parse_dictionary};
use rpdf::token::Real;
use rpdf::value::{Dict, Kind, TypeMismatch, Value};

fn name(s: &str) -> Value {
    Value::Name(s.to_string())
}

fn reference(id: i64, generation: i64) -> Value {
    Value::Reference { id, generation }
}

#[test]
fn dictionary_with_integer_and_reference() {
    let data = b"<< /Size 2 /Root 1 0 R >>";
    let mut c = Cursor::new(data);
    let dict = parse_dictionary(&mut c).unwrap();
    assert_eq!(dict.len(), 2);
    assert_eq!(dict.get("Size"), Some(&Value::Integer(2)));
    assert_eq!(dict.get("Root"), Some(&reference(1, 0)));
    assert_eq!(dict.get("Info"), None);
    assert_eq!(c.pos, data.len());
}

#[test]
fn array_with_integers_and_reference() {
    let data = b"[1 2 3 0 R]";
    let mut c = Cursor::new(data);
    let items = parse_array(&mut c).unwrap();
    assert_eq!(items, vec![Value::Integer(1), Value::Integer(2), reference(3, 0)]);
    assert_eq!(c.pos, data.len());
}

#[test]
fn dictionary_whose_open_marker_was_read() {
    let mut c = Cursor::new(b"/Type /Catalog /Pages 2 0 R >> trailing");
    let dict = parse_dictionary(&mut c).unwrap();
    assert_eq!(dict.get("Type"), Some(&name("Catalog")));
    assert_eq!(dict.get("Pages"), Some(&reference(2, 0)));
    assert_eq!(c.pos, 30);
}

#[test]
fn integer_lookahead_reads_one_token_only() {
    let mut c = Cursor::new(b"<< /A 1 /B 2 3 /C 4 5 obj >>");
    let err = parse_dictionary(&mut c).unwrap_err();
    assert_eq!(
        err,
        StructuralError {
            context: Context::Dictionary,
            offset: 12,
            reason: StructuralReason::ExpectedName
        }
    );
    let mut c = Cursor::new(b"<< /A 1 /B 2 >>");
    let dict = parse_dictionary(&mut c).unwrap();
    assert_eq!(dict.get("A"), Some(&Value::Integer(1)));
    assert_eq!(dict.get("B"), Some(&Value::Integer(2)));
}

#[test]
fn nested_containers_and_scalars() {
    let data = b"<< /K [ 1 0 R [ true null ] << /X (s) >> 2.50 /N ] /D << /E <41> >> /F false >>";
    let mut c = Cursor::new(data);
    let dict = parse_dictionary(&mut c).unwrap();
    let mut inner = Dict::new();
    inner.push("X".to_string(), Value::String(b"s".to_vec()));
    let expected = Value::Array(vec![
        reference(1, 0),
        Value::Array(vec![Value::Bool(true), Value::Null]),
        Value::Dict(inner),
        Value::Real(Real { mantissa: 250, scale: 2 }),
        name("N"),
    ]);
    assert_eq!(dict.get("K"), Some(&expected));
    let d = dict.get("D").unwrap().as_dict().unwrap();
    assert_eq!(d.get("E"), Some(&Value::String(b"A".to_vec())));
    assert_eq!(dict.get("F"), Some(&Value::Bool(false)));
    assert_eq!(c.pos, data.len());
}

#[test]
fn repeated_key_keeps_the_last_value() {
    let mut c = Cursor::new(b"<< /A 1 /B 2 /A 3 >>");
    let dict = parse_dictionary(&mut c).unwrap();
    assert_eq!(dict.len(), 2);
    assert_eq!(dict.get("A"), Some(&Value::Integer(3)));
    assert_eq!(dict.get("B"), Some(&Value::Integer(2)));
}

#[test]
fn dictionary_errors() {
    let mut c = Cursor::new(b"<< /A >>");
    assert_eq!(
        parse_dictionary(&mut c),
        Err(StructuralError {
            context: Context::Dictionary,
            offset: 5,
            reason: StructuralReason::UnexpectedToken
        })
    );
    let mut c = Cursor::new(b"<< /A 1");
    assert_eq!(
        parse_dictionary(&mut c),
        Err(StructuralError {
            context: Context::Dictionary,
            offset: 7,
            reason: StructuralReason::Lex(LexReason::UnexpectedEof)
        })
    );
    let mut c = Cursor::new(b"<< 12 /A >>");
    assert_eq!(
        parse_dictionary(&mut c),
        Err(StructuralError {
            context: Context::Dictionary,
            offset: 2,
            reason: StructuralReason::ExpectedName
        })
    );
    let mut c = Cursor::new(b"<< /A [ 1 } ] >>");
    assert_eq!(
        parse_dictionary(&mut c),
        Err(StructuralError {
            context: Context::Array,
            offset: 10,
            reason: StructuralReason::Lex(LexReason::StrayDelimiter)
        })
    );
}

#[test]
fn array_errors() {
    let mut c = Cursor::new(b"[ 1 R ]");
    assert_eq!(
        parse_array(&mut c),
        Err(StructuralError {
            context: Context::Array,
            offset: 3,
            reason: StructuralReason::DanglingReference
        })
    );
    let mut c = Cursor::new(b"[ /A 1 R ]");
    assert_eq!(
        parse_array(&mut c),
        Err(StructuralError {
            context: Context::Array,
            offset: 6,
            reason: StructuralReason::DanglingReference
        })
    );
    let mut c = Cursor::new(b"1 2 ]");
    assert_eq!(
        parse_array(&mut c),
        Err(StructuralError {
            context: Context::Array,
            offset: 0,
            reason: StructuralReason::ExpectedArray
        })
    );
    let mut c = Cursor::new(b"[ 1 endobj ]");
    assert_eq!(
        parse_array(&mut c),
        Err(StructuralError {
            context: Context::Array,
            offset: 3,
            reason: StructuralReason::UnexpectedToken
        })
    );
    let mut c = Cursor::new(b"[ 1 2");
    assert_eq!(
        parse_array(&mut c),
        Err(StructuralError {
            context: Context::Array,
            offset: 5,
            reason: StructuralReason::Lex(LexReason::UnexpectedEof)
        })
    );
}

#[test]
fn dict_push_and_get() {
    let mut d = Dict::new();
    assert_eq!(d.len(), 0);
    d.push("Length".to_string(), Value::Integer(5));
    d.push("Filter".to_string(), name("FlateDecode"));
    d.push("Length".to_string(), Value::Integer(9));
    assert_eq!(d.len(), 2);
    assert_eq!(d.get("Length"), Some(&Value::Integer(9)));
    assert_eq!(d.get("Filter").and_then(|v| v.as_name().ok()), Some("FlateDecode"));
    assert_eq!(d.get("length"), None);
    assert_eq!(Value::Integer(4).as_integer(), Ok(4));
    assert_eq!(
        name("x").as_integer(),
        Err(TypeMismatch { expected: Kind::Integer, found: Kind::Name })
    );
    assert_eq!(Value::Null.kind(), Kind::Null);
    assert_eq!(
        Value::Integer(1).as_name(),
        Err(TypeMismatch { expected: Kind::Name, found: Kind::Integer })
    );
    assert_eq!(Value::String(b"s".to_vec()).as_string(), Ok(&b"s".to_vec()));
    assert_eq!(
        Value::Bool(true).as_string(),
        Err(TypeMismatch { expected: Kind::String, found: Kind::Bool })
    );
    assert_eq!(reference(3, 1).as_reference(), Ok((3, 1)));
    assert_eq!(
        Value::Array(vec![]).as_reference(),
        Err(TypeMismatch { expected: Kind::Reference, found: Kind::Array })
    );
    assert_eq!(
        Value::Real(Real { mantissa: 1, scale: 0 }).as_dict().unwrap_err(),
        TypeMismatch { expected: Kind::Dict, found: Kind::Real }
    );
    assert_eq!(
        Value::Dict(Dict::new()).as_array().unwrap_err(),
        TypeMismatch { expected: Kind::Array, found: Kind::Dict }
    );
}
