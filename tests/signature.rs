use dbus_signature::{ArgType, DbusType, Signature, SignatureError, SimpleType};

fn parse(text: &str) -> Result<Vec<DbusType>, SignatureError> {
    Signature::parse(text).map(|s| s.parsed)
}

#[test]
fn every_simple_symbol_parses_to_its_type() {
    let table = [
        ('y', SimpleType::Byte, ArgType::Byte),
        ('b', SimpleType::Bool, ArgType::Bool),
        ('n', SimpleType::Int16, ArgType::Int16),
        ('q', SimpleType::UInt16, ArgType::UInt16),
        ('i', SimpleType::Int32, ArgType::Int32),
        ('u', SimpleType::UInt32, ArgType::UInt32),
        ('d', SimpleType::Double, ArgType::Double),
        ('h', SimpleType::UnixFd, ArgType::UnixFd),
        ('s', SimpleType::String, ArgType::String),
        ('o', SimpleType::ObjectPath, ArgType::ObjectPath),
        ('g', SimpleType::Signature, ArgType::Signature),
    ];
    for (c, simple, category) in table {
        let text = c.to_string();
        let parsed = parse(&text).unwrap();
        assert_eq!(parsed, vec![DbusType::Simple(simple)]);
        assert_eq!(parsed[0].arg_type(), category);
        assert_eq!(simple.arg_type(), category);
        assert_eq!(parsed[0].to_signature(), text);
        assert_eq!(simple.symbol(), text);
        assert_eq!(SimpleType::from_char(c, 3), Ok(simple));
    }
}

#[test]
fn from_char_rejects_non_simple() {
    assert_eq!(SimpleType::from_char('v', 4), Err(SignatureError::ExpectedSimpleType('v', 4)));
    assert_eq!(SimpleType::from_char('(', 0), Err(SignatureError::ExpectedSimpleType('(', 0)));
}

#[test]
fn empty_text_has_no_types() {
    assert_eq!(parse(""), Ok(vec![]));
}

#[test]
fn empty_struct() {
    let parsed = parse("()").unwrap();
    assert_eq!(parsed, vec![DbusType::Struct(vec![])]);
    assert_eq!(parsed[0].arg_type(), ArgType::Struct);
    assert_eq!(parsed[0].to_signature(), "()");
}

#[test]
fn struct_of_two_ints() {
    let parsed = parse("(ii)").unwrap();
    assert_eq!(
        parsed,
        vec![DbusType::Struct(vec![
            DbusType::Simple(SimpleType::Int32),
            DbusType::Simple(SimpleType::Int32)
        ])]
    );
    assert_eq!(parsed[0].arg_type(), ArgType::Struct);
    assert_eq!(parsed[0].to_signature(), "(ii)");
}

#[test]
fn string_variant_dict() {
    let parsed = parse("a{sv}").unwrap();
    assert_eq!(parsed, vec![DbusType::Dict(SimpleType::String, Box::new(DbusType::Variant))]);
    assert_eq!(parsed[0].arg_type(), ArgType::Array);
    assert_eq!(parsed[0].to_signature(), "a{sv}");
}

#[test]
fn dict_value_may_be_a_struct() {
    let parsed = parse("a{i(i)}").unwrap();
    assert_eq!(
        parsed,
        vec![DbusType::Dict(
            SimpleType::Int32,
            Box::new(DbusType::Struct(vec![DbusType::Simple(SimpleType::Int32)]))
        )]
    );
    assert_eq!(parse("a{is}").unwrap().len(), 1);
}

#[test]
fn dict_key_must_be_simple() {
    assert_eq!(parse("a{(i)s}"), Err(SignatureError::ExpectedSimpleType('(', 2)));
    assert_eq!(parse("a{vs}"), Err(SignatureError::ExpectedSimpleType('v', 2)));
}

#[test]
fn dict_errors() {
    assert_eq!(parse("a{"), Err(SignatureError::ExpectedKeyType(1)));
    assert_eq!(parse("a{s"), Err(SignatureError::ExpectedValueType(1)));
    assert_eq!(parse("a{sv"), Err(SignatureError::DictNotClosed(1)));
    assert_eq!(parse("(a{svi})"), Err(SignatureError::DictNotClosed(2)));
    assert_eq!(parse("a{s)"), Err(SignatureError::ExpectedType(')', 3)));
}

#[test]
fn too_long_text_is_refused() {
    let long = "i".repeat(256);
    assert_eq!(parse(&long), Err(SignatureError::TooLong));
    let garbage = "#".repeat(300);
    assert_eq!(parse(&garbage), Err(SignatureError::TooLong));
    let longest = "i".repeat(255);
    assert_eq!(parse(&longest).unwrap().len(), 255);
}

#[test]
fn terminator_must_end_the_text() {
    assert_eq!(parse("ab\0cd"), Err(SignatureError::AfterTerminator(2)));
    assert_eq!(
        parse("ab\0"),
        Ok(vec![DbusType::Array(Box::new(DbusType::Simple(SimpleType::Bool)))])
    );
    assert_eq!(parse("\0"), Ok(vec![]));
}

#[test]
fn unclosed_paren_names_its_offset() {
    assert_eq!(parse("(ii"), Err(SignatureError::ParenNotClosed(0)));
    assert_eq!(parse("i(i(s)"), Err(SignatureError::ParenNotClosed(1)));
}

#[test]
fn other_errors() {
    assert_eq!(parse("a"), Err(SignatureError::MissingArrayType(1)));
    assert_eq!(parse("ix"), Err(SignatureError::ExpectedType('x', 1)));
    assert_eq!(parse(")"), Err(SignatureError::ExpectedType(')', 0)));
    assert_eq!(parse("(\0)"), Err(SignatureError::ExpectedType('\0', 1)));
}

#[test]
fn several_top_level_types() {
    let parsed = parse("sa(iv)aai").unwrap();
    assert_eq!(parsed.len(), 3);
    let texts: Vec<String> = parsed.iter().map(|t| t.to_signature()).collect();
    assert_eq!(texts, vec!["s", "a(iv)", "aai"]);
    assert_eq!(parsed[1].arg_type(), ArgType::Array);
}

#[test]
fn expand_to_signature_adds_one_terminator() {
    let sig = Signature::parse("a{sv}").unwrap();
    assert_eq!(sig.src, "a{sv}");
    assert_eq!(sig.expand_to_signature(), "a{sv}\0");
    let sig = Signature::parse("i\0").unwrap();
    assert_eq!(sig.expand_to_signature(), "i\0");
    let sig = Signature::parse("").unwrap();
    assert_eq!(sig.expand_to_signature(), "\0");
}
