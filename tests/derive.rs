use dbus_signature::{arg, classify, ArgType, Shape, ShapeError, Signature, SimpleType};

fn int32() -> Shape {
    Shape::Scalar(SimpleType::Int32)
}

fn classified(shape: &Shape) -> (ArgType, String) {
    let a = classify(shape).unwrap();
    (a.arg_type, a.signature)
}

#[test]
fn scalar_shape() {
    assert_eq!(classified(&Shape::Scalar(SimpleType::ObjectPath)), (ArgType::ObjectPath, "o".to_string()));
}

#[test]
fn tuple_shape_is_a_struct() {
    let shape = Shape::Tuple(vec![int32(), Shape::Scalar(SimpleType::String), Shape::Any]);
    assert_eq!(classified(&shape), (ArgType::Struct, "(isv)".to_string()));
    assert_eq!(classified(&Shape::Tuple(vec![])), (ArgType::Struct, "()".to_string()));
}

#[test]
fn record_shape_is_a_string_variant_dict() {
    let shape = Shape::Record(vec![int32(), Shape::Union]);
    assert_eq!(classified(&shape), (ArgType::Array, "a{sv}".to_string()));
    assert_eq!(classified(&Shape::Record(vec![])), (ArgType::Array, "a{sv}".to_string()));
}

#[test]
fn list_and_any_shapes() {
    let shape = Shape::List(Box::new(Shape::Tuple(vec![int32(), int32()])));
    assert_eq!(classified(&shape), (ArgType::Array, "a(ii)".to_string()));
    assert_eq!(classified(&Shape::Any), (ArgType::Variant, "v".to_string()));
}

#[test]
fn payload_free_choice_is_a_string() {
    assert_eq!(classified(&Shape::Choice(vec![0, 0, 0])), (ArgType::String, "s".to_string()));
}

#[test]
fn unclassifiable_shapes() {
    assert_eq!(classify(&Shape::Unit).err(), Some(ShapeError::UnitStruct));
    assert_eq!(classify(&Shape::Choice(vec![])).err(), Some(ShapeError::NoVariants));
    assert_eq!(classify(&Shape::Choice(vec![0, 2, 1])).err(), Some(ShapeError::VariantWithFields(1)));
    assert_eq!(classify(&Shape::Union).err(), Some(ShapeError::Union));
    let nested = Shape::Tuple(vec![int32(), Shape::List(Box::new(Shape::Unit))]);
    assert_eq!(classify(&nested).err(), Some(ShapeError::UnitStruct));
}

#[test]
fn classified_text_parses_back_to_the_same_category() {
    let shapes = vec![
        Shape::Tuple(vec![int32(), Shape::Record(vec![]), Shape::List(Box::new(Shape::Any))]),
        Shape::Record(vec![int32()]),
        Shape::Choice(vec![0]),
        Shape::List(Box::new(Shape::Scalar(SimpleType::Byte))),
    ];
    for shape in &shapes {
        let a = classify(shape).unwrap();
        let parsed = Signature::parse(&a.signature).unwrap().parsed;
        assert_eq!(parsed.len(), 1);
        assert_eq!(parsed[0].arg_type(), a.arg_type);
        assert_eq!(parsed[0].to_signature(), a.signature);
    }
}

#[test]
fn arg_with_given_signature() {
    let given = Signature::parse("a{sv}").unwrap();
    let a = arg(&Shape::Unit, Some(&given), false).unwrap();
    assert_eq!(a.arg_type, ArgType::Array);
    assert_eq!(a.signature, "a{sv}\0");
    let two = Signature::parse("ii").unwrap();
    assert_eq!(arg(&int32(), Some(&two), false).err(), Some(ShapeError::ExpectedOneType));
    let none = Signature::parse("").unwrap();
    assert_eq!(arg(&int32(), Some(&none), false).err(), Some(ShapeError::ExpectedOneType));
}

#[test]
fn arg_inferred() {
    let a = arg(&Shape::Record(vec![int32(), int32()]), None, false).unwrap();
    assert_eq!((a.arg_type, a.signature.as_str()), (ArgType::Array, "a{sv}\0"));
    let a = arg(&Shape::Record(vec![int32(), Shape::Scalar(SimpleType::Bool)]), None, true).unwrap();
    assert_eq!((a.arg_type, a.signature.as_str()), (ArgType::Struct, "(ib)\0"));
    let a = arg(&Shape::Unit, None, true).unwrap();
    assert_eq!((a.arg_type, a.signature.as_str()), (ArgType::Struct, "()\0"));
    assert_eq!(arg(&Shape::Unit, None, false).err(), Some(ShapeError::UnitStruct));
    assert_eq!(arg(&Shape::Choice(vec![3]), None, true).err(), Some(ShapeError::VariantWithFields(0)));
}
