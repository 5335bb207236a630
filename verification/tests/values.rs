use copar::decimal::DecimalError;
use copar::number::NumberError;
use copar::unirecord::{
    MemberType, RecordParsingError, ScalarKind, TypeShape, UniRecord, UniRecordArg,
    UniRecordArgVariant,
};

fn failure(literal: &str) -> RecordParsingError {
    match UniRecordArgVariant::decode("n:", literal) {
        Some(Err(e)) => e,
        other => panic!("{:?} gave {:?}", literal, other),
    }
}

#[test]
fn each_scalar_error_has_an_input() {
    let d = NumberError::InvalidDigit;
    assert_eq!(failure("x8(0xg)"), RecordParsingError::BadX8Format(d));
    assert_eq!(failure("x16(0xg)"), RecordParsingError::BadX16Format(d));
    assert_eq!(failure("x32(0xg)"), RecordParsingError::BadX32Format(d));
    assert_eq!(failure("x64(0xg)"), RecordParsingError::BadX64Format(d));
    assert_eq!(failure("u8(a)"), RecordParsingError::BadU8Format(d));
    assert_eq!(failure("u16(a)"), RecordParsingError::BadU16Format(d));
    assert_eq!(failure("u32(a)"), RecordParsingError::BadU32Format(d));
    assert_eq!(failure("u64(a)"), RecordParsingError::BadU64Format(d));
    assert_eq!(failure("i8(a)"), RecordParsingError::BadI8Format(d));
    assert_eq!(failure("i16(a)"), RecordParsingError::BadI16Format(d));
    assert_eq!(failure("i32(a)"), RecordParsingError::BadI32Format(d));
    assert_eq!(failure("i64(a)"), RecordParsingError::BadI64Format(d));
    assert_eq!(failure("f32(a)"), RecordParsingError::BadF32Format(DecimalError::Invalid));
    assert_eq!(failure("f64()"), RecordParsingError::BadF64Format(DecimalError::Empty));
    assert_eq!(failure("bool(maybe)"), RecordParsingError::BadBoolFormat());
    assert_eq!(failure("bool()"), RecordParsingError::BadBoolFormat());
    assert_eq!(failure("id(Mode)"), RecordParsingError::BadIdFormat());
    assert_eq!(failure("id(A::B::C)"), RecordParsingError::BadIdFormat());
}

#[test]
fn each_element_error_has_an_input_and_carries_the_index() {
    let d = NumberError::InvalidDigit;
    assert_eq!(failure("x8([1,g])"), RecordParsingError::BadX8ArrayFieldSyntax(d, 1));
    assert_eq!(failure("x16([g])"), RecordParsingError::BadX16ArrayFieldSyntax(d, 0));
    assert_eq!(failure("x32([1,2,g])"), RecordParsingError::BadX32ArrayFieldSyntax(d, 2));
    assert_eq!(failure("x64([1,g,h])"), RecordParsingError::BadX64ArrayFieldSyntax(d, 1));
    assert_eq!(failure("u8([1, 2])"), RecordParsingError::BadU8ArrayFieldSyntax(d, 1));
    assert_eq!(failure("u16([a])"), RecordParsingError::BadU16ArrayFieldSyntax(d, 0));
    assert_eq!(failure("u32([1,a])"), RecordParsingError::BadU32ArrayFieldSyntax(d, 1));
    assert_eq!(failure("u64([1,a])"), RecordParsingError::BadU64ArrayFieldSyntax(d, 1));
    assert_eq!(
        failure("i8([1,-129])"),
        RecordParsingError::BadI8ArrayFieldSyntax(NumberError::NegOverflow, 1)
    );
    assert_eq!(
        failure("i16([40000])"),
        RecordParsingError::BadI16ArrayFieldSyntax(NumberError::PosOverflow, 0)
    );
    assert_eq!(
        failure("i32([])"),
        RecordParsingError::BadI32ArrayFieldSyntax(NumberError::Empty, 0)
    );
    assert_eq!(
        failure("i64([1,])"),
        RecordParsingError::BadI64ArrayFieldSyntax(NumberError::Empty, 1)
    );
    assert_eq!(
        failure("f32([1.5,x])"),
        RecordParsingError::BadF32ArrayFieldSyntax(DecimalError::Invalid, 1)
    );
    assert_eq!(
        failure("f64([1.5,2,])"),
        RecordParsingError::BadF64ArrayFieldSyntax(DecimalError::Empty, 2)
    );
}

#[test]
fn the_first_bad_element_decides() {
    assert_eq!(
        failure("u8([1,a,300])"),
        RecordParsingError::BadU8ArrayFieldSyntax(NumberError::InvalidDigit, 1)
    );
    assert_eq!(
        failure("u8([1,300,a])"),
        RecordParsingError::BadU8ArrayFieldSyntax(NumberError::PosOverflow, 1)
    );
}

#[test]
fn hexadecimal_values_read_what_stands_after_the_last_x() {
    let value = |literal: &str| match UniRecordArgVariant::decode("n:", literal) {
        Some(Ok(UniRecordArgVariant::X16(arg))) => arg.value,
        other => panic!("{:?}", other),
    };
    assert_eq!(value("x16(0x5ea)"), 0x5ea);
    assert_eq!(value("x16(5EA)"), 0x5ea);
    assert_eq!(value("x16(0x0x10)"), 0x10);
    assert_eq!(value("x16(+1f)"), 0x1f);
}

#[test]
fn truth_values_are_words_or_numbers() {
    let value = |literal: &str| match UniRecordArgVariant::decode("flag:", literal) {
        Some(Ok(UniRecordArgVariant::Bool(arg))) => arg.value,
        other => panic!("{:?}", other),
    };
    assert!(value("bool(true)"));
    assert!(!value("bool(false)"));
    assert!(value("bool(1)"));
    assert!(value("bool(0x10)"));
    assert!(value("bool(52)"));
    assert!(!value("bool(0)"));
    assert!(!value("bool(0x0)"));
    assert_eq!(failure("bool(True)"), RecordParsingError::BadBoolFormat());
    assert_eq!(failure("bool(99999999999999999)"), RecordParsingError::BadBoolFormat());
}

#[test]
fn the_name_of_a_field_stands_before_the_colon() {
    let name = |key: &str| {
        UniRecordArgVariant::decode(key, "u8(1)").unwrap().unwrap().get_name().clone()
    };
    assert_eq!(name("size:"), "size");
    assert_eq!(name("size"), "size");
    assert_eq!(name("a:b:"), "a");
    assert_eq!(name(":"), "");
}

#[test]
fn a_field_knows_its_type() {
    let field = |literal: &str| UniRecordArgVariant::decode("n:", literal).unwrap().unwrap();
    assert_eq!(field("x8(1)").get_type(), MemberType::X8);
    assert_eq!(field("i64([1])").get_type(), MemberType::ArrayOfI64);
    assert_eq!(field("f32(1)").get_type(), MemberType::F32);
    assert_eq!(field("f64([1])").get_type(), MemberType::ArrayOfF64);
    assert_eq!(field("bool(1)").get_type(), MemberType::Bool);
    assert_eq!(field("id(A::B)").get_type(), MemberType::Identifier("A".to_string()));
    assert_eq!(field("u16(1)").get_type().shape(), TypeShape::Scalar(ScalarKind::U16));
    assert_eq!(field("u16([1])").get_type().shape(), TypeShape::Array(ScalarKind::U16));
    assert_eq!(field("id(A::B)").get_type().enum_name(), Some(&"A".to_string()));
    assert_eq!(field("bool(1)").get_type().enum_name(), None);
}

#[test]
fn records_and_fields_are_taken_apart() {
    let field = UniRecordArg { name: "n".to_string(), value: 7u8 };
    assert_eq!(field.dissassemble(), ("n".to_string(), 7u8));
    let identifier = match UniRecordArgVariant::decode("m:", "id(Mode::Fast)") {
        Some(Ok(UniRecordArgVariant::Identifier(arg))) => arg,
        other => panic!("{:?}", other),
    };
    assert_eq!(
        identifier.dissassemble(),
        ("m".to_string(), "Mode".to_string(), "Fast".to_string())
    );
    let record = UniRecord::new(
        "Cmd".to_string(),
        vec![UniRecordArgVariant::U8(UniRecordArg { name: "n".to_string(), value: 7 })],
    );
    assert_eq!(record.name(), "Cmd");
    assert_eq!(record.args().len(), 1);
    let (name, args) = record.dissassemble();
    assert_eq!(name, "Cmd");
    assert_eq!(
        args,
        vec![UniRecordArgVariant::U8(UniRecordArg { name: "n".to_string(), value: 7 })]
    );
}

#[test]
fn errors_of_hexadecimal_values_have_messages() {
    let e = failure("x8(0xg)");
    assert!(e.is_described());
    assert_eq!(e.message(), "Error parsing u8 hexadecimal number: invalid digit found in string");
    assert_eq!(
        failure("x8([1,])").message(),
        "Error parsing u8 hexadecimal number in array at pos 1 : cannot parse integer from empty string"
    );
    assert_eq!(
        failure("x16([1,2,fffff])").message(),
        "Error parsing u16 hexadecimal number in array at pos 2: number too large to fit in target type"
    );
    assert_eq!(
        failure("x32([g])").message(),
        "Error parsing u32 hexadecimal number in array at pos 0: invalid digit found in string"
    );
    assert_eq!(
        failure("x64([1,g])").message(),
        "Error parsing u64 hexadecimal number in array at pos 1: invalid digit found in string"
    );
    assert!(!failure("u8(a)").is_described());
}
