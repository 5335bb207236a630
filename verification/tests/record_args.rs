use copar::decimal::Decimal;
use copar::unirecord::{IdentifierRecordArg, UniRecordArg, UniRecordArgVariant};

fn decode(key: &str, literal: &str) -> UniRecordArgVariant {
    UniRecordArgVariant::decode(key, literal).unwrap().unwrap()
}

#[test]
fn record_arg_parsing_test() {
    assert_eq!(
        UniRecordArgVariant::from("test_val:", "x8(0x25)"),
        Ok(UniRecordArgVariant::X8(UniRecordArg { name: String::from("test_val"), value: 0x25 }))
    );
    assert_eq!(
        UniRecordArgVariant::from("test_val:", "x16(0xFF3A)"),
        Ok(UniRecordArgVariant::X16(UniRecordArg { name: String::from("test_val"), value: 0xFF3A }))
    );
    assert_eq!(
        UniRecordArgVariant::from("test_val:", "x32(0x23A4F89E)"),
        Ok(UniRecordArgVariant::X32(UniRecordArg {
            name: String::from("test_val"),
            value: 0x23A4F89E
        }))
    );
    assert_eq!(
        UniRecordArgVariant::from("test_val:", "x64(0xEE3FB4FAD554CE05)"),
        Ok(UniRecordArgVariant::X64(UniRecordArg {
            name: String::from("test_val"),
            value: 0xEE3FB4FAD554CE05
        }))
    );
    assert_eq!(
        UniRecordArgVariant::from("test_val:", "u8(250)"),
        Ok(UniRecordArgVariant::U8(UniRecordArg { name: String::from("test_val"), value: 250 }))
    );
    assert_eq!(
        UniRecordArgVariant::from("test_val:", "u16(25690)"),
        Ok(UniRecordArgVariant::U16(UniRecordArg { name: String::from("test_val"), value: 25690 }))
    );
    assert_eq!(
        UniRecordArgVariant::from("test_val:", "u32(589214450)"),
        Ok(UniRecordArgVariant::U32(UniRecordArg {
            name: String::from("test_val"),
            value: 589214450
        }))
    );
    assert_eq!(
        UniRecordArgVariant::from("test_val:", "u64(56228558925412450)"),
        Ok(UniRecordArgVariant::U64(UniRecordArg {
            name: String::from("test_val"),
            value: 56228558925412450
        }))
    );
    assert_eq!(
        UniRecordArgVariant::from("test_val:", "i8(-105)"),
        Ok(UniRecordArgVariant::I8(UniRecordArg { name: String::from("test_val"), value: -105 }))
    );
    assert_eq!(
        UniRecordArgVariant::from("test_val:", "i16(-5240)"),
        Ok(UniRecordArgVariant::I16(UniRecordArg { name: String::from("test_val"), value: -5240 }))
    );
    assert_eq!(
        UniRecordArgVariant::from("test_val:", "i32(-405251740)"),
        Ok(UniRecordArgVariant::I32(UniRecordArg {
            name: String::from("test_val"),
            value: -405251740
        }))
    );
    assert_eq!(
        UniRecordArgVariant::from("test_val:", "i64(-85405652565187840)"),
        Ok(UniRecordArgVariant::I64(UniRecordArg {
            name: String::from("test_val"),
            value: -85405652565187840
        }))
    );
    assert_eq!(
        UniRecordArgVariant::from("test_val:", "f32(-40525.1740)"),
        Ok(UniRecordArgVariant::F32(UniRecordArg {
            name: String::from("test_val"),
            value: Decimal::from_text("-40525.1740").unwrap()
        }))
    );
    match decode("test_val:", "f32(-40525.1740)") {
        UniRecordArgVariant::F32(arg) => {
            assert_eq!(arg.value.to_text().parse::<f32>().unwrap(), -40525.1740f32)
        }
        other => panic!("{:?}", other),
    }
    assert_eq!(
        UniRecordArgVariant::from("test-val:", "f64(-8540565256.5187840)"),
        Ok(UniRecordArgVariant::F64(UniRecordArg {
            name: String::from("test-val"),
            value: Decimal::from_text("-8540565256.5187840").unwrap()
        }))
    );
    match decode("test-val:", "f64(-8540565256.5187840)") {
        UniRecordArgVariant::F64(arg) => {
            assert_eq!(arg.value.to_text().parse::<f64>().unwrap(), -8540565256.5187840f64)
        }
        other => panic!("{:?}", other),
    }
    assert_eq!(
        UniRecordArgVariant::from("test_val:", "x8([0x25])"),
        Ok(UniRecordArgVariant::ArrayOfX8(UniRecordArg {
            name: String::from("test_val"),
            value: vec![0x25]
        }))
    );
    assert_eq!(
        UniRecordArgVariant::from("test_val:", "x8([0x2A, 0x6F])"),
        Ok(UniRecordArgVariant::ArrayOfX8(UniRecordArg {
            name: String::from("test_val"),
            value: vec![0x2A, 0x6F]
        }))
    );
    assert_eq!(
        UniRecordArgVariant::from("test_val:", "u8([88])"),
        Ok(UniRecordArgVariant::ArrayOfU8(UniRecordArg {
            name: String::from("test_val"),
            value: vec![88]
        }))
    );
    assert_eq!(
        UniRecordArgVariant::from("test_val:", "u8([88,65])"),
        Ok(UniRecordArgVariant::ArrayOfU8(UniRecordArg {
            name: String::from("test_val"),
            value: vec![88, 65]
        }))
    );
    assert_eq!(
        UniRecordArgVariant::from("test_val:", "f32([52.6])"),
        Ok(UniRecordArgVariant::ArrayOfF32(UniRecordArg {
            name: String::from("test_val"),
            value: vec![Decimal::from_text("52.6").unwrap()]
        }))
    );
    assert_eq!(
        UniRecordArgVariant::from("test_val:", "f32([52.6,-42.4])"),
        Ok(UniRecordArgVariant::ArrayOfF32(UniRecordArg {
            name: String::from("test_val"),
            value: vec![Decimal::from_text("52.6").unwrap(), Decimal::from_text("-42.4").unwrap()]
        }))
    );
    match decode("test_val:", "f32([52.6,-42.4])") {
        UniRecordArgVariant::ArrayOfF32(arg) => {
            let values: Vec<f32> =
                arg.value.iter().map(|d| d.to_text().parse::<f32>().unwrap()).collect();
            assert_eq!(values, vec![52.6f32, -42.4f32]);
        }
        other => panic!("{:?}", other),
    }
    assert_eq!(
        UniRecordArgVariant::from("test_val:", "bool(false)"),
        Ok(UniRecordArgVariant::Bool(UniRecordArg { name: String::from("test_val"), value: false }))
    );
    assert_eq!(
        UniRecordArgVariant::from("test_val:", "bool(52)"),
        Ok(UniRecordArgVariant::Bool(UniRecordArg { name: String::from("test_val"), value: true }))
    );
    assert_eq!(
        UniRecordArgVariant::from("test_val:", "bool(0)"),
        Ok(UniRecordArgVariant::Bool(UniRecordArg { name: String::from("test_val"), value: false }))
    );
    assert_eq!(
        UniRecordArgVariant::from("test_val:", "id(EnumType::Hello)"),
        Ok(UniRecordArgVariant::Identifier(IdentifierRecordArg {
            name: String::from("test_val"),
            enum_type: String::from("EnumType"),
            value: String::from("Hello")
        }))
    );
}
