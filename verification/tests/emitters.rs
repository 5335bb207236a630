use copar::decimal::Decimal;
use copar::generators::c_generation;
use copar::generators::c_sharp_generation;
use copar::generators::rust_generation;
use copar::model::{
    ArrayInstanceVariant, EnumDeclaration, IdentifierOperationParameter, Operation,
    OperationParameter, OperationParameterVariant, OperationTableMember, StructureDefinition,
    StructureDefinitionMember,
};
use copar::unirecord::MemberType;

fn text(chars: &Vec<char>) -> String {
    chars.iter().collect()
}

fn s(text: &str) -> String {
    text.to_string()
}

fn array_parameter() -> OperationParameterVariant {
    OperationParameterVariant::ArrayOfU16(OperationParameter { name: s("tapTimes"), value: s("array_3") })
}

fn identifier_parameter() -> OperationParameterVariant {
    OperationParameterVariant::Identifier(IdentifierOperationParameter {
        name: s("mode"),
        enum_type: s("power_mode"),
        value: s("deep_sleep"),
    })
}

#[test]
fn c_array_definition_has_no_line_feed() {
    let array = ArrayInstanceVariant::X8(vec![0x80, 0x5]);
    assert_eq!(
        c_generation::fmt_array_instance(&array, "array_0"),
        "const uint8_t array_0[] = {0x80, 0x5};"
    );
}

#[test]
fn c_array_definitions_of_the_other_kinds() {
    let wide = ArrayInstanceVariant::U16(vec![1, 65535]);
    assert_eq!(
        c_generation::fmt_array_instance(&wide, "wide"),
        "const uint16_t wide[] = {1, 65535};"
    );
    let signed = ArrayInstanceVariant::I32(vec![-7]);
    assert_eq!(c_generation::fmt_array_instance(&signed, "a"), "const int32_t a[] = {-7};");
    let empty = ArrayInstanceVariant::X64(vec![]);
    assert_eq!(c_generation::fmt_array_instance(&empty, "none"), "const uint64_t none[] = {};");
    let fractions = ArrayInstanceVariant::F32(vec![
        Decimal::from_text("1.50").unwrap(),
        Decimal::from_text("-2e-3").unwrap(),
    ]);
    assert_eq!(
        c_generation::fmt_array_instance(&fractions, "f"),
        "const float f[] = {1.5, -0.002};"
    );
}

#[test]
fn c_struct_members() {
    let whole = OperationParameterVariant::X16(OperationParameter { name: s("mask"), value: 0xbeef });
    assert_eq!(c_generation::fmt_struct_member(&whole), ".mask = 0xbeef");
    let truth = OperationParameterVariant::Bool(OperationParameter { name: s("on"), value: true });
    assert_eq!(c_generation::fmt_struct_member(&truth), ".on = true");
    assert_eq!(c_generation::fmt_struct_member(&array_parameter()), ".tapTimes = array_3");
    assert_eq!(c_generation::fmt_struct_member(&identifier_parameter()), ".mode = power_modedeep_sleep");
}

#[test]
fn c_member_types() {
    assert_eq!(c_generation::member_type_to_c_type_string(&MemberType::U16), "const uint16_t");
    assert_eq!(c_generation::member_type_to_c_type_string(&MemberType::X16), "const uint16_t");
    assert_eq!(c_generation::member_type_to_c_type_string(&MemberType::I64), "const int64_t");
    assert_eq!(
        c_generation::member_type_to_c_type_string(&MemberType::ArrayOfF64),
        "const double* const"
    );
    assert_eq!(c_generation::member_type_to_c_type_string(&MemberType::Bool), "const bool");
    assert_eq!(
        c_generation::member_type_to_c_type_string(&MemberType::Identifier(s("Mode"))),
        "const enum Mode"
    );
}

#[test]
fn c_pieces_over_cased_names() {
    let mut out: Vec<char> = vec!['>'];
    c_generation::write_reference(&mut out, &s("READ_EFUSE"), &s("read_efuse"), &s("operation_4"));
    assert_eq!(text(&out), ">   {.id = OPERATION_ID_READ_EFUSE, .variant={.read_efuse=&operation_4}}");

    let mut out: Vec<char> = Vec::new();
    c_generation::write_operation_id(&mut out, &s("READ_EFUSE"));
    assert_eq!(text(&out), "   OPERATION_ID_READ_EFUSE,\n");

    let mut out: Vec<char> = Vec::new();
    c_generation::write_variant(&mut out, &s("ReadEfuse"), &s("read_efuse"));
    assert_eq!(text(&out), "   const ReadEfuse* const read_efuse;\n");

    let mut out: Vec<char> = Vec::new();
    c_generation::write_header_opening(&mut out, &s("BOOT"));
    assert_eq!(
        text(&out),
        "#ifndef _BOOT_H\n#define _BOOT_H\n#include <stdint.h>\n#include <stdbool.h>\n"
    );

    let mut out: Vec<char> = Vec::new();
    c_generation::write_length(&mut out, &s("boot"));
    assert_eq!(text(&out), "const uint32_t boot_len = sizeof(boot_operations)/sizeof(Operation);");
}

#[test]
fn rust_pieces_over_cased_names() {
    let mut out: Vec<char> = vec!['>'];
    rust_generation::write_cased_reference(&mut out, &s("ReadEfuse"), &s("OPERATION_4"));
    assert_eq!(text(&out), ">    OperationVariant::ReadEfuse(&OPERATION_4),\n");

    let mut out: Vec<char> = Vec::new();
    rust_generation::write_cased_operation_id(&mut out, &s("ReadEfuse"));
    assert_eq!(text(&out), "    ReadEfuse,\n");

    let mut out: Vec<char> = Vec::new();
    rust_generation::write_cased_variant(&mut out, &s("ReadEfuse"));
    assert_eq!(text(&out), "    ReadEfuse(&'static ReadEfuse),\n");

    let mut out: Vec<char> = Vec::new();
    rust_generation::write_cased_enum_member(&mut out, &s("DeepSleep"));
    assert_eq!(text(&out), "    DeepSleep,\n");

    let mut out: Vec<char> = Vec::new();
    rust_generation::write_cased_table_opening(&mut out, &s("BOOT"));
    assert_eq!(text(&out), "pub static BOOT: &[OperationVariant] = &[\n");

    let mut out: Vec<char> = Vec::new();
    rust_generation::write_cased_member_type(&mut out, &MemberType::Identifier(s("mode")), &s("Mode"));
    out.push('|');
    rust_generation::write_cased_member_type(&mut out, &MemberType::ArrayOfI8, &s("unused"));
    out.push('|');
    rust_generation::write_cased_member_type(&mut out, &MemberType::X32, &s("unused"));
    assert_eq!(text(&out), "Mode|&'static [i8]|u32");
}

#[test]
fn rust_definitions_over_cased_names() {
    let mut out: Vec<char> = Vec::new();
    let array = ArrayInstanceVariant::X8(vec![0x80, 0x5]);
    rust_generation::write_array(&mut out, &array, &s("ARRAY_0"));
    assert_eq!(text(&out), "pub static ARRAY_0: & [u8] = &[0x80, 0x5];");

    let mut out: Vec<char> = Vec::new();
    rust_generation::write_cased_parameter(&mut out, &array_parameter(), &s("tap_times"), &s("ARRAY_3"), &s(""));
    out.push('|');
    rust_generation::write_cased_parameter(
        &mut out,
        &identifier_parameter(),
        &s("mode"),
        &s("PowerMode"),
        &s("DeepSleep"),
    );
    out.push('|');
    let whole = OperationParameterVariant::I8(OperationParameter { name: s("n"), value: -3 });
    rust_generation::write_cased_parameter(&mut out, &whole, &s("n"), &s("x"), &s("y"));
    assert_eq!(text(&out), "tap_times: ARRAY_3|mode: PowerMode::DeepSleep|n: -3");

    let mut out: Vec<char> = Vec::new();
    let operation = Operation {
        operation_type: s("set_gain"),
        parameters: vec![
            OperationParameterVariant::U8(OperationParameter { name: s("g"), value: 4 }),
            OperationParameterVariant::Bool(OperationParameter { name: s("on"), value: false }),
        ],
    };
    rust_generation::write_cased_operation(&mut out, &operation, &s("OPERATION_0"), &s("SetGain"));
    assert_eq!(text(&out), "pub static OPERATION_0: SetGain = SetGain { g: 4, on: false };\n");

    let mut out: Vec<char> = Vec::new();
    let member = StructureDefinitionMember { member_name: s("tapTimes"), member_type: MemberType::U16 };
    rust_generation::write_cased_member(&mut out, &member, &s("tap_times"));
    assert_eq!(text(&out), "    pub tap_times: u16,\n");

    let mut out: Vec<char> = Vec::new();
    let structure = StructureDefinition { name: s("set_gain"), members: vec![] };
    rust_generation::write_cased_structure(&mut out, &structure, &s("SetGain"));
    assert_eq!(text(&out), "#[derive(Debug, Clone, PartialEq)]\npub struct SetGain {\n}\n\n");

    let mut out: Vec<char> = Vec::new();
    let enumeration = EnumDeclaration { name: s("mode"), members: vec![] };
    rust_generation::write_cased_enumeration(&mut out, &enumeration, &s("Mode"));
    assert_eq!(
        text(&out),
        "#[derive(Debug, Clone, Copy, PartialEq, Eq)]\npub enum Mode {\n}\n\n"
    );
}

#[test]
fn cs_pieces_over_cased_names() {
    let mut out: Vec<char> = vec!['>'];
    let entry = OperationTableMember {
        operation_type: s("ReadEfuse"),
        operation_variant_ref_name: s("operation_4"),
    };
    c_sharp_generation::write_cased_reference(&mut out, &entry, &s("Operation4"));
    assert_eq!(text(&out), ">            new Operation(OperationId.ReadEfuse, Operation4),\n");

    let mut out: Vec<char> = Vec::new();
    let array = ArrayInstanceVariant::X8(vec![0x80, 0x5]);
    c_sharp_generation::write_array(&mut out, &array, &s("Array0"));
    assert_eq!(text(&out), "public static readonly byte[] Array0 =  { 0x80, 0x5 };");

    let mut out: Vec<char> = Vec::new();
    c_sharp_generation::write_cased_parameter(&mut out, &array_parameter(), &s("Array3"));
    out.push('|');
    c_sharp_generation::write_cased_parameter(&mut out, &identifier_parameter(), &s("unused"));
    out.push('|');
    let fraction = OperationParameterVariant::F32(OperationParameter {
        name: s("gain"),
        value: Decimal::from_text("0.5").unwrap(),
    });
    c_sharp_generation::write_cased_parameter(&mut out, &fraction, &s("unused"));
    assert_eq!(text(&out), "tapTimes = Array3|mode = power_mode.deep_sleep|gain = 0.5f");

    let mut out: Vec<char> = Vec::new();
    let operation = Operation {
        operation_type: s("SetGain"),
        parameters: vec![OperationParameterVariant::X8(OperationParameter { name: s("g"), value: 255 })],
    };
    c_sharp_generation::write_cased_operation(&mut out, &operation, &s("Operation0"));
    assert_eq!(
        text(&out),
        "        public static readonly SetGain Operation0 = new SetGain { g = 0xff };\n"
    );

    let mut out: Vec<char> = Vec::new();
    c_sharp_generation::write_cased_namespace_opening(&mut out, &s("Boot"));
    c_sharp_generation::write_class_opening(&mut out, &s("Boot"));
    c_sharp_generation::write_table_opening(&mut out, &s("Boot"));
    assert_eq!(
        text(&out),
        "namespace GeneratedBoot\n{\n    public static class BootConstants\n    {\n\n        public static readonly Operation[] Boot = {\n"
    );
}
