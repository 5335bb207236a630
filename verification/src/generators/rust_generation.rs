//! The Rust emitter: one file with the declarations, the interned values as
//! statics, and the table.

use crate::case::{
    macro_case, macro_case_of, pascal_case, pascal_case_of, snake_case, snake_case_of,
};
use crate::decimal::decimal_literal;
use crate::generators::c_generation::array_kind;
use crate::generators::{
    append_elements, append_string, append_truth, append_whole, elements_text, truth_text,
    whole_text,
};
use crate::model::{
    array_instance_name, array_models, array_name, enum_models, member_models,
    operation_instance_name, operation_models, operation_name, parameter_models, reference_models,
    structure_models, texts, ArrayElements, ArrayInstanceVariant, EnumDeclaration, EnumModel,
    MemberModel, Model, ModelView, Operation, OperationModel, OperationParameterVariant,
    OperationTableMember, ParameterModel, ParameterPayload, ParameterValue, ReferenceModel,
    StructureDefinition, StructureDefinitionMember, StructureModel,
};
use crate::text::{append_str, string_of};
use crate::unirecord::{MemberType, ScalarKind, TypeModel, TypeShape, ValueModel};
use vstd::prelude::*;

verus! {

/// The Rust type of a scalar.
pub open spec fn scalar_type_text(kind: ScalarKind) -> Seq<char> {
    match kind {
        ScalarKind::X8 => "u8"@,
        ScalarKind::X16 => "u16"@,
        ScalarKind::X32 => "u32"@,
        ScalarKind::X64 => "u64"@,
        ScalarKind::U8 => "u8"@,
        ScalarKind::U16 => "u16"@,
        ScalarKind::U32 => "u32"@,
        ScalarKind::U64 => "u64"@,
        ScalarKind::I8 => "i8"@,
        ScalarKind::I16 => "i16"@,
        ScalarKind::I32 => "i32"@,
        ScalarKind::I64 => "i64"@,
        ScalarKind::F32 => "f32"@,
        ScalarKind::F64 => "f64"@,
    }
}

fn scalar_type(kind: ScalarKind) -> (r: &'static str)
    ensures
        r@ == scalar_type_text(kind),
{
    match kind {
        ScalarKind::X8 => "u8",
        ScalarKind::X16 => "u16",
        ScalarKind::X32 => "u32",
        ScalarKind::X64 => "u64",
        ScalarKind::U8 => "u8",
        ScalarKind::U16 => "u16",
        ScalarKind::U32 => "u32",
        ScalarKind::U64 => "u64",
        ScalarKind::I8 => "i8",
        ScalarKind::I16 => "i16",
        ScalarKind::I32 => "i32",
        ScalarKind::I64 => "i64",
        ScalarKind::F32 => "f32",
        ScalarKind::F64 => "f64",
    }
}

/// The Rust type of a member: a static slice for an array, the enumeration
/// in Pascal case for an identifier.
pub open spec fn member_type_text(t: TypeModel) -> Seq<char> {
    match t {
        TypeModel::Scalar(kind) => scalar_type_text(kind),
        TypeModel::Array(kind) => "&'static ["@ + scalar_type_text(kind) + "]"@,
        TypeModel::Truth => "bool"@,
        TypeModel::Identifier(enum_type) => pascal_case_of(enum_type),
    }
}

/// The Rust type of a member, where `name` is the enumeration's name in
/// Pascal case for an identifier.
pub open spec fn cased_member_type_text(t: TypeModel, name: Seq<char>) -> Seq<char> {
    match t {
        TypeModel::Scalar(kind) => scalar_type_text(kind),
        TypeModel::Array(kind) => "&'static ["@ + scalar_type_text(kind) + "]"@,
        TypeModel::Truth => "bool"@,
        TypeModel::Identifier(_) => name,
    }
}

/// Appends the Rust type of a member, where `name` is the enumeration's
/// name in Pascal case for an identifier.
pub fn write_cased_member_type(out: &mut Vec<char>, member_type: &MemberType, name: &String)
    ensures
        final(out)@ == old(out)@ + cased_member_type_text(member_type@, name@),
{
    match member_type.shape() {
        TypeShape::Scalar(kind) => {
            append_str(out, scalar_type(kind));
        },
        TypeShape::Array(kind) => {
            append_str(out, "&'static [");
            append_str(out, scalar_type(kind));
            append_str(out, "]");
            assert(out@ =~= old(out)@ + cased_member_type_text(member_type@, name@));
        },
        TypeShape::Truth => {
            append_str(out, "bool");
        },
        TypeShape::Identifier => {
            append_string(out, name);
        },
    }
}

/// Appends the Rust type of a member.
pub fn member_type_to_rust_type_string(out: &mut Vec<char>, member_type: &MemberType)
    ensures
        final(out)@ == old(out)@ + member_type_text(member_type@),
{
    let name = match member_type.enum_name() {
        Some(name) => pascal_case(name.as_str()),
        None => String::new(),
    };
    write_cased_member_type(out, member_type, &name);
}

fn array_kind_of(array: &ArrayInstanceVariant) -> (kind: ScalarKind)
    ensures
        kind == array_kind(array@),
{
    match array.elements() {
        ArrayElements::Wholes(kind, _) => kind,
        ArrayElements::Fractions(kind, _) => kind,
    }
}

fn write_elements(out: &mut Vec<char>, array: &ArrayInstanceVariant)
    ensures
        final(out)@ == old(out)@ + elements_text(array@),
{
    let elements = array.elements();
    append_elements(out, &elements);
}

/// The value of a parameter in a struct expression.
pub open spec fn value_text(value: ParameterValue) -> Seq<char> {
    match value {
        ParameterValue::Whole(kind, n) => whole_text(kind, n),
        ParameterValue::Fraction(_, d) => decimal_literal(d),
        ParameterValue::ArrayRef(_, instance) => macro_case_of(instance),
        ParameterValue::Truth(b) => truth_text(b),
        ParameterValue::Identifier(enum_type, member) => pascal_case_of(enum_type) + "::"@
            + pascal_case_of(member),
    }
}

/// The name that the value of a parameter refers to, in its case: the
/// array's in macro case, the enumeration's in Pascal case.
pub open spec fn value_name(value: ParameterValue) -> Seq<char> {
    match value {
        ParameterValue::ArrayRef(_, instance) => macro_case_of(instance),
        ParameterValue::Identifier(enum_type, _) => pascal_case_of(enum_type),
        _ => Seq::empty(),
    }
}

/// The member that an identifier names, in Pascal case.
pub open spec fn value_member(value: ParameterValue) -> Seq<char> {
    match value {
        ParameterValue::Identifier(_, member) => pascal_case_of(member),
        _ => Seq::empty(),
    }
}

/// The value of a parameter in a struct expression, where `name` is the
/// array's name in macro case or the enumeration's in Pascal case, and
/// `member` the enumeration's member in Pascal case.
pub open spec fn cased_value_text(value: ParameterValue, name: Seq<char>, member: Seq<char>) -> Seq<
    char,
> {
    match value {
        ParameterValue::Whole(kind, n) => whole_text(kind, n),
        ParameterValue::Fraction(_, d) => decimal_literal(d),
        ParameterValue::ArrayRef(_, _) => name,
        ParameterValue::Truth(b) => truth_text(b),
        ParameterValue::Identifier(_, _) => name + "::"@ + member,
    }
}

/// A field of a struct expression, where `field` is the parameter's name in
/// snake case, and `name` and `member` are those that its value refers to,
/// in their cases.
pub open spec fn cased_parameter_text(
    item: ParameterModel,
    field: Seq<char>,
    name: Seq<char>,
    member: Seq<char>,
) -> Seq<char> {
    field + ": "@ + cased_value_text(item.value, name, member)
}

/// A field of a struct expression.
pub open spec fn parameter_text(item: ParameterModel) -> Seq<char> {
    snake_case_of(item.name) + ": "@ + value_text(item.value)
}

/// Appends a field of a struct expression, where `field` is the parameter's
/// name in snake case, and `name` and `member` are those that its value
/// refers to, in their cases.
pub fn write_cased_parameter(
    out: &mut Vec<char>,
    item: &OperationParameterVariant,
    field: &String,
    name: &String,
    member: &String,
)
    ensures
        final(out)@ == old(out)@ + cased_parameter_text(item@, field@, name@, member@),
{
    append_string(out, field);
    append_str(out, ": ");
    match item.payload() {
        ParameterPayload::Whole(kind, n) => {
            append_whole(out, kind, n);
        },
        ParameterPayload::Fraction(_, d) => {
            d.append_to(out);
        },
        ParameterPayload::ArrayRef(_, _) => {
            append_string(out, name);
        },
        ParameterPayload::Truth(b) => {
            append_truth(out, b);
        },
        ParameterPayload::Identifier(_, _) => {
            append_string(out, name);
            append_str(out, "::");
            append_string(out, member);
        },
    }
    assert(out@ =~= old(out)@ + cased_parameter_text(item@, field@, name@, member@));
}

/// Appends a field of a struct expression.
pub fn write_parameter(out: &mut Vec<char>, item: &OperationParameterVariant)
    ensures
        final(out)@ == old(out)@ + parameter_text(item@),
{
    let field = snake_case(item.name().as_str());
    let (name, member) = match item.payload() {
        ParameterPayload::ArrayRef(_, instance) => (macro_case(instance.as_str()), String::new()),
        ParameterPayload::Identifier(enum_type, member) => (
            pascal_case(enum_type.as_str()),
            pascal_case(member.as_str()),
        ),
        _ => (String::new(), String::new()),
    };
    assert(name@ == value_name(item@.value) && member@ == value_member(item@.value));
    write_cased_parameter(out, item, &field, &name, &member);
    assert(cased_value_text(item@.value, name@, member@) == value_text(item@.value));
}

/// The enumerator of a structure, where `id` is the structure's name in
/// Pascal case.
pub open spec fn cased_operation_id_text(id: Seq<char>) -> Seq<char> {
    "    "@
        + id
        + ",\n"@
}

/// Appends the enumerator of a structure, where `id` is the structure's name
/// in Pascal case.
pub fn write_cased_operation_id(out: &mut Vec<char>, id: &String)
    ensures
        final(out)@ == old(out)@ + cased_operation_id_text(id@),
{
    append_str(out, "    ");
    append_string(out, id);
    append_str(out, ",\n");
    assert(out@ =~= old(out)@ + cased_operation_id_text(id@));
}

/// The enumerator of a structure.
pub open spec fn operation_id_text(item: StructureModel) -> Seq<char> {
    cased_operation_id_text(pascal_case_of(item.name))
}

/// Appends the enumerator of a structure.
fn write_operation_id(out: &mut Vec<char>, item: &StructureDefinition)
    ensures
        final(out)@ == old(out)@ + operation_id_text(item@),
{
    let id = pascal_case(item.name.as_str());
    write_cased_operation_id(out, &id);
}

/// One enumerator per structure, in the order of the definitions.
pub open spec fn operation_ids_text(items: Seq<StructureModel>) -> Seq<char>
    decreases items.len(),
{
    if items.len() == 0 {
        Seq::empty()
    } else {
        operation_ids_text(items.drop_last()) + operation_id_text(items.last())
    }
}

fn write_operation_ids(out: &mut Vec<char>, items: &Vec<StructureDefinition>)
    ensures
        final(out)@ == old(out)@ + operation_ids_text(structure_models(items@)),
{
    let ghost all = structure_models(items@);
    let mut i: usize = 0;
    assert(all.take(0) =~= Seq::<StructureModel>::empty());
    assert(out@ =~= old(out)@ + operation_ids_text(all.take(0)));
    while i < items.len()
        invariant
            i <= items.len(),
            all == structure_models(items@),
            out@ == old(out)@ + operation_ids_text(all.take(i as int)),
        decreases items.len() - i,
    {
        proof {
            let next = all.take(i + 1);
            assert(next.drop_last() =~= all.take(i as int));
            assert(next.last() == items@[i as int]@);
        }
        write_operation_id(out, &items[i]);
        assert(out@ =~= old(out)@ + operation_ids_text(all.take(i + 1)));
        i += 1;
    }
    assert(all.take(items.len() as int) =~= all);
}

/// The variant of a structure, where `variant` is the structure's name in
/// Pascal case.
pub open spec fn cased_variant_text(variant: Seq<char>) -> Seq<char> {
    "    "@
        + variant
        + "(&'static "@
        + variant
        + "),\n"@
}

/// Appends the variant of a structure, where `variant` is the structure's
/// name in Pascal case.
pub fn write_cased_variant(out: &mut Vec<char>, variant: &String)
    ensures
        final(out)@ == old(out)@ + cased_variant_text(variant@),
{
    append_str(out, "    ");
    append_string(out, variant);
    append_str(out, "(&'static ");
    append_string(out, variant);
    append_str(out, "),\n");
    assert(out@ =~= old(out)@ + cased_variant_text(variant@));
}

/// The variant of a structure.
pub open spec fn variant_text(item: StructureModel) -> Seq<char> {
    cased_variant_text(pascal_case_of(item.name))
}

/// Appends the variant of a structure.
fn write_variant(out: &mut Vec<char>, item: &StructureDefinition)
    ensures
        final(out)@ == old(out)@ + variant_text(item@),
{
    let variant = pascal_case(item.name.as_str());
    write_cased_variant(out, &variant);
}

/// One variant per structure.
pub open spec fn variants_text(items: Seq<StructureModel>) -> Seq<char>
    decreases items.len(),
{
    if items.len() == 0 {
        Seq::empty()
    } else {
        variants_text(items.drop_last()) + variant_text(items.last())
    }
}

fn write_variants(out: &mut Vec<char>, items: &Vec<StructureDefinition>)
    ensures
        final(out)@ == old(out)@ + variants_text(structure_models(items@)),
{
    let ghost all = structure_models(items@);
    let mut i: usize = 0;
    assert(all.take(0) =~= Seq::<StructureModel>::empty());
    assert(out@ =~= old(out)@ + variants_text(all.take(0)));
    while i < items.len()
        invariant
            i <= items.len(),
            all == structure_models(items@),
            out@ == old(out)@ + variants_text(all.take(i as int)),
        decreases items.len() - i,
    {
        proof {
            let next = all.take(i + 1);
            assert(next.drop_last() =~= all.take(i as int));
            assert(next.last() == items@[i as int]@);
        }
        write_variant(out, &items[i]);
        assert(out@ =~= old(out)@ + variants_text(all.take(i + 1)));
        i += 1;
    }
    assert(all.take(items.len() as int) =~= all);
}

/// A member of an enumeration, where `member` is the member's name in Pascal
/// case.
pub open spec fn cased_enum_member_text(member: Seq<char>) -> Seq<char> {
    "    "@
        + member
        + ",\n"@
}

/// Appends a member of an enumeration, where `member` is the member's name in
/// Pascal case.
pub fn write_cased_enum_member(out: &mut Vec<char>, member: &String)
    ensures
        final(out)@ == old(out)@ + cased_enum_member_text(member@),
{
    append_str(out, "    ");
    append_string(out, member);
    append_str(out, ",\n");
    assert(out@ =~= old(out)@ + cased_enum_member_text(member@));
}

/// A member of an enumeration.
pub open spec fn enum_member_text(item: Seq<char>) -> Seq<char> {
    cased_enum_member_text(pascal_case_of(item))
}

/// Appends a member of an enumeration.
fn write_enum_member(out: &mut Vec<char>, item: &String)
    ensures
        final(out)@ == old(out)@ + enum_member_text(item@),
{
    let member = pascal_case(item.as_str());
    write_cased_enum_member(out, &member);
}

/// The members of an enumeration, in the order first seen.
pub open spec fn enum_members_text(items: Seq<Seq<char>>) -> Seq<char>
    decreases items.len(),
{
    if items.len() == 0 {
        Seq::empty()
    } else {
        enum_members_text(items.drop_last()) + enum_member_text(items.last())
    }
}

fn write_enum_members(out: &mut Vec<char>, items: &Vec<String>)
    ensures
        final(out)@ == old(out)@ + enum_members_text(texts(items@)),
{
    let ghost all = texts(items@);
    let mut i: usize = 0;
    assert(all.take(0) =~= Seq::<Seq<char>>::empty());
    assert(out@ =~= old(out)@ + enum_members_text(all.take(0)));
    while i < items.len()
        invariant
            i <= items.len(),
            all == texts(items@),
            out@ == old(out)@ + enum_members_text(all.take(i as int)),
        decreases items.len() - i,
    {
        proof {
            let next = all.take(i + 1);
            assert(next.drop_last() =~= all.take(i as int));
            assert(next.last() == items@[i as int]@);
        }
        write_enum_member(out, &items[i]);
        assert(out@ =~= old(out)@ + enum_members_text(all.take(i + 1)));
        i += 1;
    }
    assert(all.take(items.len() as int) =~= all);
}

/// An enumeration, where `name` is the enumeration's name in Pascal case.
pub open spec fn cased_enumeration_text(item: EnumModel, name: Seq<char>) -> Seq<char> {
    "#[derive(Debug, Clone, Copy, PartialEq, Eq)]\n"@
        + "pub enum "@
        + name
        + " {\n"@
        + enum_members_text(item.members)
        + "}\n"@
        + "\n"@
}

/// Appends an enumeration, where `name` is the enumeration's name in Pascal
/// case.
pub fn write_cased_enumeration(out: &mut Vec<char>, item: &EnumDeclaration, name: &String)
    ensures
        final(out)@ == old(out)@ + cased_enumeration_text(item@, name@),
{
    append_str(out, "#[derive(Debug, Clone, Copy, PartialEq, Eq)]\n");
    append_str(out, "pub enum ");
    append_string(out, name);
    append_str(out, " {\n");
    write_enum_members(out, &item.members);
    append_str(out, "}\n");
    append_str(out, "\n");
    assert(out@ =~= old(out)@ + cased_enumeration_text(item@, name@));
}

/// An enumeration.
pub open spec fn enumeration_text(item: EnumModel) -> Seq<char> {
    cased_enumeration_text(item, pascal_case_of(item.name))
}

/// Appends an enumeration.
fn write_enumeration(out: &mut Vec<char>, item: &EnumDeclaration)
    ensures
        final(out)@ == old(out)@ + enumeration_text(item@),
{
    let name = pascal_case(item.name.as_str());
    write_cased_enumeration(out, item, &name);
}

/// One enumeration per declaration.
pub open spec fn enumerations_text(items: Seq<EnumModel>) -> Seq<char>
    decreases items.len(),
{
    if items.len() == 0 {
        Seq::empty()
    } else {
        enumerations_text(items.drop_last()) + enumeration_text(items.last())
    }
}

fn write_enumerations(out: &mut Vec<char>, items: &Vec<EnumDeclaration>)
    ensures
        final(out)@ == old(out)@ + enumerations_text(enum_models(items@)),
{
    let ghost all = enum_models(items@);
    let mut i: usize = 0;
    assert(all.take(0) =~= Seq::<EnumModel>::empty());
    assert(out@ =~= old(out)@ + enumerations_text(all.take(0)));
    while i < items.len()
        invariant
            i <= items.len(),
            all == enum_models(items@),
            out@ == old(out)@ + enumerations_text(all.take(i as int)),
        decreases items.len() - i,
    {
        proof {
            let next = all.take(i + 1);
            assert(next.drop_last() =~= all.take(i as int));
            assert(next.last() == items@[i as int]@);
        }
        write_enumeration(out, &items[i]);
        assert(out@ =~= old(out)@ + enumerations_text(all.take(i + 1)));
        i += 1;
    }
    assert(all.take(items.len() as int) =~= all);
}

/// A member of a structure, where `field` is the member's name in snake case.
pub open spec fn cased_member_text(item: MemberModel, field: Seq<char>) -> Seq<char> {
    "    pub "@
        + field
        + ": "@
        + member_type_text(item.member_type)
        + ",\n"@
}

/// Appends a member of a structure, where `field` is the member's name in
/// snake case.
pub fn write_cased_member(out: &mut Vec<char>, item: &StructureDefinitionMember, field: &String)
    ensures
        final(out)@ == old(out)@ + cased_member_text(item@, field@),
{
    append_str(out, "    pub ");
    append_string(out, field);
    append_str(out, ": ");
    member_type_to_rust_type_string(out, &item.member_type);
    append_str(out, ",\n");
    assert(out@ =~= old(out)@ + cased_member_text(item@, field@));
}

/// A member of a structure.
pub open spec fn member_text(item: MemberModel) -> Seq<char> {
    cased_member_text(item, snake_case_of(item.name))
}

/// Appends a member of a structure.
fn write_member(out: &mut Vec<char>, item: &StructureDefinitionMember)
    ensures
        final(out)@ == old(out)@ + member_text(item@),
{
    let field = snake_case(item.member_name.as_str());
    write_cased_member(out, item, &field);
}

/// The members of a structure, in the order first seen.
pub open spec fn members_text(items: Seq<MemberModel>) -> Seq<char>
    decreases items.len(),
{
    if items.len() == 0 {
        Seq::empty()
    } else {
        members_text(items.drop_last()) + member_text(items.last())
    }
}

fn write_members(out: &mut Vec<char>, items: &Vec<StructureDefinitionMember>)
    ensures
        final(out)@ == old(out)@ + members_text(member_models(items@)),
{
    let ghost all = member_models(items@);
    let mut i: usize = 0;
    assert(all.take(0) =~= Seq::<MemberModel>::empty());
    assert(out@ =~= old(out)@ + members_text(all.take(0)));
    while i < items.len()
        invariant
            i <= items.len(),
            all == member_models(items@),
            out@ == old(out)@ + members_text(all.take(i as int)),
        decreases items.len() - i,
    {
        proof {
            let next = all.take(i + 1);
            assert(next.drop_last() =~= all.take(i as int));
            assert(next.last() == items@[i as int]@);
        }
        write_member(out, &items[i]);
        assert(out@ =~= old(out)@ + members_text(all.take(i + 1)));
        i += 1;
    }
    assert(all.take(items.len() as int) =~= all);
}

/// A structure, where `name` is the structure's name in Pascal case.
pub open spec fn cased_structure_text(item: StructureModel, name: Seq<char>) -> Seq<char> {
    "#[derive(Debug, Clone, PartialEq)]\n"@
        + "pub struct "@
        + name
        + " {\n"@
        + members_text(item.members)
        + "}\n"@
        + "\n"@
}

/// Appends a structure, where `name` is the structure's name in Pascal case.
pub fn write_cased_structure(out: &mut Vec<char>, item: &StructureDefinition, name: &String)
    ensures
        final(out)@ == old(out)@ + cased_structure_text(item@, name@),
{
    append_str(out, "#[derive(Debug, Clone, PartialEq)]\n");
    append_str(out, "pub struct ");
    append_string(out, name);
    append_str(out, " {\n");
    write_members(out, &item.members);
    append_str(out, "}\n");
    append_str(out, "\n");
    assert(out@ =~= old(out)@ + cased_structure_text(item@, name@));
}

/// A structure.
pub open spec fn structure_text(item: StructureModel) -> Seq<char> {
    cased_structure_text(item, pascal_case_of(item.name))
}

/// Appends a structure.
fn write_structure(out: &mut Vec<char>, item: &StructureDefinition)
    ensures
        final(out)@ == old(out)@ + structure_text(item@),
{
    let name = pascal_case(item.name.as_str());
    write_cased_structure(out, item, &name);
}

/// One structure per definition.
pub open spec fn structures_text(items: Seq<StructureModel>) -> Seq<char>
    decreases items.len(),
{
    if items.len() == 0 {
        Seq::empty()
    } else {
        structures_text(items.drop_last()) + structure_text(items.last())
    }
}

fn write_structures(out: &mut Vec<char>, items: &Vec<StructureDefinition>)
    ensures
        final(out)@ == old(out)@ + structures_text(structure_models(items@)),
{
    let ghost all = structure_models(items@);
    let mut i: usize = 0;
    assert(all.take(0) =~= Seq::<StructureModel>::empty());
    assert(out@ =~= old(out)@ + structures_text(all.take(0)));
    while i < items.len()
        invariant
            i <= items.len(),
            all == structure_models(items@),
            out@ == old(out)@ + structures_text(all.take(i as int)),
        decreases items.len() - i,
    {
        proof {
            let next = all.take(i + 1);
            assert(next.drop_last() =~= all.take(i as int));
            assert(next.last() == items@[i as int]@);
        }
        write_structure(out, &items[i]);
        assert(out@ =~= old(out)@ + structures_text(all.take(i + 1)));
        i += 1;
    }
    assert(all.take(items.len() as int) =~= all);
}

/// The static of an array under a name.
pub open spec fn array_text(item: ValueModel, name: Seq<char>) -> Seq<char> {
    "pub static "@
        + name
        + ": & ["@
        + scalar_type_text(array_kind(item))
        + "] = &"@
        + "["@
        + elements_text(item)
        + "]"@
        + ";"@
}

/// Appends the static of an array under a name.
pub fn write_array(out: &mut Vec<char>, item: &ArrayInstanceVariant, name: &String)
    ensures
        final(out)@ == old(out)@ + array_text(item@, name@),
{
    append_str(out, "pub static ");
    append_string(out, name);
    append_str(out, ": & [");
    append_str(out, scalar_type(array_kind_of(item)));
    append_str(out, "] = &");
    append_str(out, "[");
    write_elements(out, item);
    append_str(out, "]");
    append_str(out, ";");
    assert(out@ =~= old(out)@ + array_text(item@, name@));
}

/// The line of the array with the number `n`: its static under its name in
/// macro case.
pub open spec fn array_line_text(item: ValueModel, n: int) -> Seq<char> {
    array_text(item, macro_case_of(array_name(n)))
        + "\n"@
}

/// Appends the line of the array with the number `n`: its static under its
/// name in macro case.
fn write_array_line(out: &mut Vec<char>, item: &ArrayInstanceVariant, n: usize)
    ensures
        final(out)@ == old(out)@ + array_line_text(item@, n as int),
{
    {
        let plain = array_instance_name(n);
        let name = macro_case(plain.as_str());
        write_array(out, item, &name);
    }
    append_str(out, "\n");
    assert(out@ =~= old(out)@ + array_line_text(item@, n as int));
}

/// One static per interned array, in the order of the numbers.
pub open spec fn arrays_text(items: Seq<ValueModel>) -> Seq<char>
    decreases items.len(),
{
    if items.len() == 0 {
        Seq::empty()
    } else {
        arrays_text(items.drop_last()) + array_line_text(items.last(), items.len() - 1)
    }
}

fn write_arrays(out: &mut Vec<char>, items: &Vec<ArrayInstanceVariant>)
    ensures
        final(out)@ == old(out)@ + arrays_text(array_models(items@)),
{
    let ghost all = array_models(items@);
    let mut i: usize = 0;
    assert(all.take(0) =~= Seq::<ValueModel>::empty());
    assert(out@ =~= old(out)@ + arrays_text(all.take(0)));
    while i < items.len()
        invariant
            i <= items.len(),
            all == array_models(items@),
            out@ == old(out)@ + arrays_text(all.take(i as int)),
        decreases items.len() - i,
    {
        proof {
            let next = all.take(i + 1);
            assert(next.drop_last() =~= all.take(i as int));
            assert(next.last() == items@[i as int]@);
        }
        write_array_line(out, &items[i], i);
        assert(out@ =~= old(out)@ + arrays_text(all.take(i + 1)));
        i += 1;
    }
    assert(all.take(items.len() as int) =~= all);
}

/// The fields of a struct expression, with `, ` between two.
pub open spec fn parameters_text(items: Seq<ParameterModel>) -> Seq<char>
    decreases items.len(),
{
    if items.len() == 0 {
        Seq::empty()
    } else if items.len() == 1 {
        parameter_text(items[0])
    } else {
        parameters_text(items.drop_last()) + ", "@ + parameter_text(items.last())
    }
}

fn write_parameters(out: &mut Vec<char>, items: &Vec<OperationParameterVariant>)
    ensures
        final(out)@ == old(out)@ + parameters_text(parameter_models(items@)),
{
    let ghost all = parameter_models(items@);
    let mut i: usize = 0;
    assert(all.take(0) =~= Seq::<ParameterModel>::empty());
    assert(out@ =~= old(out)@ + parameters_text(all.take(0)));
    while i < items.len()
        invariant
            i <= items.len(),
            all == parameter_models(items@),
            out@ == old(out)@ + parameters_text(all.take(i as int)),
        decreases items.len() - i,
    {
        proof {
            let next = all.take(i + 1);
            assert(next.drop_last() =~= all.take(i as int));
            assert(next.last() == items@[i as int]@);
            if i == 0 {
                assert(next[0] == items@[0]@);
            }
        }
        if i > 0 {
            append_str(out, ", ");
        }
        write_parameter(out, &items[i]);
        assert(out@ =~= old(out)@ + parameters_text(all.take(i + 1)));
        i += 1;
    }
    assert(all.take(items.len() as int) =~= all);
}

/// The static of an operation, where `name` is the operation's name in macro
/// case and `variant` is the structure's name in Pascal case.
pub open spec fn cased_operation_text(item: OperationModel, name: Seq<char>, variant: Seq<char>) -> Seq<char> {
    "pub static "@
        + name
        + ": "@
        + variant
        + " = "@
        + variant
        + " { "@
        + parameters_text(item.parameters)
        + " };\n"@
}

/// Appends the static of an operation, where `name` is the operation's name
/// in macro case and `variant` is the structure's name in Pascal case.
pub fn write_cased_operation(
    out: &mut Vec<char>,
    item: &Operation,
    name: &String,
    variant: &String,
)
    ensures
        final(out)@ == old(out)@ + cased_operation_text(item@, name@, variant@),
{
    append_str(out, "pub static ");
    append_string(out, name);
    append_str(out, ": ");
    append_string(out, variant);
    append_str(out, " = ");
    append_string(out, variant);
    append_str(out, " { ");
    write_parameters(out, &item.parameters);
    append_str(out, " };\n");
    assert(out@ =~= old(out)@ + cased_operation_text(item@, name@, variant@));
}

/// The static of the operation with the number `n`.
pub open spec fn operation_text(item: OperationModel, n: int) -> Seq<char> {
    cased_operation_text(item, macro_case_of(operation_name(n)), pascal_case_of(item.operation_type))
}

/// Appends the static of the operation with the number `n`.
fn write_operation(out: &mut Vec<char>, item: &Operation, n: usize)
    ensures
        final(out)@ == old(out)@ + operation_text(item@, n as int),
{
    let plain = operation_instance_name(n);
    let name = macro_case(plain.as_str());
    let variant = pascal_case(item.operation_type.as_str());
    write_cased_operation(out, item, &name, &variant);
}

/// One static per interned operation, in the order of the numbers.
pub open spec fn operations_text(items: Seq<OperationModel>) -> Seq<char>
    decreases items.len(),
{
    if items.len() == 0 {
        Seq::empty()
    } else {
        operations_text(items.drop_last()) + operation_text(items.last(), items.len() - 1)
    }
}

fn write_operations(out: &mut Vec<char>, items: &Vec<Operation>)
    ensures
        final(out)@ == old(out)@ + operations_text(operation_models(items@)),
{
    let ghost all = operation_models(items@);
    let mut i: usize = 0;
    assert(all.take(0) =~= Seq::<OperationModel>::empty());
    assert(out@ =~= old(out)@ + operations_text(all.take(0)));
    while i < items.len()
        invariant
            i <= items.len(),
            all == operation_models(items@),
            out@ == old(out)@ + operations_text(all.take(i as int)),
        decreases items.len() - i,
    {
        proof {
            let next = all.take(i + 1);
            assert(next.drop_last() =~= all.take(i as int));
            assert(next.last() == items@[i as int]@);
        }
        write_operation(out, &items[i], i);
        assert(out@ =~= old(out)@ + operations_text(all.take(i + 1)));
        i += 1;
    }
    assert(all.take(items.len() as int) =~= all);
}

/// An entry of the table, where `variant` is the structure's name in Pascal
/// case and `instance` is the operation's name in macro case.
pub open spec fn cased_reference_text(variant: Seq<char>, instance: Seq<char>) -> Seq<char> {
    "    OperationVariant::"@
        + variant
        + "(&"@
        + instance
        + "),\n"@
}

/// Appends an entry of the table, where `variant` is the structure's name in
/// Pascal case and `instance` is the operation's name in macro case.
pub fn write_cased_reference(out: &mut Vec<char>, variant: &String, instance: &String)
    ensures
        final(out)@ == old(out)@ + cased_reference_text(variant@, instance@),
{
    append_str(out, "    OperationVariant::");
    append_string(out, variant);
    append_str(out, "(&");
    append_string(out, instance);
    append_str(out, "),\n");
    assert(out@ =~= old(out)@ + cased_reference_text(variant@, instance@));
}

/// An entry of the table.
pub open spec fn reference_text(item: ReferenceModel) -> Seq<char> {
    cased_reference_text(pascal_case_of(item.operation_type), macro_case_of(item.instance))
}

/// Appends an entry of the table.
fn write_reference(out: &mut Vec<char>, item: &OperationTableMember)
    ensures
        final(out)@ == old(out)@ + reference_text(item@),
{
    let variant = pascal_case(item.operation_type.as_str());
    let instance = macro_case(item.operation_variant_ref_name.as_str());
    write_cased_reference(out, &variant, &instance);
}

/// The opening of the table of a sequence, where `name` is the sequence's
/// name in macro case.
pub open spec fn cased_table_opening_text(name: Seq<char>) -> Seq<char> {
    "pub static "@
        + name
        + ": &[OperationVariant] = &[\n"@
}

/// Appends the opening of the table of a sequence, where `name` is the
/// sequence's name in macro case.
pub fn write_cased_table_opening(out: &mut Vec<char>, name: &String)
    ensures
        final(out)@ == old(out)@ + cased_table_opening_text(name@),
{
    append_str(out, "pub static ");
    append_string(out, name);
    append_str(out, ": &[OperationVariant] = &[\n");
    assert(out@ =~= old(out)@ + cased_table_opening_text(name@));
}

/// The opening of the table of a sequence.
pub open spec fn table_opening_text(sequence_name: Seq<char>) -> Seq<char> {
    cased_table_opening_text(macro_case_of(sequence_name))
}

/// Appends the opening of the table of a sequence.
fn write_table_opening(out: &mut Vec<char>, sequence_name: &String)
    ensures
        final(out)@ == old(out)@ + table_opening_text(sequence_name@),
{
    let name = macro_case(sequence_name.as_str());
    write_cased_table_opening(out, &name);
}

/// One entry per occurrence, in the order of the occurrences.
pub open spec fn references_text(items: Seq<ReferenceModel>) -> Seq<char>
    decreases items.len(),
{
    if items.len() == 0 {
        Seq::empty()
    } else {
        references_text(items.drop_last()) + reference_text(items.last())
    }
}

fn write_references(out: &mut Vec<char>, items: &Vec<OperationTableMember>)
    ensures
        final(out)@ == old(out)@ + references_text(reference_models(items@)),
{
    let ghost all = reference_models(items@);
    let mut i: usize = 0;
    assert(all.take(0) =~= Seq::<ReferenceModel>::empty());
    assert(out@ =~= old(out)@ + references_text(all.take(0)));
    while i < items.len()
        invariant
            i <= items.len(),
            all == reference_models(items@),
            out@ == old(out)@ + references_text(all.take(i as int)),
        decreases items.len() - i,
    {
        proof {
            let next = all.take(i + 1);
            assert(next.drop_last() =~= all.take(i as int));
            assert(next.last() == items@[i as int]@);
        }
        write_reference(out, &items[i]);
        assert(out@ =~= old(out)@ + references_text(all.take(i + 1)));
        i += 1;
    }
    assert(all.take(items.len() as int) =~= all);
}

/// A line feed after a list that is not empty.
pub open spec fn gap_text(length: nat) -> Seq<char> {
    if length > 0 {
        "\n"@
    } else {
        Seq::empty()
    }
}

fn write_gap(out: &mut Vec<char>, length: usize)
    ensures
        final(out)@ == old(out)@ + gap_text(length as nat),
{
    if length > 0 {
        append_str(out, "\n");
    } else {
        assert(out@ =~= old(out)@ + gap_text(length as nat));
    }
}

/// The file of a model whose sequence is named.
pub open spec fn rust_file(m: ModelView) -> Seq<char> {
    "#[derive(Debug, Clone, Copy, PartialEq, Eq)]\n"@ + "pub enum OperationId {\n"@
        + operation_ids_text(m.structures) + "}\n"@ + "\n"@ + "#[derive(Debug, Clone)]\n"@
        + "pub enum OperationVariant {\n"@ + variants_text(m.structures) + "}\n"@ + "\n"@
        + enumerations_text(m.enums) + structures_text(m.structures) + arrays_text(m.arrays)
        + gap_text(m.arrays.len()) + operations_text(m.operations) + gap_text(m.operations.len())
        + table_opening_text(m.sequence_name->Some_0) + references_text(m.references) + "];"@
}

/// Writes the model as one Rust file.
pub fn generate_rust_file(model: &Model) -> (r: String)
    requires
        model@.sequence_name is Some,
    ensures
        r@ == rust_file(model@),
{
    let mut out: Vec<char> = Vec::new();
    append_str(&mut out, "#[derive(Debug, Clone, Copy, PartialEq, Eq)]\n");
    append_str(&mut out, "pub enum OperationId {\n");
    write_operation_ids(&mut out, model.defined_records());
    append_str(&mut out, "}\n");
    append_str(&mut out, "\n");
    append_str(&mut out, "#[derive(Debug, Clone)]\n");
    append_str(&mut out, "pub enum OperationVariant {\n");
    write_variants(&mut out, model.defined_records());
    append_str(&mut out, "}\n");
    append_str(&mut out, "\n");
    write_enumerations(&mut out, model.defined_enums());
    write_structures(&mut out, model.defined_records());
    write_arrays(&mut out, model.instanciated_arrays());
    write_gap(&mut out, model.instanciated_arrays().len());
    write_operations(&mut out, model.operation_instances());
    write_gap(&mut out, model.operation_instances().len());
    match model.sequence_name() {
        Some(name) => {
            write_table_opening(&mut out, name);
        },
        None => {},
    }
    write_references(&mut out, model.operation_ref_table());
    append_str(&mut out, "];");
    assert(out@ =~= rust_file(model@));
    string_of(&out)
}

/// The Rust emitter of a model.
pub trait RustGeneration {
    /// Whether the model can be written: its sequence is named.
    spec fn rust_writable(&self) -> bool;

    /// The text of the file.
    spec fn rust_text(&self) -> Seq<char>;

    /// Writes the model as Rust.
    fn compute_to_rust(&self) -> (r: String)
        requires
            self.rust_writable(),
        ensures
            r@ == self.rust_text(),
    ;
}

impl RustGeneration for Model {
    open spec fn rust_writable(&self) -> bool {
        self@.sequence_name is Some
    }

    open spec fn rust_text(&self) -> Seq<char> {
        rust_file(self@)
    }

    fn compute_to_rust(&self) -> (r: String) {
        generate_rust_file(self)
    }
}

} // verus!
