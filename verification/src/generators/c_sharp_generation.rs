//! The C# emitter: one file with the declarations in a namespace, and the
//! interned values and the table in a static class.

use crate::case::{pascal_case, pascal_case_of};
use crate::decimal::decimal_literal;
use crate::generators::c_generation::array_kind;
use crate::generators::{
    append_elements, append_string, append_truth, append_whole, elements_text, truth_text,
    whole_text,
};
use crate::model::{
    array_instance_name, array_models, array_name, enum_models, member_models,
    operation_instance_name, operation_models, operation_name, parameter_models, reference_models,
    structure_models, texts, ArrayElements, ArrayInstanceVariant, EnumDeclaration, EnumModel,
    MemberModel, Model, ModelView, Operation, OperationModel, OperationParameterVariant,
    OperationTableMember, ParameterModel, ParameterPayload, ParameterValue, ReferenceModel,
    StructureDefinition, StructureDefinitionMember, StructureModel,
};
use crate::text::{append_str, string_of};
use crate::unirecord::{MemberType, ScalarKind, TypeModel, TypeShape, ValueModel};
use vstd::prelude::*;

verus! {

/// The C# type of a scalar.
pub open spec fn scalar_type_text(kind: ScalarKind) -> Seq<char> {
    match kind {
        ScalarKind::X8 => "byte"@,
        ScalarKind::X16 => "ushort"@,
        ScalarKind::X32 => "uint"@,
        ScalarKind::X64 => "ulong"@,
        ScalarKind::U8 => "byte"@,
        ScalarKind::U16 => "ushort"@,
        ScalarKind::U32 => "uint"@,
        ScalarKind::U64 => "ulong"@,
        ScalarKind::I8 => "sbyte"@,
        ScalarKind::I16 => "short"@,
        ScalarKind::I32 => "int"@,
        ScalarKind::I64 => "long"@,
        ScalarKind::F32 => "float"@,
        ScalarKind::F64 => "double"@,
    }
}

fn scalar_type(kind: ScalarKind) -> (r: &'static str)
    ensures
        r@ == scalar_type_text(kind),
{
    match kind {
        ScalarKind::X8 => "byte",
        ScalarKind::X16 => "ushort",
        ScalarKind::X32 => "uint",
        ScalarKind::X64 => "ulong",
        ScalarKind::U8 => "byte",
        ScalarKind::U16 => "ushort",
        ScalarKind::U32 => "uint",
        ScalarKind::U64 => "ulong",
        ScalarKind::I8 => "sbyte",
        ScalarKind::I16 => "short",
        ScalarKind::I32 => "int",
        ScalarKind::I64 => "long",
        ScalarKind::F32 => "float",
        ScalarKind::F64 => "double",
    }
}

/// The C# type of a member: an array type for an array, the enumeration
/// for an identifier.
pub open spec fn member_type_text(t: TypeModel) -> Seq<char> {
    match t {
        TypeModel::Scalar(kind) => scalar_type_text(kind),
        TypeModel::Array(kind) => scalar_type_text(kind) + "[]"@,
        TypeModel::Truth => "bool"@,
        TypeModel::Identifier(enum_type) => enum_type,
    }
}

/// Appends the C# type of a member.
pub fn member_type_to_cs_type_string(out: &mut Vec<char>, member_type: &MemberType)
    ensures
        final(out)@ == old(out)@ + member_type_text(member_type@),
{
    match member_type.shape() {
        TypeShape::Scalar(kind) => {
            append_str(out, scalar_type(kind));
        },
        TypeShape::Array(kind) => {
            append_str(out, scalar_type(kind));
            append_str(out, "[]");
            assert(out@ =~= old(out)@ + member_type_text(member_type@));
        },
        TypeShape::Truth => {
            append_str(out, "bool");
        },
        TypeShape::Identifier => {
            match member_type.enum_name() {
                Some(name) => {
                    append_string(out, name);
                },
                None => {},
            }
        },
    }
}

fn array_kind_of(array: &ArrayInstanceVariant) -> (kind: ScalarKind)
    ensures
        kind == array_kind(array@),
{
    match array.elements() {
        ArrayElements::Wholes(kind, _) => kind,
        ArrayElements::Fractions(kind, _) => kind,
    }
}

fn write_elements(out: &mut Vec<char>, array: &ArrayInstanceVariant)
    ensures
        final(out)@ == old(out)@ + elements_text(array@),
{
    let elements = array.elements();
    append_elements(out, &elements);
}

/// The mark that C# wants after a literal of the single-precision kind.
pub open spec fn fraction_mark(kind: ScalarKind) -> Seq<char> {
    if kind == ScalarKind::F32 {
        "f"@
    } else {
        Seq::empty()
    }
}

/// The value of a parameter in an object initializer.
pub open spec fn value_text(value: ParameterValue) -> Seq<char> {
    match value {
        ParameterValue::Whole(kind, n) => whole_text(kind, n),
        ParameterValue::Fraction(kind, d) => decimal_literal(d) + fraction_mark(kind),
        ParameterValue::ArrayRef(_, instance) => pascal_case_of(instance),
        ParameterValue::Truth(b) => truth_text(b),
        ParameterValue::Identifier(enum_type, member) => enum_type + "."@ + member,
    }
}

/// The value of a parameter in an object initializer, where `array` is the
/// name in Pascal case of the array that it refers to.
pub open spec fn cased_value_text(value: ParameterValue, array: Seq<char>) -> Seq<char> {
    match value {
        ParameterValue::Whole(kind, n) => whole_text(kind, n),
        ParameterValue::Fraction(kind, d) => decimal_literal(d) + fraction_mark(kind),
        ParameterValue::ArrayRef(_, _) => array,
        ParameterValue::Truth(b) => truth_text(b),
        ParameterValue::Identifier(enum_type, member) => enum_type + "."@ + member,
    }
}

/// A member of an object initializer, where `array` is the name in Pascal
/// case of the array that its value refers to.
pub open spec fn cased_parameter_text(item: ParameterModel, array: Seq<char>) -> Seq<char> {
    item.name + " = "@ + cased_value_text(item.value, array)
}

/// A member of an object initializer.
pub open spec fn parameter_text(item: ParameterModel) -> Seq<char> {
    item.name + " = "@ + value_text(item.value)
}

/// Appends a member of an object initializer, where `array` is the name in
/// Pascal case of the array that its value refers to.
pub fn write_cased_parameter(
    out: &mut Vec<char>,
    item: &OperationParameterVariant,
    array: &String,
)
    ensures
        final(out)@ == old(out)@ + cased_parameter_text(item@, array@),
{
    append_string(out, item.name());
    append_str(out, " = ");
    match item.payload() {
        ParameterPayload::Whole(kind, n) => {
            append_whole(out, kind, n);
        },
        ParameterPayload::Fraction(kind, d) => {
            d.append_to(out);
            match kind {
                ScalarKind::F32 => {
                    append_str(out, "f");
                },
                _ => {},
            }
        },
        ParameterPayload::ArrayRef(_, _) => {
            append_string(out, array);
        },
        ParameterPayload::Truth(b) => {
            append_truth(out, b);
        },
        ParameterPayload::Identifier(enum_type, member) => {
            append_string(out, enum_type);
            append_str(out, ".");
            append_string(out, member);
        },
    }
    assert(out@ =~= old(out)@ + cased_parameter_text(item@, array@));
}

/// Appends a member of an object initializer.
pub fn write_parameter(out: &mut Vec<char>, item: &OperationParameterVariant)
    ensures
        final(out)@ == old(out)@ + parameter_text(item@),
{
    let array = match item.payload() {
        ParameterPayload::ArrayRef(_, instance) => pascal_case(instance.as_str()),
        _ => String::new(),
    };
    write_cased_parameter(out, item, &array);
    assert(cased_value_text(item@.value, array@) == value_text(item@.value));
}

/// The enumerator of a structure.
pub open spec fn operation_id_text(item: StructureModel) -> Seq<char> {
    "        "@
        + item.name
        + ",\n"@
}

/// Appends the enumerator of a structure.
fn write_operation_id(out: &mut Vec<char>, item: &StructureDefinition)
    ensures
        final(out)@ == old(out)@ + operation_id_text(item@),
{
    append_str(out, "        ");
    append_string(out, &item.name);
    append_str(out, ",\n");
    assert(out@ =~= old(out)@ + operation_id_text(item@));
}

/// One enumerator per structure, in the order of the definitions.
pub open spec fn operation_ids_text(items: Seq<StructureModel>) -> Seq<char>
    decreases items.len(),
{
    if items.len() == 0 {
        Seq::empty()
    } else {
        operation_ids_text(items.drop_last()) + operation_id_text(items.last())
    }
}

fn write_operation_ids(out: &mut Vec<char>, items: &Vec<StructureDefinition>)
    ensures
        final(out)@ == old(out)@ + operation_ids_text(structure_models(items@)),
{
    let ghost all = structure_models(items@);
    let mut i: usize = 0;
    assert(all.take(0) =~= Seq::<StructureModel>::empty());
    assert(out@ =~= old(out)@ + operation_ids_text(all.take(0)));
    while i < items.len()
        invariant
            i <= items.len(),
            all == structure_models(items@),
            out@ == old(out)@ + operation_ids_text(all.take(i as int)),
        decreases items.len() - i,
    {
        proof {
            let next = all.take(i + 1);
            assert(next.drop_last() =~= all.take(i as int));
            assert(next.last() == items@[i as int]@);
        }
        write_operation_id(out, &items[i]);
        assert(out@ =~= old(out)@ + operation_ids_text(all.take(i + 1)));
        i += 1;
    }
    assert(all.take(items.len() as int) =~= all);
}

/// A member of an enumeration.
pub open spec fn enum_member_text(item: Seq<char>) -> Seq<char> {
    "        "@
        + item
        + ",\n"@
}

/// Appends a member of an enumeration.
fn write_enum_member(out: &mut Vec<char>, item: &String)
    ensures
        final(out)@ == old(out)@ + enum_member_text(item@),
{
    append_str(out, "        ");
    append_string(out, item);
    append_str(out, ",\n");
    assert(out@ =~= old(out)@ + enum_member_text(item@));
}

/// The members of an enumeration, in the order first seen.
pub open spec fn enum_members_text(items: Seq<Seq<char>>) -> Seq<char>
    decreases items.len(),
{
    if items.len() == 0 {
        Seq::empty()
    } else {
        enum_members_text(items.drop_last()) + enum_member_text(items.last())
    }
}

fn write_enum_members(out: &mut Vec<char>, items: &Vec<String>)
    ensures
        final(out)@ == old(out)@ + enum_members_text(texts(items@)),
{
    let ghost all = texts(items@);
    let mut i: usize = 0;
    assert(all.take(0) =~= Seq::<Seq<char>>::empty());
    assert(out@ =~= old(out)@ + enum_members_text(all.take(0)));
    while i < items.len()
        invariant
            i <= items.len(),
            all == texts(items@),
            out@ == old(out)@ + enum_members_text(all.take(i as int)),
        decreases items.len() - i,
    {
        proof {
            let next = all.take(i + 1);
            assert(next.drop_last() =~= all.take(i as int));
            assert(next.last() == items@[i as int]@);
        }
        write_enum_member(out, &items[i]);
        assert(out@ =~= old(out)@ + enum_members_text(all.take(i + 1)));
        i += 1;
    }
    assert(all.take(items.len() as int) =~= all);
}

/// An enumeration.
pub open spec fn enumeration_text(item: EnumModel) -> Seq<char> {
    "    public enum "@
        + item.name
        + " {\n"@
        + enum_members_text(item.members)
        + "    }\n"@
        + "\n"@
}

/// Appends an enumeration.
fn write_enumeration(out: &mut Vec<char>, item: &EnumDeclaration)
    ensures
        final(out)@ == old(out)@ + enumeration_text(item@),
{
    append_str(out, "    public enum ");
    append_string(out, &item.name);
    append_str(out, " {\n");
    write_enum_members(out, &item.members);
    append_str(out, "    }\n");
    append_str(out, "\n");
    assert(out@ =~= old(out)@ + enumeration_text(item@));
}

/// One enumeration per declaration.
pub open spec fn enumerations_text(items: Seq<EnumModel>) -> Seq<char>
    decreases items.len(),
{
    if items.len() == 0 {
        Seq::empty()
    } else {
        enumerations_text(items.drop_last()) + enumeration_text(items.last())
    }
}

fn write_enumerations(out: &mut Vec<char>, items: &Vec<EnumDeclaration>)
    ensures
        final(out)@ == old(out)@ + enumerations_text(enum_models(items@)),
{
    let ghost all = enum_models(items@);
    let mut i: usize = 0;
    assert(all.take(0) =~= Seq::<EnumModel>::empty());
    assert(out@ =~= old(out)@ + enumerations_text(all.take(0)));
    while i < items.len()
        invariant
            i <= items.len(),
            all == enum_models(items@),
            out@ == old(out)@ + enumerations_text(all.take(i as int)),
        decreases items.len() - i,
    {
        proof {
            let next = all.take(i + 1);
            assert(next.drop_last() =~= all.take(i as int));
            assert(next.last() == items@[i as int]@);
        }
        write_enumeration(out, &items[i]);
        assert(out@ =~= old(out)@ + enumerations_text(all.take(i + 1)));
        i += 1;
    }
    assert(all.take(items.len() as int) =~= all);
}

/// A member of a structure.
pub open spec fn member_text(item: MemberModel) -> Seq<char> {
    "        public "@
        + member_type_text(item.member_type)
        + " "@
        + item.name
        + " { get; set; }\n"@
}

/// Appends a member of a structure.
fn write_member(out: &mut Vec<char>, item: &StructureDefinitionMember)
    ensures
        final(out)@ == old(out)@ + member_text(item@),
{
    append_str(out, "        public ");
    member_type_to_cs_type_string(out, &item.member_type);
    append_str(out, " ");
    append_string(out, &item.member_name);
    append_str(out, " { get; set; }\n");
    assert(out@ =~= old(out)@ + member_text(item@));
}

/// The members of a structure, in the order first seen.
pub open spec fn members_text(items: Seq<MemberModel>) -> Seq<char>
    decreases items.len(),
{
    if items.len() == 0 {
        Seq::empty()
    } else {
        members_text(items.drop_last()) + member_text(items.last())
    }
}

fn write_members(out: &mut Vec<char>, items: &Vec<StructureDefinitionMember>)
    ensures
        final(out)@ == old(out)@ + members_text(member_models(items@)),
{
    let ghost all = member_models(items@);
    let mut i: usize = 0;
    assert(all.take(0) =~= Seq::<MemberModel>::empty());
    assert(out@ =~= old(out)@ + members_text(all.take(0)));
    while i < items.len()
        invariant
            i <= items.len(),
            all == member_models(items@),
            out@ == old(out)@ + members_text(all.take(i as int)),
        decreases items.len() - i,
    {
        proof {
            let next = all.take(i + 1);
            assert(next.drop_last() =~= all.take(i as int));
            assert(next.last() == items@[i as int]@);
        }
        write_member(out, &items[i]);
        assert(out@ =~= old(out)@ + members_text(all.take(i + 1)));
        i += 1;
    }
    assert(all.take(items.len() as int) =~= all);
}

/// A structure.
pub open spec fn structure_text(item: StructureModel) -> Seq<char> {
    "    public struct "@
        + item.name
        + " {\n"@
        + members_text(item.members)
        + "    }\n"@
        + "\n"@
}

/// Appends a structure.
fn write_structure(out: &mut Vec<char>, item: &StructureDefinition)
    ensures
        final(out)@ == old(out)@ + structure_text(item@),
{
    append_str(out, "    public struct ");
    append_string(out, &item.name);
    append_str(out, " {\n");
    write_members(out, &item.members);
    append_str(out, "    }\n");
    append_str(out, "\n");
    assert(out@ =~= old(out)@ + structure_text(item@));
}

/// One structure per definition.
pub open spec fn structures_text(items: Seq<StructureModel>) -> Seq<char>
    decreases items.len(),
{
    if items.len() == 0 {
        Seq::empty()
    } else {
        structures_text(items.drop_last()) + structure_text(items.last())
    }
}

fn write_structures(out: &mut Vec<char>, items: &Vec<StructureDefinition>)
    ensures
        final(out)@ == old(out)@ + structures_text(structure_models(items@)),
{
    let ghost all = structure_models(items@);
    let mut i: usize = 0;
    assert(all.take(0) =~= Seq::<StructureModel>::empty());
    assert(out@ =~= old(out)@ + structures_text(all.take(0)));
    while i < items.len()
        invariant
            i <= items.len(),
            all == structure_models(items@),
            out@ == old(out)@ + structures_text(all.take(i as int)),
        decreases items.len() - i,
    {
        proof {
            let next = all.take(i + 1);
            assert(next.drop_last() =~= all.take(i as int));
            assert(next.last() == items@[i as int]@);
        }
        write_structure(out, &items[i]);
        assert(out@ =~= old(out)@ + structures_text(all.take(i + 1)));
        i += 1;
    }
    assert(all.take(items.len() as int) =~= all);
}

/// The field of an array under a name.
pub open spec fn array_text(item: ValueModel, name: Seq<char>) -> Seq<char> {
    "public static readonly "@
        + scalar_type_text(array_kind(item))
        + "[] "@
        + name
        + " =  "@
        + "{ "@
        + elements_text(item)
        + " }"@
        + ";"@
}

/// Appends the field of an array under a name.
pub fn write_array(out: &mut Vec<char>, item: &ArrayInstanceVariant, name: &String)
    ensures
        final(out)@ == old(out)@ + array_text(item@, name@),
{
    append_str(out, "public static readonly ");
    append_str(out, scalar_type(array_kind_of(item)));
    append_str(out, "[] ");
    append_string(out, name);
    append_str(out, " =  ");
    append_str(out, "{ ");
    write_elements(out, item);
    append_str(out, " }");
    append_str(out, ";");
    assert(out@ =~= old(out)@ + array_text(item@, name@));
}

/// The line of the array with the number `n`: its field under its name in
/// Pascal case.
pub open spec fn array_line_text(item: ValueModel, n: int) -> Seq<char> {
    "        "@
        + array_text(item, pascal_case_of(array_name(n)))
        + "\n"@
}

/// Appends the line of the array with the number `n`: its field under its
/// name in Pascal case.
fn write_array_line(out: &mut Vec<char>, item: &ArrayInstanceVariant, n: usize)
    ensures
        final(out)@ == old(out)@ + array_line_text(item@, n as int),
{
    append_str(out, "        ");
    {
        let plain = array_instance_name(n);
        let name = pascal_case(plain.as_str());
        write_array(out, item, &name);
    }
    append_str(out, "\n");
    assert(out@ =~= old(out)@ + array_line_text(item@, n as int));
}

/// One field per interned array, in the order of the numbers.
pub open spec fn arrays_text(items: Seq<ValueModel>) -> Seq<char>
    decreases items.len(),
{
    if items.len() == 0 {
        Seq::empty()
    } else {
        arrays_text(items.drop_last()) + array_line_text(items.last(), items.len() - 1)
    }
}

fn write_arrays(out: &mut Vec<char>, items: &Vec<ArrayInstanceVariant>)
    ensures
        final(out)@ == old(out)@ + arrays_text(array_models(items@)),
{
    let ghost all = array_models(items@);
    let mut i: usize = 0;
    assert(all.take(0) =~= Seq::<ValueModel>::empty());
    assert(out@ =~= old(out)@ + arrays_text(all.take(0)));
    while i < items.len()
        invariant
            i <= items.len(),
            all == array_models(items@),
            out@ == old(out)@ + arrays_text(all.take(i as int)),
        decreases items.len() - i,
    {
        proof {
            let next = all.take(i + 1);
            assert(next.drop_last() =~= all.take(i as int));
            assert(next.last() == items@[i as int]@);
        }
        write_array_line(out, &items[i], i);
        assert(out@ =~= old(out)@ + arrays_text(all.take(i + 1)));
        i += 1;
    }
    assert(all.take(items.len() as int) =~= all);
}

/// The members of an object initializer, with `, ` between two.
pub open spec fn parameters_text(items: Seq<ParameterModel>) -> Seq<char>
    decreases items.len(),
{
    if items.len() == 0 {
        Seq::empty()
    } else if items.len() == 1 {
        parameter_text(items[0])
    } else {
        parameters_text(items.drop_last()) + ", "@ + parameter_text(items.last())
    }
}

fn write_parameters(out: &mut Vec<char>, items: &Vec<OperationParameterVariant>)
    ensures
        final(out)@ == old(out)@ + parameters_text(parameter_models(items@)),
{
    let ghost all = parameter_models(items@);
    let mut i: usize = 0;
    assert(all.take(0) =~= Seq::<ParameterModel>::empty());
    assert(out@ =~= old(out)@ + parameters_text(all.take(0)));
    while i < items.len()
        invariant
            i <= items.len(),
            all == parameter_models(items@),
            out@ == old(out)@ + parameters_text(all.take(i as int)),
        decreases items.len() - i,
    {
        proof {
            let next = all.take(i + 1);
            assert(next.drop_last() =~= all.take(i as int));
            assert(next.last() == items@[i as int]@);
            if i == 0 {
                assert(next[0] == items@[0]@);
            }
        }
        if i > 0 {
            append_str(out, ", ");
        }
        write_parameter(out, &items[i]);
        assert(out@ =~= old(out)@ + parameters_text(all.take(i + 1)));
        i += 1;
    }
    assert(all.take(items.len() as int) =~= all);
}

/// The field of an operation, where `name` is the operation's name in Pascal
/// case.
pub open spec fn cased_operation_text(item: OperationModel, name: Seq<char>) -> Seq<char> {
    "        public static readonly "@
        + item.operation_type
        + " "@
        + name
        + " = new "@
        + item.operation_type
        + " { "@
        + parameters_text(item.parameters)
        + " };\n"@
}

/// Appends the field of an operation, where `name` is the operation's name in
/// Pascal case.
pub fn write_cased_operation(out: &mut Vec<char>, item: &Operation, name: &String)
    ensures
        final(out)@ == old(out)@ + cased_operation_text(item@, name@),
{
    append_str(out, "        public static readonly ");
    append_string(out, &item.operation_type);
    append_str(out, " ");
    append_string(out, name);
    append_str(out, " = new ");
    append_string(out, &item.operation_type);
    append_str(out, " { ");
    write_parameters(out, &item.parameters);
    append_str(out, " };\n");
    assert(out@ =~= old(out)@ + cased_operation_text(item@, name@));
}

/// The field of the operation with the number `n`.
pub open spec fn operation_text(item: OperationModel, n: int) -> Seq<char> {
    cased_operation_text(item, pascal_case_of(operation_name(n)))
}

/// Appends the field of the operation with the number `n`.
fn write_operation(out: &mut Vec<char>, item: &Operation, n: usize)
    ensures
        final(out)@ == old(out)@ + operation_text(item@, n as int),
{
    let plain = operation_instance_name(n);
    let name = pascal_case(plain.as_str());
    write_cased_operation(out, item, &name);
}

/// One field per interned operation, in the order of the numbers.
pub open spec fn operations_text(items: Seq<OperationModel>) -> Seq<char>
    decreases items.len(),
{
    if items.len() == 0 {
        Seq::empty()
    } else {
        operations_text(items.drop_last()) + operation_text(items.last(), items.len() - 1)
    }
}

fn write_operations(out: &mut Vec<char>, items: &Vec<Operation>)
    ensures
        final(out)@ == old(out)@ + operations_text(operation_models(items@)),
{
    let ghost all = operation_models(items@);
    let mut i: usize = 0;
    assert(all.take(0) =~= Seq::<OperationModel>::empty());
    assert(out@ =~= old(out)@ + operations_text(all.take(0)));
    while i < items.len()
        invariant
            i <= items.len(),
            all == operation_models(items@),
            out@ == old(out)@ + operations_text(all.take(i as int)),
        decreases items.len() - i,
    {
        proof {
            let next = all.take(i + 1);
            assert(next.drop_last() =~= all.take(i as int));
            assert(next.last() == items@[i as int]@);
        }
        write_operation(out, &items[i], i);
        assert(out@ =~= old(out)@ + operations_text(all.take(i + 1)));
        i += 1;
    }
    assert(all.take(items.len() as int) =~= all);
}

/// An entry of the table, where `instance` is the operation's name in Pascal
/// case.
pub open spec fn cased_reference_text(item: ReferenceModel, instance: Seq<char>) -> Seq<char> {
    "            new Operation(OperationId."@
        + item.operation_type
        + ", "@
        + instance
        + "),\n"@
}

/// Appends an entry of the table, where `instance` is the operation's name in
/// Pascal case.
pub fn write_cased_reference(out: &mut Vec<char>, item: &OperationTableMember, instance: &String)
    ensures
        final(out)@ == old(out)@ + cased_reference_text(item@, instance@),
{
    append_str(out, "            new Operation(OperationId.");
    append_string(out, &item.operation_type);
    append_str(out, ", ");
    append_string(out, instance);
    append_str(out, "),\n");
    assert(out@ =~= old(out)@ + cased_reference_text(item@, instance@));
}

/// An entry of the table.
pub open spec fn reference_text(item: ReferenceModel) -> Seq<char> {
    cased_reference_text(item, pascal_case_of(item.instance))
}

/// Appends an entry of the table.
fn write_reference(out: &mut Vec<char>, item: &OperationTableMember)
    ensures
        final(out)@ == old(out)@ + reference_text(item@),
{
    let instance = pascal_case(item.operation_variant_ref_name.as_str());
    write_cased_reference(out, item, &instance);
}

/// One entry per occurrence, in the order of the occurrences.
pub open spec fn references_text(items: Seq<ReferenceModel>) -> Seq<char>
    decreases items.len(),
{
    if items.len() == 0 {
        Seq::empty()
    } else {
        references_text(items.drop_last()) + reference_text(items.last())
    }
}

fn write_references(out: &mut Vec<char>, items: &Vec<OperationTableMember>)
    ensures
        final(out)@ == old(out)@ + references_text(reference_models(items@)),
{
    let ghost all = reference_models(items@);
    let mut i: usize = 0;
    assert(all.take(0) =~= Seq::<ReferenceModel>::empty());
    assert(out@ =~= old(out)@ + references_text(all.take(0)));
    while i < items.len()
        invariant
            i <= items.len(),
            all == reference_models(items@),
            out@ == old(out)@ + references_text(all.take(i as int)),
        decreases items.len() - i,
    {
        proof {
            let next = all.take(i + 1);
            assert(next.drop_last() =~= all.take(i as int));
            assert(next.last() == items@[i as int]@);
        }
        write_reference(out, &items[i]);
        assert(out@ =~= old(out)@ + references_text(all.take(i + 1)));
        i += 1;
    }
    assert(all.take(items.len() as int) =~= all);
}

/// The declarations: the enumeration of the operations, the operation type,
/// the enumerations and the structures.
pub open spec fn declarations_text(m: ModelView) -> Seq<char> {
    "    public enum OperationId {\n"@
        + operation_ids_text(m.structures)
        + "    }\n"@
        + "\n"@
        + "    public readonly struct Operation {\n        public readonly OperationId Id;\n        public readonly object Variant;\n\n        public Operation(OperationId id, object variant) {\n            Id = id;\n            Variant = variant;\n        }\n    }\n"@
        + "\n"@
        + enumerations_text(m.enums)
        + structures_text(m.structures)
}

/// Appends the declarations: the enumeration of the operations, the operation
/// type, the enumerations and the structures.
fn write_declarations(out: &mut Vec<char>, model: &Model)
    ensures
        final(out)@ == old(out)@ + declarations_text(model@),
{
    append_str(out, "    public enum OperationId {\n");
    write_operation_ids(out, model.defined_records());
    append_str(out, "    }\n");
    append_str(out, "\n");
    append_str(out, "    public readonly struct Operation {\n        public readonly OperationId Id;\n        public readonly object Variant;\n\n        public Operation(OperationId id, object variant) {\n            Id = id;\n            Variant = variant;\n        }\n    }\n");
    append_str(out, "\n");
    write_enumerations(out, model.defined_enums());
    write_structures(out, model.defined_records());
    assert(out@ =~= old(out)@ + declarations_text(model@));
}

/// A line feed after a list that is not empty.
pub open spec fn gap_text(length: nat) -> Seq<char> {
    if length > 0 {
        "\n"@
    } else {
        Seq::empty()
    }
}

fn write_gap(out: &mut Vec<char>, length: usize)
    ensures
        final(out)@ == old(out)@ + gap_text(length as nat),
{
    if length > 0 {
        append_str(out, "\n");
    } else {
        assert(out@ =~= old(out)@ + gap_text(length as nat));
    }
}

/// The opening of the namespace of a sequence, where `name` is the sequence's
/// name in Pascal case.
pub open spec fn cased_namespace_opening_text(name: Seq<char>) -> Seq<char> {
    "namespace "@
        + "Generated"@
        + name
        + "\n{\n"@
}

/// Appends the opening of the namespace of a sequence, where `name` is the
/// sequence's name in Pascal case.
pub fn write_cased_namespace_opening(out: &mut Vec<char>, name: &String)
    ensures
        final(out)@ == old(out)@ + cased_namespace_opening_text(name@),
{
    append_str(out, "namespace ");
    append_str(out, "Generated");
    append_string(out, name);
    append_str(out, "\n{\n");
    assert(out@ =~= old(out)@ + cased_namespace_opening_text(name@));
}

/// The opening of the namespace of a sequence.
pub open spec fn namespace_opening_text(sequence_name: Seq<char>) -> Seq<char> {
    cased_namespace_opening_text(pascal_case_of(sequence_name))
}

/// Appends the opening of the namespace of a sequence.
fn write_namespace_opening(out: &mut Vec<char>, sequence_name: &String)
    ensures
        final(out)@ == old(out)@ + namespace_opening_text(sequence_name@),
{
    let name = pascal_case(sequence_name.as_str());
    write_cased_namespace_opening(out, &name);
}

/// The opening of the static class of the sequence whose name in Pascal case
/// is `name`.
pub open spec fn class_opening_text(name: Seq<char>) -> Seq<char> {
    "    public static class "@
        + name
        + "Constants"@
        + "\n    {\n"@
        + "\n"@
}

/// Appends the opening of the static class of the sequence whose name in
/// Pascal case is `name`.
pub fn write_class_opening(out: &mut Vec<char>, name: &String)
    ensures
        final(out)@ == old(out)@ + class_opening_text(name@),
{
    append_str(out, "    public static class ");
    append_string(out, name);
    append_str(out, "Constants");
    append_str(out, "\n    {\n");
    append_str(out, "\n");
    assert(out@ =~= old(out)@ + class_opening_text(name@));
}

/// The opening of the table of the sequence whose name in Pascal case is
/// `name`.
pub open spec fn table_opening_text(name: Seq<char>) -> Seq<char> {
    "        public static readonly Operation[] "@
        + name
        + " = {\n"@
}

/// Appends the opening of the table of the sequence whose name in Pascal case
/// is `name`.
pub fn write_table_opening(out: &mut Vec<char>, name: &String)
    ensures
        final(out)@ == old(out)@ + table_opening_text(name@),
{
    append_str(out, "        public static readonly Operation[] ");
    append_string(out, name);
    append_str(out, " = {\n");
    assert(out@ =~= old(out)@ + table_opening_text(name@));
}

/// The interned values.
pub open spec fn values_text(m: ModelView) -> Seq<char> {
    arrays_text(m.arrays)
        + gap_text(m.arrays.len())
        + operations_text(m.operations)
        + gap_text(m.operations.len())
}

/// Appends the interned values.
fn write_values(out: &mut Vec<char>, model: &Model)
    ensures
        final(out)@ == old(out)@ + values_text(model@),
{
    write_arrays(out, model.instanciated_arrays());
    write_gap(out, model.instanciated_arrays().len());
    write_operations(out, model.operation_instances());
    write_gap(out, model.operation_instances().len());
    assert(out@ =~= old(out)@ + values_text(model@));
}

/// The static class with the interned values and the table, where `name` is
/// the sequence's name in Pascal case.
pub open spec fn constants_text(m: ModelView, name: Seq<char>) -> Seq<char> {
    class_opening_text(name)
        + values_text(m)
        + table_opening_text(name)
        + references_text(m.references)
        + "        };\n"@
        + gap_text(m.references.len())
        + "    }\n"@
}

/// Appends the static class with the interned values and the table, where
/// `name` is the sequence's name in Pascal case.
pub fn write_constants(out: &mut Vec<char>, model: &Model, name: &String)
    ensures
        final(out)@ == old(out)@ + constants_text(model@, name@),
{
    write_class_opening(out, name);
    write_values(out, model);
    write_table_opening(out, name);
    write_references(out, model.operation_ref_table());
    append_str(out, "        };\n");
    write_gap(out, model.operation_ref_table().len());
    append_str(out, "    }\n");
    assert(out@ =~= old(out)@ + constants_text(model@, name@));
}

/// The file of a model whose sequence is named.
pub open spec fn cs_file(m: ModelView) -> Seq<char> {
    namespace_opening_text(m.sequence_name->Some_0) + "\n"@
        + declarations_text(m) + constants_text(m, pascal_case_of(m.sequence_name->Some_0))
        + "\n"@ + "}\n"@
}

/// Writes the model as one C# file.
pub fn generate_cs_file(model: &Model) -> (r: String)
    requires
        model@.sequence_name is Some,
    ensures
        r@ == cs_file(model@),
{
    let mut out: Vec<char> = Vec::new();
    let cased = match model.sequence_name() {
        Some(name) => {
            write_namespace_opening(&mut out, name);
            pascal_case(name.as_str())
        },
        None => String::new(),
    };
    append_str(&mut out, "\n");
    write_declarations(&mut out, model);
    write_constants(&mut out, model, &cased);
    append_str(&mut out, "\n");
    append_str(&mut out, "}\n");
    assert(out@ =~= cs_file(model@));
    string_of(&out)
}

/// The C# emitter of a model.
pub trait CSharpGeneration {
    /// Whether the model can be written: its sequence is named.
    spec fn cs_writable(&self) -> bool;

    /// The text of the file.
    spec fn cs_text(&self) -> Seq<char>;

    /// Writes the model as C#.
    fn compute_to_cs(&self) -> (r: String)
        requires
            self.cs_writable(),
        ensures
            r@ == self.cs_text(),
    ;
}

impl CSharpGeneration for Model {
    open spec fn cs_writable(&self) -> bool {
        self@.sequence_name is Some
    }

    open spec fn cs_text(&self) -> Seq<char> {
        cs_file(self@)
    }

    fn compute_to_cs(&self) -> (r: String) {
        generate_cs_file(self)
    }
}

} // verus!
