//! The C emitter: a header with the declarations, and a source file with the
//! interned values and the table.

use crate::case::{
    lower_text, macro_case, macro_case_of, snake_case, snake_case_of, to_lowercase, to_uppercase,
    upper_text,
};
use crate::decimal::decimal_literal;
use crate::generators::{
    append_elements, append_string, append_truth, append_whole, elements_text, truth_text,
    whole_text,
};
use crate::model::{
    array_instance_name, array_models, array_name, enum_models, member_models, operation_models,
    operation_name, parameter_models, reference_models, structure_models, texts,
    ArrayInstanceVariant, EnumDeclaration, EnumModel, MemberModel, Model, ModelView, Operation,
    OperationModel, OperationParameterVariant, OperationTableMember, ParameterModel,
    ParameterPayload, ParameterValue, ReferenceModel, StructureDefinition,
    StructureDefinitionMember, StructureModel,
};
use crate::number::append_decimal;
use crate::text::{append_str, string_of};
use crate::unirecord::{MemberType, ScalarKind, TypeModel, TypeShape, ValueModel};
use vstd::prelude::*;

verus! {

/// The C type of a scalar, and of the elements of an array: the fixed-width
/// integer type of the kind's width and sign, `float` or `double`.
pub open spec fn c_scalar_type(kind: ScalarKind) -> Seq<char> {
    match kind {
        ScalarKind::X8 => "uint8_t"@,
        ScalarKind::X16 => "uint16_t"@,
        ScalarKind::X32 => "uint32_t"@,
        ScalarKind::X64 => "uint64_t"@,
        ScalarKind::U8 => "uint8_t"@,
        ScalarKind::U16 => "uint16_t"@,
        ScalarKind::U32 => "uint32_t"@,
        ScalarKind::U64 => "uint64_t"@,
        ScalarKind::I8 => "int8_t"@,
        ScalarKind::I16 => "int16_t"@,
        ScalarKind::I32 => "int32_t"@,
        ScalarKind::I64 => "int64_t"@,
        ScalarKind::F32 => "float"@,
        ScalarKind::F64 => "double"@,
    }
}

/// The C type of a member: constant, a pointer for an array, the
/// enumeration for an identifier.
pub open spec fn c_member_type(t: TypeModel) -> Seq<char> {
    match t {
        TypeModel::Scalar(kind) => "const "@ + c_scalar_type(kind),
        TypeModel::Array(kind) => "const "@ + c_scalar_type(kind) + "* const"@,
        TypeModel::Truth => "const bool"@,
        TypeModel::Identifier(enum_type) => "const enum "@ + enum_type,
    }
}

/// The enumerator of the operation whose name in macro case is `id`.
pub open spec fn c_operation_id_text(id: Seq<char>) -> Seq<char> {
    "   OPERATION_ID_"@ + id + ",\n"@
}

/// The enumerator of a structure.
pub open spec fn c_operation_id(s: StructureModel) -> Seq<char> {
    c_operation_id_text(macro_case_of(s.name))
}

/// One enumerator per structure, in the order of the definitions.
pub open spec fn c_operation_ids(structures: Seq<StructureModel>) -> Seq<char>
    decreases structures.len(),
{
    if structures.len() == 0 {
        Seq::empty()
    } else {
        c_operation_ids(structures.drop_last()) + c_operation_id(structures.last())
    }
}

/// A member of an enumeration, with the enumeration's name in front.
pub open spec fn c_enum_member(enum_name: Seq<char>, member: Seq<char>) -> Seq<char> {
    "   "@ + enum_name + member + ",\n"@
}

/// The members of an enumeration, in the order first seen.
pub open spec fn c_enum_members(enum_name: Seq<char>, members: Seq<Seq<char>>) -> Seq<char>
    decreases members.len(),
{
    if members.len() == 0 {
        Seq::empty()
    } else {
        c_enum_members(enum_name, members.drop_last()) + c_enum_member(enum_name, members.last())
    }
}

/// An enumeration.
pub open spec fn c_enum(e: EnumModel) -> Seq<char> {
    "enum "@ + e.name + "{\n"@ + c_enum_members(e.name, e.members) + "};\n"@
}

/// One enumeration per declaration, members in the order first seen.
pub open spec fn c_enums(enums: Seq<EnumModel>) -> Seq<char>
    decreases enums.len(),
{
    if enums.len() == 0 {
        Seq::empty()
    } else {
        c_enums(enums.drop_last()) + c_enum(enums.last())
    }
}

/// A member of a record type.
pub open spec fn c_struct_member(m: MemberModel) -> Seq<char> {
    "   "@ + c_member_type(m.member_type) + " "@ + m.name + ";\n"@
}

/// The members of a record type, in the order first seen.
pub open spec fn c_struct_members(members: Seq<MemberModel>) -> Seq<char>
    decreases members.len(),
{
    if members.len() == 0 {
        Seq::empty()
    } else {
        c_struct_members(members.drop_last()) + c_struct_member(members.last())
    }
}

/// A record type.
pub open spec fn c_struct(s: StructureModel) -> Seq<char> {
    "typedef struct{\n"@ + c_struct_members(s.members) + "}"@ + s.name + ";\n"@ + "\n"@
}

/// One record type per structure, members in the order first seen.
pub open spec fn c_structs(structures: Seq<StructureModel>) -> Seq<char>
    decreases structures.len(),
{
    if structures.len() == 0 {
        Seq::empty()
    } else {
        c_structs(structures.drop_last()) + c_struct(structures.last())
    }
}

/// The member of the union for the structure `name`, whose name in snake
/// case is `member`.
pub open spec fn c_variant_text(name: Seq<char>, member: Seq<char>) -> Seq<char> {
    "   const "@ + name + "* const "@ + member + ";\n"@
}

/// The member of the union for a structure.
pub open spec fn c_variant(s: StructureModel) -> Seq<char> {
    c_variant_text(s.name, snake_case_of(s.name))
}

/// One member of the union per structure.
pub open spec fn c_variants(structures: Seq<StructureModel>) -> Seq<char>
    decreases structures.len(),
{
    if structures.len() == 0 {
        Seq::empty()
    } else {
        c_variants(structures.drop_last()) + c_variant(structures.last())
    }
}

/// The include guard of the sequence whose name in upper case is `upper`,
/// and the includes.
pub open spec fn c_guard_text(upper: Seq<char>) -> Seq<char> {
    "#ifndef _"@ + upper + "_H\n#define _"@ + upper
        + "_H\n#include <stdint.h>\n#include <stdbool.h>\n"@
}

/// The include guard and the includes.
pub open spec fn c_header_opening(sequence_name: Seq<char>) -> Seq<char> {
    c_guard_text(upper_text(sequence_name))
}

/// The header of a model whose sequence is named.
pub open spec fn c_header(m: ModelView) -> Seq<char> {
    c_header_opening(m.sequence_name->Some_0) + "\n"@ + "enum OperationId{\n"@ + c_operation_ids(
        m.structures,
    ) + "};\n"@ + "\n"@ + c_enums(m.enums) + "\n"@ + c_structs(m.structures)
        + "union OperationVariant{\n"@ + c_variants(m.structures) + "};\n"@ + "\n"@
        + "typedef struct{\n   const enum OperationId id;\n   const union OperationVariant variant;\n}Operation;\n"@
        + "\n"@ + "#endif"@
}

/// The kind of the elements of an array.
pub open spec fn array_kind(array: ValueModel) -> ScalarKind {
    match array {
        ValueModel::Wholes(kind, _) => kind,
        ValueModel::Fractions(kind, _) => kind,
        _ => ScalarKind::X8,
    }
}

/// The definition of an array under a name.
pub open spec fn c_array(array: ValueModel, name: Seq<char>) -> Seq<char> {
    "const "@ + c_scalar_type(array_kind(array)) + " "@ + name + "[] = "@ + "{"@ + elements_text(
        array,
    ) + "}"@ + ";"@
}

/// One definition per interned array, in the order of the numbers.
pub open spec fn c_arrays(arrays: Seq<ValueModel>) -> Seq<char>
    decreases arrays.len(),
{
    if arrays.len() == 0 {
        Seq::empty()
    } else {
        c_arrays(arrays.drop_last()) + c_array(arrays.last(), array_name(arrays.len() - 1))
            + "\n"@
    }
}

/// The value of a parameter in an initializer.
pub open spec fn c_value(value: ParameterValue) -> Seq<char> {
    match value {
        ParameterValue::Whole(kind, n) => whole_text(kind, n),
        ParameterValue::Fraction(_, d) => decimal_literal(d),
        ParameterValue::ArrayRef(_, instance) => instance,
        ParameterValue::Truth(b) => truth_text(b),
        ParameterValue::Identifier(enum_type, member) => enum_type + member,
    }
}

/// The initializer of a parameter.
pub open spec fn c_parameter(p: ParameterModel) -> Seq<char> {
    "."@ + p.name + " = "@ + c_value(p.value)
}

/// The initializers of an operation, with `, ` between two.
pub open spec fn c_parameters(ps: Seq<ParameterModel>) -> Seq<char>
    decreases ps.len(),
{
    if ps.len() == 0 {
        Seq::empty()
    } else if ps.len() == 1 {
        c_parameter(ps[0])
    } else {
        c_parameters(ps.drop_last()) + ", "@ + c_parameter(ps.last())
    }
}

/// The definition of the operation with the number `n`.
pub open spec fn c_operation(operation: OperationModel, n: int) -> Seq<char> {
    "const "@ + operation.operation_type + " "@ + operation_name(n) + " = {"@ + c_parameters(
        operation.parameters,
    ) + "};\n"@
}

/// One definition per interned operation, in the order of the numbers.
pub open spec fn c_operations(operations: Seq<OperationModel>) -> Seq<char>
    decreases operations.len(),
{
    if operations.len() == 0 {
        Seq::empty()
    } else {
        c_operations(operations.drop_last()) + c_operation(
            operations.last(),
            operations.len() - 1,
        )
    }
}

/// The initializer of an occurrence.
pub open spec fn c_reference(r: ReferenceModel) -> Seq<char> {
    c_reference_text(macro_case_of(r.operation_type), snake_case_of(r.operation_type), r.instance)
}

/// The initializer of an occurrence of the operation whose name is `id` in
/// macro case and `member` in snake case, pointing to `instance`.
pub open spec fn c_reference_text(id: Seq<char>, member: Seq<char>, instance: Seq<char>) -> Seq<
    char,
> {
    "   {.id = OPERATION_ID_"@ + id + ", .variant={."@ + member + "=&"@ + instance + "}}"@
}

/// One initializer per occurrence, in the order of the occurrences, with
/// `,` and a line feed between two.
pub open spec fn c_references(references: Seq<ReferenceModel>) -> Seq<char>
    decreases references.len(),
{
    if references.len() == 0 {
        Seq::empty()
    } else if references.len() == 1 {
        c_reference(references[0])
    } else {
        c_references(references.drop_last()) + ",\n"@ + c_reference(references.last())
    }
}

/// The table of the occurrences.
pub open spec fn c_table(sequence_name: Seq<char>, references: Seq<ReferenceModel>) -> Seq<char> {
    "const Operation "@ + sequence_name + "[] = {\n"@ + c_references(references) + "\n};\n"@
        + "\n"@
}

/// The constant that counts the elements of the table.
pub open spec fn c_length(sequence_name: Seq<char>) -> Seq<char> {
    c_length_text(lower_text(sequence_name))
}

/// The constant that counts the elements of the table of the sequence
/// whose name in lower case is `lower`.
pub open spec fn c_length_text(lower: Seq<char>) -> Seq<char> {
    "const uint32_t "@ + lower + "_len = sizeof("@ + lower + "_operations)/sizeof(Operation);"@
}

/// The source file of a model whose sequence is named.
pub open spec fn c_source(m: ModelView) -> Seq<char> {
    "#include \"playdisc.h\"\n"@ + "\n"@ + c_arrays(m.arrays) + "\n"@ + c_operations(m.operations)
        + "\n"@ + c_table(m.sequence_name->Some_0, m.references) + c_length(
        m.sequence_name->Some_0,
    )
}

fn scalar_type(kind: ScalarKind) -> (r: &'static str)
    ensures
        r@ == c_scalar_type(kind),
{
    match kind {
        ScalarKind::X8 => "uint8_t",
        ScalarKind::X16 => "uint16_t",
        ScalarKind::X32 => "uint32_t",
        ScalarKind::X64 => "uint64_t",
        ScalarKind::U8 => "uint8_t",
        ScalarKind::U16 => "uint16_t",
        ScalarKind::U32 => "uint32_t",
        ScalarKind::U64 => "uint64_t",
        ScalarKind::I8 => "int8_t",
        ScalarKind::I16 => "int16_t",
        ScalarKind::I32 => "int32_t",
        ScalarKind::I64 => "int64_t",
        ScalarKind::F32 => "float",
        ScalarKind::F64 => "double",
    }
}

/// The C type of a member.
pub fn member_type_to_c_type_string(member_type: &MemberType) -> (r: String)
    ensures
        r@ == c_member_type(member_type@),
{
    let mut out: Vec<char> = Vec::new();
    append_member_type(&mut out, member_type);
    assert(out@ =~= c_member_type(member_type@));
    string_of(&out)
}

fn append_member_type(out: &mut Vec<char>, member_type: &MemberType)
    ensures
        final(out)@ == old(out)@ + c_member_type(member_type@),
{
    match member_type.shape() {
        TypeShape::Scalar(kind) => {
            append_str(out, "const ");
            append_str(out, scalar_type(kind));
            assert(out@ =~= old(out)@ + c_member_type(member_type@));
        },
        TypeShape::Array(kind) => {
            append_str(out, "const ");
            append_str(out, scalar_type(kind));
            append_str(out, "* const");
            assert(out@ =~= old(out)@ + c_member_type(member_type@));
        },
        TypeShape::Truth => {
            append_str(out, "const bool");
        },
        TypeShape::Identifier => {
            append_str(out, "const enum ");
            match member_type.enum_name() {
                Some(name) => {
                    append_string(out, name);
                },
                None => {},
            }
            assert(out@ =~= old(out)@ + c_member_type(member_type@));
        },
    }
}

/// Appends the enumerator of the operation whose name in macro case is
/// `id`.
pub fn write_operation_id(out: &mut Vec<char>, id: &String)
    ensures
        final(out)@ == old(out)@ + c_operation_id_text(id@),
{
    append_str(out, "   OPERATION_ID_");
    append_string(out, id);
    append_str(out, ",\n");
    assert(out@ =~= old(out)@ + c_operation_id_text(id@));
}

fn generate_operation_id_enum(out: &mut Vec<char>, records: &Vec<StructureDefinition>)
    ensures
        final(out)@ == old(out)@ + c_operation_ids(structure_models(records@)),
{
    let ghost all = structure_models(records@);
    let mut i: usize = 0;
    assert(all.take(0) =~= Seq::<StructureModel>::empty());
    assert(out@ =~= old(out)@ + c_operation_ids(all.take(0)));
    while i < records.len()
        invariant
            i <= records.len(),
            all == structure_models(records@),
            out@ == old(out)@ + c_operation_ids(all.take(i as int)),
        decreases records.len() - i,
    {
        proof {
            let next = all.take(i + 1);
            assert(next.drop_last() =~= all.take(i as int));
            assert(next.last() == records@[i as int]@);
        }
        let id = macro_case(records[i].name.as_str());
        write_operation_id(out, &id);
        assert(out@ =~= old(out)@ + c_operation_ids(all.take(i + 1)));
        i += 1;
    }
    assert(all.take(records.len() as int) =~= all);
}

fn generate_enum_members(out: &mut Vec<char>, declaration: &EnumDeclaration)
    ensures
        final(out)@ == old(out)@ + c_enum_members(declaration@.name, declaration@.members),
{
    let ghost all = texts(declaration.members@);
    let mut i: usize = 0;
    assert(all.take(0) =~= Seq::<Seq<char>>::empty());
    assert(out@ =~= old(out)@ + c_enum_members(declaration@.name, all.take(0)));
    while i < declaration.members.len()
        invariant
            i <= declaration.members.len(),
            all == texts(declaration.members@),
            out@ == old(out)@ + c_enum_members(declaration@.name, all.take(i as int)),
        decreases declaration.members.len() - i,
    {
        proof {
            let next = all.take(i + 1);
            assert(next.drop_last() =~= all.take(i as int));
            assert(next.last() == declaration.members@[i as int]@);
        }
        append_str(out, "   ");
        append_string(out, &declaration.name);
        append_string(out, &declaration.members[i]);
        append_str(out, ",\n");
        assert(out@ =~= old(out)@ + c_enum_members(declaration@.name, all.take(i + 1)));
        i += 1;
    }
    assert(all.take(declaration.members.len() as int) =~= all);
}

fn generate_enum_definitions(out: &mut Vec<char>, enums: &Vec<EnumDeclaration>)
    ensures
        final(out)@ == old(out)@ + c_enums(enum_models(enums@)),
{
    let ghost all = enum_models(enums@);
    let mut i: usize = 0;
    assert(all.take(0) =~= Seq::<EnumModel>::empty());
    assert(out@ =~= old(out)@ + c_enums(all.take(0)));
    while i < enums.len()
        invariant
            i <= enums.len(),
            all == enum_models(enums@),
            out@ == old(out)@ + c_enums(all.take(i as int)),
        decreases enums.len() - i,
    {
        proof {
            let next = all.take(i + 1);
            assert(next.drop_last() =~= all.take(i as int));
            assert(next.last() == enums@[i as int]@);
        }
        append_str(out, "enum ");
        append_string(out, &enums[i].name);
        append_str(out, "{\n");
        generate_enum_members(out, &enums[i]);
        append_str(out, "};\n");
        assert(out@ =~= old(out)@ + c_enums(all.take(i + 1)));
        i += 1;
    }
    assert(all.take(enums.len() as int) =~= all);
}

fn generate_struct_members(out: &mut Vec<char>, members: &Vec<StructureDefinitionMember>)
    ensures
        final(out)@ == old(out)@ + c_struct_members(member_models(members@)),
{
    let ghost all = member_models(members@);
    let mut i: usize = 0;
    assert(all.take(0) =~= Seq::<MemberModel>::empty());
    assert(out@ =~= old(out)@ + c_struct_members(all.take(0)));
    while i < members.len()
        invariant
            i <= members.len(),
            all == member_models(members@),
            out@ == old(out)@ + c_struct_members(all.take(i as int)),
        decreases members.len() - i,
    {
        proof {
            let next = all.take(i + 1);
            assert(next.drop_last() =~= all.take(i as int));
            assert(next.last() == members@[i as int]@);
        }
        append_str(out, "   ");
        append_member_type(out, &members[i].member_type);
        append_str(out, " ");
        append_string(out, &members[i].member_name);
        append_str(out, ";\n");
        assert(out@ =~= old(out)@ + c_struct_members(all.take(i + 1)));
        i += 1;
    }
    assert(all.take(members.len() as int) =~= all);
}

fn generate_struct_definitions(out: &mut Vec<char>, records: &Vec<StructureDefinition>)
    ensures
        final(out)@ == old(out)@ + c_structs(structure_models(records@)),
{
    let ghost all = structure_models(records@);
    let mut i: usize = 0;
    assert(all.take(0) =~= Seq::<StructureModel>::empty());
    assert(out@ =~= old(out)@ + c_structs(all.take(0)));
    while i < records.len()
        invariant
            i <= records.len(),
            all == structure_models(records@),
            out@ == old(out)@ + c_structs(all.take(i as int)),
        decreases records.len() - i,
    {
        proof {
            let next = all.take(i + 1);
            assert(next.drop_last() =~= all.take(i as int));
            assert(next.last() == records@[i as int]@);
        }
        append_str(out, "typedef struct{\n");
        generate_struct_members(out, &records[i].members);
        append_str(out, "}");
        append_string(out, &records[i].name);
        append_str(out, ";\n");
        append_str(out, "\n");
        assert(out@ =~= old(out)@ + c_structs(all.take(i + 1)));
        i += 1;
    }
    assert(all.take(records.len() as int) =~= all);
}

/// Appends the member of the union for the structure `name`, whose name in
/// snake case is `member`.
pub fn write_variant(out: &mut Vec<char>, name: &String, member: &String)
    ensures
        final(out)@ == old(out)@ + c_variant_text(name@, member@),
{
    append_str(out, "   const ");
    append_string(out, name);
    append_str(out, "* const ");
    append_string(out, member);
    append_str(out, ";\n");
    assert(out@ =~= old(out)@ + c_variant_text(name@, member@));
}

fn generate_operation_variants_definition(out: &mut Vec<char>, records: &Vec<StructureDefinition>)
    ensures
        final(out)@ == old(out)@ + c_variants(structure_models(records@)),
{
    let ghost all = structure_models(records@);
    let mut i: usize = 0;
    assert(all.take(0) =~= Seq::<StructureModel>::empty());
    assert(out@ =~= old(out)@ + c_variants(all.take(0)));
    while i < records.len()
        invariant
            i <= records.len(),
            all == structure_models(records@),
            out@ == old(out)@ + c_variants(all.take(i as int)),
        decreases records.len() - i,
    {
        proof {
            let next = all.take(i + 1);
            assert(next.drop_last() =~= all.take(i as int));
            assert(next.last() == records@[i as int]@);
        }
        let member = snake_case(records[i].name.as_str());
        write_variant(out, &records[i].name, &member);
        assert(out@ =~= old(out)@ + c_variants(all.take(i + 1)));
        i += 1;
    }
    assert(all.take(records.len() as int) =~= all);
}

/// Appends the include guard of the sequence whose name in upper case is
/// `upper`, and the includes.
pub fn write_header_opening(out: &mut Vec<char>, upper: &String)
    ensures
        final(out)@ == old(out)@ + c_guard_text(upper@),
{
    append_str(out, "#ifndef _");
    append_string(out, upper);
    append_str(out, "_H\n#define _");
    append_string(out, upper);
    append_str(out, "_H\n#include <stdint.h>\n#include <stdbool.h>\n");
    assert(out@ =~= old(out)@ + c_guard_text(upper@));
}

fn generate_header_pre(out: &mut Vec<char>, sequence_name: &String)
    ensures
        final(out)@ == old(out)@ + c_header_opening(sequence_name@),
{
    let upper = to_uppercase(sequence_name.as_str());
    write_header_opening(out, &upper);
}

/// Writes the header: the include guard, the enumeration of the operations,
/// the enumerations, the record types, the union and the operation type.
pub fn generate_c_header(model: &Model) -> (r: String)
    requires
        model@.sequence_name is Some,
    ensures
        r@ == c_header(model@),
{
    let mut out: Vec<char> = Vec::new();
    match model.sequence_name() {
        Some(name) => {
            generate_header_pre(&mut out, name);
        },
        None => {},
    }
    append_str(&mut out, "\n");
    append_str(&mut out, "enum OperationId{\n");
    generate_operation_id_enum(&mut out, model.defined_records());
    append_str(&mut out, "};\n");
    append_str(&mut out, "\n");
    generate_enum_definitions(&mut out, model.defined_enums());
    append_str(&mut out, "\n");
    generate_struct_definitions(&mut out, model.defined_records());
    append_str(&mut out, "union OperationVariant{\n");
    generate_operation_variants_definition(&mut out, model.defined_records());
    append_str(&mut out, "};\n");
    append_str(&mut out, "\n");
    append_str(
        &mut out,
        "typedef struct{\n   const enum OperationId id;\n   const union OperationVariant variant;\n}Operation;\n",
    );
    append_str(&mut out, "\n");
    append_str(&mut out, "#endif");
    assert(out@ =~= c_header(model@));
    string_of(&out)
}

fn array_kind_of(array: &ArrayInstanceVariant) -> (kind: ScalarKind)
    ensures
        kind == array_kind(array@),
{
    match array.elements() {
        crate::model::ArrayElements::Wholes(kind, _) => kind,
        crate::model::ArrayElements::Fractions(kind, _) => kind,
    }
}

/// The definition of an array under a name.
pub fn fmt_array_instance(array: &ArrayInstanceVariant, array_name: &str) -> (r: String)
    ensures
        r@ == c_array(array@, array_name@),
{
    let mut out: Vec<char> = Vec::new();
    append_str(&mut out, "const ");
    append_str(&mut out, scalar_type(array_kind_of(array)));
    append_str(&mut out, " ");
    append_str(&mut out, array_name);
    append_str(&mut out, "[] = ");
    append_str(&mut out, "{");
    let elements = array.elements();
    append_elements(&mut out, &elements);
    append_str(&mut out, "}");
    append_str(&mut out, ";");
    assert(out@ =~= c_array(array@, array_name@));
    string_of(&out)
}

fn generate_array_instances(out: &mut Vec<char>, arrays: &Vec<ArrayInstanceVariant>)
    ensures
        final(out)@ == old(out)@ + c_arrays(array_models(arrays@)),
{
    let ghost all = array_models(arrays@);
    let mut i: usize = 0;
    assert(all.take(0) =~= Seq::<ValueModel>::empty());
    assert(out@ =~= old(out)@ + c_arrays(all.take(0)));
    while i < arrays.len()
        invariant
            i <= arrays.len(),
            all == array_models(arrays@),
            out@ == old(out)@ + c_arrays(all.take(i as int)),
        decreases arrays.len() - i,
    {
        proof {
            let next = all.take(i + 1);
            assert(next.drop_last() =~= all.take(i as int));
            assert(next.last() == arrays@[i as int]@);
        }
        let name = array_instance_name(i);
        let definition = fmt_array_instance(&arrays[i], name.as_str());
        append_string(out, &definition);
        append_str(out, "\n");
        assert(out@ =~= old(out)@ + c_arrays(all.take(i + 1)));
        i += 1;
    }
    assert(all.take(arrays.len() as int) =~= all);
}

/// The initializer of a parameter.
pub fn fmt_struct_member(parameter: &OperationParameterVariant) -> (r: String)
    ensures
        r@ == c_parameter(parameter@),
{
    let mut out: Vec<char> = Vec::new();
    append_struct_member(&mut out, parameter);
    assert(out@ =~= c_parameter(parameter@));
    string_of(&out)
}

fn append_struct_member(out: &mut Vec<char>, parameter: &OperationParameterVariant)
    ensures
        final(out)@ == old(out)@ + c_parameter(parameter@),
{
    append_str(out, ".");
    append_string(out, parameter.name());
    append_str(out, " = ");
    let ghost before = out@;
    match parameter.payload() {
        ParameterPayload::Whole(kind, n) => {
            append_whole(out, kind, n);
        },
        ParameterPayload::Fraction(_, d) => {
            d.append_to(out);
        },
        ParameterPayload::ArrayRef(_, instance) => {
            append_string(out, instance);
        },
        ParameterPayload::Truth(b) => {
            append_truth(out, b);
        },
        ParameterPayload::Identifier(enum_type, member) => {
            append_string(out, enum_type);
            append_string(out, member);
            assert(out@ =~= before + (enum_type@ + member@));
        },
    }
    assert(out@ =~= old(out)@ + c_parameter(parameter@));
}

fn generate_parameters(out: &mut Vec<char>, parameters: &Vec<OperationParameterVariant>)
    ensures
        final(out)@ == old(out)@ + c_parameters(parameter_models(parameters@)),
{
    let ghost all = parameter_models(parameters@);
    let mut i: usize = 0;
    assert(all.take(0) =~= Seq::<ParameterModel>::empty());
    assert(out@ =~= old(out)@ + c_parameters(all.take(0)));
    while i < parameters.len()
        invariant
            i <= parameters.len(),
            all == parameter_models(parameters@),
            out@ == old(out)@ + c_parameters(all.take(i as int)),
        decreases parameters.len() - i,
    {
        proof {
            let next = all.take(i + 1);
            assert(next.drop_last() =~= all.take(i as int));
            assert(next.last() == parameters@[i as int]@);
            if i == 0 {
                assert(next[0] == parameters@[0]@);
            }
        }
        if i > 0 {
            append_str(out, ", ");
        }
        append_struct_member(out, &parameters[i]);
        assert(out@ =~= old(out)@ + c_parameters(all.take(i + 1)));
        i += 1;
    }
    assert(all.take(parameters.len() as int) =~= all);
}

fn generate_operation_instances(out: &mut Vec<char>, operations: &Vec<Operation>)
    ensures
        final(out)@ == old(out)@ + c_operations(operation_models(operations@)),
{
    let ghost all = operation_models(operations@);
    let mut i: usize = 0;
    assert(all.take(0) =~= Seq::<OperationModel>::empty());
    assert(out@ =~= old(out)@ + c_operations(all.take(0)));
    while i < operations.len()
        invariant
            i <= operations.len(),
            all == operation_models(operations@),
            out@ == old(out)@ + c_operations(all.take(i as int)),
        decreases operations.len() - i,
    {
        proof {
            let next = all.take(i + 1);
            assert(next.drop_last() =~= all.take(i as int));
            assert(next.last() == operations@[i as int]@);
        }
        append_str(out, "const ");
        append_string(out, &operations[i].operation_type);
        append_str(out, " ");
        append_str(out, "operation_");
        append_decimal(out, i as i128);
        append_str(out, " = {");
        generate_parameters(out, &operations[i].parameters);
        append_str(out, "};\n");
        assert(out@ =~= old(out)@ + c_operations(all.take(i + 1)));
        i += 1;
    }
    assert(all.take(operations.len() as int) =~= all);
}

/// Appends the initializer of an occurrence of the operation whose name is
/// `id` in macro case and `member` in snake case, pointing to `instance`.
pub fn write_reference(out: &mut Vec<char>, id: &String, member: &String, instance: &String)
    ensures
        final(out)@ == old(out)@ + c_reference_text(id@, member@, instance@),
{
    append_str(out, "   {.id = OPERATION_ID_");
    append_string(out, id);
    append_str(out, ", .variant={.");
    append_string(out, member);
    append_str(out, "=&");
    append_string(out, instance);
    append_str(out, "}}");
    assert(out@ =~= old(out)@ + c_reference_text(id@, member@, instance@));
}

fn generate_reference(out: &mut Vec<char>, reference: &OperationTableMember)
    ensures
        final(out)@ == old(out)@ + c_reference(reference@),
{
    let id = macro_case(reference.operation_type.as_str());
    let member = snake_case(reference.operation_type.as_str());
    write_reference(out, &id, &member, &reference.operation_variant_ref_name);
}

fn generate_references(out: &mut Vec<char>, table: &Vec<OperationTableMember>)
    ensures
        final(out)@ == old(out)@ + c_references(reference_models(table@)),
{
    let ghost all = reference_models(table@);
    let mut i: usize = 0;
    assert(all.take(0) =~= Seq::<ReferenceModel>::empty());
    assert(out@ =~= old(out)@ + c_references(all.take(0)));
    while i < table.len()
        invariant
            i <= table.len(),
            all == reference_models(table@),
            out@ == old(out)@ + c_references(all.take(i as int)),
        decreases table.len() - i,
    {
        proof {
            let next = all.take(i + 1);
            assert(next.drop_last() =~= all.take(i as int));
            assert(next.last() == table@[i as int]@);
            if i == 0 {
                assert(next[0] == table@[0]@);
            }
        }
        if i > 0 {
            append_str(out, ",\n");
        }
        generate_reference(out, &table[i]);
        assert(out@ =~= old(out)@ + c_references(all.take(i + 1)));
        i += 1;
    }
    assert(all.take(table.len() as int) =~= all);
}

fn generate_operation_list(
    out: &mut Vec<char>,
    sequence_name: &String,
    table: &Vec<OperationTableMember>,
)
    ensures
        final(out)@ == old(out)@ + c_table(sequence_name@, reference_models(table@)),
{
    append_str(out, "const Operation ");
    append_string(out, sequence_name);
    append_str(out, "[] = {\n");
    generate_references(out, table);
    append_str(out, "\n};\n");
    append_str(out, "\n");
    assert(out@ =~= old(out)@ + c_table(sequence_name@, reference_models(table@)));
}

/// Appends the constant that counts the elements of the table of the
/// sequence whose name in lower case is `lower`.
pub fn write_length(out: &mut Vec<char>, lower: &String)
    ensures
        final(out)@ == old(out)@ + c_length_text(lower@),
{
    append_str(out, "const uint32_t ");
    append_string(out, lower);
    append_str(out, "_len = sizeof(");
    append_string(out, lower);
    append_str(out, "_operations)/sizeof(Operation);");
    assert(out@ =~= old(out)@ + c_length_text(lower@));
}

fn generate_source_post(out: &mut Vec<char>, sequence_name: &String)
    ensures
        final(out)@ == old(out)@ + c_length(sequence_name@),
{
    let lower = to_lowercase(sequence_name.as_str());
    write_length(out, &lower);
}

/// Writes the source file: the interned arrays, the interned operations,
/// the table of the occurrences and the constant that counts them.
pub fn generate_c_source(model: &Model) -> (r: String)
    requires
        model@.sequence_name is Some,
    ensures
        r@ == c_source(model@),
{
    let mut out: Vec<char> = Vec::new();
    append_str(&mut out, "#include \"playdisc.h\"\n");
    append_str(&mut out, "\n");
    generate_array_instances(&mut out, model.instanciated_arrays());
    append_str(&mut out, "\n");
    generate_operation_instances(&mut out, model.operation_instances());
    append_str(&mut out, "\n");
    match model.sequence_name() {
        Some(name) => {
            generate_operation_list(&mut out, name, model.operation_ref_table());
            generate_source_post(&mut out, name);
        },
        None => {},
    }
    assert(out@ =~= c_source(model@));
    string_of(&out)
}

/// The C emitter of a model.
pub trait CGeneration {
    /// Whether the model can be written: its sequence is named.
    spec fn c_writable(&self) -> bool;

    /// The text of the source file.
    spec fn c_source_text(&self) -> Seq<char>;

    /// The text of the header.
    spec fn c_header_text(&self) -> Seq<char>;

    /// Writes the model as C: the source file, then the header.
    fn compute_to_c(&self) -> (r: (String, String))
        requires
            self.c_writable(),
        ensures
            r.0@ == self.c_source_text(),
            r.1@ == self.c_header_text(),
    ;
}

impl CGeneration for Model {
    open spec fn c_writable(&self) -> bool {
        self@.sequence_name is Some
    }

    open spec fn c_source_text(&self) -> Seq<char> {
        c_source(self@)
    }

    open spec fn c_header_text(&self) -> Seq<char> {
        c_header(self@)
    }

    fn compute_to_c(&self) -> (r: (String, String)) {
        let header = generate_c_header(self);
        let source = generate_c_source(self);
        (source, header)
    }
}

} // verus!
