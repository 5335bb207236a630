//! The operation model: declarations, interned arrays and operations, and
//! the table of occurrences.

use crate::decimal::{Decimal, DecimalModel};
use crate::interning::{
    key_view, lemma_text_key_injective, text_key, text_key_of, whole_code, Interner,
};
use crate::number::{append_decimal, decimal_text};
use crate::text::{append_str, chars_of, string_of};
use crate::unirecord::{
    field_models, fractions, FieldModel, IdentifierRecordArg, MemberType, RecordModel, ScalarKind,
    TypeModel, UniRecord, UniRecordArgVariant, ValueModel, wide,
    wholes_u8, wholes_u16, wholes_u32, wholes_u64, wholes_i8, wholes_i16, wholes_i32, wholes_i64,
};
use vstd::prelude::*;

verus! {

/// A member of a structure, as mathematics sees it.
pub ghost struct MemberModel {
    pub name: Seq<char>,
    pub member_type: TypeModel,
}

/// A structure definition, as mathematics sees it.
pub ghost struct StructureModel {
    pub name: Seq<char>,
    pub members: Seq<MemberModel>,
}

/// An enumeration, as mathematics sees it.
pub ghost struct EnumModel {
    pub name: Seq<char>,
    pub members: Seq<Seq<char>>,
}

/// The value of a parameter of an operation: a scalar in place, or the name
/// of the interned array that holds the elements.
pub ghost enum ParameterValue {
    Whole(ScalarKind, int),
    Fraction(ScalarKind, DecimalModel),
    ArrayRef(ScalarKind, Seq<char>),
    Truth(bool),
    Identifier(Seq<char>, Seq<char>),
}

/// A parameter of an operation, as mathematics sees it.
pub ghost struct ParameterModel {
    pub name: Seq<char>,
    pub value: ParameterValue,
}

impl ParameterModel {
    /// Integers lie in the range of their kind, decimals are normal.
    pub open spec fn is_valid(self) -> bool {
        match self.value {
            ParameterValue::Whole(kind, n) => !kind.is_fraction() && kind.lower() <= n
                <= kind.upper(),
            ParameterValue::Fraction(kind, d) => kind.is_fraction() && d.is_normal(),
            _ => true,
        }
    }
}

/// An operation, as mathematics sees it.
pub ghost struct OperationModel {
    pub operation_type: Seq<char>,
    pub parameters: Seq<ParameterModel>,
}

impl OperationModel {
    /// Every parameter is valid.
    pub open spec fn is_valid(self) -> bool {
        forall|i: int| 0 <= i < self.parameters.len() ==> (#[trigger] self.parameters[i]).is_valid()
    }
}

/// An entry of the table of occurrences, as mathematics sees it.
pub ghost struct ReferenceModel {
    pub operation_type: Seq<char>,
    pub instance: Seq<char>,
}

/// The whole model, as mathematics sees it. The arrays and the operations
/// stand in the order of their numbers: the array at index `n` is `array_n`.
pub ghost struct ModelView {
    pub sequence_name: Option<Seq<char>>,
    pub enums: Seq<EnumModel>,
    pub structures: Seq<StructureModel>,
    pub arrays: Seq<ValueModel>,
    pub operations: Seq<OperationModel>,
    pub references: Seq<ReferenceModel>,
}

/// Whether a value is an array whose integers lie in the range of its kind
/// and whose decimals are normal.
pub open spec fn is_valid_array(array: ValueModel) -> bool {
    match array {
        ValueModel::Wholes(kind, v) => !kind.is_fraction() && forall|i: int|
            0 <= i < v.len() ==> kind.lower() <= #[trigger] v[i] <= kind.upper(),
        ValueModel::Fractions(kind, v) => kind.is_fraction() && forall|i: int|
            0 <= i < v.len() ==> (#[trigger] v[i]).is_normal(),
        _ => false,
    }
}

/// Where `x` stands in `s`, if it does.
pub open spec fn lookup<T>(s: Seq<T>, x: T) -> Option<int> {
    if s.contains(x) {
        Some(s.index_of(x))
    } else {
        None
    }
}

/// The names of the enumerations.
pub open spec fn enum_names(enums: Seq<EnumModel>) -> Seq<Seq<char>> {
    enums.map_values(|e: EnumModel| e.name)
}

/// The names of the structures.
pub open spec fn structure_names(structures: Seq<StructureModel>) -> Seq<Seq<char>> {
    structures.map_values(|s: StructureModel| s.name)
}

/// The name of the array with the number `n`.
pub open spec fn array_name(n: int) -> Seq<char> {
    "array_"@ + decimal_text(n)
}

/// The name of the operation with the number `n`.
pub open spec fn operation_name(n: int) -> Seq<char> {
    "operation_"@ + decimal_text(n)
}

/// The structure that a record defines: its fields' names and types, in
/// the order written.
pub open spec fn structure_of(record: RecordModel) -> StructureModel {
    StructureModel {
        name: record.name,
        members: record.fields.map_values(
            |f: FieldModel| MemberModel { name: f.name, member_type: f.value.type_of() },
        ),
    }
}

impl ModelView {
    /// The model that has taken nothing.
    pub open spec fn empty() -> ModelView {
        ModelView {
            sequence_name: None,
            enums: Seq::empty(),
            structures: Seq::empty(),
            arrays: Seq::empty(),
            operations: Seq::empty(),
            references: Seq::empty(),
        }
    }

    /// Defines the structure of `record`, unless one of that name exists.
    pub open spec fn define_structure(self, record: RecordModel) -> ModelView {
        if structure_names(self.structures).contains(record.name) {
            self
        } else {
            ModelView { structures: self.structures.push(structure_of(record)), ..self }
        }
    }

    /// Declares `member` of the enumeration `enum_type`: a new enumeration
    /// goes last, a new member goes last in its enumeration.
    pub open spec fn declare_member(self, enum_type: Seq<char>, member: Seq<char>) -> ModelView {
        match lookup(enum_names(self.enums), enum_type) {
            Some(i) => if self.enums[i].members.contains(member) {
                self
            } else {
                ModelView {
                    enums: self.enums.update(
                        i,
                        EnumModel { name: enum_type, members: self.enums[i].members.push(member) },
                    ),
                    ..self
                }
            },
            None => ModelView {
                enums: self.enums.push(EnumModel { name: enum_type, members: seq![member] }),
                ..self
            },
        }
    }

    /// Interns an array: the number of the equal array if there is one,
    /// else the next number.
    pub open spec fn intern_array(self, array: ValueModel) -> (ModelView, int) {
        match lookup(self.arrays, array) {
            Some(n) => (self, n),
            None => (
                ModelView { arrays: self.arrays.push(array), ..self },
                self.arrays.len() as int,
            ),
        }
    }

    /// Interns an operation: the number of the equal operation if there is
    /// one, else the next number.
    pub open spec fn intern_operation(self, operation: OperationModel) -> (ModelView, int) {
        match lookup(self.operations, operation) {
            Some(n) => (self, n),
            None => (
                ModelView { operations: self.operations.push(operation), ..self },
                self.operations.len() as int,
            ),
        }
    }

    /// Takes one field into the model: declares what an identifier names,
    /// interns an array, and gives the parameter that stands for the field.
    pub open spec fn add_field(self, field: FieldModel) -> (ModelView, ParameterModel) {
        match field.value {
            ValueModel::Whole(kind, n) => (
                self,
                ParameterModel { name: field.name, value: ParameterValue::Whole(kind, n) },
            ),
            ValueModel::Fraction(kind, d) => (
                self,
                ParameterModel { name: field.name, value: ParameterValue::Fraction(kind, d) },
            ),
            ValueModel::Wholes(kind, _) => (
                self.intern_array(field.value).0,
                ParameterModel {
                    name: field.name,
                    value: ParameterValue::ArrayRef(
                        kind,
                        array_name(self.intern_array(field.value).1),
                    ),
                },
            ),
            ValueModel::Fractions(kind, _) => (
                self.intern_array(field.value).0,
                ParameterModel {
                    name: field.name,
                    value: ParameterValue::ArrayRef(
                        kind,
                        array_name(self.intern_array(field.value).1),
                    ),
                },
            ),
            ValueModel::Truth(b) => (
                self,
                ParameterModel { name: field.name, value: ParameterValue::Truth(b) },
            ),
            ValueModel::Identifier(enum_type, member) => (
                self.declare_member(enum_type, member),
                ParameterModel {
                    name: field.name,
                    value: ParameterValue::Identifier(enum_type, member),
                },
            ),
        }
    }

    /// Takes the fields into the model one after the other.
    pub open spec fn add_fields(self, fields: Seq<FieldModel>) -> (ModelView, Seq<ParameterModel>)
        decreases fields.len(),
    {
        if fields.len() == 0 {
            (self, Seq::empty())
        } else {
            let (model, parameters) = self.add_fields(fields.drop_last());
            let (next, parameter) = model.add_field(fields.last());
            (next, parameters.push(parameter))
        }
    }

    /// Appends an occurrence to the table.
    pub open spec fn add_reference(self, operation_type: Seq<char>, n: int) -> ModelView {
        ModelView {
            references: self.references.push(
                ReferenceModel { operation_type, instance: operation_name(n) },
            ),
            ..self
        }
    }

    /// Takes a record into the model: defines its structure if its name is
    /// new, takes its fields, interns the operation, and appends the
    /// occurrence.
    pub open spec fn add_record(self, record: RecordModel) -> ModelView {
        let defined = self.define_structure(record);
        let (filled, parameters) = defined.add_fields(record.fields);
        let operation = OperationModel { operation_type: record.name, parameters };
        let (interned, n) = filled.intern_operation(operation);
        interned.add_reference(record.name, n)
    }
}

/// The code of a kind in a structural key.
pub open spec fn kind_code(kind: ScalarKind) -> u64 {
    match kind {
        ScalarKind::X8 => 0,
        ScalarKind::X16 => 1,
        ScalarKind::X32 => 2,
        ScalarKind::X64 => 3,
        ScalarKind::U8 => 4,
        ScalarKind::U16 => 5,
        ScalarKind::U32 => 6,
        ScalarKind::U64 => 7,
        ScalarKind::I8 => 8,
        ScalarKind::I16 => 9,
        ScalarKind::I32 => 10,
        ScalarKind::I64 => 11,
        ScalarKind::F32 => 12,
        ScalarKind::F64 => 13,
    }
}

/// The code of a truth value in a structural key.
pub open spec fn flag(b: bool) -> u64 {
    if b {
        1
    } else {
        0
    }
}

/// The codes of the integers of an array.
pub open spec fn wholes_key(v: Seq<int>) -> Seq<u64> {
    v.map_values(|n: int| whole_code(n))
}

/// The digits of a decimal in a structural key.
pub open spec fn digits_key(d: Seq<u8>) -> Seq<u64> {
    d.map_values(|x: u8| x as u64)
}

/// The sign and the exponent of a decimal in a structural key.
pub open spec fn decimal_head(d: DecimalModel) -> Seq<u64> {
    seq![flag(d.negative), whole_code(d.exponent)]
}

/// Two parts for each decimal: its head, then its digits.
pub open spec fn decimals_key(v: Seq<DecimalModel>) -> Seq<Seq<u64>>
    decreases v.len(),
{
    if v.len() == 0 {
        Seq::empty()
    } else {
        decimals_key(v.drop_last()).push(decimal_head(v.last())).push(digits_key(v.last().digits))
    }
}

/// The structural key of an array: its kind, then its elements.
pub open spec fn array_key(array: ValueModel) -> Seq<Seq<u64>> {
    match array {
        ValueModel::Wholes(kind, v) => seq![seq![kind_code(kind)], wholes_key(v)],
        ValueModel::Fractions(kind, v) => seq![seq![kind_code(kind)]] + decimals_key(v),
        _ => Seq::empty(),
    }
}

/// The four parts of a parameter in a structural key: a head that tells the
/// variant and holds the numbers, the name, and up to two more texts.
pub open spec fn parameter_key(p: ParameterModel) -> Seq<Seq<u64>> {
    match p.value {
        ParameterValue::Whole(kind, n) => seq![
            seq![0u64, kind_code(kind), whole_code(n)],
            text_key(p.name),
            Seq::empty(),
            Seq::empty(),
        ],
        ParameterValue::Fraction(kind, d) => seq![
            seq![1u64, kind_code(kind), flag(d.negative), whole_code(d.exponent)],
            text_key(p.name),
            digits_key(d.digits),
            Seq::empty(),
        ],
        ParameterValue::ArrayRef(kind, instance) => seq![
            seq![2u64, kind_code(kind)],
            text_key(p.name),
            text_key(instance),
            Seq::empty(),
        ],
        ParameterValue::Truth(b) => seq![
            seq![3u64, flag(b)],
            text_key(p.name),
            Seq::empty(),
            Seq::empty(),
        ],
        ParameterValue::Identifier(enum_type, member) => seq![
            seq![4u64],
            text_key(p.name),
            text_key(enum_type),
            text_key(member),
        ],
    }
}

/// The parts of the parameters, one parameter after the other.
pub open spec fn parameters_key(ps: Seq<ParameterModel>) -> Seq<Seq<u64>>
    decreases ps.len(),
{
    if ps.len() == 0 {
        Seq::empty()
    } else {
        parameters_key(ps.drop_last()) + parameter_key(ps.last())
    }
}

/// The structural key of an operation: its name, then its parameters.
pub open spec fn operation_key(operation: OperationModel) -> Seq<Seq<u64>> {
    seq![text_key(operation.operation_type)] + parameters_key(operation.parameters)
}

/// The structural key of a name.
pub open spec fn name_key(name: Seq<char>) -> Seq<Seq<u64>> {
    seq![text_key(name)]
}

/// Kinds with the same code are the same kind.
pub proof fn lemma_kind_code_injective(a: ScalarKind, b: ScalarKind)
    requires
        kind_code(a) == kind_code(b),
    ensures
        a == b,
{
}

/// Integers of one kind with the same code are the same integer.
pub proof fn lemma_whole_code_injective(kind: ScalarKind, a: int, b: int)
    requires
        kind.lower() <= a <= kind.upper(),
        kind.lower() <= b <= kind.upper(),
        whole_code(a) == whole_code(b),
    ensures
        a == b,
{
}

/// Exponents with the same code are the same exponent.
pub proof fn lemma_exponent_code_injective(a: int, b: int)
    requires
        i64::MIN <= a <= i64::MAX,
        i64::MIN <= b <= i64::MAX,
        whole_code(a) == whole_code(b),
    ensures
        a == b,
{
}

/// Digits with the same key are the same digits.
pub proof fn lemma_digits_key_injective(a: Seq<u8>, b: Seq<u8>)
    requires
        digits_key(a) == digits_key(b),
    ensures
        a == b,
{
    assert(a.len() == digits_key(a).len());
    assert(b.len() == digits_key(b).len());
    assert forall|i: int| 0 <= i < a.len() implies a[i] == b[i] by {
        assert(digits_key(a)[i] == a[i] as u64);
        assert(digits_key(b)[i] == b[i] as u64);
    }
    assert(a =~= b);
}

/// Integers of one kind with the same codes are the same integers.
pub proof fn lemma_wholes_key_injective(kind: ScalarKind, a: Seq<int>, b: Seq<int>)
    requires
        forall|i: int| 0 <= i < a.len() ==> kind.lower() <= #[trigger] a[i] <= kind.upper(),
        forall|i: int| 0 <= i < b.len() ==> kind.lower() <= #[trigger] b[i] <= kind.upper(),
        wholes_key(a) == wholes_key(b),
    ensures
        a == b,
{
    assert(a.len() == wholes_key(a).len());
    assert(b.len() == wholes_key(b).len());
    assert forall|i: int| 0 <= i < a.len() implies a[i] == b[i] by {
        assert(wholes_key(a)[i] == whole_code(a[i]));
        assert(wholes_key(b)[i] == whole_code(b[i]));
        lemma_whole_code_injective(kind, a[i], b[i]);
    }
    assert(a =~= b);
}

/// Each decimal gives two parts.
pub proof fn lemma_decimals_key_len(v: Seq<DecimalModel>)
    ensures
        decimals_key(v).len() == 2 * v.len(),
    decreases v.len(),
{
    if v.len() > 0 {
        lemma_decimals_key_len(v.drop_last());
    }
}

/// Normal decimals with the same head and the same digits are the same decimal.
pub proof fn lemma_decimal_injective(a: DecimalModel, b: DecimalModel)
    requires
        a.is_normal(),
        b.is_normal(),
        decimal_head(a) == decimal_head(b),
        digits_key(a.digits) == digits_key(b.digits),
    ensures
        a == b,
{
    assert(decimal_head(a)[0] == flag(a.negative));
    assert(decimal_head(b)[0] == flag(b.negative));
    assert(decimal_head(a)[1] == whole_code(a.exponent));
    assert(decimal_head(b)[1] == whole_code(b.exponent));
    lemma_exponent_code_injective(a.exponent, b.exponent);
    lemma_digits_key_injective(a.digits, b.digits);
}

/// Normal decimals with the same key are the same decimals.
pub proof fn lemma_decimals_key_injective(a: Seq<DecimalModel>, b: Seq<DecimalModel>)
    requires
        forall|i: int| 0 <= i < a.len() ==> (#[trigger] a[i]).is_normal(),
        forall|i: int| 0 <= i < b.len() ==> (#[trigger] b[i]).is_normal(),
        decimals_key(a) == decimals_key(b),
    ensures
        a == b,
    decreases a.len(),
{
    lemma_decimals_key_len(a);
    lemma_decimals_key_len(b);
    if a.len() > 0 {
        let ka = decimals_key(a.drop_last());
        let kb = decimals_key(b.drop_last());
        lemma_decimals_key_len(a.drop_last());
        lemma_decimals_key_len(b.drop_last());
        let n = 2 * (a.len() - 1);
        assert(decimals_key(a)[n] == decimal_head(a.last()));
        assert(decimals_key(b)[n] == decimal_head(b.last()));
        assert(decimals_key(a)[n + 1] == digits_key(a.last().digits));
        assert(decimals_key(b)[n + 1] == digits_key(b.last().digits));
        lemma_decimal_injective(a.last(), b.last());
        assert(ka =~= decimals_key(a).take(n));
        assert(kb =~= decimals_key(b).take(n));
        lemma_decimals_key_injective(a.drop_last(), b.drop_last());
        assert(a =~= a.drop_last().push(a.last()));
        assert(b =~= b.drop_last().push(b.last()));
    } else {
        assert(a =~= b);
    }
}

/// Valid arrays with the same key are the same array.
pub proof fn lemma_array_key_injective(a: ValueModel, b: ValueModel)
    requires
        is_valid_array(a),
        is_valid_array(b),
        array_key(a) == array_key(b),
    ensures
        a == b,
{
    let ka = array_key(a);
    let kb = array_key(b);
    match a {
        ValueModel::Wholes(kind_a, va) => {
            assert(ka[0] == seq![kind_code(kind_a)]);
            assert(ka[0][0] == kind_code(kind_a));
            match b {
                ValueModel::Wholes(kind_b, vb) => {
                    assert(kb[0] == seq![kind_code(kind_b)]);
                    assert(kb[0][0] == kind_code(kind_b));
                    lemma_kind_code_injective(kind_a, kind_b);
                    assert(ka[1] == wholes_key(va));
                    assert(kb[1] == wholes_key(vb));
                    lemma_wholes_key_injective(kind_a, va, vb);
                },
                ValueModel::Fractions(kind_b, vb) => {
                    assert(kb[0] == seq![kind_code(kind_b)]);
                    assert(kb[0][0] == kind_code(kind_b));
                    lemma_kind_code_injective(kind_a, kind_b);
                },
                _ => {},
            }
        },
        ValueModel::Fractions(kind_a, va) => {
            assert(ka[0] == seq![kind_code(kind_a)]);
            assert(ka[0][0] == kind_code(kind_a));
            match b {
                ValueModel::Wholes(kind_b, vb) => {
                    assert(kb[0] == seq![kind_code(kind_b)]);
                    assert(kb[0][0] == kind_code(kind_b));
                    lemma_kind_code_injective(kind_a, kind_b);
                },
                ValueModel::Fractions(kind_b, vb) => {
                    assert(kb[0] == seq![kind_code(kind_b)]);
                    assert(kb[0][0] == kind_code(kind_b));
                    lemma_kind_code_injective(kind_a, kind_b);
                    assert(decimals_key(va) =~= ka.skip(1));
                    assert(decimals_key(vb) =~= kb.skip(1));
                    lemma_decimals_key_injective(va, vb);
                },
                _ => {},
            }
        },
        _ => {},
    }
}

/// Valid parameters with the same key are the same parameter.
pub proof fn lemma_parameter_key_injective(a: ParameterModel, b: ParameterModel)
    requires
        a.is_valid(),
        b.is_valid(),
        parameter_key(a) == parameter_key(b),
    ensures
        a == b,
{
    let ka = parameter_key(a);
    let kb = parameter_key(b);
    assert(ka[0] == kb[0]);
    assert(ka[1] == kb[1]);
    assert(ka[2] == kb[2]);
    assert(ka[3] == kb[3]);
    assert(ka[1] == text_key(a.name));
    assert(kb[1] == text_key(b.name));
    lemma_text_key_injective(a.name, b.name);
    assert(ka[0][0] == kb[0][0]);
    match a.value {
        ParameterValue::Whole(kind_a, na) => {
            assert(ka[0] == seq![0u64, kind_code(kind_a), whole_code(na)]);
            match b.value {
                ParameterValue::Whole(kind_b, nb) => {
                    assert(kb[0] == seq![0u64, kind_code(kind_b), whole_code(nb)]);
                    assert(ka[0][1] == kb[0][1]);
                    assert(ka[0][2] == kb[0][2]);
                    lemma_kind_code_injective(kind_a, kind_b);
                    lemma_whole_code_injective(kind_a, na, nb);
                },
                ParameterValue::Fraction(kind_b, db) => {
                    assert(kb[0][0] == 1u64);
                },
                ParameterValue::ArrayRef(kind_b, ib) => {
                    assert(kb[0][0] == 2u64);
                },
                ParameterValue::Truth(bb) => {
                    assert(kb[0][0] == 3u64);
                },
                ParameterValue::Identifier(tb, mb) => {
                    assert(kb[0][0] == 4u64);
                },
            }
        },
        ParameterValue::Fraction(kind_a, da) => {
            assert(ka[0] == seq![1u64, kind_code(kind_a), flag(da.negative), whole_code(da.exponent)]);
            match b.value {
                ParameterValue::Whole(kind_b, nb) => {
                    assert(kb[0][0] == 0u64);
                },
                ParameterValue::Fraction(kind_b, db) => {
                    assert(kb[0] == seq![
                        1u64,
                        kind_code(kind_b),
                        flag(db.negative),
                        whole_code(db.exponent),
                    ]);
                    assert(ka[0][1] == kb[0][1]);
                    assert(ka[0][2] == kb[0][2]);
                    assert(ka[0][3] == kb[0][3]);
                    lemma_kind_code_injective(kind_a, kind_b);
                    lemma_exponent_code_injective(da.exponent, db.exponent);
                    assert(ka[2] == digits_key(da.digits));
                    assert(kb[2] == digits_key(db.digits));
                    lemma_digits_key_injective(da.digits, db.digits);
                },
                ParameterValue::ArrayRef(kind_b, ib) => {
                    assert(kb[0][0] == 2u64);
                },
                ParameterValue::Truth(bb) => {
                    assert(kb[0][0] == 3u64);
                },
                ParameterValue::Identifier(tb, mb) => {
                    assert(kb[0][0] == 4u64);
                },
            }
        },
        ParameterValue::ArrayRef(kind_a, ia) => {
            assert(ka[0] == seq![2u64, kind_code(kind_a)]);
            match b.value {
                ParameterValue::Whole(kind_b, nb) => {
                    assert(kb[0][0] == 0u64);
                },
                ParameterValue::Fraction(kind_b, db) => {
                    assert(kb[0][0] == 1u64);
                },
                ParameterValue::ArrayRef(kind_b, ib) => {
                    assert(kb[0] == seq![2u64, kind_code(kind_b)]);
                    assert(ka[0][1] == kb[0][1]);
                    lemma_kind_code_injective(kind_a, kind_b);
                    assert(ka[2] == text_key(ia));
                    assert(kb[2] == text_key(ib));
                    lemma_text_key_injective(ia, ib);
                },
                ParameterValue::Truth(bb) => {
                    assert(kb[0][0] == 3u64);
                },
                ParameterValue::Identifier(tb, mb) => {
                    assert(kb[0][0] == 4u64);
                },
            }
        },
        ParameterValue::Truth(ba) => {
            assert(ka[0] == seq![3u64, flag(ba)]);
            match b.value {
                ParameterValue::Whole(kind_b, nb) => {
                    assert(kb[0][0] == 0u64);
                },
                ParameterValue::Fraction(kind_b, db) => {
                    assert(kb[0][0] == 1u64);
                },
                ParameterValue::ArrayRef(kind_b, ib) => {
                    assert(kb[0][0] == 2u64);
                },
                ParameterValue::Truth(bb) => {
                    assert(kb[0] == seq![3u64, flag(bb)]);
                    assert(ka[0][1] == kb[0][1]);
                },
                ParameterValue::Identifier(tb, mb) => {
                    assert(kb[0][0] == 4u64);
                },
            }
        },
        ParameterValue::Identifier(ta, ma) => {
            assert(ka[0] == seq![4u64]);
            match b.value {
                ParameterValue::Whole(kind_b, nb) => {
                    assert(kb[0][0] == 0u64);
                },
                ParameterValue::Fraction(kind_b, db) => {
                    assert(kb[0][0] == 1u64);
                },
                ParameterValue::ArrayRef(kind_b, ib) => {
                    assert(kb[0][0] == 2u64);
                },
                ParameterValue::Truth(bb) => {
                    assert(kb[0][0] == 3u64);
                },
                ParameterValue::Identifier(tb, mb) => {
                    assert(ka[2] == text_key(ta));
                    assert(kb[2] == text_key(tb));
                    assert(ka[3] == text_key(ma));
                    assert(kb[3] == text_key(mb));
                    lemma_text_key_injective(ta, tb);
                    lemma_text_key_injective(ma, mb);
                },
            }
        },
    }
}

/// Each parameter gives four parts.
pub proof fn lemma_parameters_key_len(ps: Seq<ParameterModel>)
    ensures
        parameters_key(ps).len() == 4 * ps.len(),
    decreases ps.len(),
{
    if ps.len() > 0 {
        lemma_parameters_key_len(ps.drop_last());
    }
}

/// Valid parameters with the same key are the same parameters.
pub proof fn lemma_parameters_key_injective(a: Seq<ParameterModel>, b: Seq<ParameterModel>)
    requires
        forall|i: int| 0 <= i < a.len() ==> (#[trigger] a[i]).is_valid(),
        forall|i: int| 0 <= i < b.len() ==> (#[trigger] b[i]).is_valid(),
        parameters_key(a) == parameters_key(b),
    ensures
        a == b,
    decreases a.len(),
{
    lemma_parameters_key_len(a);
    lemma_parameters_key_len(b);
    if a.len() > 0 {
        lemma_parameters_key_len(a.drop_last());
        lemma_parameters_key_len(b.drop_last());
        let n = 4 * (a.len() - 1);
        let ka = parameters_key(a);
        let kb = parameters_key(b);
        assert(parameter_key(a.last()).len() == 4);
        assert(parameter_key(b.last()).len() == 4);
        assert(parameter_key(a.last()) =~= ka.skip(n));
        assert(parameter_key(b.last()) =~= kb.skip(n));
        assert(parameters_key(a.drop_last()) =~= ka.take(n));
        assert(parameters_key(b.drop_last()) =~= kb.take(n));
        lemma_parameter_key_injective(a.last(), b.last());
        lemma_parameters_key_injective(a.drop_last(), b.drop_last());
        assert(a =~= a.drop_last().push(a.last()));
        assert(b =~= b.drop_last().push(b.last()));
    } else {
        assert(a =~= b);
    }
}

/// Valid operations with the same key are the same operation.
pub proof fn lemma_operation_key_injective(a: OperationModel, b: OperationModel)
    requires
        a.is_valid(),
        b.is_valid(),
        operation_key(a) == operation_key(b),
    ensures
        a == b,
{
    let ka = operation_key(a);
    let kb = operation_key(b);
    assert(ka[0] == text_key(a.operation_type));
    assert(kb[0] == text_key(b.operation_type));
    lemma_text_key_injective(a.operation_type, b.operation_type);
    assert(parameters_key(a.parameters) =~= ka.skip(1));
    assert(parameters_key(b.parameters) =~= kb.skip(1));
    lemma_parameters_key_injective(a.parameters, b.parameters);
}

/// Names with the same key are the same name.
pub proof fn lemma_name_key_injective(a: Seq<char>, b: Seq<char>)
    requires
        name_key(a) == name_key(b),
    ensures
        a == b,
{
    assert(name_key(a)[0] == text_key(a));
    assert(name_key(b)[0] == text_key(b));
    lemma_text_key_injective(a, b);
}

/// A member of a structure definition: its name and its type.
#[derive(Debug, PartialEq)]
pub struct StructureDefinitionMember {
    pub member_name: String,
    pub member_type: MemberType,
}

impl View for StructureDefinitionMember {
    type V = MemberModel;

    open spec fn view(&self) -> MemberModel {
        MemberModel { name: self.member_name@, member_type: self.member_type@ }
    }
}

/// The members of a vector, as mathematics sees them.
pub open spec fn member_models(v: Seq<StructureDefinitionMember>) -> Seq<MemberModel> {
    v.map_values(|m: StructureDefinitionMember| m@)
}

/// A structure definition: the record's name and its members in the order
/// of the first occurrence.
#[derive(Debug, PartialEq)]
pub struct StructureDefinition {
    pub name: String,
    pub members: Vec<StructureDefinitionMember>,
}

impl View for StructureDefinition {
    type V = StructureModel;

    open spec fn view(&self) -> StructureModel {
        StructureModel { name: self.name@, members: member_models(self.members@) }
    }
}

/// The structures of a vector, as mathematics sees them.
pub open spec fn structure_models(v: Seq<StructureDefinition>) -> Seq<StructureModel> {
    v.map_values(|s: StructureDefinition| s@)
}

/// The strings of a vector, as mathematics sees them.
pub open spec fn texts(v: Seq<String>) -> Seq<Seq<char>> {
    v.map_values(|s: String| s@)
}

/// An enumeration: its name and its members in the order first seen.
#[derive(Debug, PartialEq)]
pub struct EnumDeclaration {
    pub name: String,
    pub members: Vec<String>,
}

impl View for EnumDeclaration {
    type V = EnumModel;

    open spec fn view(&self) -> EnumModel {
        EnumModel { name: self.name@, members: texts(self.members@) }
    }
}

/// The enumerations of a vector, as mathematics sees them.
pub open spec fn enum_models(v: Seq<EnumDeclaration>) -> Seq<EnumModel> {
    v.map_values(|e: EnumDeclaration| e@)
}

/// A parameter with a value of type `T`.
#[derive(Debug, PartialEq, Eq, Hash)]
pub struct OperationParameter<T> {
    pub name: String,
    pub value: T,
}

/// A parameter whose value is a member of an enumeration.
#[derive(Debug, PartialEq, Eq, Hash)]
pub struct IdentifierOperationParameter {
    pub name: String,
    pub enum_type: String,
    pub value: String,
}

/// A parameter of an operation. An array parameter holds the name of the
/// interned array.
#[derive(Debug, PartialEq, Eq, Hash)]
pub enum OperationParameterVariant {
    X8(OperationParameter<u8>),
    X16(OperationParameter<u16>),
    X32(OperationParameter<u32>),
    X64(OperationParameter<u64>),
    U8(OperationParameter<u8>),
    U16(OperationParameter<u16>),
    U32(OperationParameter<u32>),
    U64(OperationParameter<u64>),
    I8(OperationParameter<i8>),
    I16(OperationParameter<i16>),
    I32(OperationParameter<i32>),
    I64(OperationParameter<i64>),
    F32(OperationParameter<Decimal>),
    F64(OperationParameter<Decimal>),
    ArrayOfX8(OperationParameter<String>),
    ArrayOfX16(OperationParameter<String>),
    ArrayOfX32(OperationParameter<String>),
    ArrayOfX64(OperationParameter<String>),
    ArrayOfU8(OperationParameter<String>),
    ArrayOfU16(OperationParameter<String>),
    ArrayOfU32(OperationParameter<String>),
    ArrayOfU64(OperationParameter<String>),
    ArrayOfI8(OperationParameter<String>),
    ArrayOfI16(OperationParameter<String>),
    ArrayOfI32(OperationParameter<String>),
    ArrayOfI64(OperationParameter<String>),
    ArrayOfF32(OperationParameter<String>),
    ArrayOfF64(OperationParameter<String>),
    Bool(OperationParameter<bool>),
    Identifier(IdentifierOperationParameter),
}

impl View for OperationParameterVariant {
    type V = ParameterModel;

    open spec fn view(&self) -> ParameterModel {
        match self {
            OperationParameterVariant::X8(p) => ParameterModel {
                name: p.name@,
                value: ParameterValue::Whole(ScalarKind::X8, p.value as int),
            },
            OperationParameterVariant::X16(p) => ParameterModel {
                name: p.name@,
                value: ParameterValue::Whole(ScalarKind::X16, p.value as int),
            },
            OperationParameterVariant::X32(p) => ParameterModel {
                name: p.name@,
                value: ParameterValue::Whole(ScalarKind::X32, p.value as int),
            },
            OperationParameterVariant::X64(p) => ParameterModel {
                name: p.name@,
                value: ParameterValue::Whole(ScalarKind::X64, p.value as int),
            },
            OperationParameterVariant::U8(p) => ParameterModel {
                name: p.name@,
                value: ParameterValue::Whole(ScalarKind::U8, p.value as int),
            },
            OperationParameterVariant::U16(p) => ParameterModel {
                name: p.name@,
                value: ParameterValue::Whole(ScalarKind::U16, p.value as int),
            },
            OperationParameterVariant::U32(p) => ParameterModel {
                name: p.name@,
                value: ParameterValue::Whole(ScalarKind::U32, p.value as int),
            },
            OperationParameterVariant::U64(p) => ParameterModel {
                name: p.name@,
                value: ParameterValue::Whole(ScalarKind::U64, p.value as int),
            },
            OperationParameterVariant::I8(p) => ParameterModel {
                name: p.name@,
                value: ParameterValue::Whole(ScalarKind::I8, p.value as int),
            },
            OperationParameterVariant::I16(p) => ParameterModel {
                name: p.name@,
                value: ParameterValue::Whole(ScalarKind::I16, p.value as int),
            },
            OperationParameterVariant::I32(p) => ParameterModel {
                name: p.name@,
                value: ParameterValue::Whole(ScalarKind::I32, p.value as int),
            },
            OperationParameterVariant::I64(p) => ParameterModel {
                name: p.name@,
                value: ParameterValue::Whole(ScalarKind::I64, p.value as int),
            },
            OperationParameterVariant::F32(p) => ParameterModel {
                name: p.name@,
                value: ParameterValue::Fraction(ScalarKind::F32, p.value@),
            },
            OperationParameterVariant::F64(p) => ParameterModel {
                name: p.name@,
                value: ParameterValue::Fraction(ScalarKind::F64, p.value@),
            },
            OperationParameterVariant::ArrayOfX8(p) => ParameterModel {
                name: p.name@,
                value: ParameterValue::ArrayRef(ScalarKind::X8, p.value@),
            },
            OperationParameterVariant::ArrayOfX16(p) => ParameterModel {
                name: p.name@,
                value: ParameterValue::ArrayRef(ScalarKind::X16, p.value@),
            },
            OperationParameterVariant::ArrayOfX32(p) => ParameterModel {
                name: p.name@,
                value: ParameterValue::ArrayRef(ScalarKind::X32, p.value@),
            },
            OperationParameterVariant::ArrayOfX64(p) => ParameterModel {
                name: p.name@,
                value: ParameterValue::ArrayRef(ScalarKind::X64, p.value@),
            },
            OperationParameterVariant::ArrayOfU8(p) => ParameterModel {
                name: p.name@,
                value: ParameterValue::ArrayRef(ScalarKind::U8, p.value@),
            },
            OperationParameterVariant::ArrayOfU16(p) => ParameterModel {
                name: p.name@,
                value: ParameterValue::ArrayRef(ScalarKind::U16, p.value@),
            },
            OperationParameterVariant::ArrayOfU32(p) => ParameterModel {
                name: p.name@,
                value: ParameterValue::ArrayRef(ScalarKind::U32, p.value@),
            },
            OperationParameterVariant::ArrayOfU64(p) => ParameterModel {
                name: p.name@,
                value: ParameterValue::ArrayRef(ScalarKind::U64, p.value@),
            },
            OperationParameterVariant::ArrayOfI8(p) => ParameterModel {
                name: p.name@,
                value: ParameterValue::ArrayRef(ScalarKind::I8, p.value@),
            },
            OperationParameterVariant::ArrayOfI16(p) => ParameterModel {
                name: p.name@,
                value: ParameterValue::ArrayRef(ScalarKind::I16, p.value@),
            },
            OperationParameterVariant::ArrayOfI32(p) => ParameterModel {
                name: p.name@,
                value: ParameterValue::ArrayRef(ScalarKind::I32, p.value@),
            },
            OperationParameterVariant::ArrayOfI64(p) => ParameterModel {
                name: p.name@,
                value: ParameterValue::ArrayRef(ScalarKind::I64, p.value@),
            },
            OperationParameterVariant::ArrayOfF32(p) => ParameterModel {
                name: p.name@,
                value: ParameterValue::ArrayRef(ScalarKind::F32, p.value@),
            },
            OperationParameterVariant::ArrayOfF64(p) => ParameterModel {
                name: p.name@,
                value: ParameterValue::ArrayRef(ScalarKind::F64, p.value@),
            },
            OperationParameterVariant::Bool(p) => ParameterModel {
                name: p.name@,
                value: ParameterValue::Truth(p.value),
            },
            OperationParameterVariant::Identifier(p) => ParameterModel {
                name: p.name@,
                value: ParameterValue::Identifier(p.enum_type@, p.value@),
            },
        }
    }
}

/// The parameters of a vector, as mathematics sees them.
pub open spec fn parameter_models(v: Seq<OperationParameterVariant>) -> Seq<ParameterModel> {
    v.map_values(|p: OperationParameterVariant| p@)
}

/// An operation: the record's name and its parameters in the order written.
#[derive(Debug, PartialEq, Eq, Hash)]
pub struct Operation {
    pub operation_type: String,
    pub parameters: Vec<OperationParameterVariant>,
}

impl View for Operation {
    type V = OperationModel;

    open spec fn view(&self) -> OperationModel {
        OperationModel {
            operation_type: self.operation_type@,
            parameters: parameter_models(self.parameters@),
        }
    }
}

/// The operations of a vector, as mathematics sees them.
pub open spec fn operation_models(v: Seq<Operation>) -> Seq<OperationModel> {
    v.map_values(|o: Operation| o@)
}

/// An interned array: its element kind and its elements.
#[derive(Debug, PartialEq, Eq, Hash)]
pub enum ArrayInstanceVariant {
    X8(Vec<u8>),
    X16(Vec<u16>),
    X32(Vec<u32>),
    X64(Vec<u64>),
    U8(Vec<u8>),
    U16(Vec<u16>),
    U32(Vec<u32>),
    U64(Vec<u64>),
    I8(Vec<i8>),
    I16(Vec<i16>),
    I32(Vec<i32>),
    I64(Vec<i64>),
    F32(Vec<Decimal>),
    F64(Vec<Decimal>),
}

impl View for ArrayInstanceVariant {
    type V = ValueModel;

    open spec fn view(&self) -> ValueModel {
        match self {
            ArrayInstanceVariant::X8(v) => ValueModel::Wholes(ScalarKind::X8, wholes_u8(v@)),
            ArrayInstanceVariant::X16(v) => ValueModel::Wholes(ScalarKind::X16, wholes_u16(v@)),
            ArrayInstanceVariant::X32(v) => ValueModel::Wholes(ScalarKind::X32, wholes_u32(v@)),
            ArrayInstanceVariant::X64(v) => ValueModel::Wholes(ScalarKind::X64, wholes_u64(v@)),
            ArrayInstanceVariant::U8(v) => ValueModel::Wholes(ScalarKind::U8, wholes_u8(v@)),
            ArrayInstanceVariant::U16(v) => ValueModel::Wholes(ScalarKind::U16, wholes_u16(v@)),
            ArrayInstanceVariant::U32(v) => ValueModel::Wholes(ScalarKind::U32, wholes_u32(v@)),
            ArrayInstanceVariant::U64(v) => ValueModel::Wholes(ScalarKind::U64, wholes_u64(v@)),
            ArrayInstanceVariant::I8(v) => ValueModel::Wholes(ScalarKind::I8, wholes_i8(v@)),
            ArrayInstanceVariant::I16(v) => ValueModel::Wholes(ScalarKind::I16, wholes_i16(v@)),
            ArrayInstanceVariant::I32(v) => ValueModel::Wholes(ScalarKind::I32, wholes_i32(v@)),
            ArrayInstanceVariant::I64(v) => ValueModel::Wholes(ScalarKind::I64, wholes_i64(v@)),
            ArrayInstanceVariant::F32(v) => ValueModel::Fractions(ScalarKind::F32, fractions(v@)),
            ArrayInstanceVariant::F64(v) => ValueModel::Fractions(ScalarKind::F64, fractions(v@)),
        }
    }
}

/// The arrays of a vector, as mathematics sees them.
pub open spec fn array_models(v: Seq<ArrayInstanceVariant>) -> Seq<ValueModel> {
    v.map_values(|a: ArrayInstanceVariant| a@)
}

/// An entry of the table of occurrences: the record's name and the name of
/// the operation instance.
#[derive(Debug, PartialEq, Eq)]
pub struct OperationTableMember {
    pub operation_type: String,
    pub operation_variant_ref_name: String,
}

impl View for OperationTableMember {
    type V = ReferenceModel;

    open spec fn view(&self) -> ReferenceModel {
        ReferenceModel {
            operation_type: self.operation_type@,
            instance: self.operation_variant_ref_name@,
        }
    }
}

/// The entries of a vector, as mathematics sees them.
pub open spec fn reference_models(v: Seq<OperationTableMember>) -> Seq<ReferenceModel> {
    v.map_values(|r: OperationTableMember| r@)
}

/// The keys of names.
pub open spec fn name_keys(names: Seq<Seq<char>>) -> Seq<Seq<Seq<u64>>> {
    names.map_values(|n: Seq<char>| name_key(n))
}

/// The keys of arrays.
pub open spec fn array_keys(arrays: Seq<ValueModel>) -> Seq<Seq<Seq<u64>>> {
    arrays.map_values(|a: ValueModel| array_key(a))
}

/// The keys of operations.
pub open spec fn operation_keys(operations: Seq<OperationModel>) -> Seq<Seq<Seq<u64>>> {
    operations.map_values(|o: OperationModel| operation_key(o))
}

/// In a list without repetition, a thing stands where it is found.
pub proof fn lemma_lookup_found<T>(s: Seq<T>, x: T, n: int)
    requires
        0 <= n < s.len(),
        s[n] == x,
        s.no_duplicates(),
    ensures
        lookup(s, x) == Some(n),
{
    assert(s.contains(x));
}

/// What stands nowhere in a list is not found in it.
pub proof fn lemma_lookup_missing<T>(s: Seq<T>, x: T)
    requires
        forall|i: int| 0 <= i < s.len() ==> s[i] != x,
    ensures
        lookup(s, x) == None::<int>,
{
}

fn push_part(key: &mut Vec<Vec<u64>>, part: Vec<u64>)
    ensures
        key_view(*final(key)) == key_view(*old(key)).push(part@),
{
    key.push(part);
    assert(key_view(*key) =~= key_view(*old(key)).push(part@));
}

fn whole_code_of(n: i128) -> (c: u64)
    requires
        -0x8000_0000_0000_0000 <= n <= 0xffff_ffff_ffff_ffff,
    ensures
        c == whole_code(n as int),
{
    if n < 0 {
        (n + 0x1_0000_0000_0000_0000) as u64
    } else {
        n as u64
    }
}

fn kind_code_of(kind: ScalarKind) -> (c: u64)
    ensures
        c == kind_code(kind),
{
    match kind {
        ScalarKind::X8 => 0,
        ScalarKind::X16 => 1,
        ScalarKind::X32 => 2,
        ScalarKind::X64 => 3,
        ScalarKind::U8 => 4,
        ScalarKind::U16 => 5,
        ScalarKind::U32 => 6,
        ScalarKind::U64 => 7,
        ScalarKind::I8 => 8,
        ScalarKind::I16 => 9,
        ScalarKind::I32 => 10,
        ScalarKind::I64 => 11,
        ScalarKind::F32 => 12,
        ScalarKind::F64 => 13,
    }
}

fn flag_of(b: bool) -> (c: u64)
    ensures
        c == flag(b),
{
    if b {
        1
    } else {
        0
    }
}

fn text_part(s: &String) -> (part: Vec<u64>)
    ensures
        part@ == text_key(s@),
{
    let chars = chars_of(s.as_str());
    text_key_of(&chars)
}

fn codes_u8(v: &Vec<u8>) -> (part: Vec<u64>)
    ensures
        part@ == wholes_key(wholes_u8(v@)),
{
    let mut part: Vec<u64> = Vec::new();
    let mut i: usize = 0;
    while i < v.len()
        invariant
            i <= v.len(),
            part@.len() == i,
            forall|j: int| 0 <= j < i ==> part@[j] == whole_code(v@[j] as int),
        decreases v.len() - i,
    {
        part.push(whole_code_of(v[i] as i128));
        i += 1;
    }
    assert(part@ =~= wholes_key(wholes_u8(v@)));
    part
}

fn copy_u8(v: &Vec<u8>) -> (r: Vec<u8>)
    ensures
        r@ == v@,
{
    let mut r: Vec<u8> = Vec::new();
    let mut i: usize = 0;
    while i < v.len()
        invariant
            i <= v.len(),
            r@ == v@.take(i as int),
        decreases v.len() - i,
    {
        r.push(v[i]);
        assert(v@.take(i as int).push(v@[i as int]) =~= v@.take(i + 1));
        i += 1;
    }
    assert(v@.take(v.len() as int) =~= v@);
    r
}

fn codes_u16(v: &Vec<u16>) -> (part: Vec<u64>)
    ensures
        part@ == wholes_key(wholes_u16(v@)),
{
    let mut part: Vec<u64> = Vec::new();
    let mut i: usize = 0;
    while i < v.len()
        invariant
            i <= v.len(),
            part@.len() == i,
            forall|j: int| 0 <= j < i ==> part@[j] == whole_code(v@[j] as int),
        decreases v.len() - i,
    {
        part.push(whole_code_of(v[i] as i128));
        i += 1;
    }
    assert(part@ =~= wholes_key(wholes_u16(v@)));
    part
}

fn copy_u16(v: &Vec<u16>) -> (r: Vec<u16>)
    ensures
        r@ == v@,
{
    let mut r: Vec<u16> = Vec::new();
    let mut i: usize = 0;
    while i < v.len()
        invariant
            i <= v.len(),
            r@ == v@.take(i as int),
        decreases v.len() - i,
    {
        r.push(v[i]);
        assert(v@.take(i as int).push(v@[i as int]) =~= v@.take(i + 1));
        i += 1;
    }
    assert(v@.take(v.len() as int) =~= v@);
    r
}

fn codes_u32(v: &Vec<u32>) -> (part: Vec<u64>)
    ensures
        part@ == wholes_key(wholes_u32(v@)),
{
    let mut part: Vec<u64> = Vec::new();
    let mut i: usize = 0;
    while i < v.len()
        invariant
            i <= v.len(),
            part@.len() == i,
            forall|j: int| 0 <= j < i ==> part@[j] == whole_code(v@[j] as int),
        decreases v.len() - i,
    {
        part.push(whole_code_of(v[i] as i128));
        i += 1;
    }
    assert(part@ =~= wholes_key(wholes_u32(v@)));
    part
}

fn copy_u32(v: &Vec<u32>) -> (r: Vec<u32>)
    ensures
        r@ == v@,
{
    let mut r: Vec<u32> = Vec::new();
    let mut i: usize = 0;
    while i < v.len()
        invariant
            i <= v.len(),
            r@ == v@.take(i as int),
        decreases v.len() - i,
    {
        r.push(v[i]);
        assert(v@.take(i as int).push(v@[i as int]) =~= v@.take(i + 1));
        i += 1;
    }
    assert(v@.take(v.len() as int) =~= v@);
    r
}

fn codes_u64(v: &Vec<u64>) -> (part: Vec<u64>)
    ensures
        part@ == wholes_key(wholes_u64(v@)),
{
    let mut part: Vec<u64> = Vec::new();
    let mut i: usize = 0;
    while i < v.len()
        invariant
            i <= v.len(),
            part@.len() == i,
            forall|j: int| 0 <= j < i ==> part@[j] == whole_code(v@[j] as int),
        decreases v.len() - i,
    {
        part.push(whole_code_of(v[i] as i128));
        i += 1;
    }
    assert(part@ =~= wholes_key(wholes_u64(v@)));
    part
}

fn copy_u64(v: &Vec<u64>) -> (r: Vec<u64>)
    ensures
        r@ == v@,
{
    let mut r: Vec<u64> = Vec::new();
    let mut i: usize = 0;
    while i < v.len()
        invariant
            i <= v.len(),
            r@ == v@.take(i as int),
        decreases v.len() - i,
    {
        r.push(v[i]);
        assert(v@.take(i as int).push(v@[i as int]) =~= v@.take(i + 1));
        i += 1;
    }
    assert(v@.take(v.len() as int) =~= v@);
    r
}

fn codes_i8(v: &Vec<i8>) -> (part: Vec<u64>)
    ensures
        part@ == wholes_key(wholes_i8(v@)),
{
    let mut part: Vec<u64> = Vec::new();
    let mut i: usize = 0;
    while i < v.len()
        invariant
            i <= v.len(),
            part@.len() == i,
            forall|j: int| 0 <= j < i ==> part@[j] == whole_code(v@[j] as int),
        decreases v.len() - i,
    {
        part.push(whole_code_of(v[i] as i128));
        i += 1;
    }
    assert(part@ =~= wholes_key(wholes_i8(v@)));
    part
}

fn copy_i8(v: &Vec<i8>) -> (r: Vec<i8>)
    ensures
        r@ == v@,
{
    let mut r: Vec<i8> = Vec::new();
    let mut i: usize = 0;
    while i < v.len()
        invariant
            i <= v.len(),
            r@ == v@.take(i as int),
        decreases v.len() - i,
    {
        r.push(v[i]);
        assert(v@.take(i as int).push(v@[i as int]) =~= v@.take(i + 1));
        i += 1;
    }
    assert(v@.take(v.len() as int) =~= v@);
    r
}

fn codes_i16(v: &Vec<i16>) -> (part: Vec<u64>)
    ensures
        part@ == wholes_key(wholes_i16(v@)),
{
    let mut part: Vec<u64> = Vec::new();
    let mut i: usize = 0;
    while i < v.len()
        invariant
            i <= v.len(),
            part@.len() == i,
            forall|j: int| 0 <= j < i ==> part@[j] == whole_code(v@[j] as int),
        decreases v.len() - i,
    {
        part.push(whole_code_of(v[i] as i128));
        i += 1;
    }
    assert(part@ =~= wholes_key(wholes_i16(v@)));
    part
}

fn copy_i16(v: &Vec<i16>) -> (r: Vec<i16>)
    ensures
        r@ == v@,
{
    let mut r: Vec<i16> = Vec::new();
    let mut i: usize = 0;
    while i < v.len()
        invariant
            i <= v.len(),
            r@ == v@.take(i as int),
        decreases v.len() - i,
    {
        r.push(v[i]);
        assert(v@.take(i as int).push(v@[i as int]) =~= v@.take(i + 1));
        i += 1;
    }
    assert(v@.take(v.len() as int) =~= v@);
    r
}

fn codes_i32(v: &Vec<i32>) -> (part: Vec<u64>)
    ensures
        part@ == wholes_key(wholes_i32(v@)),
{
    let mut part: Vec<u64> = Vec::new();
    let mut i: usize = 0;
    while i < v.len()
        invariant
            i <= v.len(),
            part@.len() == i,
            forall|j: int| 0 <= j < i ==> part@[j] == whole_code(v@[j] as int),
        decreases v.len() - i,
    {
        part.push(whole_code_of(v[i] as i128));
        i += 1;
    }
    assert(part@ =~= wholes_key(wholes_i32(v@)));
    part
}

fn copy_i32(v: &Vec<i32>) -> (r: Vec<i32>)
    ensures
        r@ == v@,
{
    let mut r: Vec<i32> = Vec::new();
    let mut i: usize = 0;
    while i < v.len()
        invariant
            i <= v.len(),
            r@ == v@.take(i as int),
        decreases v.len() - i,
    {
        r.push(v[i]);
        assert(v@.take(i as int).push(v@[i as int]) =~= v@.take(i + 1));
        i += 1;
    }
    assert(v@.take(v.len() as int) =~= v@);
    r
}

fn codes_i64(v: &Vec<i64>) -> (part: Vec<u64>)
    ensures
        part@ == wholes_key(wholes_i64(v@)),
{
    let mut part: Vec<u64> = Vec::new();
    let mut i: usize = 0;
    while i < v.len()
        invariant
            i <= v.len(),
            part@.len() == i,
            forall|j: int| 0 <= j < i ==> part@[j] == whole_code(v@[j] as int),
        decreases v.len() - i,
    {
        part.push(whole_code_of(v[i] as i128));
        i += 1;
    }
    assert(part@ =~= wholes_key(wholes_i64(v@)));
    part
}

fn copy_i64(v: &Vec<i64>) -> (r: Vec<i64>)
    ensures
        r@ == v@,
{
    let mut r: Vec<i64> = Vec::new();
    let mut i: usize = 0;
    while i < v.len()
        invariant
            i <= v.len(),
            r@ == v@.take(i as int),
        decreases v.len() - i,
    {
        r.push(v[i]);
        assert(v@.take(i as int).push(v@[i as int]) =~= v@.take(i + 1));
        i += 1;
    }
    assert(v@.take(v.len() as int) =~= v@);
    r
}

fn copy_decimals(v: &Vec<Decimal>) -> (r: Vec<Decimal>)
    ensures
        fractions(r@) == fractions(v@),
{
    let mut r: Vec<Decimal> = Vec::new();
    let mut i: usize = 0;
    while i < v.len()
        invariant
            i <= v.len(),
            r@.len() == i,
            forall|j: int| 0 <= j < i ==> (#[trigger] r@[j])@ == v@[j]@,
        decreases v.len() - i,
    {
        r.push(v[i].clone());
        i += 1;
    }
    assert(fractions(r@) =~= fractions(v@));
    r
}

fn digits_part(digits: &Vec<u8>) -> (part: Vec<u64>)
    ensures
        part@ == digits_key(digits@),
{
    let mut part: Vec<u64> = Vec::new();
    let mut i: usize = 0;
    while i < digits.len()
        invariant
            i <= digits.len(),
            part@.len() == i,
            forall|j: int| 0 <= j < i ==> part@[j] == digits@[j] as u64,
        decreases digits.len() - i,
    {
        part.push(digits[i] as u64);
        i += 1;
    }
    assert(part@ =~= digits_key(digits@));
    part
}

fn decimal_head_of(d: &Decimal) -> (part: Vec<u64>)
    ensures
        part@ == decimal_head(d@),
{
    let mut part: Vec<u64> = Vec::new();
    part.push(flag_of(d.is_negative()));
    part.push(whole_code_of(d.exponent() as i128));
    assert(part@ =~= decimal_head(d@));
    part
}

fn push_decimals(key: &mut Vec<Vec<u64>>, v: &Vec<Decimal>)
    ensures
        key_view(*final(key)) == key_view(*old(key)) + decimals_key(fractions(v@)),
        forall|i: int| 0 <= i < v@.len() ==> (#[trigger] fractions(v@)[i]).is_normal(),
{
    let mut i: usize = 0;
    assert(fractions(v@).take(0) =~= Seq::<DecimalModel>::empty());
    assert(key_view(*key) + decimals_key(fractions(v@).take(0)) =~= key_view(*key));
    while i < v.len()
        invariant
            i <= v.len(),
            key_view(*key) == key_view(*old(key)) + decimals_key(fractions(v@).take(i as int)),
            forall|j: int| 0 <= j < i ==> (#[trigger] fractions(v@)[j]).is_normal(),
        decreases v.len() - i,
    {
        let d = &v[i];
        let head = decimal_head_of(d);
        let digits = digits_part(d.digits());
        let ghost before = key_view(*key);
        push_part(key, head);
        push_part(key, digits);
        proof {
            let front = fractions(v@).take(i as int);
            let next = fractions(v@).take(i + 1);
            assert(next.drop_last() =~= front);
            assert(next.last() == d@);
            assert(key_view(*key) =~= key_view(*old(key)) + decimals_key(next));
        }
        i += 1;
    }
    assert(fractions(v@).take(v.len() as int) =~= fractions(v@));
}

impl ArrayInstanceVariant {
    /// The structural key of the array.
    pub fn key(&self) -> (key: Vec<Vec<u64>>)
        ensures
            key_view(key) == array_key(self@),
            is_valid_array(self@),
    {
        let mut key: Vec<Vec<u64>> = Vec::new();
        assert(key_view(key) =~= Seq::<Seq<u64>>::empty());
        match self {
            ArrayInstanceVariant::X8(v) => {
                let mut head: Vec<u64> = Vec::new();
                head.push(kind_code_of(ScalarKind::X8));
                assert(head@ =~= seq![kind_code(ScalarKind::X8)]);
                push_part(&mut key, head);
                push_part(&mut key, codes_u8(v));
                assert(key_view(key) =~= array_key(self@));
            },
            ArrayInstanceVariant::X16(v) => {
                let mut head: Vec<u64> = Vec::new();
                head.push(kind_code_of(ScalarKind::X16));
                assert(head@ =~= seq![kind_code(ScalarKind::X16)]);
                push_part(&mut key, head);
                push_part(&mut key, codes_u16(v));
                assert(key_view(key) =~= array_key(self@));
            },
            ArrayInstanceVariant::X32(v) => {
                let mut head: Vec<u64> = Vec::new();
                head.push(kind_code_of(ScalarKind::X32));
                assert(head@ =~= seq![kind_code(ScalarKind::X32)]);
                push_part(&mut key, head);
                push_part(&mut key, codes_u32(v));
                assert(key_view(key) =~= array_key(self@));
            },
            ArrayInstanceVariant::X64(v) => {
                let mut head: Vec<u64> = Vec::new();
                head.push(kind_code_of(ScalarKind::X64));
                assert(head@ =~= seq![kind_code(ScalarKind::X64)]);
                push_part(&mut key, head);
                push_part(&mut key, codes_u64(v));
                assert(key_view(key) =~= array_key(self@));
            },
            ArrayInstanceVariant::U8(v) => {
                let mut head: Vec<u64> = Vec::new();
                head.push(kind_code_of(ScalarKind::U8));
                assert(head@ =~= seq![kind_code(ScalarKind::U8)]);
                push_part(&mut key, head);
                push_part(&mut key, codes_u8(v));
                assert(key_view(key) =~= array_key(self@));
            },
            ArrayInstanceVariant::U16(v) => {
                let mut head: Vec<u64> = Vec::new();
                head.push(kind_code_of(ScalarKind::U16));
                assert(head@ =~= seq![kind_code(ScalarKind::U16)]);
                push_part(&mut key, head);
                push_part(&mut key, codes_u16(v));
                assert(key_view(key) =~= array_key(self@));
            },
            ArrayInstanceVariant::U32(v) => {
                let mut head: Vec<u64> = Vec::new();
                head.push(kind_code_of(ScalarKind::U32));
                assert(head@ =~= seq![kind_code(ScalarKind::U32)]);
                push_part(&mut key, head);
                push_part(&mut key, codes_u32(v));
                assert(key_view(key) =~= array_key(self@));
            },
            ArrayInstanceVariant::U64(v) => {
                let mut head: Vec<u64> = Vec::new();
                head.push(kind_code_of(ScalarKind::U64));
                assert(head@ =~= seq![kind_code(ScalarKind::U64)]);
                push_part(&mut key, head);
                push_part(&mut key, codes_u64(v));
                assert(key_view(key) =~= array_key(self@));
            },
            ArrayInstanceVariant::I8(v) => {
                let mut head: Vec<u64> = Vec::new();
                head.push(kind_code_of(ScalarKind::I8));
                assert(head@ =~= seq![kind_code(ScalarKind::I8)]);
                push_part(&mut key, head);
                push_part(&mut key, codes_i8(v));
                assert(key_view(key) =~= array_key(self@));
            },
            ArrayInstanceVariant::I16(v) => {
                let mut head: Vec<u64> = Vec::new();
                head.push(kind_code_of(ScalarKind::I16));
                assert(head@ =~= seq![kind_code(ScalarKind::I16)]);
                push_part(&mut key, head);
                push_part(&mut key, codes_i16(v));
                assert(key_view(key) =~= array_key(self@));
            },
            ArrayInstanceVariant::I32(v) => {
                let mut head: Vec<u64> = Vec::new();
                head.push(kind_code_of(ScalarKind::I32));
                assert(head@ =~= seq![kind_code(ScalarKind::I32)]);
                push_part(&mut key, head);
                push_part(&mut key, codes_i32(v));
                assert(key_view(key) =~= array_key(self@));
            },
            ArrayInstanceVariant::I64(v) => {
                let mut head: Vec<u64> = Vec::new();
                head.push(kind_code_of(ScalarKind::I64));
                assert(head@ =~= seq![kind_code(ScalarKind::I64)]);
                push_part(&mut key, head);
                push_part(&mut key, codes_i64(v));
                assert(key_view(key) =~= array_key(self@));
            },
            ArrayInstanceVariant::F32(v) => {
                let mut head: Vec<u64> = Vec::new();
                head.push(kind_code_of(ScalarKind::F32));
                assert(head@ =~= seq![kind_code(ScalarKind::F32)]);
                push_part(&mut key, head);
                push_decimals(&mut key, v);
                assert(key_view(key) =~= array_key(self@));
            },
            ArrayInstanceVariant::F64(v) => {
                let mut head: Vec<u64> = Vec::new();
                head.push(kind_code_of(ScalarKind::F64));
                assert(head@ =~= seq![kind_code(ScalarKind::F64)]);
                push_part(&mut key, head);
                push_decimals(&mut key, v);
                assert(key_view(key) =~= array_key(self@));
            },
        }
        key
    }
}

fn push_whole(key: &mut Vec<Vec<u64>>, kind: ScalarKind, n: i128, name: &String)
    requires
        !kind.is_fraction(),
        kind.lower() <= n <= kind.upper(),
    ensures
        key_view(*final(key)) == key_view(*old(key)) + parameter_key(
            ParameterModel { name: name@, value: ParameterValue::Whole(kind, n as int) },
        ),
{
    let mut head: Vec<u64> = Vec::new();
    head.push(0);
    head.push(kind_code_of(kind));
    head.push(whole_code_of(n));
    assert(head@ =~= seq![0u64, kind_code(kind), whole_code(n as int)]);
    push_part(key, head);
    push_part(key, text_part(name));
    push_part(key, Vec::new());
    push_part(key, Vec::new());
    assert(key_view(*key) =~= key_view(*old(key)) + parameter_key(
        ParameterModel { name: name@, value: ParameterValue::Whole(kind, n as int) },
    ));
}

fn push_fraction(key: &mut Vec<Vec<u64>>, kind: ScalarKind, d: &Decimal, name: &String)
    requires
        kind.is_fraction(),
    ensures
        key_view(*final(key)) == key_view(*old(key)) + parameter_key(
            ParameterModel { name: name@, value: ParameterValue::Fraction(kind, d@) },
        ),
        d@.is_normal(),
{
    let mut head: Vec<u64> = Vec::new();
    head.push(1);
    head.push(kind_code_of(kind));
    head.push(flag_of(d.is_negative()));
    head.push(whole_code_of(d.exponent() as i128));
    assert(head@ =~= seq![1u64, kind_code(kind), flag(d@.negative), whole_code(d@.exponent)]);
    push_part(key, head);
    push_part(key, text_part(name));
    push_part(key, digits_part(d.digits()));
    push_part(key, Vec::new());
    assert(key_view(*key) =~= key_view(*old(key)) + parameter_key(
        ParameterModel { name: name@, value: ParameterValue::Fraction(kind, d@) },
    ));
}

fn push_array_ref(key: &mut Vec<Vec<u64>>, kind: ScalarKind, instance: &String, name: &String)
    ensures
        key_view(*final(key)) == key_view(*old(key)) + parameter_key(
            ParameterModel { name: name@, value: ParameterValue::ArrayRef(kind, instance@) },
        ),
{
    let mut head: Vec<u64> = Vec::new();
    head.push(2);
    head.push(kind_code_of(kind));
    assert(head@ =~= seq![2u64, kind_code(kind)]);
    push_part(key, head);
    push_part(key, text_part(name));
    push_part(key, text_part(instance));
    push_part(key, Vec::new());
    assert(key_view(*key) =~= key_view(*old(key)) + parameter_key(
        ParameterModel { name: name@, value: ParameterValue::ArrayRef(kind, instance@) },
    ));
}

fn push_truth(key: &mut Vec<Vec<u64>>, b: bool, name: &String)
    ensures
        key_view(*final(key)) == key_view(*old(key)) + parameter_key(
            ParameterModel { name: name@, value: ParameterValue::Truth(b) },
        ),
{
    let mut head: Vec<u64> = Vec::new();
    head.push(3);
    head.push(flag_of(b));
    assert(head@ =~= seq![3u64, flag(b)]);
    push_part(key, head);
    push_part(key, text_part(name));
    push_part(key, Vec::new());
    push_part(key, Vec::new());
    assert(key_view(*key) =~= key_view(*old(key)) + parameter_key(
        ParameterModel { name: name@, value: ParameterValue::Truth(b) },
    ));
}

fn push_identifier(key: &mut Vec<Vec<u64>>, enum_type: &String, member: &String, name: &String)
    ensures
        key_view(*final(key)) == key_view(*old(key)) + parameter_key(
            ParameterModel {
                name: name@,
                value: ParameterValue::Identifier(enum_type@, member@),
            },
        ),
{
    let mut head: Vec<u64> = Vec::new();
    head.push(4);
    assert(head@ =~= seq![4u64]);
    push_part(key, head);
    push_part(key, text_part(name));
    push_part(key, text_part(enum_type));
    push_part(key, text_part(member));
    assert(key_view(*key) =~= key_view(*old(key)) + parameter_key(
        ParameterModel {
            name: name@,
            value: ParameterValue::Identifier(enum_type@, member@),
        },
    ));
}

impl OperationParameterVariant {
    /// Appends the four parts of the parameter to a structural key.
    pub fn push_key(&self, key: &mut Vec<Vec<u64>>)
        ensures
            key_view(*final(key)) == key_view(*old(key)) + parameter_key(self@),
            self@.is_valid(),
    {
        match self {
            OperationParameterVariant::X8(p) => push_whole(
                key,
                ScalarKind::X8,
                p.value as i128,
                &p.name,
            ),
            OperationParameterVariant::X16(p) => push_whole(
                key,
                ScalarKind::X16,
                p.value as i128,
                &p.name,
            ),
            OperationParameterVariant::X32(p) => push_whole(
                key,
                ScalarKind::X32,
                p.value as i128,
                &p.name,
            ),
            OperationParameterVariant::X64(p) => push_whole(
                key,
                ScalarKind::X64,
                p.value as i128,
                &p.name,
            ),
            OperationParameterVariant::U8(p) => push_whole(
                key,
                ScalarKind::U8,
                p.value as i128,
                &p.name,
            ),
            OperationParameterVariant::U16(p) => push_whole(
                key,
                ScalarKind::U16,
                p.value as i128,
                &p.name,
            ),
            OperationParameterVariant::U32(p) => push_whole(
                key,
                ScalarKind::U32,
                p.value as i128,
                &p.name,
            ),
            OperationParameterVariant::U64(p) => push_whole(
                key,
                ScalarKind::U64,
                p.value as i128,
                &p.name,
            ),
            OperationParameterVariant::I8(p) => push_whole(
                key,
                ScalarKind::I8,
                p.value as i128,
                &p.name,
            ),
            OperationParameterVariant::I16(p) => push_whole(
                key,
                ScalarKind::I16,
                p.value as i128,
                &p.name,
            ),
            OperationParameterVariant::I32(p) => push_whole(
                key,
                ScalarKind::I32,
                p.value as i128,
                &p.name,
            ),
            OperationParameterVariant::I64(p) => push_whole(
                key,
                ScalarKind::I64,
                p.value as i128,
                &p.name,
            ),
            OperationParameterVariant::F32(p) => push_fraction(
                key,
                ScalarKind::F32,
                &p.value,
                &p.name,
            ),
            OperationParameterVariant::F64(p) => push_fraction(
                key,
                ScalarKind::F64,
                &p.value,
                &p.name,
            ),
            OperationParameterVariant::ArrayOfX8(p) => push_array_ref(
                key,
                ScalarKind::X8,
                &p.value,
                &p.name,
            ),
            OperationParameterVariant::ArrayOfX16(p) => push_array_ref(
                key,
                ScalarKind::X16,
                &p.value,
                &p.name,
            ),
            OperationParameterVariant::ArrayOfX32(p) => push_array_ref(
                key,
                ScalarKind::X32,
                &p.value,
                &p.name,
            ),
            OperationParameterVariant::ArrayOfX64(p) => push_array_ref(
                key,
                ScalarKind::X64,
                &p.value,
                &p.name,
            ),
            OperationParameterVariant::ArrayOfU8(p) => push_array_ref(
                key,
                ScalarKind::U8,
                &p.value,
                &p.name,
            ),
            OperationParameterVariant::ArrayOfU16(p) => push_array_ref(
                key,
                ScalarKind::U16,
                &p.value,
                &p.name,
            ),
            OperationParameterVariant::ArrayOfU32(p) => push_array_ref(
                key,
                ScalarKind::U32,
                &p.value,
                &p.name,
            ),
            OperationParameterVariant::ArrayOfU64(p) => push_array_ref(
                key,
                ScalarKind::U64,
                &p.value,
                &p.name,
            ),
            OperationParameterVariant::ArrayOfI8(p) => push_array_ref(
                key,
                ScalarKind::I8,
                &p.value,
                &p.name,
            ),
            OperationParameterVariant::ArrayOfI16(p) => push_array_ref(
                key,
                ScalarKind::I16,
                &p.value,
                &p.name,
            ),
            OperationParameterVariant::ArrayOfI32(p) => push_array_ref(
                key,
                ScalarKind::I32,
                &p.value,
                &p.name,
            ),
            OperationParameterVariant::ArrayOfI64(p) => push_array_ref(
                key,
                ScalarKind::I64,
                &p.value,
                &p.name,
            ),
            OperationParameterVariant::ArrayOfF32(p) => push_array_ref(
                key,
                ScalarKind::F32,
                &p.value,
                &p.name,
            ),
            OperationParameterVariant::ArrayOfF64(p) => push_array_ref(
                key,
                ScalarKind::F64,
                &p.value,
                &p.name,
            ),
            OperationParameterVariant::Bool(p) => push_truth(key, p.value, &p.name),
            OperationParameterVariant::Identifier(p) => push_identifier(
                key,
                &p.enum_type,
                &p.value,
                &p.name,
            ),
        }
    }
}

impl Operation {
    /// The structural key of the operation.
    pub fn key(&self) -> (key: Vec<Vec<u64>>)
        ensures
            key_view(key) == operation_key(self@),
            self@.is_valid(),
    {
        let mut key: Vec<Vec<u64>> = Vec::new();
        assert(key_view(key) =~= Seq::<Seq<u64>>::empty());
        push_part(&mut key, text_part(&self.operation_type));
        let mut i: usize = 0;
        let ghost models = parameter_models(self.parameters@);
        assert(models.take(0) =~= Seq::<ParameterModel>::empty());
        assert(key_view(key) =~= seq![text_key(self.operation_type@)] + parameters_key(
            models.take(0),
        ));
        while i < self.parameters.len()
            invariant
                i <= self.parameters.len(),
                models == parameter_models(self.parameters@),
                key_view(key) == seq![text_key(self.operation_type@)] + parameters_key(
                    models.take(i as int),
                ),
                forall|j: int| 0 <= j < i ==> (#[trigger] models[j]).is_valid(),
            decreases self.parameters.len() - i,
        {
            self.parameters[i].push_key(&mut key);
            proof {
                let front = models.take(i as int);
                let next = models.take(i + 1);
                assert(next.drop_last() =~= front);
                assert(next.last() == self.parameters@[i as int]@);
                assert(key_view(key) =~= seq![text_key(self.operation_type@)] + parameters_key(
                    next,
                ));
            }
            i += 1;
        }
        assert(models.take(self.parameters.len() as int) =~= models);
        key
    }
}

fn name_key_of(name: &String) -> (key: Vec<Vec<u64>>)
    ensures
        key_view(key) == name_key(name@),
{
    let mut key: Vec<Vec<u64>> = Vec::new();
    assert(key_view(key) =~= Seq::<Seq<u64>>::empty());
    push_part(&mut key, text_part(name));
    assert(key_view(key) =~= name_key(name@));
    key
}

fn numbered_name(prefix: &str, n: usize) -> (name: String)
    ensures
        name@ == prefix@ + decimal_text(n as int),
{
    let mut chars: Vec<char> = Vec::new();
    append_str(&mut chars, prefix);
    append_decimal(&mut chars, n as i128);
    assert(chars@ =~= prefix@ + decimal_text(n as int));
    string_of(&chars)
}

/// The operation model of one sequence.
///
/// It only grows: a structure is defined by the first record of its name,
/// an enumeration gains members in the order first seen, arrays and
/// operations are interned by content, and every record appends one entry to
/// the table of occurrences.
#[derive(Debug)]
pub struct Model {
    sequence_name: Option<String>,
    enum_index: Interner,
    defined_enums: Vec<EnumDeclaration>,
    record_index: Interner,
    defined_records: Vec<StructureDefinition>,
    array_index: Interner,
    instanciated_arrays: Vec<ArrayInstanceVariant>,
    operation_index: Interner,
    operation_instances: Vec<Operation>,
    operation_ref_table: Vec<OperationTableMember>,
}

impl View for Model {
    type V = ModelView;

    closed spec fn view(&self) -> ModelView {
        ModelView {
            sequence_name: match self.sequence_name {
                Some(name) => Some(name@),
                None => None,
            },
            enums: enum_models(self.defined_enums@),
            structures: structure_models(self.defined_records@),
            arrays: array_models(self.instanciated_arrays@),
            operations: operation_models(self.operation_instances@),
            references: reference_models(self.operation_ref_table@),
        }
    }
}

/// A list without repetition stays one with a new thing at its end.
pub proof fn lemma_push_distinct<T>(s: Seq<T>, x: T)
    requires
        s.no_duplicates(),
        !s.contains(x),
    ensures
        s.push(x).no_duplicates(),
{
    let t = s.push(x);
    assert forall|i: int, j: int| 0 <= i < t.len() && 0 <= j < t.len() && i != j implies t[i]
        != t[j] by {
        if i < s.len() && j < s.len() {
        } else if i < s.len() {
            assert(s.contains(s[i]));
        } else {
            assert(s.contains(s[j]));
        }
    }
}

fn holds_text(v: &Vec<String>, s: &String) -> (r: bool)
    ensures
        r == texts(v@).contains(s@),
{
    let mut i: usize = 0;
    while i < v.len()
        invariant
            i <= v.len(),
            forall|j: int| 0 <= j < i ==> texts(v@)[j] != s@,
        decreases v.len() - i,
    {
        if v[i] == *s {
            assert(texts(v@)[i as int] == s@);
            return true;
        }
        i += 1;
    }
    false
}

impl Model {
    /// The tables agree with the lists, and what the lists hold is valid.
    pub closed spec fn wf(&self) -> bool {
        &&& self.enum_index.wf()
        &&& self.enum_index@ == name_keys(enum_names(self@.enums))
        &&& forall|i: int|
            0 <= i < self@.enums.len() ==> (#[trigger] self@.enums[i]).members.no_duplicates()
        &&& self.record_index.wf()
        &&& self.record_index@ == name_keys(structure_names(self@.structures))
        &&& self.array_index.wf()
        &&& self.array_index@ == array_keys(self@.arrays)
        &&& forall|i: int| 0 <= i < self@.arrays.len() ==> is_valid_array(#[trigger] self@.arrays[i])
        &&& self.operation_index.wf()
        &&& self.operation_index@ == operation_keys(self@.operations)
        &&& forall|i: int|
            0 <= i < self@.operations.len() ==> (#[trigger] self@.operations[i]).is_valid()
    }

    /// In a well-formed model no structure name, enumeration name, member
    /// of an enumeration, array or operation occurs twice.
    pub proof fn lemma_distinct(&self)
        requires
            self.wf(),
        ensures
            structure_names(self@.structures).no_duplicates(),
            enum_names(self@.enums).no_duplicates(),
            forall|i: int|
                0 <= i < self@.enums.len() ==> (#[trigger] self@.enums[i]).members.no_duplicates(),
            self@.arrays.no_duplicates(),
            self@.operations.no_duplicates(),
    {
        self.enum_index.lemma_no_duplicates();
        self.record_index.lemma_no_duplicates();
        self.array_index.lemma_no_duplicates();
        self.operation_index.lemma_no_duplicates();
        let names = structure_names(self@.structures);
        assert forall|i: int, j: int| 0 <= i < names.len() && 0 <= j < names.len() && i != j implies names[i]
            != names[j] by {
            assert(name_keys(names)[i] == name_key(names[i]));
            assert(name_keys(names)[j] == name_key(names[j]));
        }
        let enums = enum_names(self@.enums);
        assert forall|i: int, j: int| 0 <= i < enums.len() && 0 <= j < enums.len() && i != j implies enums[i]
            != enums[j] by {
            assert(name_keys(enums)[i] == name_key(enums[i]));
            assert(name_keys(enums)[j] == name_key(enums[j]));
        }
        let arrays = self@.arrays;
        assert forall|i: int, j: int| 0 <= i < arrays.len() && 0 <= j < arrays.len() && i != j implies arrays[i]
            != arrays[j] by {
            assert(array_keys(arrays)[i] == array_key(arrays[i]));
            assert(array_keys(arrays)[j] == array_key(arrays[j]));
        }
        let operations = self@.operations;
        assert forall|i: int, j: int|
            0 <= i < operations.len() && 0 <= j < operations.len() && i != j implies operations[i]
            != operations[j] by {
            assert(operation_keys(operations)[i] == operation_key(operations[i]));
            assert(operation_keys(operations)[j] == operation_key(operations[j]));
        }
    }

    /// An empty model without a sequence name.
    pub fn new() -> (model: Model)
        ensures
            model.wf(),
            model@ == ModelView::empty(),
    {
        let model = Model {
            sequence_name: None,
            enum_index: Interner::new(),
            defined_enums: Vec::new(),
            record_index: Interner::new(),
            defined_records: Vec::new(),
            array_index: Interner::new(),
            instanciated_arrays: Vec::new(),
            operation_index: Interner::new(),
            operation_instances: Vec::new(),
            operation_ref_table: Vec::new(),
        };
        proof {
            assert(model@.enums =~= Seq::<EnumModel>::empty());
            assert(model@.structures =~= Seq::<StructureModel>::empty());
            assert(model@.arrays =~= Seq::<ValueModel>::empty());
            assert(model@.operations =~= Seq::<OperationModel>::empty());
            assert(model@.references =~= Seq::<ReferenceModel>::empty());
            assert(name_keys(enum_names(model@.enums)) =~= Seq::<Seq<Seq<u64>>>::empty());
            assert(name_keys(structure_names(model@.structures)) =~= Seq::<
                Seq<Seq<u64>>,
            >::empty());
            assert(array_keys(model@.arrays) =~= Seq::<Seq<Seq<u64>>>::empty());
            assert(operation_keys(model@.operations) =~= Seq::<Seq<Seq<u64>>>::empty());
        }
        model
    }

    /// The name of the sequence, once it is set.
    pub fn sequence_name(&self) -> (r: &Option<String>)
        ensures
            match *r {
                Some(name) => self@.sequence_name == Some(name@),
                None => self@.sequence_name is None,
            },
    {
        &self.sequence_name
    }

    /// The enumerations, in the order first seen.
    pub fn defined_enums(&self) -> (r: &Vec<EnumDeclaration>)
        ensures
            enum_models(r@) == self@.enums,
    {
        &self.defined_enums
    }

    /// The structure definitions, in the order first seen.
    pub fn defined_records(&self) -> (r: &Vec<StructureDefinition>)
        ensures
            structure_models(r@) == self@.structures,
    {
        &self.defined_records
    }

    /// The interned arrays; the array at index `n` has the name `array_n`.
    pub fn instanciated_arrays(&self) -> (r: &Vec<ArrayInstanceVariant>)
        ensures
            array_models(r@) == self@.arrays,
    {
        &self.instanciated_arrays
    }

    /// The interned operations; the operation at index `n` has the name
    /// `operation_n`.
    pub fn operation_instances(&self) -> (r: &Vec<Operation>)
        ensures
            operation_models(r@) == self@.operations,
    {
        &self.operation_instances
    }

    /// The table of occurrences, in the order of the records.
    pub fn operation_ref_table(&self) -> (r: &Vec<OperationTableMember>)
        ensures
            reference_models(r@) == self@.references,
    {
        &self.operation_ref_table
    }

    /// Names the sequence.
    pub fn set_sequence_name(&mut self, sequence_name: String)
        requires
            old(self).wf(),
        ensures
            final(self).wf(),
            final(self)@ == (ModelView { sequence_name: Some(sequence_name@), ..old(self)@ }),
    {
        self.sequence_name = Some(sequence_name);
    }

    /// Declares the member that an identifier field names.
    pub fn add_identifier_declaration(&mut self, argument: &IdentifierRecordArg)
        requires
            old(self).wf(),
        ensures
            final(self).wf(),
            final(self)@ == old(self)@.declare_member(argument.enum_type@, argument.value@),
    {
        let key = name_key_of(&argument.enum_type);
        let ghost names = enum_names(self@.enums);
        let ghost before = self@;
        proof {
            self.lemma_distinct();
        }
        match self.enum_index.find(&key) {
            Some(n) => {
                proof {
                    assert(name_keys(names)[n as int] == name_key(names[n as int]));
                    lemma_name_key_injective(names[n as int], argument.enum_type@);
                    lemma_lookup_found(names, argument.enum_type@, n as int);
                    assert(before.enums[n as int].name == argument.enum_type@);
                }
                if !holds_text(&self.defined_enums[n].members, &argument.value) {
                    let ghost old_members = texts(self.defined_enums@[n as int].members@);
                    self.defined_enums[n].members.push(argument.value.clone());
                    proof {
                        assert(texts(self.defined_enums@[n as int].members@) =~= old_members.push(
                            argument.value@,
                        ));
                        assert(old_members == before.enums[n as int].members);
                        lemma_push_distinct(old_members, argument.value@);
                        assert(self@.enums =~= before.enums.update(
                            n as int,
                            EnumModel {
                                name: argument.enum_type@,
                                members: old_members.push(argument.value@),
                            },
                        ));
                        assert(enum_names(self@.enums) =~= names);
                        assert(self@.structures =~= before.structures);
                        assert(self@.arrays =~= before.arrays);
                        assert(self@.operations =~= before.operations);
                        assert(self@.references =~= before.references);
                    }
                }
            },
            None => {
                proof {
                    assert forall|i: int| 0 <= i < names.len() implies names[i]
                        != argument.enum_type@ by {
                        assert(name_keys(names)[i] == name_key(names[i]));
                        assert(name_keys(names).contains(name_keys(names)[i]));
                    }
                    lemma_lookup_missing(names, argument.enum_type@);
                }
                let mut members: Vec<String> = Vec::new();
                members.push(argument.value.clone());
                assert(texts(members@) =~= seq![argument.value@]);
                proof {
                    lemma_push_distinct(Seq::<Seq<char>>::empty(), argument.value@);
                    assert(Seq::<Seq<char>>::empty().push(argument.value@) =~= seq![
                        argument.value@,
                    ]);
                }
                self.defined_enums.push(
                    EnumDeclaration { name: argument.enum_type.clone(), members },
                );
                self.enum_index.add(key);
                proof {
                    assert(self@.enums =~= before.enums.push(
                        EnumModel { name: argument.enum_type@, members: seq![argument.value@] },
                    ));
                    assert(name_keys(enum_names(self@.enums)) =~= name_keys(names).push(
                        name_key(argument.enum_type@),
                    ));
                    assert(self@.structures =~= before.structures);
                    assert(self@.arrays =~= before.arrays);
                    assert(self@.operations =~= before.operations);
                    assert(self@.references =~= before.references);
                }
            },
        }
    }

    /// Interns an array and gives the name of its instance.
    pub fn add_array_instance(&mut self, array_variant: ArrayInstanceVariant) -> (name: String)
        requires
            old(self).wf(),
        ensures
            final(self).wf(),
            final(self)@ == old(self)@.intern_array(array_variant@).0,
            name@ == array_name(old(self)@.intern_array(array_variant@).1),
    {
        let key = array_variant.key();
        let ghost arrays = self@.arrays;
        let ghost before = self@;
        proof {
            self.lemma_distinct();
        }
        match self.array_index.find(&key) {
            Some(n) => {
                proof {
                    assert(array_keys(arrays)[n as int] == array_key(arrays[n as int]));
                    lemma_array_key_injective(arrays[n as int], array_variant@);
                    lemma_lookup_found(arrays, array_variant@, n as int);
                }
                numbered_name("array_", n)
            },
            None => {
                proof {
                    assert forall|i: int| 0 <= i < arrays.len() implies arrays[i]
                        != array_variant@ by {
                        assert(array_keys(arrays)[i] == array_key(arrays[i]));
                        assert(array_keys(arrays).contains(array_keys(arrays)[i]));
                    }
                    lemma_lookup_missing(arrays, array_variant@);
                }
                self.instanciated_arrays.push(array_variant);
                let n = self.array_index.add(key);
                proof {
                    assert(self@.arrays =~= arrays.push(array_variant@));
                    assert(array_keys(self@.arrays) =~= array_keys(arrays).push(
                        array_key(array_variant@),
                    ));
                    assert(self@.enums =~= before.enums);
                    assert(self@.structures =~= before.structures);
                    assert(self@.operations =~= before.operations);
                    assert(self@.references =~= before.references);
                    assert(array_keys(arrays).len() == arrays.len());
                }
                numbered_name("array_", n)
            },
        }
    }

    /// Interns an operation and gives the name of its instance.
    fn add_operation_instance(&mut self, operation: Operation) -> (name: String)
        requires
            old(self).wf(),
        ensures
            final(self).wf(),
            final(self)@ == old(self)@.intern_operation(operation@).0,
            name@ == operation_name(old(self)@.intern_operation(operation@).1),
    {
        let key = operation.key();
        let ghost operations = self@.operations;
        let ghost before = self@;
        proof {
            self.lemma_distinct();
        }
        match self.operation_index.find(&key) {
            Some(n) => {
                proof {
                    assert(operation_keys(operations)[n as int] == operation_key(
                        operations[n as int],
                    ));
                    lemma_operation_key_injective(operations[n as int], operation@);
                    lemma_lookup_found(operations, operation@, n as int);
                }
                numbered_name("operation_", n)
            },
            None => {
                proof {
                    assert forall|i: int| 0 <= i < operations.len() implies operations[i]
                        != operation@ by {
                        assert(operation_keys(operations)[i] == operation_key(operations[i]));
                        assert(operation_keys(operations).contains(operation_keys(operations)[i]));
                    }
                    lemma_lookup_missing(operations, operation@);
                }
                self.operation_instances.push(operation);
                let n = self.operation_index.add(key);
                proof {
                    assert(self@.operations =~= operations.push(operation@));
                    assert(operation_keys(self@.operations) =~= operation_keys(operations).push(
                        operation_key(operation@),
                    ));
                    assert(self@.enums =~= before.enums);
                    assert(self@.structures =~= before.structures);
                    assert(self@.arrays =~= before.arrays);
                    assert(self@.references =~= before.references);
                    assert(operation_keys(operations).len() == operations.len());
                }
                numbered_name("operation_", n)
            },
        }
    }

    /// Defines the structure of a record from its fields, unless a structure
    /// of that name exists.
    pub fn add_structure_definition(
        &mut self,
        record_name: String,
        record_args: &Vec<UniRecordArgVariant>,
    )
        requires
            old(self).wf(),
        ensures
            final(self).wf(),
            final(self)@ == old(self)@.define_structure(
                RecordModel { name: record_name@, fields: field_models(record_args@) },
            ),
    {
        let key = name_key_of(&record_name);
        let ghost names = structure_names(self@.structures);
        let ghost before = self@;
        let ghost record = RecordModel { name: record_name@, fields: field_models(record_args@) };
        match self.record_index.find(&key) {
            Some(n) => {
                proof {
                    assert(name_keys(names)[n as int] == name_key(names[n as int]));
                    lemma_name_key_injective(names[n as int], record_name@);
                    assert(names.contains(record_name@));
                }
            },
            None => {
                proof {
                    if names.contains(record_name@) {
                        let i = choose|i: int| 0 <= i < names.len() && names[i] == record_name@;
                        assert(name_keys(names)[i] == name_key(names[i]));
                        assert(name_keys(names).contains(name_keys(names)[i]));
                    }
                }
                let mut members: Vec<StructureDefinitionMember> = Vec::new();
                let mut i: usize = 0;
                while i < record_args.len()
                    invariant
                        i <= record_args.len(),
                        members@.len() == i,
                        forall|j: int|
                            0 <= j < i ==> (#[trigger] members@[j])@ == (MemberModel {
                                name: record_args@[j]@.name,
                                member_type: record_args@[j]@.value.type_of(),
                            }),
                    decreases record_args.len() - i,
                {
                    let member = StructureDefinitionMember {
                        member_name: record_args[i].get_name().clone(),
                        member_type: record_args[i].get_type(),
                    };
                    members.push(member);
                    i += 1;
                }
                assert(member_models(members@) =~= structure_of(record).members);
                self.defined_records.push(StructureDefinition { name: record_name, members });
                self.record_index.add(key);
                proof {
                    assert(self@.structures =~= before.structures.push(structure_of(record)));
                    assert(name_keys(structure_names(self@.structures)) =~= name_keys(names).push(
                        name_key(record_name@),
                    ));
                    assert(self@.enums =~= before.enums);
                    assert(self@.arrays =~= before.arrays);
                    assert(self@.operations =~= before.operations);
                    assert(self@.references =~= before.references);
                }
            },
        }
    }

    /// Takes one field into the model and gives the parameter that stands
    /// for it.
    fn add_field(&mut self, arg: &UniRecordArgVariant) -> (parameter: OperationParameterVariant)
        requires
            old(self).wf(),
        ensures
            final(self).wf(),
            (final(self)@, parameter@) == old(self)@.add_field(arg@),
    {
        match arg {
            UniRecordArgVariant::X8(a) => OperationParameterVariant::X8(
                OperationParameter { name: a.name.clone(), value: a.value },
            ),
            UniRecordArgVariant::X16(a) => OperationParameterVariant::X16(
                OperationParameter { name: a.name.clone(), value: a.value },
            ),
            UniRecordArgVariant::X32(a) => OperationParameterVariant::X32(
                OperationParameter { name: a.name.clone(), value: a.value },
            ),
            UniRecordArgVariant::X64(a) => OperationParameterVariant::X64(
                OperationParameter { name: a.name.clone(), value: a.value },
            ),
            UniRecordArgVariant::U8(a) => OperationParameterVariant::U8(
                OperationParameter { name: a.name.clone(), value: a.value },
            ),
            UniRecordArgVariant::U16(a) => OperationParameterVariant::U16(
                OperationParameter { name: a.name.clone(), value: a.value },
            ),
            UniRecordArgVariant::U32(a) => OperationParameterVariant::U32(
                OperationParameter { name: a.name.clone(), value: a.value },
            ),
            UniRecordArgVariant::U64(a) => OperationParameterVariant::U64(
                OperationParameter { name: a.name.clone(), value: a.value },
            ),
            UniRecordArgVariant::I8(a) => OperationParameterVariant::I8(
                OperationParameter { name: a.name.clone(), value: a.value },
            ),
            UniRecordArgVariant::I16(a) => OperationParameterVariant::I16(
                OperationParameter { name: a.name.clone(), value: a.value },
            ),
            UniRecordArgVariant::I32(a) => OperationParameterVariant::I32(
                OperationParameter { name: a.name.clone(), value: a.value },
            ),
            UniRecordArgVariant::I64(a) => OperationParameterVariant::I64(
                OperationParameter { name: a.name.clone(), value: a.value },
            ),
            UniRecordArgVariant::F32(a) => OperationParameterVariant::F32(
                OperationParameter { name: a.name.clone(), value: a.value.clone() },
            ),
            UniRecordArgVariant::F64(a) => OperationParameterVariant::F64(
                OperationParameter { name: a.name.clone(), value: a.value.clone() },
            ),
            UniRecordArgVariant::ArrayOfX8(a) => {
                let instance = self.add_array_instance(ArrayInstanceVariant::X8(copy_u8(&a.value)));
                OperationParameterVariant::ArrayOfX8(
                    OperationParameter { name: a.name.clone(), value: instance },
                )
            },
            UniRecordArgVariant::ArrayOfX16(a) => {
                let instance = self.add_array_instance(
                    ArrayInstanceVariant::X16(copy_u16(&a.value)),
                );
                OperationParameterVariant::ArrayOfX16(
                    OperationParameter { name: a.name.clone(), value: instance },
                )
            },
            UniRecordArgVariant::ArrayOfX32(a) => {
                let instance = self.add_array_instance(
                    ArrayInstanceVariant::X32(copy_u32(&a.value)),
                );
                OperationParameterVariant::ArrayOfX32(
                    OperationParameter { name: a.name.clone(), value: instance },
                )
            },
            UniRecordArgVariant::ArrayOfX64(a) => {
                let instance = self.add_array_instance(
                    ArrayInstanceVariant::X64(copy_u64(&a.value)),
                );
                OperationParameterVariant::ArrayOfX64(
                    OperationParameter { name: a.name.clone(), value: instance },
                )
            },
            UniRecordArgVariant::ArrayOfU8(a) => {
                let instance = self.add_array_instance(ArrayInstanceVariant::U8(copy_u8(&a.value)));
                OperationParameterVariant::ArrayOfU8(
                    OperationParameter { name: a.name.clone(), value: instance },
                )
            },
            UniRecordArgVariant::ArrayOfU16(a) => {
                let instance = self.add_array_instance(
                    ArrayInstanceVariant::U16(copy_u16(&a.value)),
                );
                OperationParameterVariant::ArrayOfU16(
                    OperationParameter { name: a.name.clone(), value: instance },
                )
            },
            UniRecordArgVariant::ArrayOfU32(a) => {
                let instance = self.add_array_instance(
                    ArrayInstanceVariant::U32(copy_u32(&a.value)),
                );
                OperationParameterVariant::ArrayOfU32(
                    OperationParameter { name: a.name.clone(), value: instance },
                )
            },
            UniRecordArgVariant::ArrayOfU64(a) => {
                let instance = self.add_array_instance(
                    ArrayInstanceVariant::U64(copy_u64(&a.value)),
                );
                OperationParameterVariant::ArrayOfU64(
                    OperationParameter { name: a.name.clone(), value: instance },
                )
            },
            UniRecordArgVariant::ArrayOfI8(a) => {
                let instance = self.add_array_instance(ArrayInstanceVariant::I8(copy_i8(&a.value)));
                OperationParameterVariant::ArrayOfI8(
                    OperationParameter { name: a.name.clone(), value: instance },
                )
            },
            UniRecordArgVariant::ArrayOfI16(a) => {
                let instance = self.add_array_instance(
                    ArrayInstanceVariant::I16(copy_i16(&a.value)),
                );
                OperationParameterVariant::ArrayOfI16(
                    OperationParameter { name: a.name.clone(), value: instance },
                )
            },
            UniRecordArgVariant::ArrayOfI32(a) => {
                let instance = self.add_array_instance(
                    ArrayInstanceVariant::I32(copy_i32(&a.value)),
                );
                OperationParameterVariant::ArrayOfI32(
                    OperationParameter { name: a.name.clone(), value: instance },
                )
            },
            UniRecordArgVariant::ArrayOfI64(a) => {
                let instance = self.add_array_instance(
                    ArrayInstanceVariant::I64(copy_i64(&a.value)),
                );
                OperationParameterVariant::ArrayOfI64(
                    OperationParameter { name: a.name.clone(), value: instance },
                )
            },
            UniRecordArgVariant::ArrayOfF32(a) => {
                let instance = self.add_array_instance(
                    ArrayInstanceVariant::F32(copy_decimals(&a.value)),
                );
                OperationParameterVariant::ArrayOfF32(
                    OperationParameter { name: a.name.clone(), value: instance },
                )
            },
            UniRecordArgVariant::ArrayOfF64(a) => {
                let instance = self.add_array_instance(
                    ArrayInstanceVariant::F64(copy_decimals(&a.value)),
                );
                OperationParameterVariant::ArrayOfF64(
                    OperationParameter { name: a.name.clone(), value: instance },
                )
            },
            UniRecordArgVariant::Bool(a) => OperationParameterVariant::Bool(
                OperationParameter { name: a.name.clone(), value: a.value },
            ),
            UniRecordArgVariant::Identifier(a) => {
                self.add_identifier_declaration(a);
                OperationParameterVariant::Identifier(
                    IdentifierOperationParameter {
                        name: a.name.clone(),
                        enum_type: a.enum_type.clone(),
                        value: a.value.clone(),
                    },
                )
            },
        }
    }

    /// Takes a record into the model: defines its structure if its name is
    /// new, declares the members that its identifiers name, interns its
    /// arrays and the operation, and appends the occurrence to the table.
    pub fn add_record(&mut self, record: UniRecord)
        requires
            old(self).wf(),
        ensures
            final(self).wf(),
            final(self)@ == old(self)@.add_record(record@),
    {
        let (record_type, record_args) = record.dissassemble();
        let ghost fields = field_models(record_args@);
        let ghost start = self@;
        self.add_structure_definition(record_type.clone(), &record_args);
        let ghost defined = self@;
        let mut operation_parameters: Vec<OperationParameterVariant> = Vec::new();
        let mut i: usize = 0;
        assert(fields.take(0) =~= Seq::<FieldModel>::empty());
        assert(parameter_models(operation_parameters@) =~= Seq::<ParameterModel>::empty());
        while i < record_args.len()
            invariant
                i <= record_args.len(),
                self.wf(),
                fields == field_models(record_args@),
                (self@, parameter_models(operation_parameters@)) == defined.add_fields(
                    fields.take(i as int),
                ),
            decreases record_args.len() - i,
        {
            let ghost before_parameters = parameter_models(operation_parameters@);
            let parameter = self.add_field(&record_args[i]);
            operation_parameters.push(parameter);
            proof {
                let front = fields.take(i as int);
                let next = fields.take(i + 1);
                assert(next.drop_last() =~= front);
                assert(next.last() == record_args@[i as int]@);
                assert(parameter_models(operation_parameters@) =~= before_parameters.push(
                    parameter@,
                ));
            }
            i += 1;
        }
        assert(fields.take(record_args.len() as int) =~= fields);
        let operation = Operation {
            operation_type: record_type.clone(),
            parameters: operation_parameters,
        };
        let ghost filled = self@;
        let operation_instance_name = self.add_operation_instance(operation);
        let ghost interned = self@;
        self.operation_ref_table.push(
            OperationTableMember {
                operation_type: record_type,
                operation_variant_ref_name: operation_instance_name,
            },
        );
        proof {
            let n = filled.intern_operation(operation@).1;
            assert(self@.references =~= interned.references.push(
                ReferenceModel { operation_type: record_type@, instance: operation_name(n) },
            ));
            assert(self@.enums =~= interned.enums);
            assert(self@.structures =~= interned.structures);
            assert(self@.arrays =~= interned.arrays);
            assert(self@.operations =~= interned.operations);
        }
    }
}

impl Default for Model {
    fn default() -> (model: Model)
        ensures
            model.wf(),
            model@ == ModelView::empty(),
    {
        Model::new()
    }
}

fn widen_u8(v: &Vec<u8>) -> (r: Vec<i128>)
    ensures
        wide(r@) == wholes_u8(v@),
        forall|j: int| 0 <= j < r@.len() ==> 0 <= #[trigger] r@[j] <= 0xff,
{
    let mut r: Vec<i128> = Vec::new();
    let mut i: usize = 0;
    while i < v.len()
        invariant
            i <= v.len(),
            r@.len() == i,
            forall|j: int| 0 <= j < i ==> (#[trigger] r@[j]) as int == v@[j] as int,
        decreases v.len() - i,
    {
        r.push(v[i] as i128);
        i += 1;
    }
    assert(wide(r@) =~= wholes_u8(v@));
    r
}

fn widen_u16(v: &Vec<u16>) -> (r: Vec<i128>)
    ensures
        wide(r@) == wholes_u16(v@),
        forall|j: int| 0 <= j < r@.len() ==> 0 <= #[trigger] r@[j] <= 0xffff,
{
    let mut r: Vec<i128> = Vec::new();
    let mut i: usize = 0;
    while i < v.len()
        invariant
            i <= v.len(),
            r@.len() == i,
            forall|j: int| 0 <= j < i ==> (#[trigger] r@[j]) as int == v@[j] as int,
        decreases v.len() - i,
    {
        r.push(v[i] as i128);
        i += 1;
    }
    assert(wide(r@) =~= wholes_u16(v@));
    r
}

fn widen_u32(v: &Vec<u32>) -> (r: Vec<i128>)
    ensures
        wide(r@) == wholes_u32(v@),
        forall|j: int| 0 <= j < r@.len() ==> 0 <= #[trigger] r@[j] <= 0xffff_ffff,
{
    let mut r: Vec<i128> = Vec::new();
    let mut i: usize = 0;
    while i < v.len()
        invariant
            i <= v.len(),
            r@.len() == i,
            forall|j: int| 0 <= j < i ==> (#[trigger] r@[j]) as int == v@[j] as int,
        decreases v.len() - i,
    {
        r.push(v[i] as i128);
        i += 1;
    }
    assert(wide(r@) =~= wholes_u32(v@));
    r
}

fn widen_u64(v: &Vec<u64>) -> (r: Vec<i128>)
    ensures
        wide(r@) == wholes_u64(v@),
        forall|j: int| 0 <= j < r@.len() ==> 0 <= #[trigger] r@[j] <= 0xffff_ffff_ffff_ffff,
{
    let mut r: Vec<i128> = Vec::new();
    let mut i: usize = 0;
    while i < v.len()
        invariant
            i <= v.len(),
            r@.len() == i,
            forall|j: int| 0 <= j < i ==> (#[trigger] r@[j]) as int == v@[j] as int,
        decreases v.len() - i,
    {
        r.push(v[i] as i128);
        i += 1;
    }
    assert(wide(r@) =~= wholes_u64(v@));
    r
}

fn widen_i8(v: &Vec<i8>) -> (r: Vec<i128>)
    ensures
        wide(r@) == wholes_i8(v@),
        forall|j: int| 0 <= j < r@.len() ==> -0x80 <= #[trigger] r@[j] <= 0x7f,
{
    let mut r: Vec<i128> = Vec::new();
    let mut i: usize = 0;
    while i < v.len()
        invariant
            i <= v.len(),
            r@.len() == i,
            forall|j: int| 0 <= j < i ==> (#[trigger] r@[j]) as int == v@[j] as int,
        decreases v.len() - i,
    {
        r.push(v[i] as i128);
        i += 1;
    }
    assert(wide(r@) =~= wholes_i8(v@));
    r
}

fn widen_i16(v: &Vec<i16>) -> (r: Vec<i128>)
    ensures
        wide(r@) == wholes_i16(v@),
        forall|j: int| 0 <= j < r@.len() ==> -0x8000 <= #[trigger] r@[j] <= 0x7fff,
{
    let mut r: Vec<i128> = Vec::new();
    let mut i: usize = 0;
    while i < v.len()
        invariant
            i <= v.len(),
            r@.len() == i,
            forall|j: int| 0 <= j < i ==> (#[trigger] r@[j]) as int == v@[j] as int,
        decreases v.len() - i,
    {
        r.push(v[i] as i128);
        i += 1;
    }
    assert(wide(r@) =~= wholes_i16(v@));
    r
}

fn widen_i32(v: &Vec<i32>) -> (r: Vec<i128>)
    ensures
        wide(r@) == wholes_i32(v@),
        forall|j: int| 0 <= j < r@.len() ==> -0x8000_0000 <= #[trigger] r@[j] <= 0x7fff_ffff,
{
    let mut r: Vec<i128> = Vec::new();
    let mut i: usize = 0;
    while i < v.len()
        invariant
            i <= v.len(),
            r@.len() == i,
            forall|j: int| 0 <= j < i ==> (#[trigger] r@[j]) as int == v@[j] as int,
        decreases v.len() - i,
    {
        r.push(v[i] as i128);
        i += 1;
    }
    assert(wide(r@) =~= wholes_i32(v@));
    r
}

fn widen_i64(v: &Vec<i64>) -> (r: Vec<i128>)
    ensures
        wide(r@) == wholes_i64(v@),
        forall|j: int| 0 <= j < r@.len() ==> -0x8000_0000_0000_0000 <= #[trigger] r@[j] <= 0x7fff_ffff_ffff_ffff,
{
    let mut r: Vec<i128> = Vec::new();
    let mut i: usize = 0;
    while i < v.len()
        invariant
            i <= v.len(),
            r@.len() == i,
            forall|j: int| 0 <= j < i ==> (#[trigger] r@[j]) as int == v@[j] as int,
        decreases v.len() - i,
    {
        r.push(v[i] as i128);
        i += 1;
    }
    assert(wide(r@) =~= wholes_i64(v@));
    r
}

/// The elements of an array, whatever its kind.
pub enum ArrayElements<'a> {
    Wholes(ScalarKind, Vec<i128>),
    Fractions(ScalarKind, &'a Vec<Decimal>),
}

impl<'a> View for ArrayElements<'a> {
    type V = ValueModel;

    open spec fn view(&self) -> ValueModel {
        match self {
            ArrayElements::Wholes(kind, v) => ValueModel::Wholes(*kind, wide(v@)),
            ArrayElements::Fractions(kind, v) => ValueModel::Fractions(*kind, fractions(v@)),
        }
    }
}

impl<'a> ArrayElements<'a> {
    /// Integers lie in the range of their kind.
    pub open spec fn is_valid(&self) -> bool {
        match self {
            ArrayElements::Wholes(kind, v) => !kind.is_fraction() && forall|i: int|
                0 <= i < v@.len() ==> kind.lower() <= #[trigger] v@[i] <= kind.upper(),
            ArrayElements::Fractions(kind, _) => kind.is_fraction(),
        }
    }
}

impl ArrayInstanceVariant {
    /// The kind and the elements of the array.
    pub fn elements(&self) -> (r: ArrayElements<'_>)
        ensures
            r@ == self@,
            r.is_valid(),
    {
        match self {
            ArrayInstanceVariant::X8(v) => ArrayElements::Wholes(ScalarKind::X8, widen_u8(v)),
            ArrayInstanceVariant::X16(v) => ArrayElements::Wholes(ScalarKind::X16, widen_u16(v)),
            ArrayInstanceVariant::X32(v) => ArrayElements::Wholes(ScalarKind::X32, widen_u32(v)),
            ArrayInstanceVariant::X64(v) => ArrayElements::Wholes(ScalarKind::X64, widen_u64(v)),
            ArrayInstanceVariant::U8(v) => ArrayElements::Wholes(ScalarKind::U8, widen_u8(v)),
            ArrayInstanceVariant::U16(v) => ArrayElements::Wholes(ScalarKind::U16, widen_u16(v)),
            ArrayInstanceVariant::U32(v) => ArrayElements::Wholes(ScalarKind::U32, widen_u32(v)),
            ArrayInstanceVariant::U64(v) => ArrayElements::Wholes(ScalarKind::U64, widen_u64(v)),
            ArrayInstanceVariant::I8(v) => ArrayElements::Wholes(ScalarKind::I8, widen_i8(v)),
            ArrayInstanceVariant::I16(v) => ArrayElements::Wholes(ScalarKind::I16, widen_i16(v)),
            ArrayInstanceVariant::I32(v) => ArrayElements::Wholes(ScalarKind::I32, widen_i32(v)),
            ArrayInstanceVariant::I64(v) => ArrayElements::Wholes(ScalarKind::I64, widen_i64(v)),
            ArrayInstanceVariant::F32(v) => ArrayElements::Fractions(ScalarKind::F32, v),
            ArrayInstanceVariant::F64(v) => ArrayElements::Fractions(ScalarKind::F64, v),
        }
    }
}

/// The value of a parameter, whatever its variant.
pub enum ParameterPayload<'a> {
    Whole(ScalarKind, i128),
    Fraction(ScalarKind, &'a Decimal),
    ArrayRef(ScalarKind, &'a String),
    Truth(bool),
    Identifier(&'a String, &'a String),
}

impl<'a> View for ParameterPayload<'a> {
    type V = ParameterValue;

    open spec fn view(&self) -> ParameterValue {
        match self {
            ParameterPayload::Whole(kind, n) => ParameterValue::Whole(*kind, *n as int),
            ParameterPayload::Fraction(kind, d) => ParameterValue::Fraction(*kind, d@),
            ParameterPayload::ArrayRef(kind, instance) => ParameterValue::ArrayRef(
                *kind,
                instance@,
            ),
            ParameterPayload::Truth(b) => ParameterValue::Truth(*b),
            ParameterPayload::Identifier(enum_type, member) => ParameterValue::Identifier(
                enum_type@,
                member@,
            ),
        }
    }
}

impl OperationParameterVariant {
    /// The name of the parameter.
    pub fn name(&self) -> (r: &String)
        ensures
            r@ == self@.name,
    {
        match self {
            OperationParameterVariant::X8(p) => &p.name,
            OperationParameterVariant::X16(p) => &p.name,
            OperationParameterVariant::X32(p) => &p.name,
            OperationParameterVariant::X64(p) => &p.name,
            OperationParameterVariant::U8(p) => &p.name,
            OperationParameterVariant::U16(p) => &p.name,
            OperationParameterVariant::U32(p) => &p.name,
            OperationParameterVariant::U64(p) => &p.name,
            OperationParameterVariant::I8(p) => &p.name,
            OperationParameterVariant::I16(p) => &p.name,
            OperationParameterVariant::I32(p) => &p.name,
            OperationParameterVariant::I64(p) => &p.name,
            OperationParameterVariant::F32(p) => &p.name,
            OperationParameterVariant::F64(p) => &p.name,
            OperationParameterVariant::ArrayOfX8(p) => &p.name,
            OperationParameterVariant::ArrayOfX16(p) => &p.name,
            OperationParameterVariant::ArrayOfX32(p) => &p.name,
            OperationParameterVariant::ArrayOfX64(p) => &p.name,
            OperationParameterVariant::ArrayOfU8(p) => &p.name,
            OperationParameterVariant::ArrayOfU16(p) => &p.name,
            OperationParameterVariant::ArrayOfU32(p) => &p.name,
            OperationParameterVariant::ArrayOfU64(p) => &p.name,
            OperationParameterVariant::ArrayOfI8(p) => &p.name,
            OperationParameterVariant::ArrayOfI16(p) => &p.name,
            OperationParameterVariant::ArrayOfI32(p) => &p.name,
            OperationParameterVariant::ArrayOfI64(p) => &p.name,
            OperationParameterVariant::ArrayOfF32(p) => &p.name,
            OperationParameterVariant::ArrayOfF64(p) => &p.name,
            OperationParameterVariant::Bool(p) => &p.name,
            OperationParameterVariant::Identifier(p) => &p.name,
        }
    }

    /// The value of the parameter.
    pub fn payload(&self) -> (r: ParameterPayload<'_>)
        ensures
            r@ == self@.value,
            self@.is_valid(),
    {
        match self {
            OperationParameterVariant::X8(p) => ParameterPayload::Whole(
                ScalarKind::X8,
                p.value as i128,
            ),
            OperationParameterVariant::X16(p) => ParameterPayload::Whole(
                ScalarKind::X16,
                p.value as i128,
            ),
            OperationParameterVariant::X32(p) => ParameterPayload::Whole(
                ScalarKind::X32,
                p.value as i128,
            ),
            OperationParameterVariant::X64(p) => ParameterPayload::Whole(
                ScalarKind::X64,
                p.value as i128,
            ),
            OperationParameterVariant::U8(p) => ParameterPayload::Whole(
                ScalarKind::U8,
                p.value as i128,
            ),
            OperationParameterVariant::U16(p) => ParameterPayload::Whole(
                ScalarKind::U16,
                p.value as i128,
            ),
            OperationParameterVariant::U32(p) => ParameterPayload::Whole(
                ScalarKind::U32,
                p.value as i128,
            ),
            OperationParameterVariant::U64(p) => ParameterPayload::Whole(
                ScalarKind::U64,
                p.value as i128,
            ),
            OperationParameterVariant::I8(p) => ParameterPayload::Whole(
                ScalarKind::I8,
                p.value as i128,
            ),
            OperationParameterVariant::I16(p) => ParameterPayload::Whole(
                ScalarKind::I16,
                p.value as i128,
            ),
            OperationParameterVariant::I32(p) => ParameterPayload::Whole(
                ScalarKind::I32,
                p.value as i128,
            ),
            OperationParameterVariant::I64(p) => ParameterPayload::Whole(
                ScalarKind::I64,
                p.value as i128,
            ),
            OperationParameterVariant::F32(p) => {
                let _ = p.value.digits();
                ParameterPayload::Fraction(ScalarKind::F32, &p.value)
            },
            OperationParameterVariant::F64(p) => {
                let _ = p.value.digits();
                ParameterPayload::Fraction(ScalarKind::F64, &p.value)
            },
            OperationParameterVariant::ArrayOfX8(p) => ParameterPayload::ArrayRef(
                ScalarKind::X8,
                &p.value,
            ),
            OperationParameterVariant::ArrayOfX16(p) => ParameterPayload::ArrayRef(
                ScalarKind::X16,
                &p.value,
            ),
            OperationParameterVariant::ArrayOfX32(p) => ParameterPayload::ArrayRef(
                ScalarKind::X32,
                &p.value,
            ),
            OperationParameterVariant::ArrayOfX64(p) => ParameterPayload::ArrayRef(
                ScalarKind::X64,
                &p.value,
            ),
            OperationParameterVariant::ArrayOfU8(p) => ParameterPayload::ArrayRef(
                ScalarKind::U8,
                &p.value,
            ),
            OperationParameterVariant::ArrayOfU16(p) => ParameterPayload::ArrayRef(
                ScalarKind::U16,
                &p.value,
            ),
            OperationParameterVariant::ArrayOfU32(p) => ParameterPayload::ArrayRef(
                ScalarKind::U32,
                &p.value,
            ),
            OperationParameterVariant::ArrayOfU64(p) => ParameterPayload::ArrayRef(
                ScalarKind::U64,
                &p.value,
            ),
            OperationParameterVariant::ArrayOfI8(p) => ParameterPayload::ArrayRef(
                ScalarKind::I8,
                &p.value,
            ),
            OperationParameterVariant::ArrayOfI16(p) => ParameterPayload::ArrayRef(
                ScalarKind::I16,
                &p.value,
            ),
            OperationParameterVariant::ArrayOfI32(p) => ParameterPayload::ArrayRef(
                ScalarKind::I32,
                &p.value,
            ),
            OperationParameterVariant::ArrayOfI64(p) => ParameterPayload::ArrayRef(
                ScalarKind::I64,
                &p.value,
            ),
            OperationParameterVariant::ArrayOfF32(p) => ParameterPayload::ArrayRef(
                ScalarKind::F32,
                &p.value,
            ),
            OperationParameterVariant::ArrayOfF64(p) => ParameterPayload::ArrayRef(
                ScalarKind::F64,
                &p.value,
            ),
            OperationParameterVariant::Bool(p) => ParameterPayload::Truth(p.value),
            OperationParameterVariant::Identifier(p) => ParameterPayload::Identifier(
                &p.enum_type,
                &p.value,
            ),
        }
    }
}

/// The name of the array with the number `n`.
pub fn array_instance_name(n: usize) -> (name: String)
    ensures
        name@ == array_name(n as int),
{
    numbered_name("array_", n)
}

/// The name of the operation with the number `n`.
pub fn operation_instance_name(n: usize) -> (name: String)
    ensures
        name@ == operation_name(n as int),
{
    numbered_name("operation_", n)
}

} // verus!
