//! Laws of the library, proved from the definitions that the contracts use.

use crate::case::{
    ascii_lower, ascii_upper, capital_letters, capitalized, capitalized_words, is_ascii,
    is_ascii_text, is_capital, pascal_case_text, pascal_to_snake_text, small_letters,
    snake_case_fold,
};
use crate::decimal::{
    all_digits, decimal_literal, digit_chars, digit_values, is_digit, leading_zeros,
    lemma_leading_zeros, lemma_trailing_zeros, normal_form, parse_decimal, trailing_zeros, zeros,
    DecimalError, DecimalModel,
};
use crate::generators::c_generation::CGeneration;
use crate::generators::c_sharp_generation::CSharpGeneration;
use crate::generators::rust_generation::RustGeneration;
use crate::generators::{truth_text, whole_text};
use crate::grammar::{
    classify, closing_symbol, decode_record, delimited_content, first_marker, is_closing,
    is_opening, join, line_before_feed, lines, opening_symbol, parse, seek_begin, strip_timestamp,
    FileErrorModel, LineErrorModel, ParserModel, RecordCapturingState,
};
use crate::model::{
    enum_names, lookup, structure_names, structure_of, EnumModel, Model, ModelView,
    OperationModel,
};
use crate::number::{
    decimal_text, digit_char, digit_of, digits_text, hex_text, read_digits, NumberError,
};
use crate::parser::{FileParsingError, Parser};
use crate::text::{
    after, after_last, before, find, find_either, find_last, find_pair, lemma_find_either,
    lemma_find_last, split,
};
use crate::unirecord::{
    decode_array, decode_scalar, parse_fractions, parse_identifier, parse_truth, parse_whole,
    parse_wholes, FieldModel, RecordModel, RecordParsingError, ScalarKind, ValueModel,
};
use vstd::prelude::*;

verus! {

/// The radix in which `digits_text` writes.
pub open spec fn radix_of(hex: bool) -> int {
    if hex {
        16
    } else {
        10
    }
}

/// Reading one more digit goes on from where the digits before it ended.
pub proof fn lemma_read_digits_push(
    s: Seq<char>,
    c: char,
    radix: int,
    negative: bool,
    lo: int,
    hi: int,
    acc: int,
)
    ensures
        read_digits(s.push(c), radix, negative, lo, hi, acc) == (match read_digits(
            s,
            radix,
            negative,
            lo,
            hi,
            acc,
        ) {
            Ok(m) => read_digits(seq![c], radix, negative, lo, hi, m),
            Err(e) => Err(e),
        }),
    decreases s.len(),
{
    if s.len() == 0 {
        assert(s.push(c) =~= seq![c]);
    } else {
        let t = s.push(c);
        assert(t[0] == s[0]);
        assert(t.skip(1) =~= s.skip(1).push(c));
        match digit_of(s[0], radix) {
            None => {},
            Some(d) => {
                let next = if negative {
                    acc * radix - d
                } else {
                    acc * radix + d
                };
                if next > hi || next < lo {
                } else {
                    lemma_read_digits_push(s.skip(1), c, radix, negative, lo, hi, next);
                }
            },
        }
    }
}

/// The character of a digit reads as that digit.
pub proof fn lemma_digit_char(d: int, radix: int)
    requires
        0 <= d < radix <= 16,
    ensures
        digit_of(digit_char(d), radix) == Some(d),
{
}

/// Reading a single digit.
pub proof fn lemma_read_one(c: char, radix: int, negative: bool, lo: int, hi: int, acc: int)
    ensures
        read_digits(seq![c], radix, negative, lo, hi, acc) == (match digit_of(c, radix) {
            None => Err::<int, NumberError>(NumberError::InvalidDigit),
            Some(d) => {
                let next = if negative {
                    acc * radix - d
                } else {
                    acc * radix + d
                };
                if next > hi {
                    Err(NumberError::PosOverflow)
                } else if next < lo {
                    Err(NumberError::NegOverflow)
                } else {
                    Ok(next)
                }
            },
        }),
{
    reveal_with_fuel(read_digits, 2);
    let s = seq![c];
    assert(s[0] == c);
    assert(s.skip(1) =~= Seq::<char>::empty());
    assert(s.skip(1).len() == 0);
}

/// The digits of a number read as the number, upwards from zero.
pub proof fn lemma_read_written(n: nat, hex: bool, lo: int, hi: int)
    requires
        lo <= 0,
        n <= hi,
    ensures
        read_digits(digits_text(n, hex), radix_of(hex), false, lo, hi, 0) == Ok::<
            int,
            NumberError,
        >(n as int),
        digits_text(n, hex).len() >= 1,
    decreases n,
{
    if hex {
        if n < 16 {
            lemma_digit_char(n as int, 16);
            lemma_read_one(digit_char(n as int), 16, false, lo, hi, 0);
        } else {
            lemma_read_written(n / 16, hex, lo, hi);
            lemma_digit_char((n % 16) as int, 16);
            let front = digits_text(n / 16, hex);
            let c = digit_char((n % 16) as int);
            lemma_read_digits_push(front, c, 16, false, lo, hi, 0);
            lemma_read_one(c, 16, false, lo, hi, (n / 16) as int);
        }
    } else {
        if n < 10 {
            lemma_digit_char(n as int, 10);
            lemma_read_one(digit_char(n as int), 10, false, lo, hi, 0);
        } else {
            lemma_read_written(n / 10, hex, lo, hi);
            lemma_digit_char((n % 10) as int, 10);
            let front = digits_text(n / 10, hex);
            let c = digit_char((n % 10) as int);
            lemma_read_digits_push(front, c, 10, false, lo, hi, 0);
            lemma_read_one(c, 10, false, lo, hi, (n / 10) as int);
        }
    }
}

/// The digits of a number read as its negative, downwards from zero.
pub proof fn lemma_read_written_negative(n: nat, lo: int, hi: int)
    requires
        lo <= -n,
        0 <= hi,
    ensures
        read_digits(digits_text(n, false), 10, true, lo, hi, 0) == Ok::<int, NumberError>(
            -(n as int),
        ),
    decreases n,
{
    if n < 10 {
        lemma_digit_char(n as int, 10);
        lemma_read_one(digit_char(n as int), 10, true, lo, hi, 0);
    } else {
        lemma_read_written_negative(n / 10, lo, hi);
        lemma_digit_char((n % 10) as int, 10);
        let front = digits_text(n / 10, false);
        let c = digit_char((n % 10) as int);
        lemma_read_digits_push(front, c, 10, true, lo, hi, 0);
        lemma_read_one(c, 10, true, lo, hi, -((n / 10) as int));
    }
}

/// A digit is written with none of `x`, `+` and `-`.
pub proof fn lemma_digit_char_plain(d: int)
    ensures
        digit_char(d) != 'x' && digit_char(d) != '+' && digit_char(d) != '-',
{
}

/// No digit is written with `x`, `+` or `-`.
pub proof fn lemma_digits_are_plain(n: nat, hex: bool)
    ensures
        digits_text(n, hex).len() >= 1,
        forall|i: int|
            0 <= i < digits_text(n, hex).len() ==> {
                let c = #[trigger] digits_text(n, hex)[i];
                c != 'x' && c != '+' && c != '-'
            },
    decreases n,
{
    let text = digits_text(n, hex);
    let r: nat = if hex {
        16
    } else {
        10
    };
    if n < r {
        lemma_digit_char_plain(n as int);
        assert(text =~= seq![digit_char(n as int)]);
    } else {
        let front = if hex {
            digits_text(n / 16, hex)
        } else {
            digits_text(n / 10, hex)
        };
        let c = if hex {
            digit_char((n % 16) as int)
        } else {
            digit_char((n % 10) as int)
        };
        if hex {
            lemma_digits_are_plain(n / 16, hex);
            lemma_digit_char_plain((n % 16) as int);
        } else {
            lemma_digits_are_plain(n / 10, hex);
            lemma_digit_char_plain((n % 10) as int);
        }
        assert(text == front.push(c));
        assert forall|i: int| 0 <= i < text.len() implies {
            let d = #[trigger] text[i];
            d != 'x' && d != '+' && d != '-'
        } by {
            if i < front.len() {
                assert(text[i] == front[i]);
            } else {
                assert(text[i] == c);
            }
        }
    }
}

/// After a text that ends in `x`, a tail without `x` is what stands after
/// the last `x`.
pub proof fn lemma_after_last_x(head: Seq<char>, tail: Seq<char>)
    requires
        head.len() > 0,
        head.last() == 'x',
        forall|i: int| 0 <= i < tail.len() ==> tail[i] != 'x',
    ensures
        after_last(head + tail, 'x') == tail,
    decreases tail.len(),
{
    let s = head + tail;
    if tail.len() == 0 {
        assert(s =~= head);
        assert(s.skip(s.len() as int) =~= tail);
    } else {
        assert(s.last() == tail.last());
        assert(s.drop_last() =~= head + tail.drop_last());
        lemma_after_last_x(head, tail.drop_last());
        let p = find_last(head + tail.drop_last(), 'x');
        assert(find_last(s, 'x') == p);
        assert((head + tail.drop_last()).skip(p + 1) == tail.drop_last());
        assert((head + tail.drop_last()).skip(p + 1).len() == (head + tail.drop_last()).len() - (p
            + 1)) by {
            crate::text::lemma_find_last(head + tail.drop_last(), 'x');
        }
        assert(s.skip(p + 1) =~= tail);
    }
}

/// Round trip of the integers: what an emitter writes for an integer of a
/// kind, read back under that kind, is the integer.
pub proof fn law_whole_round_trip(kind: ScalarKind, n: int)
    requires
        !kind.is_fraction(),
        kind.lower() <= n <= kind.upper(),
    ensures
        parse_whole(kind, whole_text(kind, n)) == Ok::<int, NumberError>(n),
        decode_scalar(kind, whole_text(kind, n)) == Ok::<ValueModel, RecordParsingError>(
            ValueModel::Whole(kind, n),
        ),
{
    if kind.is_hex() {
        let digits = digits_text(n as nat, true);
        lemma_digits_are_plain(n as nat, true);
        lemma_read_written(n as nat, true, 0, kind.upper());
        lemma_after_last_x(seq!['0', 'x'], digits);
        assert(hex_text(n as nat) == seq!['0', 'x'] + digits);
        assert(digits[0] != '+' && digits[0] != '-');
    } else if n < 0 {
        let digits = digits_text((-n) as nat, false);
        lemma_read_written_negative((-n) as nat, kind.lower(), kind.upper());
        lemma_read_written((-n) as nat, false, 0, -n);
        let s = seq!['-'] + digits;
        assert(decimal_text(n) == s);
        assert(s.skip(1) =~= digits);
        assert(s[0] == '-');
    } else {
        let digits = digits_text(n as nat, false);
        lemma_digits_are_plain(n as nat, false);
        lemma_read_written(n as nat, false, kind.lower(), kind.upper());
        assert(digits[0] != '+' && digits[0] != '-');
        assert(decimal_text(n) == digits);
    }
}

/// Round trip of the truth values: `true` and `false`, read back, are the
/// values that wrote them.
pub proof fn law_truth_round_trip(b: bool)
    ensures
        parse_truth(truth_text(b)) == Ok::<bool, RecordParsingError>(b),
{
    reveal_strlit("true");
    reveal_strlit("false");
    if !b {
        assert("false"@.len() == 5);
        assert("true"@.len() == 4);
    }
}

/// Determinism: two models parsed from the same input are the same model,
/// and every emitter writes them as the same text.
pub proof fn law_determinism(input: Seq<char>, first: Model, second: Model)
    requires
        parse(input) == Some(Ok::<ModelView, crate::grammar::FileErrorModel>(first@)),
        parse(input) == Some(Ok::<ModelView, crate::grammar::FileErrorModel>(second@)),
    ensures
        first@ == second@,
        first.c_source_text() == second.c_source_text(),
        first.c_header_text() == second.c_header_text(),
        first.cs_text() == second.cs_text(),
        first.rust_text() == second.rust_text(),
{
}

/// Order of the table: a record appends exactly one entry, which carries
/// the record's name, and leaves the entries before it as they were.
pub proof fn law_one_reference_per_record(m: ModelView, record: RecordModel)
    ensures
        m.add_record(record).references.len() == m.references.len() + 1,
        m.add_record(record).references.drop_last() == m.references,
        m.add_record(record).references.last().operation_type == record.name,
{
    let defined = m.define_structure(record);
    lemma_add_fields_keeps(defined, record.fields);
    let (filled, parameters) = defined.add_fields(record.fields);
    let operation = OperationModel { operation_type: record.name, parameters };
    let (interned, n) = filled.intern_operation(operation);
    assert(interned.references == m.references);
    assert(m.add_record(record).references.drop_last() =~= m.references);
}

/// Taking fields into a model leaves its structures, its operations and its
/// table as they were.
pub proof fn lemma_add_fields_keeps(m: ModelView, fields: Seq<FieldModel>)
    ensures
        m.add_fields(fields).0.structures == m.structures,
        m.add_fields(fields).0.operations == m.operations,
        m.add_fields(fields).0.references == m.references,
        m.add_fields(fields).0.sequence_name == m.sequence_name,
        m.add_fields(fields).1.len() == fields.len(),
    decreases fields.len(),
{
    if fields.len() > 0 {
        lemma_add_fields_keeps(m, fields.drop_last());
    }
}

/// Records taken one after the other.
pub open spec fn add_records(m: ModelView, records: Seq<RecordModel>) -> ModelView
    decreases records.len(),
{
    if records.len() == 0 {
        m
    } else {
        add_records(m, records.drop_last()).add_record(records.last())
    }
}

/// Order of the table: after a run of records the table holds one entry
/// more for each of them, in their order, each with its record's name.
pub proof fn law_table_follows_records(m: ModelView, records: Seq<RecordModel>)
    ensures
        add_records(m, records).references.len() == m.references.len() + records.len(),
        add_records(m, records).references.take(m.references.len() as int) == m.references,
        forall|k: int|
            0 <= k < records.len() ==> (#[trigger] add_records(m, records).references[m.references.len()
                + k]).operation_type == records[k].name,
    decreases records.len(),
{
    if records.len() == 0 {
        assert(m.references.take(m.references.len() as int) =~= m.references);
    } else {
        let before = add_records(m, records.drop_last());
        law_table_follows_records(m, records.drop_last());
        law_one_reference_per_record(before, records.last());
        let after = add_records(m, records);
        assert(after.references.drop_last() == before.references);
        assert(after.references.take(m.references.len() as int) =~= before.references.take(
            m.references.len() as int,
        ));
        assert forall|k: int| 0 <= k < records.len() implies (#[trigger] after.references[m.references.len()
            + k]).operation_type == records[k].name by {
            if k < records.len() - 1 {
                assert(after.references[m.references.len() + k] == before.references[m.references.len()
                    + k]);
                assert(records.drop_last()[k] == records[k]);
            }
        }
    }
}

/// Shape of a structure: the first record of a name defines the structure;
/// a later record of that name changes no structure, whatever its fields.
pub proof fn law_first_occurrence_shapes(m: ModelView, record: RecordModel)
    ensures
        structure_names(m.structures).contains(record.name) ==> m.add_record(record).structures
            == m.structures,
        !structure_names(m.structures).contains(record.name) ==> m.add_record(record).structures
            == m.structures.push(structure_of(record)),
        structure_names(m.add_record(record).structures).contains(record.name),
{
    let defined = m.define_structure(record);
    lemma_add_fields_keeps(defined, record.fields);
    let names = structure_names(defined.structures);
    if structure_names(m.structures).contains(record.name) {
    } else {
        assert(names[m.structures.len() as int] == record.name);
    }
}

/// In a consistent model no array and no operation is interned twice.
pub open spec fn is_consistent(m: ModelView) -> bool {
    m.arrays.no_duplicates() && m.operations.no_duplicates()
}

/// `later` holds the arrays and the operations of `earlier` under the same
/// numbers.
pub open spec fn extends(later: ModelView, earlier: ModelView) -> bool {
    earlier.arrays.is_prefix_of(later.arrays) && earlier.operations.is_prefix_of(later.operations)
}

/// Interning puts the thing where its number says, keeps what was there,
/// and interns nothing twice.
pub proof fn lemma_intern<T>(s: Seq<T>, x: T)
    requires
        s.no_duplicates(),
    ensures
        match lookup(s, x) {
            Some(n) => 0 <= n < s.len() && s[n] == x,
            None => !s.contains(x) && s.push(x).no_duplicates() && s.is_prefix_of(s.push(x)),
        },
{
    if !s.contains(x) {
        let t = s.push(x);
        assert forall|i: int, j: int| 0 <= i < t.len() && 0 <= j < t.len() && i != j implies t[i]
            != t[j] by {
            if i < s.len() && j < s.len() {
            } else if i < s.len() {
                assert(s.contains(s[i]));
            } else {
                assert(s.contains(s[j]));
            }
        }
        assert(s =~= t.subrange(0, s.len() as int));
    }
}

/// Where a thing stands in a list without repetition, there it is found.
pub proof fn lemma_found<T>(s: Seq<T>, x: T, n: int)
    requires
        s.no_duplicates(),
        0 <= n < s.len(),
        s[n] == x,
    ensures
        lookup(s, x) == Some(n),
{
    assert(s.contains(x));
}

/// A field leaves a consistent model consistent, and what it holds in place.
pub proof fn lemma_add_field_grows(m: ModelView, field: FieldModel)
    requires
        is_consistent(m),
    ensures
        is_consistent(m.add_field(field).0),
        extends(m.add_field(field).0, m),
        m.add_field(field).0.operations == m.operations,
{
    lemma_intern(m.arrays, field.value);
    assert(m.arrays =~= m.arrays.subrange(0, m.arrays.len() as int));
    assert(m.operations =~= m.operations.subrange(0, m.operations.len() as int));
}

/// Fields leave a consistent model consistent, and what it holds in place.
pub proof fn lemma_add_fields_grows(m: ModelView, fields: Seq<FieldModel>)
    requires
        is_consistent(m),
    ensures
        is_consistent(m.add_fields(fields).0),
        extends(m.add_fields(fields).0, m),
        m.add_fields(fields).0.operations == m.operations,
    decreases fields.len(),
{
    if fields.len() == 0 {
        assert(m.arrays =~= m.arrays.subrange(0, m.arrays.len() as int));
        assert(m.operations =~= m.operations.subrange(0, m.operations.len() as int));
    } else {
        lemma_add_fields_grows(m, fields.drop_last());
        let middle = m.add_fields(fields.drop_last()).0;
        lemma_add_field_grows(middle, fields.last());
        let last = middle.add_field(fields.last()).0;
        assert(m.arrays =~= last.arrays.subrange(0, m.arrays.len() as int));
    }
}

/// The arrays after some of the fields stay in place after more of them.
pub proof fn lemma_add_fields_stepwise(m: ModelView, fields: Seq<FieldModel>, i: int)
    requires
        is_consistent(m),
        0 <= i <= fields.len(),
    ensures
        m.add_fields(fields.take(i)).0.arrays.is_prefix_of(m.add_fields(fields).0.arrays),
    decreases fields.len() - i,
{
    if i == fields.len() {
        assert(fields.take(i) =~= fields);
        let a = m.add_fields(fields).0.arrays;
        assert(a =~= a.subrange(0, a.len() as int));
    } else {
        lemma_add_fields_stepwise(m, fields, i + 1);
        let next = fields.take(i + 1);
        assert(next.drop_last() =~= fields.take(i));
        lemma_add_fields_grows(m, fields.take(i));
        let middle = m.add_fields(fields.take(i)).0;
        lemma_add_field_grows(middle, next.last());
        let a = middle.arrays;
        let b = m.add_fields(next).0.arrays;
        let c = m.add_fields(fields).0.arrays;
        assert(a =~= c.subrange(0, a.len() as int));
    }
}

/// Fields that a model took before are taken again without a change to its
/// arrays, and give the same parameters: each array is found under the
/// number that it got the first time.
#[verifier::rlimit(40)]
pub proof fn lemma_replay_fields(
    first: ModelView,
    later: ModelView,
    fields: Seq<FieldModel>,
    i: int,
)
    requires
        is_consistent(first),
        is_consistent(later),
        0 <= i <= fields.len(),
        first.add_fields(fields).0.arrays.is_prefix_of(later.arrays),
    ensures
        later.add_fields(fields.take(i)).1 == first.add_fields(fields.take(i)).1,
        later.add_fields(fields.take(i)).0.arrays == later.arrays,
        later.add_fields(fields.take(i)).0.operations == later.operations,
    decreases i,
{
    if i > 0 {
        let part = fields.take(i);
        assert(part.drop_last() =~= fields.take(i - 1));
        lemma_replay_fields(first, later, fields, i - 1);
        let field = part.last();
        let a = first.add_fields(fields.take(i - 1)).0;
        let b = later.add_fields(fields.take(i - 1)).0;
        lemma_add_fields_grows(first, fields.take(i - 1));
        lemma_add_fields_stepwise(first, fields, i);
        let grown = first.add_fields(part).0;
        let all = first.add_fields(fields).0;
        assert(grown == a.add_field(field).0);
        match field.value {
            ValueModel::Wholes(_, _) => {
                lemma_intern(a.arrays, field.value);
                let n = a.intern_array(field.value).1;
                assert(grown.arrays[n] == field.value);
                assert(all.arrays.subrange(0, grown.arrays.len() as int)[n] == all.arrays[n]);
                assert(later.arrays.subrange(0, all.arrays.len() as int)[n] == later.arrays[n]);
                lemma_found(b.arrays, field.value, n);
            },
            ValueModel::Fractions(_, _) => {
                lemma_intern(a.arrays, field.value);
                let n = a.intern_array(field.value).1;
                assert(grown.arrays[n] == field.value);
                assert(all.arrays.subrange(0, grown.arrays.len() as int)[n] == all.arrays[n]);
                assert(later.arrays.subrange(0, all.arrays.len() as int)[n] == later.arrays[n]);
                lemma_found(b.arrays, field.value, n);
            },
            _ => {},
        }
    } else {
        assert(fields.take(0) =~= Seq::<FieldModel>::empty());
    }
}

/// A record leaves a consistent model consistent, and what it holds in
/// place.
pub proof fn lemma_add_record_grows(m: ModelView, record: RecordModel)
    requires
        is_consistent(m),
    ensures
        is_consistent(m.add_record(record)),
        extends(m.add_record(record), m),
{
    let defined = m.define_structure(record);
    lemma_add_fields_grows(defined, record.fields);
    let (filled, parameters) = defined.add_fields(record.fields);
    let operation = OperationModel { operation_type: record.name, parameters };
    lemma_intern(filled.operations, operation);
    let result = m.add_record(record);
    assert(m.operations =~= result.operations.subrange(0, m.operations.len() as int));
    assert(m.arrays =~= result.arrays.subrange(0, m.arrays.len() as int));
}

/// Sharing of instances: a record that a model took before is given the
/// same operation instance when it is taken again, however much the model
/// has grown in between.
#[verifier::rlimit(40)]
pub proof fn law_equal_records_share_instance(
    first: ModelView,
    later: ModelView,
    record: RecordModel,
)
    requires
        is_consistent(first),
        is_consistent(later),
        extends(later, first.add_record(record)),
    ensures
        later.add_record(record).references.last() == first.add_record(record).references.last(),
        later.add_record(record).operations == later.operations,
        later.add_record(record).arrays == later.arrays,
{
    let d1 = first.define_structure(record);
    let d2 = later.define_structure(record);
    let (f1, p1) = d1.add_fields(record.fields);
    let (f2, p2) = d2.add_fields(record.fields);
    lemma_add_fields_grows(d1, record.fields);
    let operation = OperationModel { operation_type: record.name, parameters: p1 };
    lemma_intern(f1.operations, operation);
    let after = first.add_record(record);
    assert(after.arrays == f1.arrays);
    assert(record.fields.take(record.fields.len() as int) =~= record.fields);
    lemma_replay_fields(d1, d2, record.fields, record.fields.len() as int);
    assert(p2 == p1);
    let n = f1.intern_operation(operation).1;
    assert(after.operations[n] == operation);
    assert(later.operations.subrange(0, after.operations.len() as int)[n] == later.operations[n]);
    lemma_found(f2.operations, operation, n);
}

/// A run of records leaves a consistent model consistent, and what it
/// holds in place.
pub proof fn lemma_add_records_grows(m: ModelView, records: Seq<RecordModel>)
    requires
        is_consistent(m),
    ensures
        is_consistent(add_records(m, records)),
        extends(add_records(m, records), m),
    decreases records.len(),
{
    if records.len() == 0 {
        assert(m.arrays =~= m.arrays.subrange(0, m.arrays.len() as int));
        assert(m.operations =~= m.operations.subrange(0, m.operations.len() as int));
    } else {
        lemma_add_records_grows(m, records.drop_last());
        let middle = add_records(m, records.drop_last());
        lemma_add_record_grows(middle, records.last());
        let last = add_records(m, records);
        assert(m.arrays =~= last.arrays.subrange(0, m.arrays.len() as int));
        assert(m.operations =~= last.operations.subrange(0, m.operations.len() as int));
    }
}

/// The first records of a run, and the rest of it.
pub proof fn lemma_add_records_split(m: ModelView, records: Seq<RecordModel>, k: int)
    requires
        0 <= k <= records.len(),
    ensures
        add_records(m, records) == add_records(add_records(m, records.take(k)), records.skip(k)),
    decreases records.len() - k,
{
    if k == records.len() {
        assert(records.take(k) =~= records);
        assert(records.skip(k) =~= Seq::<RecordModel>::empty());
    } else {
        let rest = records.skip(k);
        assert(rest.drop_last() =~= records.drop_last().skip(k));
        assert(rest.last() == records.last());
        assert(records.drop_last().take(k) =~= records.take(k));
        lemma_add_records_split(m, records.drop_last(), k);
    }
}

/// Sharing of instances over a run: in the table of a model that took a
/// run of records from empty, two equal records point to the same
/// operation instance.
#[verifier::rlimit(40)]
pub proof fn law_dedup(records: Seq<RecordModel>, i: int, j: int)
    requires
        0 <= i <= j < records.len(),
        records[i] == records[j],
    ensures
        add_records(ModelView::empty(), records).references.len() == records.len(),
        add_records(ModelView::empty(), records).references[i] == add_records(
            ModelView::empty(),
            records,
        ).references[j],
{
    let empty = ModelView::empty();
    let table = add_records(empty, records).references;
    law_table_follows_records(empty, records);
    if i < j {
        // The model before the record at `i`, after it, and before the one at `j`.
        let before_i = add_records(empty, records.take(i));
        let after_i = add_records(empty, records.take(i + 1));
        let before_j = add_records(empty, records.take(j));
        let after_j = add_records(empty, records.take(j + 1));
        assert(records.take(i + 1).drop_last() =~= records.take(i));
        assert(records.take(j + 1).drop_last() =~= records.take(j));
        assert(after_i == before_i.add_record(records[i]));
        assert(after_j == before_j.add_record(records[j]));
        lemma_add_records_grows(empty, records.take(i));
        lemma_add_records_grows(empty, records.take(j));
        // From after `i` to before `j`.
        let between = records.take(j).skip(i + 1);
        assert(records.take(j).take(i + 1) =~= records.take(i + 1));
        lemma_add_records_split(empty, records.take(j), i + 1);
        lemma_add_record_grows(before_i, records[i]);
        lemma_add_records_grows(after_i, between);
        law_equal_records_share_instance(before_i, before_j, records[i]);
        // Both entries stay in place up to the end of the run.
        law_table_follows_records(empty, records.take(i + 1));
        law_table_follows_records(empty, records.take(j + 1));
        lemma_add_records_split(empty, records, i + 1);
        lemma_add_records_split(empty, records, j + 1);
        law_table_follows_records(after_i, records.skip(i + 1));
        law_table_follows_records(after_j, records.skip(j + 1));
        assert(table.take(after_i.references.len() as int)[i] == table[i]);
        assert(table.take(after_j.references.len() as int)[j] == table[j]);
        assert(after_i.references.last() == after_i.references[i]);
        assert(after_j.references.last() == after_j.references[j]);
    }
}

/// The buffer that a line completes: the text of a whole record, where the
/// line closes one.
pub open spec fn completed_buffer(state: ParserModel, line: Seq<char>) -> Option<Seq<char>> {
    let content = delimited_content(line);
    match state.capture {
        RecordCapturingState::OneShot => match classify(line) {
            Ok(symbol) => if symbol == '=' {
                Some(content)
            } else {
                None
            },
            Err(_) => None,
        },
        RecordCapturingState::Multiline => match classify(line) {
            Ok(symbol) => if symbol == '=' {
                Some(join(state.buffer, content))
            } else {
                None
            },
            Err(LineErrorModel::MissingBeginDelimiter(symbol)) => if symbol == '=' {
                Some(join(state.buffer, content))
            } else {
                None
            },
            Err(_) => None,
        },
        RecordCapturingState::Ranged => match classify(line) {
            Ok(symbol) => if symbol == ']' && state.name_mismatch(content) is None {
                Some(state.buffer)
            } else {
                None
            },
            Err(LineErrorModel::MissingBeginDelimiter(symbol)) => if symbol == ']'
                && state.name_mismatch(content) is None {
                Some(state.buffer)
            } else {
                None
            },
            Err(_) => None,
        },
    }
}

/// The record that a line of the input completes, if it completes one.
pub open spec fn completed_record(state: ParserModel, raw: Seq<char>) -> Option<RecordModel> {
    let line = strip_timestamp(raw);
    if line.len() == 0 {
        None
    } else {
        match completed_buffer(state, line) {
            None => None,
            Some(buffer) => match decode_record(buffer) {
                Some(Ok(record)) => Some(record),
                _ => None,
            },
        }
    }
}

/// The records that the lines from index `at` on complete, up to the end
/// of the sequence.
pub open spec fn completed_records(state: ParserModel, lines: Seq<Seq<char>>, at: int) -> Seq<
    RecordModel,
>
    decreases lines.len() - at,
{
    if at < 0 || at >= lines.len() {
        Seq::empty()
    } else {
        match state.feed((at + 1) as usize, lines[at]) {
            Some(Ok((next, ended))) => {
                let here = match completed_record(state, lines[at]) {
                    Some(record) => seq![record],
                    None => Seq::empty(),
                };
                if ended {
                    here
                } else {
                    here + completed_records(next, lines, at + 1)
                }
            },
            _ => Seq::empty(),
        }
    }
}

/// The records of an input: those that its lines complete between the
/// opening and the closing marker of the sequence, in their order.
pub open spec fn records_of(input: Seq<char>) -> Seq<RecordModel> {
    match seek_begin(lines(input), 0) {
        Err(_) => Seq::empty(),
        Ok((at, name)) => completed_records(ParserModel::start(name), lines(input), at + 1),
    }
}

/// A line changes the model by the record that it completes, and by
/// nothing else; it never changes the name of the sequence.
#[verifier::rlimit(40)]
pub proof fn lemma_feed_effect(state: ParserModel, number: usize, raw: Seq<char>)
    requires
        state.feed(number, raw) matches Some(Ok(_)),
    ensures
        state.feed(number, raw)->Some_0->Ok_0.0.sequence_name == state.sequence_name,
        state.feed(number, raw)->Some_0->Ok_0.0.model == (match completed_record(state, raw) {
            Some(record) => state.model.add_record(record),
            None => state.model,
        }),
{
}

/// Taking a record and then a run is taking the run with the record in
/// front.
pub proof fn lemma_add_records_prepend(m: ModelView, record: RecordModel, rest: Seq<RecordModel>)
    ensures
        add_records(m, seq![record] + rest) == add_records(m.add_record(record), rest),
    decreases rest.len(),
{
    let all = seq![record] + rest;
    if rest.len() == 0 {
        assert(all =~= seq![record]);
        assert(all.drop_last() =~= Seq::<RecordModel>::empty());
        assert(add_records(m, all.drop_last()) == m);
        assert(all.last() == record);
        assert(add_records(m.add_record(record), rest) == m.add_record(record));
    } else {
        assert(all.drop_last() =~= seq![record] + rest.drop_last());
        assert(all.last() == rest.last());
        lemma_add_records_prepend(m, record, rest.drop_last());
    }
}

/// A run that ends well gives the model that takes the completed records
/// in their order, under the name of the sequence.
#[verifier::rlimit(40)]
pub proof fn lemma_run_takes_records(state: ParserModel, lines: Seq<Seq<char>>, at: int)
    requires
        state.run(lines, at) matches Some(Ok(_)),
    ensures
        state.run(lines, at) == Some(
            Ok::<ModelView, FileErrorModel>(
                ModelView {
                    sequence_name: Some(state.sequence_name),
                    ..add_records(state.model, completed_records(state, lines, at))
                },
            ),
        ),
    decreases lines.len() - at,
{
    if 0 <= at < lines.len() {
        let number = (at + 1) as usize;
        lemma_feed_effect(state, number, lines[at]);
        let (next, ended) = state.feed(number, lines[at])->Some_0->Ok_0;
        let rest = if ended {
            Seq::<RecordModel>::empty()
        } else {
            completed_records(next, lines, at + 1)
        };
        if !ended {
            lemma_run_takes_records(next, lines, at + 1);
        }
        match completed_record(state, lines[at]) {
            Some(record) => {
                lemma_add_records_prepend(state.model, record, rest);
                assert(completed_records(state, lines, at) == seq![record] + rest);
                if ended {
                    assert(seq![record] + rest =~= seq![record]);
                }
            },
            None => {
                assert(Seq::<RecordModel>::empty() + rest =~= rest);
            },
        }
    }
}

/// The model of an input: where parsing succeeds, the model is the empty
/// model after it has taken the records of the input in their order, under
/// the name of the sequence.
#[verifier::rlimit(40)]
pub proof fn law_model_of_input(input: Seq<char>, m: ModelView)
    requires
        parse(input) == Some(Ok::<ModelView, FileErrorModel>(m)),
    ensures
        m.sequence_name is Some,
        m == (ModelView {
            sequence_name: m.sequence_name,
            ..add_records(ModelView::empty(), records_of(input))
        }),
{
    let begin = seek_begin(lines(input), 0);
    let (at, name) = begin->Ok_0;
    let start = ParserModel::start(name);
    lemma_run_takes_records(start, lines(input), at + 1);
    assert(start.model == ModelView::empty());
    assert(completed_records(start, lines(input), at + 1) == records_of(input));
}

/// Order of the table in the model of an input: the table has one entry
/// for each record of the input, in their order, each with its record's
/// name.
#[verifier::rlimit(40)]
pub proof fn law_table_of_input(input: Seq<char>, m: ModelView)
    requires
        parse(input) == Some(Ok::<ModelView, FileErrorModel>(m)),
    ensures
        m.references.len() == records_of(input).len(),
        forall|k: int|
            0 <= k < records_of(input).len() ==> (#[trigger] m.references[k]).operation_type
                == records_of(input)[k].name,
{
    law_model_of_input(input, m);
    let records = records_of(input);
    let folded = add_records(ModelView::empty(), records);
    law_table_follows_records(ModelView::empty(), records);
    assert(m.references == folded.references);
    assert forall|k: int| 0 <= k < records.len() implies (#[trigger] m.references[k]).operation_type
        == records[k].name by {
        assert(folded.references[0 + k].operation_type == records[k].name);
    }
}

/// Sharing of instances in the model of an input: two equal records of
/// the input point to the same operation instance.
pub proof fn law_equal_records_of_input_share_instance(
    input: Seq<char>,
    m: ModelView,
    i: int,
    j: int,
)
    requires
        parse(input) == Some(Ok::<ModelView, FileErrorModel>(m)),
        0 <= i <= j < records_of(input).len(),
        records_of(input)[i] == records_of(input)[j],
    ensures
        m.references.len() == records_of(input).len(),
        m.references[i] == m.references[j],
{
    law_model_of_input(input, m);
    law_dedup(records_of(input), i, j);
}

/// Digits written as characters are digits, none of them a sign, a point
/// or an exponent mark, and they read back as the digits.
pub proof fn lemma_digit_chars(digits: Seq<u8>)
    requires
        forall|i: int| 0 <= i < digits.len() ==> digits[i] <= 9,
    ensures
        digit_chars(digits).len() == digits.len(),
        all_digits(digit_chars(digits)),
        digit_values(digit_chars(digits)) == digits,
        forall|i: int|
            0 <= i < digits.len() ==> ((#[trigger] digit_chars(digits)[i]) == '0' <==> digits[i]
                == 0),
{
    let text = digit_chars(digits);
    assert forall|i: int| 0 <= i < text.len() implies is_digit(#[trigger] text[i]) by {
        assert(text[i] == digit_char(digits[i] as int));
    }
    assert forall|i: int| 0 <= i < digits.len() implies digit_values(text)[i] == digits[i] by {
        assert(text[i] == digit_char(digits[i] as int));
    }
    assert(digit_values(text) =~= digits);
    assert forall|i: int| 0 <= i < digits.len() implies ((#[trigger] text[i]) == '0' <==> digits[i]
        == 0) by {
        assert(text[i] == digit_char(digits[i] as int));
    }
}

/// In a text of digits and points nothing marks an exponent.
pub proof fn lemma_no_exponent_mark(s: Seq<char>)
    requires
        forall|i: int| 0 <= i < s.len() ==> is_digit(#[trigger] s[i]) || s[i] == '.',
    ensures
        find_either(s, 'e', 'E', 0) == s.len(),
{
    lemma_find_either(s, 'e', 'E', 0);
    let r = find_either(s, 'e', 'E', 0);
    if r < s.len() {
        assert(is_digit(s[r]) || s[r] == '.');
    }
}

/// In a text of digits there is no point.
pub proof fn lemma_no_point(s: Seq<char>)
    requires
        all_digits(s),
    ensures
        find(s, '.', 0) == s.len(),
{
    lemma_find_either(s, '.', '.', 0);
    let r = find(s, '.', 0);
    if r < s.len() {
        assert(is_digit(s[r]));
    }
}

/// The point after digits is the first point.
pub proof fn lemma_point_at(s: Seq<char>, k: int)
    requires
        0 <= k < s.len(),
        s[k] == '.',
        forall|i: int| 0 <= i < k ==> is_digit(#[trigger] s[i]),
    ensures
        find(s, '.', 0) == k,
{
    lemma_find_either(s, '.', '.', 0);
    let r = find(s, '.', 0);
    if r < k {
        assert(is_digit(s[r]));
    }
}

/// Zeros in front, counted.
pub proof fn lemma_leading_zeros_is(s: Seq<char>, k: int)
    requires
        0 <= k <= s.len(),
        forall|i: int| 0 <= i < k ==> s[i] == '0',
        k < s.len() ==> s[k] != '0',
    ensures
        leading_zeros(s) == k,
{
    lemma_leading_zeros(s);
}

/// Zeros at the end, counted.
pub proof fn lemma_trailing_zeros_is(s: Seq<char>, k: int)
    requires
        0 <= k <= s.len(),
        forall|i: int| s.len() - k <= i < s.len() ==> s[i] == '0',
        k < s.len() ==> s[s.len() - k - 1] != '0',
    ensures
        trailing_zeros(s) == k,
{
    lemma_trailing_zeros(s);
}

/// A text of digits that neither begins nor ends with zero is the normal
/// form of itself.
#[verifier::rlimit(40)]
pub proof fn lemma_normal_form_of_digits(
    written: Seq<char>,
    lead: int,
    trail: int,
    d: DecimalModel,
    scale: int,
)
    requires
        d.is_normal(),
        d.digits.len() > 0,
        0 <= lead,
        0 <= trail,
        written.len() == lead + d.digits.len() + trail,
        forall|i: int| 0 <= i < lead ==> written[i] == '0',
        forall|i: int| written.len() - trail <= i < written.len() ==> written[i] == '0',
        written.subrange(lead, written.len() - trail) == digit_chars(d.digits),
        scale + trail == d.exponent,
    ensures
        normal_form(written, d.negative, scale) == Ok::<DecimalModel, DecimalError>(d),
{
    let text = digit_chars(d.digits);
    let n = d.digits.len() as int;
    lemma_digit_chars(d.digits);
    assert forall|i: int| 0 <= i < written.len() implies is_digit(#[trigger] written[i]) by {
        if lead <= i < lead + n {
            assert(text[i - lead] == written[i]);
            assert(is_digit(text[i - lead]));
        }
    }
    assert(text[0] == written[lead]);
    assert(text[n - 1] == written[lead + n - 1]);
    assert(d.digits.last() == d.digits[n - 1]);
    lemma_leading_zeros_is(written, lead);
    lemma_trailing_zeros_is(written, trail);
    let got = normal_form(written, d.negative, scale)->Ok_0;
    assert(got.digits == d.digits);
}

/// A literal without an exponent is the normal form of its digits before
/// and after the point.
pub proof fn lemma_parse_plain(s: Seq<char>, body: Seq<char>, whole: Seq<char>, fraction: Seq<char>)
    requires
        s.len() > 0,
        body == (if s[0] == '+' || s[0] == '-' {
            s.skip(1)
        } else {
            s
        }),
        find_either(body, 'e', 'E', 0) == body.len(),
        whole == body.take(find(body, '.', 0)),
        fraction == (if find(body, '.', 0) < body.len() {
            body.skip(find(body, '.', 0) + 1)
        } else {
            Seq::empty()
        }),
    ensures
        parse_decimal(s) == normal_form(whole + fraction, s[0] == '-', 0 - fraction.len()),
{
    assert(body.take(body.len() as int) =~= body);
}

#[verifier::rlimit(40)]
proof fn lemma_round_trip_zero(d: DecimalModel)
    requires
        d.is_normal(),
        d.digits.len() == 0,
    ensures
        parse_decimal(decimal_literal(d)) == Ok::<DecimalModel, DecimalError>(d),
{
    let s = decimal_literal(d);
    assert(s == seq!['0']);
    assert(is_digit(s[0]));
    lemma_no_exponent_mark(s);
    lemma_no_point(s);
    assert(s.take(1) =~= s);
    lemma_parse_plain(s, s, s, Seq::empty());
    assert(s + Seq::<char>::empty() =~= s);
    lemma_leading_zeros_is(s, 1);
    assert(d.digits =~= Seq::<u8>::empty());
    assert(d == DecimalModel::zero());
}

#[verifier::rlimit(40)]
proof fn lemma_round_trip_whole(d: DecimalModel)
    requires
        d.is_normal(),
        d.digits.len() > 0,
        d.exponent >= 0,
    ensures
        parse_decimal(decimal_literal(d)) == Ok::<DecimalModel, DecimalError>(d),
{
    let text = digit_chars(d.digits);
    let n = d.digits.len() as int;
    let s = decimal_literal(d);
    lemma_digit_chars(d.digits);
    let sign: Seq<char> = if d.negative {
        seq!['-']
    } else {
        Seq::empty()
    };
    assert(is_digit(text[0]));
    let body = text + zeros(d.exponent as nat);
    assert(s =~= sign + body);
    lemma_fraction_body(d, s, body);
    assert forall|i: int| 0 <= i < body.len() implies is_digit(#[trigger] body[i]) by {
        if i < n {
            assert(is_digit(text[i]));
        }
    }
    lemma_no_exponent_mark(body);
    lemma_no_point(body);
    assert(body.take(body.len() as int) =~= body);
    lemma_parse_plain(s, body, body, Seq::empty());
    assert(body + Seq::<char>::empty() =~= body);
    assert(body.subrange(0, n) =~= text);
    lemma_normal_form_of_digits(body, 0, d.exponent, d, 0);
}

#[verifier::rlimit(40)]
proof fn lemma_point_inside(text: Seq<char>, k: int)
    requires
        all_digits(text),
        0 < k < text.len(),
    ensures
        ({
            let body = text.take(k) + seq!['.'] + text.skip(k);
            &&& body.len() == text.len() + 1
            &&& body[0] == text[0]
            &&& find_either(body, 'e', 'E', 0) == body.len()
            &&& find(body, '.', 0) == k
            &&& body.take(k) == text.take(k)
            &&& body.skip(k + 1) == text.skip(k)
        }),
{
    let body = text.take(k) + seq!['.'] + text.skip(k);
    assert forall|i: int| 0 <= i < body.len() implies is_digit(#[trigger] body[i]) || body[i]
        == '.' by {
        if i < k {
            assert(body[i] == text[i]);
            assert(is_digit(text[i]));
        } else if i > k {
            assert(body[i] == text[i - 1]);
            assert(is_digit(text[i - 1]));
        }
    }
    lemma_no_exponent_mark(body);
    assert forall|i: int| 0 <= i < k implies is_digit(#[trigger] body[i]) by {
        assert(body[i] == text[i]);
        assert(is_digit(text[i]));
    }
    assert(body[k] == '.');
    lemma_point_at(body, k);
    assert(body.take(k) =~= text.take(k));
    assert(body.skip(k + 1) =~= text.skip(k));
}

#[verifier::rlimit(40)]
proof fn lemma_round_trip_mixed(d: DecimalModel)
    requires
        d.is_normal(),
        d.digits.len() > 0,
        d.exponent < 0,
        -d.exponent < d.digits.len(),
    ensures
        parse_decimal(decimal_literal(d)) == Ok::<DecimalModel, DecimalError>(d),
{
    let text = digit_chars(d.digits);
    let n = d.digits.len() as int;
    let s = decimal_literal(d);
    lemma_digit_chars(d.digits);
    let sign: Seq<char> = if d.negative {
        seq!['-']
    } else {
        Seq::empty()
    };
    let k = n + d.exponent;
    let body = text.take(k) + seq!['.'] + text.skip(k);
    lemma_point_inside(text, k);
    assert(is_digit(text[0]));
    assert(s =~= sign + body);
    lemma_fraction_body(d, s, body);
    lemma_parse_plain(s, body, text.take(k), text.skip(k));
    assert(text.take(k) + text.skip(k) =~= text);
    assert(text.subrange(0, n) =~= text);
    lemma_normal_form_of_digits(text, 0, 0, d, d.exponent);
}

#[verifier::rlimit(40)]
proof fn lemma_point_in_front(text: Seq<char>, gap: nat)
    requires
        all_digits(text),
    ensures
        ({
            let body = seq!['0', '.'] + zeros(gap) + text;
            &&& body.len() == 2 + gap + text.len()
            &&& body[0] == '0'
            &&& find_either(body, 'e', 'E', 0) == body.len()
            &&& find(body, '.', 0) == 1
            &&& body.take(1) == seq!['0']
            &&& body.skip(2) == zeros(gap) + text
        }),
{
    let body = seq!['0', '.'] + zeros(gap) + text;
    assert forall|i: int| 0 <= i < body.len() implies is_digit(#[trigger] body[i]) || body[i]
        == '.' by {
        if i >= 2 + gap {
            assert(body[i] == text[i - 2 - gap]);
            assert(is_digit(text[i - 2 - gap]));
        } else if i >= 2 {
            assert(body[i] == '0');
        }
    }
    lemma_no_exponent_mark(body);
    assert(is_digit(body[0]));
    assert(body[1] == '.');
    lemma_point_at(body, 1);
    assert(body.take(1) =~= seq!['0']);
    assert(body.skip(2) =~= zeros(gap) + text);
}

proof fn lemma_zeros_then_digits(text: Seq<char>, gap: nat)
    ensures
        ({
            let written = seq!['0'] + (zeros(gap) + text);
            &&& written.len() == 1 + gap + text.len()
            &&& forall|i: int| 0 <= i < 1 + gap ==> written[i] == '0'
            &&& written.subrange(1 + gap as int, written.len() as int) == text
        }),
{
    let written = seq!['0'] + (zeros(gap) + text);
    assert(written.subrange(1 + gap as int, written.len() as int) =~= text);
}

#[verifier::rlimit(40)]
proof fn lemma_round_trip_small(d: DecimalModel)
    requires
        d.is_normal(),
        d.digits.len() > 0,
        d.exponent < 0,
        -d.exponent >= d.digits.len(),
    ensures
        parse_decimal(decimal_literal(d)) == Ok::<DecimalModel, DecimalError>(d),
{
    let text = digit_chars(d.digits);
    let n = d.digits.len() as int;
    let s = decimal_literal(d);
    lemma_digit_chars(d.digits);
    let sign: Seq<char> = if d.negative {
        seq!['-']
    } else {
        Seq::empty()
    };
    let gap = (-d.exponent - n) as nat;
    let body = seq!['0', '.'] + zeros(gap) + text;
    lemma_point_in_front(text, gap);
    assert(s =~= sign + body);
    assert(is_digit(body[0]));
    lemma_fraction_body(d, s, body);
    let fraction = zeros(gap) + text;
    lemma_parse_plain(s, body, seq!['0'], fraction);
    let written = seq!['0'] + fraction;
    lemma_zeros_then_digits(text, gap);
    lemma_normal_form_of_digits(written, 1 + gap as int, 0, d, d.exponent);
}

/// Round trip of the decimals: a normal decimal, written out in full and
/// read back, is the decimal.
pub proof fn law_fraction_round_trip(d: DecimalModel)
    requires
        d.is_normal(),
    ensures
        parse_decimal(decimal_literal(d)) == Ok::<DecimalModel, DecimalError>(d),
{
    if d.digits.len() == 0 {
        lemma_round_trip_zero(d);
    } else if d.exponent >= 0 {
        lemma_round_trip_whole(d);
    } else if -d.exponent < d.digits.len() {
        lemma_round_trip_mixed(d);
    } else {
        lemma_round_trip_small(d);
    }
}

/// The body of a literal written in full: what stands after the sign that
/// a negative decimal carries.
pub proof fn lemma_fraction_body(d: DecimalModel, s: Seq<char>, body: Seq<char>)
    requires
        body.len() > 0,
        is_digit(body[0]),
        s == (if d.negative {
            seq!['-']
        } else {
            Seq::empty()
        }) + body,
    ensures
        s.len() > 0,
        (s[0] == '-') == d.negative,
        body == (if s[0] == '+' || s[0] == '-' {
            s.skip(1)
        } else {
            s
        }),
{
    if d.negative {
        assert(s[0] == '-');
        assert(s.skip(1) =~= body);
    } else {
        assert(s =~= body);
    }
}

/// Round trip of the scalars of the fraction kinds.
pub proof fn law_fraction_scalar_round_trip(kind: ScalarKind, d: DecimalModel)
    requires
        kind.is_fraction(),
        d.is_normal(),
    ensures
        decode_scalar(kind, decimal_literal(d)) == Ok::<ValueModel, RecordParsingError>(
            ValueModel::Fraction(kind, d),
        ),
{
    law_fraction_round_trip(d);
}

/// The items that write the integers of an array, each as an emitter
/// writes it.
pub open spec fn whole_items(kind: ScalarKind, v: Seq<int>) -> Seq<Seq<char>> {
    Seq::new(v.len(), |i: int| whole_text(kind, v[i]))
}

/// The items that write the decimals of an array, each in full.
pub open spec fn fraction_items(v: Seq<DecimalModel>) -> Seq<Seq<char>> {
    Seq::new(v.len(), |i: int| decimal_literal(v[i]))
}

/// Round trip of the arrays of integers: items that write each element as
/// an emitter does are decoded to the array.
pub proof fn law_wholes_round_trip(kind: ScalarKind, v: Seq<int>)
    requires
        !kind.is_fraction(),
        forall|i: int| 0 <= i < v.len() ==> kind.lower() <= #[trigger] v[i] <= kind.upper(),
    ensures
        parse_wholes(kind, whole_items(kind, v)) == Ok::<Seq<int>, RecordParsingError>(v),
        decode_array(kind, whole_items(kind, v)) == Ok::<ValueModel, RecordParsingError>(
            ValueModel::Wholes(kind, v),
        ),
    decreases v.len(),
{
    let items = whole_items(kind, v);
    if v.len() == 0 {
        assert(v =~= Seq::<int>::empty());
    } else {
        law_wholes_round_trip(kind, v.drop_last());
        assert(items.drop_last() =~= whole_items(kind, v.drop_last()));
        assert(items.last() == whole_text(kind, v.last()));
        law_whole_round_trip(kind, v.last());
        assert(v.drop_last().push(v.last()) =~= v);
    }
}

/// Round trip of the arrays of decimals: items that write each element in
/// full are decoded to the array.
pub proof fn law_fractions_round_trip(kind: ScalarKind, v: Seq<DecimalModel>)
    requires
        kind.is_fraction(),
        forall|i: int| 0 <= i < v.len() ==> (#[trigger] v[i]).is_normal(),
    ensures
        parse_fractions(kind, fraction_items(v)) == Ok::<Seq<DecimalModel>, RecordParsingError>(
            v,
        ),
        decode_array(kind, fraction_items(v)) == Ok::<ValueModel, RecordParsingError>(
            ValueModel::Fractions(kind, v),
        ),
    decreases v.len(),
{
    let items = fraction_items(v);
    if v.len() == 0 {
        assert(v =~= Seq::<DecimalModel>::empty());
    } else {
        law_fractions_round_trip(kind, v.drop_last());
        assert(items.drop_last() =~= fraction_items(v.drop_last()));
        assert(items.last() == decimal_literal(v.last()));
        law_fraction_round_trip(v.last());
        assert(v.drop_last().push(v.last()) =~= v);
    }
}

/// Where the first pair of colons stands.
pub proof fn lemma_colon_pair(s: Seq<char>, from: int)
    requires
        0 <= from <= s.len(),
    ensures
        from <= find_pair(s, ':', ':', from) <= s.len(),
        forall|j: int|
            from <= j < find_pair(s, ':', ':', from) && j + 1 < s.len() ==> !(#[trigger] s[j]
                == ':' && s[j + 1] == ':'),
        find_pair(s, ':', ':', from) < s.len() ==> find_pair(s, ':', ':', from) + 1 < s.len()
            && s[find_pair(s, ':', ':', from)] == ':' && s[find_pair(s, ':', ':', from) + 1]
            == ':',
    decreases s.len() - from,
{
    if from + 1 < s.len() && !(s[from] == ':' && s[from + 1] == ':') {
        lemma_colon_pair(s, from + 1);
    }
}

/// Round trip of the identifiers: an enumeration and a member without a
/// colon, written with `::` between them, are read back as the two.
pub proof fn law_identifier_round_trip(enum_type: Seq<char>, member: Seq<char>)
    requires
        forall|i: int| 0 <= i < enum_type.len() ==> enum_type[i] != ':',
        forall|i: int| 0 <= i < member.len() ==> member[i] != ':',
    ensures
        parse_identifier(enum_type + "::"@ + member) == Some((enum_type, member)),
{
    reveal_strlit("::");
    let mark = "::"@;
    assert(mark.len() == 2 && mark[0] == ':' && mark[1] == ':');
    let s = enum_type + mark + member;
    let k = enum_type.len() as int;
    assert(s[k] == ':' && s[k + 1] == ':');
    lemma_colon_pair(s, 0);
    let p = find_pair(s, ':', ':', 0);
    if p < k {
        assert(s[p] == enum_type[p]);
    }
    assert(p == k);
    lemma_colon_pair(s, k + 2);
    let q = find_pair(s, ':', ':', k + 2);
    if q < s.len() {
        assert(s[q] == member[q - k - 2]);
    }
    assert(s.take(k) =~= enum_type);
    assert(s.skip(k + 2) =~= member);
}

/// The enumerations of `later` hold those of `earlier`: each under its
/// name at its place, with its members in front of any new ones.
pub open spec fn enums_grow(earlier: Seq<EnumModel>, later: Seq<EnumModel>) -> bool {
    &&& earlier.len() <= later.len()
    &&& forall|i: int|
        0 <= i < earlier.len() ==> (#[trigger] later[i]).name == earlier[i].name
            && earlier[i].members.is_prefix_of(later[i].members)
}

/// Declaring a member removes and renames nothing.
pub proof fn lemma_declare_member_grows(m: ModelView, enum_type: Seq<char>, member: Seq<char>)
    ensures
        enums_grow(m.enums, m.declare_member(enum_type, member).enums),
{
    let names = enum_names(m.enums);
    let after = m.declare_member(enum_type, member).enums;
    assert forall|i: int| 0 <= i < m.enums.len() implies (#[trigger] after[i]).name
        == m.enums[i].name && m.enums[i].members.is_prefix_of(after[i].members) by {
        let members = m.enums[i].members;
        assert(members =~= members.subrange(0, members.len() as int));
        match lookup(names, enum_type) {
            Some(n) => {
                assert(names.contains(enum_type));
                assert(names[n] == enum_type);
                assert(names[n] == m.enums[n].name);
                if i == n && !members.contains(member) {
                    assert(members =~= members.push(member).subrange(0, members.len() as int));
                }
            },
            None => {},
        }
    }
}

/// Growth of enumerations goes on over growth.
pub proof fn lemma_enums_grow_on(a: Seq<EnumModel>, b: Seq<EnumModel>, c: Seq<EnumModel>)
    requires
        enums_grow(a, b),
        enums_grow(b, c),
    ensures
        enums_grow(a, c),
{
    assert forall|i: int| 0 <= i < a.len() implies (#[trigger] c[i]).name == a[i].name
        && a[i].members.is_prefix_of(c[i].members) by {
        assert(b[i].name == a[i].name);
        assert(c[i].name == b[i].name);
        let x = a[i].members;
        let y = b[i].members;
        let z = c[i].members;
        assert(x =~= z.subrange(0, x.len() as int)) by {
            assert(x =~= y.subrange(0, x.len() as int));
            assert(y =~= z.subrange(0, y.len() as int));
        }
    }
}

/// Fields remove and rename no enumeration and no member.
pub proof fn lemma_add_fields_keeps_enums(m: ModelView, fields: Seq<FieldModel>)
    ensures
        enums_grow(m.enums, m.add_fields(fields).0.enums),
    decreases fields.len(),
{
    if fields.len() == 0 {
        assert forall|i: int| 0 <= i < m.enums.len() implies m.enums[i].members.is_prefix_of(
            (#[trigger] m.enums[i]).members,
        ) by {
            let members = m.enums[i].members;
            assert(members =~= members.subrange(0, members.len() as int));
        }
    } else {
        lemma_add_fields_keeps_enums(m, fields.drop_last());
        let middle = m.add_fields(fields.drop_last()).0;
        let last = middle.add_field(fields.last()).0;
        match fields.last().value {
            ValueModel::Identifier(enum_type, member) => {
                lemma_declare_member_grows(middle, enum_type, member);
            },
            _ => {
                lemma_declare_member_grows(middle, Seq::empty(), Seq::empty());
                assert(last.enums == middle.enums);
                assert forall|i: int| 0 <= i < middle.enums.len() implies middle.enums[i].members.is_prefix_of(
                    (#[trigger] last.enums[i]).members,
                ) by {
                    let members = middle.enums[i].members;
                    assert(members =~= members.subrange(0, members.len() as int));
                }
            },
        }
        lemma_enums_grow_on(m.enums, middle.enums, last.enums);
    }
}

/// The model only grows: a record removes and renames nothing. What the
/// model held, it holds after the record at the same places: its
/// structures, its enumerations and their members, its arrays, its
/// operations and the entries of its table.
pub proof fn law_nothing_is_removed(m: ModelView, record: RecordModel)
    requires
        is_consistent(m),
    ensures
        m.structures.is_prefix_of(m.add_record(record).structures),
        enums_grow(m.enums, m.add_record(record).enums),
        m.arrays.is_prefix_of(m.add_record(record).arrays),
        m.operations.is_prefix_of(m.add_record(record).operations),
        m.references.is_prefix_of(m.add_record(record).references),
        m.add_record(record).sequence_name == m.sequence_name,
{
    let after = m.add_record(record);
    lemma_add_record_grows(m, record);
    law_one_reference_per_record(m, record);
    law_first_occurrence_shapes(m, record);
    let defined = m.define_structure(record);
    lemma_add_fields_keeps(defined, record.fields);
    lemma_add_fields_keeps_enums(defined, record.fields);
    assert(m.structures =~= after.structures.subrange(0, m.structures.len() as int));
    assert(m.references =~= after.references.subrange(0, m.references.len() as int));
}

/// Whether `result` is what parsing `input` gives.
pub open spec fn is_result_of(
    result: Option<Result<Model, FileParsingError>>,
    input: Seq<char>,
) -> bool {
    match result {
        None => parse(input) is None,
        Some(Ok(model)) => parse(input) == Some(Ok::<ModelView, FileErrorModel>(model@)),
        Some(Err(e)) => parse(input) == Some(Err::<ModelView, FileErrorModel>(e@)),
    }
}

/// Determinism of parsing: two results of parsing one input are both no
/// result, or both the same error with the same line, or both a model with
/// the same name, enumerations, structures, arrays, operations and table.
pub proof fn law_parse_results_agree(
    input: Seq<char>,
    first: Option<Result<Model, FileParsingError>>,
    second: Option<Result<Model, FileParsingError>>,
)
    requires
        is_result_of(first, input),
        is_result_of(second, input),
    ensures
        match (first, second) {
            (None, None) => true,
            (Some(Err(e)), Some(Err(f))) => e@ == f@,
            (Some(Ok(m)), Some(Ok(n))) => m@ == n@ && m.c_source_text() == n.c_source_text()
                && m.c_header_text() == n.c_header_text() && m.cs_text() == n.cs_text()
                && m.rust_text() == n.rust_text(),
            _ => false,
        },
{
}

/// Determinism over parsers: two parsers that hold the same text give the
/// same result, whatever lines either was given before.
pub proof fn law_parsers_of_one_text_agree(
    a: Parser,
    b: Parser,
    first: Option<Result<Model, FileParsingError>>,
    second: Option<Result<Model, FileParsingError>>,
)
    requires
        a.input() == b.input(),
        is_result_of(first, a.input()),
        is_result_of(second, b.input()),
    ensures
        match (first, second) {
            (None, None) => true,
            (Some(Err(e)), Some(Err(f))) => e@ == f@,
            (Some(Ok(m)), Some(Ok(n))) => m@ == n@ && m.c_source_text() == n.c_source_text()
                && m.c_header_text() == n.c_header_text() && m.cs_text() == n.cs_text()
                && m.rust_text() == n.rust_text(),
            _ => false,
        },
{
}

/// Noise between records: a line without a marker changes nothing.
pub proof fn law_noise_between_records(state: ParserModel, line: Seq<char>)
    requires
        classify(line) == Err::<char, LineErrorModel>(LineErrorModel::UnparsableLine),
    ensures
        state.one_shot(line) == Some(
            Ok::<(ParserModel, bool), LineErrorModel>((state, false)),
        ),
        state.ranged(line) == Some(Ok::<ParserModel, LineErrorModel>(state)),
{
}

/// A record on one line: the line `#= name fields =#` takes the record that
/// its content writes into the model, and the parser stays between records.
pub proof fn law_record_on_one_line(state: ParserModel, line: Seq<char>, record: RecordModel)
    requires
        classify(line) == Ok::<char, LineErrorModel>('='),
        decode_record(delimited_content(line)) == Some(
            Ok::<RecordModel, LineErrorModel>(record),
        ),
    ensures
        state.one_shot(line) == Some(
            Ok::<(ParserModel, bool), LineErrorModel>(
                (
                    ParserModel {
                        model: state.model.add_record(record),
                        last_record_start_line: state.current_line,
                        buffer: delimited_content(line),
                        ..state
                    },
                    false,
                ),
            ),
        ),
{
}

/// The end of the sequence: a line `#> name >#` ends the sequence where
/// the name is the one that opened it, with the parser as it was; under
/// another name it is refused with the name read and the name expected.
pub proof fn law_end_of_sequence(state: ParserModel, line: Seq<char>)
    requires
        classify(line) == Ok::<char, LineErrorModel>('>'),
    ensures
        delimited_content(line) == state.sequence_name ==> state.one_shot(line) == Some(
            Ok::<(ParserModel, bool), LineErrorModel>((state, true)),
        ),
        delimited_content(line) != state.sequence_name ==> state.one_shot(line) == Some(
            Err::<(ParserModel, bool), LineErrorModel>(
                LineErrorModel::UnmatchedNameSequenceStop(
                    delimited_content(line),
                    state.sequence_name,
                ),
            ),
        ),
{
}

/// A continuation line: inside a record that runs over several lines, a
/// line without a marker is appended to the buffer, after exactly one
/// space where the buffer ends with `)`, and after nothing where it does
/// not. The model and the kind of the record stay.
pub proof fn law_continuation_is_joined(state: ParserModel, line: Seq<char>)
    requires
        classify(line) == Err::<char, LineErrorModel>(LineErrorModel::UnparsableLine),
    ensures
        state.buffer.len() > 0 && state.buffer.last() == ')' ==> state.multiline(line) == Some(
            Ok::<ParserModel, LineErrorModel>(
                ParserModel { buffer: state.buffer + seq![' '] + line, ..state },
            ),
        ),
        !(state.buffer.len() > 0 && state.buffer.last() == ')') ==> state.multiline(line)
            == Some(
            Ok::<ParserModel, LineErrorModel>(ParserModel { buffer: state.buffer + line, ..state }),
        ),
{
}

/// A line of a ranged record under another name: a line `#- name fields -#`
/// whose name is not the one that opened the record is refused, with the
/// name that opened the record and the name read.
pub proof fn law_ranged_name_must_match(state: ParserModel, line: Seq<char>)
    requires
        classify(line) == Ok::<char, LineErrorModel>('-'),
        before(delimited_content(line), ' ') != before(state.buffer, ' '),
    ensures
        state.ranged(line) == Some(
            Err::<ParserModel, LineErrorModel>(
                LineErrorModel::UnmatchedRangedRecordName(
                    before(state.buffer, ' '),
                    before(delimited_content(line), ' '),
                ),
            ),
        ),
{
}

/// A line of a ranged record under its name: the fields of a line
/// `#- name fields -#` are appended to the buffer after one space.
pub proof fn law_ranged_fields_are_appended(state: ParserModel, line: Seq<char>)
    requires
        classify(line) == Ok::<char, LineErrorModel>('-'),
        before(delimited_content(line), ' ') == before(state.buffer, ' '),
    ensures
        state.ranged(line) == Some(
            Ok::<ParserModel, LineErrorModel>(
                match after(delimited_content(line), ' ') {
                    Some(fields) => ParserModel {
                        buffer: state.buffer + seq![' '] + fields,
                        ..state
                    },
                    None => state,
                },
            ),
        ),
{
}

/// A record broken after a closed value: between records, a record written
/// on one line, and the same record with a line break in place of the space
/// after the `)` of a field, are refused alike or leave the parser with the
/// same model, the same buffer and between records alike.
pub proof fn law_broken_record(
    state: ParserModel,
    whole: Seq<char>,
    first: Seq<char>,
    second: Seq<char>,
)
    requires
        classify(whole) == Ok::<char, LineErrorModel>('='),
        classify(first) == Err::<char, LineErrorModel>(LineErrorModel::MissingEndDelimiter('=')),
        classify(second) == Err::<char, LineErrorModel>(
            LineErrorModel::MissingBeginDelimiter('='),
        ),
        delimited_content(first).len() > 0,
        delimited_content(first).last() == ')',
        delimited_content(whole) == delimited_content(first) + seq![' '] + delimited_content(
            second,
        ),
        state.capture == RecordCapturingState::OneShot,
    ensures
        state.one_shot(first) matches Some(Ok(_)),
        state.one_shot(whole) == (match state.one_shot(first)->Some_0->Ok_0.0.multiline(second) {
            None => None::<Result<(ParserModel, bool), LineErrorModel>>,
            Some(Err(e)) => Some(Err(e)),
            Some(Ok(next)) => Some(Ok((next, false))),
        }),
{
}

/// A closing marker on a line of its own: the buffer is closed as it
/// stands, with one space at its end where it ends with `)`.
pub proof fn law_closing_marker_alone(state: ParserModel, line: Seq<char>)
    requires
        classify(line) == Err::<char, LineErrorModel>(
            LineErrorModel::MissingBeginDelimiter('='),
        ),
        delimited_content(line).len() == 0,
    ensures
        state.buffer.len() > 0 && state.buffer.last() == ')' ==> state.multiline(line)
            == state.close_multiline(Seq::empty()) && join(state.buffer, Seq::empty())
            == state.buffer.push(' '),
        !(state.buffer.len() > 0 && state.buffer.last() == ')') ==> state.multiline(line) == (
        match state.take_record() {
            None => None::<Result<ParserModel, LineErrorModel>>,
            Some(Err(e)) => Some(Err(e)),
            Some(Ok(next)) => Some(
                Ok(ParserModel { capture: RecordCapturingState::OneShot, ..next }),
            ),
        }),
{
    assert(delimited_content(line) =~= Seq::<char>::empty());
    if state.buffer.len() > 0 && state.buffer.last() == ')' {
        assert(state.buffer + seq![' '] + Seq::<char>::empty() =~= state.buffer.push(' '));
    } else {
        assert(state.buffer + Seq::<char>::empty() =~= state.buffer);
        assert((ParserModel { buffer: join(state.buffer, Seq::empty()), ..state }) == state);
    }
}

/// Whether the lines from index `at` on are accepted one after the other
/// up to a line that ends the sequence.
pub open spec fn is_accepted(state: ParserModel, lines: Seq<Seq<char>>, at: int) -> bool
    decreases lines.len() - at,
{
    0 <= at < lines.len() && match state.feed((at + 1) as usize, lines[at]) {
        Some(Ok((next, ended))) => ended || is_accepted(next, lines, at + 1),
        _ => false,
    }
}

/// Success of a run: a run gives a model exactly where every line is
/// accepted up to one that ends the sequence; the table of that model then
/// has one entry more for each record that the lines complete.
pub proof fn law_accepted_lines_give_a_model(state: ParserModel, lines: Seq<Seq<char>>, at: int)
    ensures
        is_accepted(state, lines, at) <==> (state.run(lines, at) matches Some(Ok(_))),
        is_accepted(state, lines, at) ==> state.run(lines, at)->Some_0->Ok_0.references.len()
            == state.model.references.len() + completed_records(state, lines, at).len(),
    decreases lines.len() - at,
{
    if 0 <= at < lines.len() {
        match state.feed((at + 1) as usize, lines[at]) {
            Some(Ok((next, ended))) => {
                if !ended {
                    law_accepted_lines_give_a_model(next, lines, at + 1);
                }
            },
            _ => {},
        }
    }
    if is_accepted(state, lines, at) {
        lemma_run_takes_records(state, lines, at);
        law_table_follows_records(state.model, completed_records(state, lines, at));
    }
}

/// Success of parsing: an input gives a model exactly where a line opens
/// a sequence and the lines after it are accepted up to the end of the
/// sequence.
pub proof fn law_accepted_input_gives_a_model(input: Seq<char>)
    ensures
        (parse(input) matches Some(Ok(_))) <==> (seek_begin(lines(input), 0) matches Ok(found)
            && is_accepted(ParserModel::start(found.1), lines(input), found.0 + 1)),
{
    match seek_begin(lines(input), 0) {
        Ok((at, name)) => {
            law_accepted_lines_give_a_model(ParserModel::start(name), lines(input), at + 1);
        },
        Err(_) => {},
    }
}

/// Whether a text holds ASCII characters only, none of them a capital or
/// `-`: what a name in snake case is made of.
pub open spec fn is_plain_text(s: Seq<char>) -> bool {
    forall|i: int|
        0 <= i < s.len() ==> is_ascii(#[trigger] s[i]) && !is_capital(s[i]) && s[i] != '-'
}

/// A text without capitals and `-` is its own snake case.
pub proof fn lemma_snake_case_of_plain(s: Seq<char>)
    requires
        is_plain_text(s),
    ensures
        snake_case_fold(s) == (s, s.len() > 0),
    decreases s.len(),
{
    if s.len() > 0 {
        let front = s.drop_last();
        assert forall|i: int| 0 <= i < front.len() implies is_ascii(#[trigger] front[i])
            && !is_capital(front[i]) && front[i] != '-' by {
            assert(front[i] == s[i]);
        }
        lemma_snake_case_of_plain(front);
        assert(is_ascii(s[s.len() - 1]));
        assert(front.push(s.last()) =~= s);
    } else {
        assert(s =~= Seq::<char>::empty());
    }
}

/// The snake case of an ASCII text holds no capital and no `-`.
pub proof fn lemma_snake_case_is_plain(s: Seq<char>)
    requires
        is_ascii_text(s),
    ensures
        is_plain_text(snake_case_fold(s).0),
    decreases s.len(),
{
    if s.len() > 0 {
        let front = s.drop_last();
        assert forall|i: int| 0 <= i < front.len() implies is_ascii(#[trigger] front[i]) by {
            assert(front[i] == s[i]);
        }
        lemma_snake_case_is_plain(front);
        let (out, after_small) = snake_case_fold(front);
        let c = s.last();
        assert(is_ascii(s[s.len() - 1]));
        let result = snake_case_fold(s).0;
        let small = ascii_lower(c);
        assert forall|i: int| 0 <= i < result.len() implies is_ascii(#[trigger] result[i])
            && !is_capital(result[i]) && result[i] != '-' by {
            if i < out.len() {
                assert(result[i] == out[i]);
            } else if c == '-' {
                assert(result[i] == '_');
            } else if is_capital(c) {
                assert(small_letters(c) == seq![small]);
                assert(result[i] == '_' || result[i] == small);
            } else {
                assert(result[i] == c);
            }
        }
    }
}

/// Idempotence of the snake case: the snake case of an ASCII name is its
/// own snake case.
pub proof fn law_snake_case_is_idempotent(s: Seq<char>)
    requires
        is_ascii_text(s),
    ensures
        snake_case_fold(snake_case_fold(s).0).0 == snake_case_fold(s).0,
{
    lemma_snake_case_is_plain(s);
    lemma_snake_case_of_plain(snake_case_fold(s).0);
}

/// The opening of a record that runs on: between records, a line
/// `#= name fields` without a closing marker starts a record of several
/// lines with its content as the buffer.
pub proof fn law_record_begins(state: ParserModel, line: Seq<char>)
    requires
        classify(line) == Err::<char, LineErrorModel>(LineErrorModel::MissingEndDelimiter('=')),
    ensures
        state.one_shot(line) == Some(
            Ok::<(ParserModel, bool), LineErrorModel>(
                (
                    ParserModel {
                        last_record_start_line: state.current_line,
                        buffer: delimited_content(line),
                        capture: RecordCapturingState::Multiline,
                        ..state
                    },
                    false,
                ),
            ),
        ),
{
}

/// The opening of a ranged record: between records, a line `#[ name [#`
/// starts a ranged record with the name as the buffer.
pub proof fn law_ranged_record_opens(state: ParserModel, line: Seq<char>)
    requires
        classify(line) == Ok::<char, LineErrorModel>('['),
    ensures
        state.one_shot(line) == Some(
            Ok::<(ParserModel, bool), LineErrorModel>(
                (
                    ParserModel {
                        last_record_start_line: state.current_line,
                        buffer: delimited_content(line),
                        capture: RecordCapturingState::Ranged,
                        ..state
                    },
                    false,
                ),
            ),
        ),
{
}

/// The end of a ranged record: a closing line under the name that opened
/// the record takes the record of the buffer into the model, and the
/// parser is between records again.
pub proof fn law_ranged_record_closes(state: ParserModel, line: Seq<char>, record: RecordModel)
    requires
        classify(line) == Ok::<char, LineErrorModel>(']') || classify(line) == Err::<
            char,
            LineErrorModel,
        >(LineErrorModel::MissingBeginDelimiter(']')),
        before(delimited_content(line), ' ') == before(state.buffer, ' '),
        decode_record(state.buffer) == Some(Ok::<RecordModel, LineErrorModel>(record)),
    ensures
        state.ranged(line) == Some(
            Ok::<ParserModel, LineErrorModel>(
                ParserModel {
                    model: state.model.add_record(record),
                    capture: RecordCapturingState::OneShot,
                    ..state
                },
            ),
        ),
{
}

/// The end of a record of several lines: a line that closes with `=#`
/// takes the record of the buffer and the line's content into the model,
/// and the parser is between records again.
pub proof fn law_record_ends(state: ParserModel, line: Seq<char>, record: RecordModel)
    requires
        classify(line) == Ok::<char, LineErrorModel>('=') || classify(line) == Err::<
            char,
            LineErrorModel,
        >(LineErrorModel::MissingBeginDelimiter('=')),
        decode_record(join(state.buffer, delimited_content(line))) == Some(
            Ok::<RecordModel, LineErrorModel>(record),
        ),
    ensures
        state.multiline(line) == Some(
            Ok::<ParserModel, LineErrorModel>(
                ParserModel {
                    model: state.model.add_record(record),
                    capture: RecordCapturingState::OneShot,
                    buffer: join(state.buffer, delimited_content(line)),
                    ..state
                },
            ),
        ),
{
}

/// The text after the last space of a text is the text after the last
/// space of what stands behind any space in it.
pub proof fn lemma_after_last_space(head: Seq<char>, tail: Seq<char>)
    ensures
        after_last(head + seq![' '] + tail, ' ') == after_last(tail, ' '),
    decreases tail.len(),
{
    let s = head + seq![' '] + tail;
    lemma_find_last(tail, ' ');
    if tail.len() == 0 {
        assert(s.last() == ' ');
        assert(s.skip(s.len() as int) =~= tail.skip(0));
    } else {
        assert(s.last() == tail.last());
        assert(s.drop_last() =~= head + seq![' '] + tail.drop_last());
        lemma_after_last_space(head, tail.drop_last());
        lemma_find_last(tail.drop_last(), ' ');
        lemma_find_last(s.drop_last(), ' ');
        if tail.last() == ' ' {
            assert(s.skip(s.len() as int) =~= tail.skip(tail.len() as int));
        } else {
            let p = find_last(s.drop_last(), ' ');
            let q = find_last(tail.drop_last(), ' ');
            assert(s.drop_last().skip(p + 1) == tail.drop_last().skip(q + 1));
            assert(s.drop_last().skip(p + 1).len() == tail.drop_last().skip(q + 1).len());
            assert(p + 1 == head.len() + 1 + q + 1);
            assert(s.skip(p + 1) =~= tail.skip(q + 1));
        }
    }
}

/// The text before the first space of a text that a space follows.
pub proof fn lemma_before_first_space(head: Seq<char>, tail: Seq<char>)
    ensures
        before(head + seq![' '] + tail, ' ') == before(head, ' '),
{
    let s = head + seq![' '] + tail;
    lemma_find_either(s, ' ', ' ', 0);
    lemma_find_either(head, ' ', ' ', 0);
    let p = find(s, ' ', 0);
    let q = find(head, ' ', 0);
    assert(s[head.len() as int] == ' ');
    if q < head.len() {
        assert(s[q] == head[q]);
    }
    if p < head.len() {
        assert(s[p] == head[p]);
    }
    if p < q {
        assert(head[p] == ' ');
    }
    assert(p == q);
    assert(s.take(p) =~= head.take(q));
}

/// The shape of a line with both markers: `#= content =#`.
pub open spec fn record_line(content: Seq<char>) -> Seq<char> {
    seq!['#', '=', ' '] + content + seq![' ', '=', '#']
}

/// The shape of a line with the opening marker only: `#= content`.
pub open spec fn opening_line(content: Seq<char>) -> Seq<char> {
    seq!['#', '=', ' '] + content
}

/// The shape of a line with the closing marker only: `content =#`.
pub open spec fn closing_line(content: Seq<char>) -> Seq<char> {
    content + seq![' ', '=', '#']
}

proof fn lemma_opens_with_marker(content: Seq<char>, tail: Seq<char>)
    ensures
        opening_symbol(seq!['#', '=', ' '] + content + tail) == Some('='),
{
    let head = seq!['#', '='];
    let s = seq!['#', '=', ' '] + content + tail;
    assert(s =~= head + seq![' '] + (content + tail));
    lemma_before_first_space(head, content + tail);
    lemma_find_either(head, ' ', ' ', 0);
    let q = find(head, ' ', 0);
    if q < 2 {
        assert(head[q] == ' ');
    }
    assert(head.take(2) =~= head);
}

proof fn lemma_closes_with_marker(head: Seq<char>)
    ensures
        closing_symbol(head + seq![' ', '=', '#']) == Some('='),
{
    let tail = seq!['=', '#'];
    let s = head + seq![' ', '=', '#'];
    assert(s =~= head + seq![' '] + tail);
    lemma_after_last_space(head, tail);
    lemma_find_last(tail, ' ');
    let q = find_last(tail, ' ');
    if q >= 0 {
        assert(tail[q] == ' ');
    }
    assert(tail.skip(0) =~= tail);
}

/// A line `#= content =#` whose content holds no marker has both markers,
/// and the content between them.
pub proof fn law_shape_of_record_line(content: Seq<char>)
    requires
        first_marker(split(content, ' ')) is None,
    ensures
        classify(record_line(content)) == Ok::<char, LineErrorModel>('='),
        delimited_content(record_line(content)) == content,
{
    let line = record_line(content);
    lemma_opens_with_marker(content, seq![' ', '=', '#']);
    lemma_closes_with_marker(seq!['#', '=', ' '] + content);
    assert(line.subrange(3, line.len() - 3) =~= content);
}

/// A line `#= content` whose content holds no marker and does not end with
/// a closing marker has the opening marker only, and the content after it.
pub proof fn law_shape_of_opening_line(content: Seq<char>)
    requires
        first_marker(split(content, ' ')) is None,
        !is_closing(after_last(content, ' ')),
    ensures
        classify(opening_line(content)) == Err::<char, LineErrorModel>(
            LineErrorModel::MissingEndDelimiter('='),
        ),
        delimited_content(opening_line(content)) == content,
{
    let line = opening_line(content);
    lemma_opens_with_marker(content, Seq::empty());
    assert(seq!['#', '=', ' '] + content + Seq::<char>::empty() =~= line);
    assert(line =~= seq!['#', '='] + seq![' '] + content);
    lemma_after_last_space(seq!['#', '='], content);
    assert(line.subrange(3, line.len() as int) =~= content);
}

/// A line `content =#` whose content holds no marker and does not begin
/// with an opening marker has the closing marker only, and the content
/// before it.
pub proof fn law_shape_of_closing_line(content: Seq<char>)
    requires
        first_marker(split(content, ' ')) is None,
        !is_opening(before(content, ' ')),
    ensures
        classify(closing_line(content)) == Err::<char, LineErrorModel>(
            LineErrorModel::MissingBeginDelimiter('='),
        ),
        delimited_content(closing_line(content)) == content,
{
    let line = closing_line(content);
    lemma_closes_with_marker(content);
    assert(line =~= content + seq![' '] + seq!['=', '#']);
    lemma_before_first_space(content, seq!['=', '#']);
    assert(line.subrange(0, line.len() - 3) =~= content);
}

/// A record broken after a closed value, by its text: between records, the
/// line `#= first second =#`, and the lines `#= first` and `second =#`
/// where `first` ends with `)`, are refused alike or leave the parser
/// with the same model, the same buffer and between records alike.
pub proof fn law_broken_record_by_text(state: ParserModel, first: Seq<char>, second: Seq<char>)
    requires
        state.capture == RecordCapturingState::OneShot,
        first.len() > 0,
        first.last() == ')',
        second.len() > 0,
        first_marker(split(first, ' ')) is None,
        first_marker(split(second, ' ')) is None,
        first_marker(split(first + seq![' '] + second, ' ')) is None,
        !is_opening(before(second, ' ')),
    ensures
        state.one_shot(opening_line(first)) matches Some(Ok(_)),
        state.one_shot(record_line(first + seq![' '] + second)) == (match state.one_shot(
            opening_line(first),
        )->Some_0->Ok_0.0.multiline(closing_line(second)) {
            None => None::<Result<(ParserModel, bool), LineErrorModel>>,
            Some(Err(e)) => Some(Err(e)),
            Some(Ok(next)) => Some(Ok((next, false))),
        }),
{
    lemma_find_last(first, ' ');
    let token = after_last(first, ' ');
    assert(token.len() == 0 || token.last() == first.last());
    law_shape_of_record_line(first + seq![' '] + second);
    law_shape_of_opening_line(first);
    law_shape_of_closing_line(second);
    law_broken_record(
        state,
        record_line(first + seq![' '] + second),
        opening_line(first),
        closing_line(second),
    );
}

/// Words with `_` between two.
pub open spec fn joined_words(words: Seq<Seq<char>>) -> Seq<char>
    decreases words.len(),
{
    if words.len() == 0 {
        Seq::empty()
    } else if words.len() == 1 {
        words[0]
    } else {
        joined_words(words.drop_last()) + seq!['_'] + words.last()
    }
}

/// Whether a text is a word of a name in snake case: it begins with a small
/// letter `a` to `z` and holds ASCII characters only, none of them a
/// capital or `-`.
pub open spec fn is_snake_word(word: Seq<char>) -> bool {
    word.len() > 0 && 'a' <= word[0] && word[0] <= 'z' && is_plain_text(word)
}

/// Whether every word is a word of a name in snake case.
pub open spec fn are_snake_words(words: Seq<Seq<char>>) -> bool {
    forall|i: int| 0 <= i < words.len() ==> is_snake_word(#[trigger] words[i])
}

/// Characters that are no capitals stay as they are behind a Pascal-case
/// name that is written in snake case.
pub proof fn lemma_pascal_to_snake_append(a: Seq<char>, b: Seq<char>)
    requires
        is_plain_text(b),
    ensures
        pascal_to_snake_text(a + b) == pascal_to_snake_text(a) + b,
    decreases b.len(),
{
    if b.len() == 0 {
        assert(a + b =~= a);
        assert(pascal_to_snake_text(a) + b =~= pascal_to_snake_text(a));
    } else {
        let s = a + b;
        assert(s.drop_last() =~= a + b.drop_last());
        assert(s.last() == b.last());
        assert(b[b.len() - 1] == b.last());
        assert forall|i: int| 0 <= i < b.drop_last().len() implies is_ascii(
            #[trigger] b.drop_last()[i],
        ) && !is_capital(b.drop_last()[i]) && b.drop_last()[i] != '-' by {
            assert(b.drop_last()[i] == b[i]);
        }
        lemma_pascal_to_snake_append(a, b.drop_last());
        assert((pascal_to_snake_text(a) + b.drop_last()).push(b.last()) =~= pascal_to_snake_text(a)
            + b);
    }
}

/// Words in Pascal case, one after the other, are not empty where the
/// words are not.
pub proof fn lemma_capitalized_words_len(words: Seq<Seq<char>>)
    requires
        are_snake_words(words),
    ensures
        words.len() > 0 ==> capitalized_words(words).len() > 0,
        words.len() == 0 ==> capitalized_words(words).len() == 0,
    decreases words.len(),
{
    if words.len() > 0 {
        let w = words.last();
        assert(is_snake_word(words[words.len() - 1]));
        assert(is_ascii(w[0]));
        assert(capitalized(w).len() > 0);
    }
}

/// Round trip of the words: words of a name in snake case, written in
/// Pascal case and then in snake case, are the words with `_` between two.
pub proof fn law_pascal_round_trip_of_words(words: Seq<Seq<char>>)
    requires
        are_snake_words(words),
    ensures
        pascal_to_snake_text(capitalized_words(words)) == joined_words(words),
    decreases words.len(),
{
    if words.len() > 0 {
        let front = words.drop_last();
        let w = words.last();
        assert(is_snake_word(words[words.len() - 1]));
        assert forall|i: int| 0 <= i < front.len() implies is_snake_word(#[trigger] front[i]) by {
            assert(front[i] == words[i]);
        }
        law_pascal_round_trip_of_words(front);
        lemma_capitalized_words_len(front);
        let prev = capitalized_words(front);
        let capital = ascii_upper(w[0]);
        let rest = w.skip(1);
        assert(is_ascii(w[0]));
        assert(capital_letters(w[0]) == seq![capital]);
        assert(capitalized(w) == seq![capital] + rest);
        assert(prev + capitalized(w) =~= prev.push(capital) + rest);
        assert forall|i: int| 0 <= i < rest.len() implies is_ascii(#[trigger] rest[i])
            && !is_capital(rest[i]) && rest[i] != '-' by {
            assert(rest[i] == w[i + 1]);
        }
        lemma_pascal_to_snake_append(prev.push(capital), rest);
        let pushed = prev.push(capital);
        assert(pushed.drop_last() =~= prev);
        assert(pushed.last() == capital);
        assert(is_capital(capital));
        assert(ascii_lower(capital) == w[0]);
        assert(seq![w[0]] + rest =~= w);
        if front.len() == 0 {
            assert(prev.len() == 0);
            assert(pascal_to_snake_text(pushed) =~= seq![w[0]]);
            assert(words.len() == 1);
            assert(words[0] == w);
        } else {
            assert(pascal_to_snake_text(pushed) == pascal_to_snake_text(prev).push('_').push(
                w[0],
            ));
            assert(pascal_to_snake_text(prev).push('_').push(w[0]) + rest =~= joined_words(front)
                + seq!['_'] + w);
        }
    }
}

/// A word in front of words that are joined.
pub proof fn lemma_joined_words_prepend(first: Seq<char>, words: Seq<Seq<char>>)
    requires
        words.len() > 0,
    ensures
        joined_words(seq![first] + words) == first + seq!['_'] + joined_words(words),
    decreases words.len(),
{
    let all = seq![first] + words;
    assert(all.last() == words.last());
    if words.len() == 1 {
        assert(all.drop_last() =~= seq![first]);
        assert(joined_words(all.drop_last()) == first);
    } else {
        assert(all.drop_last() =~= seq![first] + words.drop_last());
        lemma_joined_words_prepend(first, words.drop_last());
        assert(first + seq!['_'] + joined_words(words.drop_last()) + seq!['_'] + words.last()
            =~= first + seq!['_'] + (joined_words(words.drop_last()) + seq!['_'] + words.last()));
    }
}

/// The pieces of a text between `_`, joined with `_`, are the text.
pub proof fn lemma_joined_split(s: Seq<char>)
    ensures
        split(s, '_').len() > 0,
        joined_words(split(s, '_')) == s,
    decreases s.len(),
{
    lemma_find_either(s, '_', '_', 0);
    let i = find(s, '_', 0);
    if i < s.len() {
        let rest = s.skip(i + 1);
        lemma_joined_split(rest);
        lemma_joined_words_prepend(s.take(i), split(rest, '_'));
        assert(s.take(i) + seq!['_'] + rest =~= s);
    }
}

/// Round trip of the Pascal case: a name in snake case, whose words between
/// `_` each begin with a small letter and hold no capital, is written in
/// Pascal case and back in snake case as itself.
pub proof fn law_pascal_round_trip(s: Seq<char>)
    requires
        are_snake_words(split(s, '_')),
    ensures
        pascal_to_snake_text(pascal_case_text(s)) == s,
{
    law_pascal_round_trip_of_words(split(s, '_'));
    lemma_joined_split(s);
}

/// Two states of the parser that differ at most in the line numbers that
/// they carry.
pub open spec fn same_but_lines(a: ParserModel, b: ParserModel) -> bool {
    a.sequence_name == b.sequence_name && a.model == b.model && a.capture == b.capture
        && a.buffer == b.buffer
}

/// Two results of a run that differ at most in the line numbers that their
/// errors carry.
pub open spec fn same_but_line_numbers(
    x: Option<Result<ModelView, FileErrorModel>>,
    y: Option<Result<ModelView, FileErrorModel>>,
) -> bool {
    match (x, y) {
        (None, None) => true,
        (Some(Ok(m)), Some(Ok(n))) => m == n,
        (Some(Err(e)), Some(Err(f))) => match (e, f) {
            (
                FileErrorModel::LineError { line_error: p, .. },
                FileErrorModel::LineError { line_error: q, .. },
            ) => p == q,
            (FileErrorModel::NoSequenceStart, FileErrorModel::NoSequenceStart) => true,
            (
                FileErrorModel::NoSequenceEnd { .. },
                FileErrorModel::NoSequenceEnd { .. },
            ) => true,
            _ => false,
        },
        _ => false,
    }
}

/// What a line does to the parser does not depend on the line numbers.
#[verifier::rlimit(40)]
pub proof fn lemma_feed_same(
    a: ParserModel,
    b: ParserModel,
    n: usize,
    m: usize,
    raw: Seq<char>,
)
    requires
        same_but_lines(a, b),
    ensures
        match (a.feed(n, raw), b.feed(m, raw)) {
            (None, None) => true,
            (Some(Err(e)), Some(Err(f))) => e == f,
            (Some(Ok((x, p))), Some(Ok((y, q)))) => p == q && same_but_lines(x, y),
            _ => false,
        },
{
}

/// What the same lines do to the parser does not depend on their numbers.
#[verifier::rlimit(40)]
pub proof fn lemma_run_same(
    a: ParserModel,
    b: ParserModel,
    la: Seq<Seq<char>>,
    lb: Seq<Seq<char>>,
    i: int,
    j: int,
)
    requires
        same_but_lines(a, b),
        0 <= i <= la.len(),
        0 <= j <= lb.len(),
        la.skip(i) == lb.skip(j),
    ensures
        same_but_line_numbers(a.run(la, i), b.run(lb, j)),
    decreases la.len() - i,
{
    assert(la.skip(i).len() == la.len() - i);
    assert(lb.skip(j).len() == lb.len() - j);
    if i < la.len() {
        assert(j < lb.len());
        assert(la.skip(i)[0] == la[i]);
        assert(lb.skip(j)[0] == lb[j]);
        let n = (i + 1) as usize;
        let m = (j + 1) as usize;
        lemma_feed_same(a, b, n, m, la[i]);
        let fa = a.feed(n, la[i]);
        let fb = b.feed(m, lb[j]);
        if (fa matches Some(Ok(_))) && !fa->Some_0->Ok_0.1 {
            let x = fa->Some_0->Ok_0.0;
            let y = fb->Some_0->Ok_0.0;
            assert(la.skip(i + 1) =~= la.skip(i).skip(1));
            assert(lb.skip(j + 1) =~= lb.skip(j).skip(1));
            lemma_run_same(x, y, la, lb, i + 1, j + 1);
        }
    }
}

/// A run at a line without a time stamp, between records.
proof fn lemma_run_between_records(state: ParserModel, lines: Seq<Seq<char>>, at: int)
    requires
        0 <= at < lines.len(),
        state.capture == RecordCapturingState::OneShot,
        lines[at].len() > 0,
        lines[at][0] != '[',
    ensures
        state.run(lines, at) == (match (ParserModel {
            current_line: (at + 1) as usize,
            ..state
        }).one_shot(lines[at]) {
            None => None::<Result<ModelView, FileErrorModel>>,
            Some(Err(e)) => Some(
                Err(FileErrorModel::LineError { line_nb: (at + 1) as usize, line_error: e }),
            ),
            Some(Ok((next, ended))) => if ended {
                Some(Ok(ModelView { sequence_name: Some(next.sequence_name), ..next.model }))
            } else {
                next.run(lines, at + 1)
            },
        }),
{
}

/// A run at a line without a time stamp, inside a record of several lines.
proof fn lemma_run_inside_record(state: ParserModel, lines: Seq<Seq<char>>, at: int)
    requires
        0 <= at < lines.len(),
        state.capture == RecordCapturingState::Multiline,
        lines[at].len() > 0,
        lines[at][0] != '[',
    ensures
        state.run(lines, at) == (match (ParserModel {
            current_line: (at + 1) as usize,
            ..state
        }).multiline(lines[at]) {
            None => None::<Result<ModelView, FileErrorModel>>,
            Some(Err(e)) => Some(
                Err(FileErrorModel::LineError { line_nb: (at + 1) as usize, line_error: e }),
            ),
            Some(Ok(next)) => next.run(lines, at + 1),
        }),
{
}

/// A record broken after a closed value, in a run: where the parser stands
/// between records at a line `#= first second =#`, the run gives the same
/// model, or the same kind of error, as the run over the lines `#= first`
/// and `second =#` in its place; only the line numbers may differ.
#[verifier::rlimit(80)]
pub proof fn law_broken_record_in_a_run(
    state: ParserModel,
    before_it: Seq<Seq<char>>,
    first: Seq<char>,
    second: Seq<char>,
    after_it: Seq<Seq<char>>,
)
    requires
        state.capture == RecordCapturingState::OneShot,
        first.len() > 0,
        first.last() == ')',
        second.len() > 0,
        second[0] != '[',
        first_marker(split(first, ' ')) is None,
        first_marker(split(second, ' ')) is None,
        first_marker(split(first + seq![' '] + second, ' ')) is None,
        !is_opening(before(second, ' ')),
    ensures
        same_but_line_numbers(
            state.run(
                before_it + seq![record_line(first + seq![' '] + second)] + after_it,
                before_it.len() as int,
            ),
            state.run(
                before_it + seq![opening_line(first), closing_line(second)] + after_it,
                before_it.len() as int,
            ),
        ),
{
    let whole = record_line(first + seq![' '] + second);
    let opening = opening_line(first);
    let closing = closing_line(second);
    let la = before_it + seq![whole] + after_it;
    let lb = before_it + seq![opening, closing] + after_it;
    let k = before_it.len() as int;
    let at = ParserModel { current_line: (k + 1) as usize, ..state };
    assert(la[k] == whole);
    assert(lb[k] == opening);
    assert(lb[k + 1] == closing);
    assert(whole[0] == '#');
    assert(opening[0] == '#');
    assert(closing[0] == second[0]);
    assert(la.skip(k + 1) =~= after_it);
    assert(lb.skip(k + 2) =~= after_it);
    law_broken_record_by_text(at, first, second);
    lemma_run_between_records(state, la, k);
    lemma_run_between_records(state, lb, k);
    let begun = at.one_shot(opening)->Some_0->Ok_0.0;
    assert(begun.capture == RecordCapturingState::Multiline && !at.one_shot(
        opening,
    )->Some_0->Ok_0.1) by {
        lemma_find_last(first, ' ');
        assert(after_last(first, ' ').len() == 0 || after_last(first, ' ').last()
            == first.last());
        law_shape_of_opening_line(first);
        law_record_begins(at, opening);
    }
    lemma_run_inside_record(begun, lb, k + 1);
    let later = ParserModel { current_line: (k + 2) as usize, ..begun };
    lemma_multiline_same(begun, later, closing);
    let x = at.one_shot(whole);
    let y = later.multiline(closing);
    if x matches Some(Ok(_)) {
        assert(!x->Some_0->Ok_0.1) by {
            law_shape_of_record_line(first + seq![' '] + second);
        }
        lemma_run_same(x->Some_0->Ok_0.0, y->Some_0->Ok_0, la, lb, k + 1, k + 2);
    }
}

/// What a line inside a record of several lines does to the parser does
/// not depend on the line numbers.
proof fn lemma_multiline_same(a: ParserModel, b: ParserModel, line: Seq<char>)
    requires
        same_but_lines(a, b),
    ensures
        match (a.multiline(line), b.multiline(line)) {
            (None, None) => true,
            (Some(Err(e)), Some(Err(f))) => e == f,
            (Some(Ok(x)), Some(Ok(y))) => same_but_lines(x, y) && x.last_record_start_line
                == a.last_record_start_line && y.last_record_start_line
                == b.last_record_start_line,
            _ => false,
        },
{
}

/// Whether a line before the sequence is passed over: it is empty without
/// its time stamp, or it holds no marker, or its markers are a matched pair
/// that does not open a sequence.
pub open spec fn is_passed_over(raw: Seq<char>) -> bool {
    let line = strip_timestamp(raw);
    line.len() == 0 || classify(line) == Err::<char, LineErrorModel>(
        LineErrorModel::UnparsableLine,
    ) || (classify(line) matches Ok(symbol) && symbol != '<')
}

/// The opening of the sequence: where the lines from index `at` up to
/// index `i` are passed over and the line at `i` is `#< name <#`, the
/// sequence opens at `i` under that name.
pub proof fn law_sequence_opens(lines: Seq<Seq<char>>, at: int, i: int)
    requires
        0 <= at <= i < lines.len(),
        forall|j: int| at <= j < i ==> is_passed_over(#[trigger] lines[j]),
        strip_timestamp(lines[i]).len() > 0,
        classify(strip_timestamp(lines[i])) == Ok::<char, LineErrorModel>('<'),
    ensures
        seek_begin(lines, at) == Ok::<(int, Seq<char>), FileErrorModel>(
            (i, delimited_content(strip_timestamp(lines[i]))),
        ),
    decreases i - at,
{
    if at < i {
        assert(is_passed_over(lines[at]));
        law_sequence_opens(lines, at + 1, i);
    }
}

/// An empty line: a line that is empty without its time stamp changes
/// nothing but the number of the current line, in any state.
pub proof fn law_empty_line_is_skipped(state: ParserModel, number: usize, raw: Seq<char>)
    requires
        strip_timestamp(raw).len() == 0,
    ensures
        state.feed(number, raw) == Some(
            Ok::<(ParserModel, bool), LineErrorModel>(
                (ParserModel { current_line: number, ..state }, false),
            ),
        ),
{
}

/// A search from the start finds the first place that holds the character.
proof fn lemma_find_first(s: Seq<char>, c: char, i: int)
    requires
        0 <= i < s.len(),
        s[i] == c,
        forall|j: int| 0 <= j < i ==> s[j] != c,
    ensures
        find(s, c, 0) == i,
{
    lemma_find_either(s, c, c, 0);
}

/// Whether a text holds no line feed.
pub open spec fn is_one_line(s: Seq<char>) -> bool {
    forall|j: int| 0 <= j < s.len() ==> s[j] != '\n'
}

/// The lines of two texts, one after the other, where the first is empty
/// or ends with a line feed: the lines of the first, then those of the
/// second.
pub proof fn lemma_lines_append(a: Seq<char>, b: Seq<char>)
    requires
        a.len() == 0 || a.last() == '\n',
    ensures
        lines(a + b) == lines(a) + lines(b),
    decreases a.len(),
{
    if a.len() == 0 {
        assert(a + b =~= b);
        assert(lines(a) + lines(b) =~= lines(b));
    } else {
        lemma_find_either(a, '\n', '\n', 0);
        let e = find(a, '\n', 0);
        assert(e < a.len());
        let whole = a + b;
        assert forall|j: int| 0 <= j < e implies whole[j] != '\n' by {
            assert(whole[j] == a[j]);
        }
        assert(whole[e] == a[e]);
        lemma_find_first(whole, '\n', e);
        assert(whole.take(e) =~= a.take(e));
        let rest = a.skip(e + 1);
        assert(whole.skip(e + 1) =~= rest + b);
        if rest.len() > 0 {
            assert(rest.last() == a.last());
        }
        lemma_lines_append(rest, b);
        assert(lines(whole) =~= lines(a) + lines(b));
    }
}

/// A text without a line feed, and a line feed after it, are one line.
pub proof fn lemma_lines_of_one(x: Seq<char>)
    requires
        is_one_line(x),
    ensures
        lines(x + seq!['\n']) == seq![line_before_feed(x)],
{
    reveal_with_fuel(lines, 2);
    let t = x + seq!['\n'];
    assert(t[x.len() as int] == '\n');
    assert forall|j: int| 0 <= j < x.len() implies t[j] != '\n' by {
        assert(t[j] == x[j]);
    }
    lemma_find_first(t, '\n', x.len() as int);
    assert(t.take(x.len() as int) =~= x);
    assert(t.skip(x.len() as int + 1).len() == 0);
    assert(lines(t) =~= seq![line_before_feed(x)]);
}

/// The line that opens the sequence is found in the lines before it alone.
proof fn lemma_seek_begin_prefix(p: Seq<Seq<char>>, q: Seq<Seq<char>>, at: int)
    requires
        seek_begin(p, at) is Ok,
    ensures
        seek_begin(p + q, at) == seek_begin(p, at),
        at <= seek_begin(p, at)->Ok_0.0 < p.len(),
    decreases p.len() - at,
{
    if 0 <= at < p.len() {
        assert((p + q)[at] == p[at]);
        let line = strip_timestamp(p[at]);
        if line.len() == 0 {
            lemma_seek_begin_prefix(p, q, at + 1);
        } else {
            match classify(line) {
                Ok(symbol) => {
                    if symbol != '<' {
                        lemma_seek_begin_prefix(p, q, at + 1);
                    }
                },
                Err(LineErrorModel::UnparsableLine) => {
                    lemma_seek_begin_prefix(p, q, at + 1);
                },
                Err(_) => {},
            }
        }
    }
}

/// The state in which the parser reaches the line at index `to`, from the
/// line at index `at` on; `None` where it stops before.
pub open spec fn state_at(state: ParserModel, lines: Seq<Seq<char>>, at: int, to: int) -> Option<
    ParserModel,
>
    decreases to - at,
{
    if at >= to {
        Some(state)
    } else if at < 0 || at >= lines.len() {
        None
    } else {
        match state.feed((at + 1) as usize, lines[at]) {
            Some(Ok((next, ended))) => if ended {
                None
            } else {
                state_at(next, lines, at + 1, to)
            },
            _ => None,
        }
    }
}

/// A run over lines of which the first are `p`: where the parser stops
/// within `p`, the rest plays no part; else the run goes on after `p` from
/// the state reached there.
proof fn lemma_run_prefix(
    state: ParserModel,
    p: Seq<Seq<char>>,
    q: Seq<Seq<char>>,
    r: Seq<Seq<char>>,
    at: int,
)
    requires
        0 <= at <= p.len(),
    ensures
        match state_at(state, p, at, p.len() as int) {
            Some(s) => state.run(p + q, at) == s.run(p + q, p.len() as int) && state.run(p + r, at)
                == s.run(p + r, p.len() as int),
            None => state.run(p + q, at) == state.run(p + r, at),
        },
    decreases p.len() - at,
{
    if at < p.len() {
        assert((p + q)[at] == p[at]);
        assert((p + r)[at] == p[at]);
        match state.feed((at + 1) as usize, p[at]) {
            Some(Ok((next, ended))) => {
                if !ended {
                    lemma_run_prefix(next, p, q, r, at + 1);
                }
            },
            _ => {},
        }
    }
}

/// Whether a sequence is opened in a text and the parser, where it reaches
/// the end of the text, stands between records there.
pub open spec fn ends_between_records(head: Seq<char>) -> bool {
    match seek_begin(lines(head), 0) {
        Ok((at, name)) => match state_at(
            ParserModel::start(name),
            lines(head),
            at + 1,
            lines(head).len() as int,
        ) {
            Some(state) => state.capture == RecordCapturingState::OneShot,
            None => true,
        },
        Err(_) => false,
    }
}

/// A record broken after a closed value, in a text: after lines that open
/// a sequence and leave the parser between records, the line `#= first
/// second =#` and the two lines `#= first` and `second =#` in its place
/// give the same model, or the same kind of error, whatever follows; only
/// the line numbers may differ.
pub proof fn law_broken_record_in_a_text(
    head: Seq<char>,
    first: Seq<char>,
    second: Seq<char>,
    tail: Seq<char>,
)
    requires
        head.len() == 0 || head.last() == '\n',
        ends_between_records(head),
        is_one_line(first),
        is_one_line(second),
        first.len() > 0,
        first.last() == ')',
        second.len() > 0,
        second[0] != '[',
        first_marker(split(first, ' ')) is None,
        first_marker(split(second, ' ')) is None,
        first_marker(split(first + seq![' '] + second, ' ')) is None,
        !is_opening(before(second, ' ')),
    ensures
        same_but_line_numbers(
            parse(head + record_line(first + seq![' '] + second) + seq!['\n'] + tail),
            parse(
                head + opening_line(first) + seq!['\n'] + closing_line(second) + seq!['\n'] + tail,
            ),
        ),
{
    let whole = record_line(first + seq![' '] + second);
    let opening = opening_line(first);
    let closing = closing_line(second);
    let p = lines(head);
    let after_it = lines(tail);
    let q = seq![whole] + after_it;
    let r = seq![opening, closing] + after_it;
    assert(lines(head + whole + seq!['\n'] + tail) == p + q && lines(
        head + opening + seq!['\n'] + closing + seq!['\n'] + tail,
    ) == p + r) by {
        lemma_lines_of_the_shapes(first, second);
        lemma_lines_insert(head, whole, tail);
        lemma_lines_insert(head, opening, Seq::empty());
        let longer = head + opening + seq!['\n'];
        assert(longer + Seq::<char>::empty() =~= longer);
        lemma_lines_insert(longer, closing, tail);
        assert(p + seq![whole] + after_it =~= p + q);
        assert(lines(Seq::<char>::empty()) =~= Seq::<Seq<char>>::empty());
        assert(p + seq![opening] + Seq::<Seq<char>>::empty() + seq![closing] + after_it =~= p + r);
    }
    lemma_broken_record_after_lines(p, first, second, after_it);
}

/// The three shapes of line hold no line feed and end with no carriage
/// return where their contents hold no line feed.
proof fn lemma_lines_of_the_shapes(first: Seq<char>, second: Seq<char>)
    requires
        is_one_line(first),
        is_one_line(second),
        first.len() > 0,
        first.last() == ')',
    ensures
        is_one_line(record_line(first + seq![' '] + second)),
        is_one_line(opening_line(first)),
        is_one_line(closing_line(second)),
        record_line(first + seq![' '] + second).last() == '#',
        opening_line(first).last() == ')',
        closing_line(second).last() == '#',
{
}

/// A line between two texts, of which the first is empty or ends with a
/// line feed: the lines of the first, the line, the lines of the second.
proof fn lemma_lines_insert(head: Seq<char>, x: Seq<char>, tail: Seq<char>)
    requires
        head.len() == 0 || head.last() == '\n',
        is_one_line(x),
        x.len() > 0,
        x.last() != '\r',
    ensures
        lines(head + x + seq!['\n'] + tail) == lines(head) + seq![x] + lines(tail),
{
    lemma_lines_of_one(x);
    assert(head + x + seq!['\n'] + tail =~= head + ((x + seq!['\n']) + tail));
    lemma_lines_append(head, (x + seq!['\n']) + tail);
    lemma_lines_append(x + seq!['\n'], tail);
    assert(lines(head) + (seq![x] + lines(tail)) =~= lines(head) + seq![x] + lines(tail));
}

/// The parse of lines: the line that opens the sequence, then the run.
pub open spec fn parse_lines(lines: Seq<Seq<char>>) -> Option<Result<ModelView, FileErrorModel>> {
    match seek_begin(lines, 0) {
        Err(e) => Some(Err(e)),
        Ok((at, name)) => ParserModel::start(name).run(lines, at + 1),
    }
}

/// A record broken after a closed value, after lines that open a sequence
/// and leave the parser between records.
proof fn lemma_broken_record_after_lines(
    p: Seq<Seq<char>>,
    first: Seq<char>,
    second: Seq<char>,
    after_it: Seq<Seq<char>>,
)
    requires
        seek_begin(p, 0) is Ok,
        match state_at(
            ParserModel::start(seek_begin(p, 0)->Ok_0.1),
            p,
            seek_begin(p, 0)->Ok_0.0 + 1,
            p.len() as int,
        ) {
            Some(state) => state.capture == RecordCapturingState::OneShot,
            None => true,
        },
        first.len() > 0,
        first.last() == ')',
        second.len() > 0,
        second[0] != '[',
        first_marker(split(first, ' ')) is None,
        first_marker(split(second, ' ')) is None,
        first_marker(split(first + seq![' '] + second, ' ')) is None,
        !is_opening(before(second, ' ')),
    ensures
        same_but_line_numbers(
            parse_lines(p + (seq![record_line(first + seq![' '] + second)] + after_it)),
            parse_lines(p + (seq![opening_line(first), closing_line(second)] + after_it)),
        ),
{
    let whole = record_line(first + seq![' '] + second);
    let opening = opening_line(first);
    let closing = closing_line(second);
    let q = seq![whole] + after_it;
    let r = seq![opening, closing] + after_it;
    lemma_parse_lines_after(p, q, r);
    let start = ParserModel::start(seek_begin(p, 0)->Ok_0.1);
    match state_at(start, p, seek_begin(p, 0)->Ok_0.0 + 1, p.len() as int) {
        Some(state) => {
            law_broken_record_in_a_run(state, p, first, second, after_it);
            assert(p + seq![whole] + after_it =~= p + q);
            assert(p + seq![opening, closing] + after_it =~= p + r);
        },
        None => {
            lemma_same_result(parse_lines(p + q));
        },
    }
}

/// A result differs from itself in nothing.
proof fn lemma_same_result(x: Option<Result<ModelView, FileErrorModel>>)
    ensures
        same_but_line_numbers(x, x),
{
}

/// The parse of lines of which the first are `p`, where a sequence is
/// opened in `p`: where the parser stops within `p`, the rest plays no
/// part; else the parse is the run after `p` from the state reached there.
proof fn lemma_parse_lines_after(p: Seq<Seq<char>>, q: Seq<Seq<char>>, r: Seq<Seq<char>>)
    requires
        seek_begin(p, 0) is Ok,
    ensures
        match state_at(
            ParserModel::start(seek_begin(p, 0)->Ok_0.1),
            p,
            seek_begin(p, 0)->Ok_0.0 + 1,
            p.len() as int,
        ) {
            Some(s) => parse_lines(p + q) == s.run(p + q, p.len() as int) && parse_lines(p + r)
                == s.run(p + r, p.len() as int),
            None => parse_lines(p + q) == parse_lines(p + r),
        },
{
    lemma_seek_begin_prefix(p, q, 0);
    lemma_seek_begin_prefix(p, r, 0);
    let (at, name) = seek_begin(p, 0)->Ok_0;
    lemma_run_prefix(ParserModel::start(name), p, q, r, at + 1);
}

} // verus!
