//! Emitters: the model written out as source text.
//!
//! Every emitter keeps three orders: declarations in the order first seen,
//! interned values in the order of their numbers, and the table in the order
//! of the occurrences.

pub mod c_generation;
pub mod c_sharp_generation;
pub mod rust_generation;

use crate::decimal::{decimal_literal, Decimal, DecimalModel};
use crate::model::ArrayElements;
use crate::number::{append_decimal, append_hex, decimal_text, hex_text};
use crate::text::{append_str, append_text, chars_of};
use crate::unirecord::{fractions, wide, ScalarKind, ValueModel};
use vstd::prelude::*;

verus! {

/// An integer as its kind writes it: in hexadecimal with `0x` for the `X`
/// kinds, else in decimal.
pub open spec fn whole_text(kind: ScalarKind, n: int) -> Seq<char> {
    if kind.is_hex() {
        hex_text(n as nat)
    } else {
        decimal_text(n)
    }
}

/// Integers as their kind writes them, with `, ` between two.
pub open spec fn wholes_text(kind: ScalarKind, v: Seq<int>) -> Seq<char>
    decreases v.len(),
{
    if v.len() == 0 {
        Seq::empty()
    } else if v.len() == 1 {
        whole_text(kind, v[0])
    } else {
        wholes_text(kind, v.drop_last()) + ", "@ + whole_text(kind, v.last())
    }
}

/// Decimals written out in full, with `, ` between two.
pub open spec fn fractions_text(v: Seq<DecimalModel>) -> Seq<char>
    decreases v.len(),
{
    if v.len() == 0 {
        Seq::empty()
    } else if v.len() == 1 {
        decimal_literal(v[0])
    } else {
        fractions_text(v.drop_last()) + ", "@ + decimal_literal(v.last())
    }
}

/// The elements of an array, with `, ` between two.
pub open spec fn elements_text(array: ValueModel) -> Seq<char> {
    match array {
        ValueModel::Wholes(kind, v) => wholes_text(kind, v),
        ValueModel::Fractions(_, v) => fractions_text(v),
        _ => Seq::empty(),
    }
}

/// `true` or `false`.
pub open spec fn truth_text(b: bool) -> Seq<char> {
    if b {
        "true"@
    } else {
        "false"@
    }
}

/// Appends a string.
pub fn append_string(out: &mut Vec<char>, s: &String)
    ensures
        final(out)@ == old(out)@ + s@,
{
    let chars = chars_of(s.as_str());
    append_text(out, &chars);
}

/// Appends an integer as its kind writes it.
pub fn append_whole(out: &mut Vec<char>, kind: ScalarKind, n: i128)
    requires
        !kind.is_fraction(),
        kind.lower() <= n <= kind.upper(),
    ensures
        final(out)@ == old(out)@ + whole_text(kind, n as int),
{
    if kind.hex() {
        append_hex(out, n as u64);
    } else {
        append_decimal(out, n);
    }
}

/// Appends `true` or `false`.
pub fn append_truth(out: &mut Vec<char>, b: bool)
    ensures
        final(out)@ == old(out)@ + truth_text(b),
{
    if b {
        append_str(out, "true");
    } else {
        append_str(out, "false");
    }
}

fn append_wholes(out: &mut Vec<char>, kind: ScalarKind, v: &Vec<i128>)
    requires
        !kind.is_fraction(),
        forall|i: int| 0 <= i < v@.len() ==> kind.lower() <= #[trigger] v@[i] <= kind.upper(),
    ensures
        final(out)@ == old(out)@ + wholes_text(kind, wide(v@)),
{
    let mut i: usize = 0;
    let ghost all = wide(v@);
    assert(all.take(0) =~= Seq::<int>::empty());
    assert(out@ =~= old(out)@ + wholes_text(kind, all.take(0)));
    while i < v.len()
        invariant
            i <= v.len(),
            all == wide(v@),
            !kind.is_fraction(),
            forall|j: int| 0 <= j < v@.len() ==> kind.lower() <= #[trigger] v@[j] <= kind.upper(),
            out@ == old(out)@ + wholes_text(kind, all.take(i as int)),
        decreases v.len() - i,
    {
        let ghost before = out@;
        proof {
            let next = all.take(i + 1);
            assert(next.drop_last() =~= all.take(i as int));
            assert(next.last() == v@[i as int] as int);
            if i == 0 {
                assert(next[0] == v@[0] as int);
            }
        }
        if i > 0 {
            append_str(out, ", ");
        }
        append_whole(out, kind, v[i]);
        assert(out@ =~= old(out)@ + wholes_text(kind, all.take(i + 1)));
        i += 1;
    }
    assert(all.take(v.len() as int) =~= all);
}

fn append_fractions(out: &mut Vec<char>, v: &Vec<Decimal>)
    ensures
        final(out)@ == old(out)@ + fractions_text(fractions(v@)),
{
    let mut i: usize = 0;
    let ghost all = fractions(v@);
    assert(all.take(0) =~= Seq::<DecimalModel>::empty());
    assert(out@ =~= old(out)@ + fractions_text(all.take(0)));
    while i < v.len()
        invariant
            i <= v.len(),
            all == fractions(v@),
            out@ == old(out)@ + fractions_text(all.take(i as int)),
        decreases v.len() - i,
    {
        proof {
            let next = all.take(i + 1);
            assert(next.drop_last() =~= all.take(i as int));
            assert(next.last() == v@[i as int]@);
            if i == 0 {
                assert(next[0] == v@[0]@);
            }
        }
        if i > 0 {
            append_str(out, ", ");
        }
        v[i].append_to(out);
        assert(out@ =~= old(out)@ + fractions_text(all.take(i + 1)));
        i += 1;
    }
    assert(all.take(v.len() as int) =~= all);
}

/// Appends the elements of an array, with `, ` between two.
pub fn append_elements(out: &mut Vec<char>, elements: &ArrayElements<'_>)
    requires
        elements.is_valid(),
    ensures
        final(out)@ == old(out)@ + elements_text(elements@),
{
    match elements {
        ArrayElements::Wholes(kind, v) => append_wholes(out, *kind, v),
        ArrayElements::Fractions(_, v) => append_fractions(out, v),
    }
}

} // verus!
