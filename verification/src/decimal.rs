//! Decimal literals of the fractional types, held exactly.
//!
//! A value is a sign, its significant digits and a power of ten. It is kept in
//! one normal form, so that two literals of the same number are the same
//! value: `1.50`, `15e-1` and `+1.5` are all `15 * 10^-1`.

use crate::number::{digit_char, digit_char_of, parse_integer, read_integer};
use crate::text::{
    append_text, chars_of, find, find_either, find_either_in, find_in, slice_of, string_of,
};
use vstd::prelude::*;

verus! {

/// Why a text is not a decimal literal.
#[derive(Clone, Copy, Debug, PartialEq, Eq, Structural)]
pub enum DecimalError {
    /// The text is empty.
    Empty,
    /// The text is not of the form `[+-] digits [. digits] [e [+-] digits]`
    /// with a digit before the exponent, or its power of ten is out of range.
    Invalid,
}

/// What a `Decimal` stands for: `(-1)^negative * digits * 10^exponent`,
/// where `digits` reads as a decimal number, most significant digit first.
pub ghost struct DecimalModel {
    pub negative: bool,
    pub digits: Seq<u8>,
    pub exponent: int,
}

impl DecimalModel {
    /// The normal form: digits are digits, the first and the last are not
    /// zero, and zero is written with no digit, no sign and exponent zero.
    pub open spec fn is_normal(self) -> bool {
        &&& forall|i: int| 0 <= i < self.digits.len() ==> self.digits[i] <= 9
        &&& self.digits.len() > 0 ==> self.digits[0] != 0 && self.digits.last() != 0
        &&& self.digits.len() == 0 ==> !self.negative && self.exponent == 0
        &&& i64::MIN <= self.exponent <= i64::MAX
    }

    /// Zero.
    pub open spec fn zero() -> DecimalModel {
        DecimalModel { negative: false, digits: Seq::empty(), exponent: 0 }
    }
}

/// Whether a character is one of `0` to `9`.
pub open spec fn is_digit(c: char) -> bool {
    '0' <= c && c <= '9'
}

/// Whether a text holds digits only.
pub open spec fn all_digits(s: Seq<char>) -> bool {
    forall|i: int| 0 <= i < s.len() ==> is_digit(#[trigger] s[i])
}

/// How many `0` stand at the front of `s`.
pub open spec fn leading_zeros(s: Seq<char>) -> int
    decreases s.len(),
{
    if s.len() > 0 && s[0] == '0' {
        1 + leading_zeros(s.skip(1))
    } else {
        0
    }
}

/// How many `0` stand at the end of `s`.
pub open spec fn trailing_zeros(s: Seq<char>) -> int
    decreases s.len(),
{
    if s.len() > 0 && s.last() == '0' {
        1 + trailing_zeros(s.drop_last())
    } else {
        0
    }
}

/// The digits that a text of digits writes.
pub open spec fn digit_values(s: Seq<char>) -> Seq<u8> {
    s.map_values(|c: char| (c as int - '0' as int) as u8)
}

/// Digits written as characters.
pub open spec fn digit_chars(d: Seq<u8>) -> Seq<char> {
    d.map_values(|x: u8| digit_char(x as int))
}

/// `n` times `0`.
pub open spec fn zeros(n: nat) -> Seq<char> {
    Seq::new(n, |i: int| '0')
}

/// The bound on the exponent that a literal may write.
pub open spec fn exponent_limit() -> int {
    0x1_0000_0000_0000_0000
}

/// The decimal that `s` writes.
pub open spec fn parse_decimal(s: Seq<char>) -> Result<DecimalModel, DecimalError> {
    if s.len() == 0 {
        Err(DecimalError::Empty)
    } else {
        let body = if s[0] == '+' || s[0] == '-' {
            s.skip(1)
        } else {
            s
        };
        let mark = find_either(body, 'e', 'E', 0);
        let mantissa = body.take(mark);
        let dot = find(mantissa, '.', 0);
        let whole = mantissa.take(dot);
        let fraction = if dot < mantissa.len() {
            mantissa.skip(dot + 1)
        } else {
            Seq::empty()
        };
        let written = whole + fraction;
        let scale = if mark < body.len() {
            parse_integer(body.skip(mark + 1), 10, -exponent_limit(), exponent_limit())
        } else {
            Ok(0)
        };
        if scale is Err {
            Err(DecimalError::Invalid)
        } else {
            normal_form(written, s[0] == '-', scale->Ok_0 - fraction.len())
        }
    }
}

/// The normal decimal with the digits `written`, the last of them standing
/// for `10^scale`, and the given sign.
pub open spec fn normal_form(written: Seq<char>, negative: bool, scale: int) -> Result<
    DecimalModel,
    DecimalError,
> {
    if written.len() == 0 || !all_digits(written) {
        Err(DecimalError::Invalid)
    } else if leading_zeros(written) == written.len() {
        Ok(DecimalModel::zero())
    } else {
        let lead = leading_zeros(written);
        let trail = trailing_zeros(written);
        let exponent = scale + trail;
        if i64::MIN <= exponent <= i64::MAX {
            Ok(
                DecimalModel {
                    negative,
                    digits: digit_values(written.subrange(lead, written.len() - trail)),
                    exponent,
                },
            )
        } else {
            Err(DecimalError::Invalid)
        }
    }
}

/// A normal decimal written out in full, without an exponent.
pub open spec fn decimal_literal(d: DecimalModel) -> Seq<char> {
    let sign = if d.negative {
        seq!['-']
    } else {
        Seq::empty()
    };
    let text = digit_chars(d.digits);
    let n = d.digits.len() as int;
    if n == 0 {
        seq!['0']
    } else if d.exponent >= 0 {
        sign + text + zeros(d.exponent as nat)
    } else if -d.exponent < n {
        sign + text.take(n + d.exponent) + seq!['.'] + text.skip(n + d.exponent)
    } else {
        sign + seq!['0', '.'] + zeros((-d.exponent - n) as nat) + text
    }
}

/// The zeros in front are zeros, and what follows them is none.
pub proof fn lemma_leading_zeros(s: Seq<char>)
    ensures
        0 <= leading_zeros(s) <= s.len(),
        forall|i: int| 0 <= i < leading_zeros(s) ==> s[i] == '0',
        leading_zeros(s) < s.len() ==> s[leading_zeros(s)] != '0',
    decreases s.len(),
{
    if s.len() > 0 && s[0] == '0' {
        lemma_leading_zeros(s.skip(1));
        assert forall|i: int| 0 <= i < leading_zeros(s) implies s[i] == '0' by {
            if i > 0 {
                assert(s.skip(1)[i - 1] == s[i]);
            }
        }
        if leading_zeros(s) < s.len() {
            assert(s.skip(1)[leading_zeros(s) - 1] == s[leading_zeros(s)]);
        }
    }
}

/// The zeros at the end are zeros, and what stands before them is none.
pub proof fn lemma_trailing_zeros(s: Seq<char>)
    ensures
        0 <= trailing_zeros(s) <= s.len(),
        forall|i: int| s.len() - trailing_zeros(s) <= i < s.len() ==> s[i] == '0',
        trailing_zeros(s) < s.len() ==> s[s.len() - trailing_zeros(s) - 1] != '0',
    decreases s.len(),
{
    if s.len() > 0 && s.last() == '0' {
        lemma_trailing_zeros(s.drop_last());
        assert forall|i: int| s.len() - trailing_zeros(s) <= i < s.len() implies s[i] == '0' by {
            if i < s.len() - 1 {
                assert(s.drop_last()[i] == s[i]);
            }
        }
        if trailing_zeros(s) < s.len() {
            assert(s.drop_last()[s.len() - trailing_zeros(s) - 1] == s[s.len() - trailing_zeros(s)
                - 1]);
        }
    }
}

/// A decimal number in normal form.
#[derive(Debug, PartialEq, Eq, Hash)]
pub struct Decimal {
    negative: bool,
    digits: Vec<u8>,
    exponent: i64,
}

impl View for Decimal {
    type V = DecimalModel;

    closed spec fn view(&self) -> DecimalModel {
        DecimalModel {
            negative: self.negative,
            digits: self.digits@,
            exponent: self.exponent as int,
        }
    }
}

fn count_leading_zeros(v: &Vec<char>) -> (n: usize)
    ensures
        n == leading_zeros(v@),
        n <= v.len(),
{
    let mut i: usize = 0;
    assert(v@.skip(0) =~= v@);
    while i < v.len() && v[i] == '0'
        invariant
            i <= v.len(),
            leading_zeros(v@) == i + leading_zeros(v@.skip(i as int)),
        decreases v.len() - i,
    {
        assert(v@.skip(i as int)[0] == v@[i as int]);
        assert(v@.skip(i as int).skip(1) =~= v@.skip(i + 1));
        i += 1;
    }
    proof {
        if i < v.len() {
            assert(v@.skip(i as int)[0] == v@[i as int]);
        }
    }
    i
}

fn count_trailing_zeros(v: &Vec<char>) -> (n: usize)
    ensures
        n == trailing_zeros(v@),
        n <= v.len(),
{
    let mut i: usize = v.len();
    assert(v@.take(v.len() as int) =~= v@);
    while i > 0 && v[i - 1] == '0'
        invariant
            i <= v.len(),
            trailing_zeros(v@) == (v.len() - i) + trailing_zeros(v@.take(i as int)),
        decreases i,
    {
        assert(v@.take(i as int).last() == v@[i - 1]);
        assert(v@.take(i as int).drop_last() =~= v@.take(i - 1));
        i -= 1;
    }
    proof {
        if i > 0 {
            assert(v@.take(i as int).last() == v@[i - 1]);
        }
    }
    v.len() - i
}

fn check_all_digits(v: &Vec<char>) -> (r: bool)
    ensures
        r == all_digits(v@),
{
    let mut i: usize = 0;
    while i < v.len()
        invariant
            i <= v.len(),
            forall|j: int| 0 <= j < i ==> is_digit(#[trigger] v@[j]),
        decreases v.len() - i,
    {
        let c: char = v[i];
        if !('0' <= c && c <= '9') {
            return false;
        }
        i += 1;
    }
    true
}

impl Clone for Decimal {
    fn clone(&self) -> (r: Self)
        ensures
            r@ == self@,
    {
        proof {
            use_type_invariant(self);
        }
        let mut digits: Vec<u8> = Vec::new();
        let mut i: usize = 0;
        while i < self.digits.len()
            invariant
                i <= self.digits.len(),
                digits@ == self.digits@.take(i as int),
            decreases self.digits.len() - i,
        {
            digits.push(self.digits[i]);
            assert(self.digits@.take(i as int).push(self.digits@[i as int]) =~= self.digits@.take(
                i + 1,
            ));
            i += 1;
        }
        assert(self.digits@.take(self.digits.len() as int) =~= self.digits@);
        Decimal { negative: self.negative, digits, exponent: self.exponent }
    }
}

impl Decimal {
    /// Every `Decimal` is in normal form.
    #[verifier::type_invariant]
    spec fn well_formed(self) -> bool {
        self@.is_normal()
    }

    /// Whether the number is below zero.
    pub fn is_negative(&self) -> (r: bool)
        ensures
            r == self@.negative,
    {
        self.negative
    }

    /// The significant digits, most significant first; none for zero.
    pub fn digits(&self) -> (r: &Vec<u8>)
        ensures
            r@ == self@.digits,
            self@.is_normal(),
    {
        proof {
            use_type_invariant(self);
        }
        &self.digits
    }

    /// The power of ten of the last digit.
    pub fn exponent(&self) -> (r: i64)
        ensures
            r == self@.exponent,
    {
        self.exponent
    }

    /// Reads a decimal literal.
    #[verifier::rlimit(40)]
    pub fn from_chars(v: &Vec<char>) -> (r: Result<Decimal, DecimalError>)
        ensures
            match r {
                Ok(d) => parse_decimal(v@) == Ok::<DecimalModel, DecimalError>(d@)
                    && d@.is_normal(),
                Err(e) => parse_decimal(v@) == Err::<DecimalModel, DecimalError>(e),
            },
    {
        if v.len() == 0 {
            return Err(DecimalError::Empty);
        }
        let first: char = v[0];
        let start: usize = if first == '+' || first == '-' {
            1
        } else {
            0
        };
        let body = slice_of(v, start, v.len());
        assert(body@ =~= if v@[0] == '+' || v@[0] == '-' {
            v@.skip(1)
        } else {
            v@
        });
        let mark: usize = find_either_in(&body, 'e', 'E', 0);
        let mantissa = slice_of(&body, 0, mark);
        assert(mantissa@ =~= body@.take(mark as int));
        let dot: usize = find_in(&mantissa, '.', 0);
        let whole = slice_of(&mantissa, 0, dot);
        assert(whole@ =~= mantissa@.take(dot as int));
        let fraction = if dot < mantissa.len() {
            slice_of(&mantissa, dot + 1, mantissa.len())
        } else {
            Vec::new()
        };
        assert(fraction@ =~= if dot < mantissa@.len() {
            mantissa@.skip(dot + 1)
        } else {
            Seq::empty()
        });
        let mut written = whole;
        append_text(&mut written, &fraction);
        let scale: i128 = if mark < body.len() {
            let tail = slice_of(&body, mark + 1, body.len());
            assert(tail@ =~= body@.skip(mark + 1));
            match read_integer(
                &tail,
                10,
                -0x1_0000_0000_0000_0000,
                0x1_0000_0000_0000_0000,
            ) {
                Ok(n) => n,
                Err(_) => {
                    return Err(DecimalError::Invalid);
                },
            }
        } else {
            0
        };
        Decimal::normalise(&written, first == '-', scale - (fraction.len() as i128))
    }

    fn normalise(written: &Vec<char>, negative: bool, scale: i128) -> (r: Result<
        Decimal,
        DecimalError,
    >)
        requires
            -0x2_0000_0000_0000_0000 <= scale <= 0x2_0000_0000_0000_0000,
        ensures
            match r {
                Ok(d) => normal_form(written@, negative, scale as int) == Ok::<
                    DecimalModel,
                    DecimalError,
                >(d@) && d@.is_normal(),
                Err(e) => normal_form(written@, negative, scale as int) == Err::<
                    DecimalModel,
                    DecimalError,
                >(e),
            },
    {
        if written.len() == 0 || !check_all_digits(written) {
            return Err(DecimalError::Invalid);
        }
        let lead: usize = count_leading_zeros(written);
        if lead == written.len() {
            return Ok(Decimal { negative: false, digits: Vec::new(), exponent: 0 });
        }
        let trail: usize = count_trailing_zeros(written);
        proof {
            lemma_leading_zeros(written@);
            lemma_trailing_zeros(written@);
        }
        let exponent: i128 = scale + (trail as i128);
        if exponent < (i64::MIN as i128) || exponent > (i64::MAX as i128) {
            return Err(DecimalError::Invalid);
        }
        let stop: usize = written.len() - trail;
        let digits = digits_between(written, lead, stop);
        proof {
            let kept = written@.subrange(lead as int, stop as int);
            assert(digits@.len() == kept.len());
            assert forall|k: int| 0 <= k < digits@.len() implies digits@[k] <= 9 by {
                assert(is_digit(written@[lead + k]));
                assert(kept[k] == written@[lead + k]);
            }
            assert(kept[0] == written@[lead as int]);
            assert(kept.last() == written@[stop - 1]);
            assert(is_digit(written@[lead as int]));
            assert(is_digit(written@[stop - 1]));
        }
        Ok(Decimal { negative, digits, exponent: exponent as i64 })
    }

    /// Reads a decimal literal.
    pub fn from_text(s: &str) -> (r: Result<Decimal, DecimalError>)
        ensures
            match r {
                Ok(d) => parse_decimal(s@) == Ok::<DecimalModel, DecimalError>(d@)
                    && d@.is_normal(),
                Err(e) => parse_decimal(s@) == Err::<DecimalModel, DecimalError>(e),
            },
    {
        let chars = chars_of(s);
        Decimal::from_chars(&chars)
    }

    /// Appends the number, written out in full, to `out`.
    pub fn append_to(&self, out: &mut Vec<char>)
        ensures
            final(out)@ == old(out)@ + decimal_literal(self@),
    {
        proof {
            use_type_invariant(self);
        }
        let n: usize = self.digits.len();
        let ghost start = out@;
        if n == 0 {
            out.push('0');
            assert(start.push('0') =~= start + seq!['0']);
            return ;
        }
        if self.negative {
            out.push('-');
        }
        let ghost sign: Seq<char> = if self.negative {
            seq!['-']
        } else {
            Seq::empty()
        };
        assert(out@ =~= start + sign);
        let ghost text = digit_chars(self.digits@);
        if self.exponent >= 0 {
            self.append_digits_to(out, 0, n);
            assert(text.subrange(0, n as int) =~= text);
            append_zeros(out, self.exponent as u64);
            assert(out@ =~= start + (sign + text + zeros(self.exponent as nat)));
        } else if (-(self.exponent as i128)) < (n as i128) {
            let split: usize = (n as i128 + self.exponent as i128) as usize;
            self.append_digits_to(out, 0, split);
            out.push('.');
            self.append_digits_to(out, split, n);
            assert(text.subrange(0, split as int) =~= text.take(split as int));
            assert(text.subrange(split as int, n as int) =~= text.skip(split as int));
            assert(out@ =~= start + (sign + text.take(split as int) + seq!['.'] + text.skip(
                split as int,
            )));
        } else {
            out.push('0');
            out.push('.');
            let gap: u64 = (-(self.exponent as i128) - (n as i128)) as u64;
            append_zeros(out, gap);
            self.append_digits_to(out, 0, n);
            assert(text.subrange(0, n as int) =~= text);
            assert(out@ =~= start + (sign + seq!['0', '.'] + zeros(gap as nat) + text));
        }
    }

    fn append_digits_to(&self, out: &mut Vec<char>, lo: usize, hi: usize)
        requires
            lo <= hi <= self@.digits.len(),
        ensures
            final(out)@ == old(out)@ + digit_chars(self@.digits).subrange(lo as int, hi as int),
    {
        proof {
            use_type_invariant(self);
        }
        let mut i: usize = lo;
        assert(old(out)@ + digit_chars(self@.digits).subrange(lo as int, lo as int) =~= old(out)@);
        while i < hi
            invariant
                lo <= i <= hi <= self.digits.len(),
                forall|k: int| 0 <= k < self.digits@.len() ==> self.digits@[k] <= 9,
                out@ == old(out)@ + digit_chars(self@.digits).subrange(lo as int, i as int),
            decreases hi - i,
        {
            let d: u8 = self.digits[i];
            out.push(digit_char_of(d as u64));
            assert((old(out)@ + digit_chars(self@.digits).subrange(lo as int, i as int)).push(
                digit_char(d as int),
            ) =~= old(out)@ + digit_chars(self@.digits).subrange(lo as int, i + 1));
            i += 1;
        }
    }

    /// The number, written out in full.
    pub fn to_text(&self) -> (s: String)
        ensures
            s@ == decimal_literal(self@),
    {
        let mut out: Vec<char> = Vec::new();
        self.append_to(&mut out);
        assert(Seq::<char>::empty() + decimal_literal(self@) =~= decimal_literal(self@));
        string_of(&out)
    }

    /// Whether two decimals are the same number.
    pub fn same(&self, other: &Decimal) -> (r: bool)
        ensures
            r == (self@ == other@),
    {
        if self.negative != other.negative || self.exponent != other.exponent
            || self.digits.len() != other.digits.len() {
            return false;
        }
        let mut i: usize = 0;
        while i < self.digits.len()
            invariant
                i <= self.digits.len(),
                self.digits.len() == other.digits.len(),
                forall|j: int| 0 <= j < i ==> self.digits@[j] == other.digits@[j],
            decreases self.digits.len() - i,
        {
            if self.digits[i] != other.digits[i] {
                return false;
            }
            i += 1;
        }
        assert(self.digits@ =~= other.digits@);
        true
    }
}

fn digits_between(written: &Vec<char>, lo: usize, hi: usize) -> (digits: Vec<u8>)
    requires
        lo <= hi <= written.len(),
        all_digits(written@),
    ensures
        digits@ == digit_values(written@.subrange(lo as int, hi as int)),
{
    let mut digits: Vec<u8> = Vec::new();
    let mut i: usize = lo;
    assert(digit_values(written@.subrange(lo as int, lo as int)) =~= Seq::<u8>::empty());
    while i < hi
        invariant
            lo <= i <= hi <= written.len(),
            all_digits(written@),
            digits@ == digit_values(written@.subrange(lo as int, i as int)),
        decreases hi - i,
    {
        let c: char = written[i];
        assert(is_digit(written@[i as int]));
        let d: u8 = ((c as u32) - ('0' as u32)) as u8;
        digits.push(d);
        assert(digit_values(written@.subrange(lo as int, i as int)).push(d) =~= digit_values(
            written@.subrange(lo as int, i + 1),
        ));
        i += 1;
    }
    digits
}

fn append_zeros(out: &mut Vec<char>, count: u64)
    ensures
        final(out)@ == old(out)@ + zeros(count as nat),
{
    let mut i: u64 = 0;
    assert(old(out)@ + zeros(0) =~= old(out)@);
    while i < count
        invariant
            i <= count,
            out@ == old(out)@ + zeros(i as nat),
        decreases count - i,
    {
        out.push('0');
        assert((old(out)@ + zeros(i as nat)).push('0') =~= old(out)@ + zeros((i + 1) as nat));
        i += 1;
    }
}

} // verus!
