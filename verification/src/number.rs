//! Integer literals: reading them in a radix and writing them back.

use vstd::prelude::*;

verus! {

/// Why a text is not an integer of the type asked for.
#[derive(Clone, Copy, Debug, PartialEq, Eq, Structural)]
pub enum NumberError {
    /// The text is empty.
    Empty,
    /// The text holds a character that is no digit of the radix, or is a lone sign.
    InvalidDigit,
    /// The number is above the largest value of the type.
    PosOverflow,
    /// The number is below the smallest value of the type.
    NegOverflow,
}

/// The value of `c` as a digit in `radix` (at most 36), if it is one.
pub open spec fn digit_of(c: char, radix: int) -> Option<int> {
    let d = if '0' <= c && c <= '9' {
        c as int - '0' as int
    } else if 'a' <= c && c <= 'z' {
        c as int - 'a' as int + 10
    } else if 'A' <= c && c <= 'Z' {
        c as int - 'A' as int + 10
    } else {
        36
    };
    if d < radix {
        Some(d)
    } else {
        None
    }
}

/// Reads the digits of `s` from left to right onto `acc`, which grows away
/// from zero downwards when `negative`. The first character that is no digit,
/// or the first step that leaves `lo..=hi`, decides the error.
pub open spec fn read_digits(
    s: Seq<char>,
    radix: int,
    negative: bool,
    lo: int,
    hi: int,
    acc: int,
) -> Result<int, NumberError>
    decreases s.len(),
{
    if s.len() == 0 {
        Ok(acc)
    } else {
        match digit_of(s[0], radix) {
            None => Err(NumberError::InvalidDigit),
            Some(d) => {
                let next = if negative {
                    acc * radix - d
                } else {
                    acc * radix + d
                };
                if next > hi {
                    Err(NumberError::PosOverflow)
                } else if next < lo {
                    Err(NumberError::NegOverflow)
                } else {
                    read_digits(s.skip(1), radix, negative, lo, hi, next)
                }
            },
        }
    }
}

/// The integer that `s` writes in `radix`, for a type that holds `lo..=hi`:
/// an optional `+`, or `-` where `lo` is negative, then one digit or more.
pub open spec fn parse_integer(s: Seq<char>, radix: int, lo: int, hi: int) -> Result<
    int,
    NumberError,
> {
    if s.len() == 0 {
        Err(NumberError::Empty)
    } else if s.len() == 1 && (s[0] == '+' || s[0] == '-') {
        Err(NumberError::InvalidDigit)
    } else if s[0] == '+' {
        read_digits(s.skip(1), radix, false, lo, hi, 0)
    } else if s[0] == '-' && lo < 0 {
        read_digits(s.skip(1), radix, true, lo, hi, 0)
    } else {
        read_digits(s, radix, false, lo, hi, 0)
    }
}

/// The character that writes the digit `d`, in lower case.
pub open spec fn digit_char(d: int) -> char {
    if d == 0 {
        '0'
    } else if d == 1 {
        '1'
    } else if d == 2 {
        '2'
    } else if d == 3 {
        '3'
    } else if d == 4 {
        '4'
    } else if d == 5 {
        '5'
    } else if d == 6 {
        '6'
    } else if d == 7 {
        '7'
    } else if d == 8 {
        '8'
    } else if d == 9 {
        '9'
    } else if d == 10 {
        'a'
    } else if d == 11 {
        'b'
    } else if d == 12 {
        'c'
    } else if d == 13 {
        'd'
    } else if d == 14 {
        'e'
    } else {
        'f'
    }
}

/// `n` written without sign, prefix or leading zero: in radix 16 when `hex`,
/// else in radix 10.
pub open spec fn digits_text(n: nat, hex: bool) -> Seq<char>
    decreases n,
{
    if hex {
        if n < 16 {
            seq![digit_char(n as int)]
        } else {
            digits_text(n / 16, hex).push(digit_char((n % 16) as int))
        }
    } else {
        if n < 10 {
            seq![digit_char(n as int)]
        } else {
            digits_text(n / 10, hex).push(digit_char((n % 10) as int))
        }
    }
}

/// `n` in decimal, with `-` in front when it is negative.
pub open spec fn decimal_text(n: int) -> Seq<char> {
    if n < 0 {
        seq!['-'] + digits_text((-n) as nat, false)
    } else {
        digits_text(n as nat, false)
    }
}

/// `n` in lower-case hexadecimal with the prefix `0x`.
pub open spec fn hex_text(n: nat) -> Seq<char> {
    seq!['0', 'x'] + digits_text(n, true)
}

/// The value of a character as a digit in a radix, if it is one.
pub fn digit_value(c: char, radix: u32) -> (r: Option<u32>)
    requires
        radix <= 36,
    ensures
        match r {
            Some(d) => digit_of(c, radix as int) == Some(d as int) && d < radix,
            None => digit_of(c, radix as int) is None,
        },
{
    let code: u32 = c as u32;
    let d: u32 = if '0' <= c && c <= '9' {
        code - ('0' as u32)
    } else if 'a' <= c && c <= 'z' {
        code - ('a' as u32) + 10
    } else if 'A' <= c && c <= 'Z' {
        code - ('A' as u32) + 10
    } else {
        36
    };
    if d < radix {
        Some(d)
    } else {
        None
    }
}

/// Reads an integer of a type that holds `lo..=hi`.
pub fn read_integer(v: &Vec<char>, radix: u32, lo: i128, hi: i128) -> (r: Result<i128, NumberError>)
    requires
        2 <= radix <= 36,
        -0x1_0000_0000_0000_0000 <= lo <= 0 <= hi <= 0x1_0000_0000_0000_0000,
    ensures
        match r {
            Ok(n) => parse_integer(v@, radix as int, lo as int, hi as int) == Ok::<
                int,
                NumberError,
            >(n as int) && lo <= n <= hi,
            Err(e) => parse_integer(v@, radix as int, lo as int, hi as int) == Err::<
                int,
                NumberError,
            >(e),
        },
{
    let n: usize = v.len();
    if n == 0 {
        return Err(NumberError::Empty);
    }
    let first: char = v[0];
    if n == 1 && (first == '+' || first == '-') {
        return Err(NumberError::InvalidDigit);
    }
    let negative: bool = first == '-' && lo < 0;
    let start: usize = if first == '+' || negative {
        1
    } else {
        0
    };
    let mut acc: i128 = 0;
    let mut i: usize = start;
    assert(v@.skip(0) =~= v@);
    while i < n
        invariant
            start <= i <= n,
            n == v.len(),
            2 <= radix <= 36,
            -0x1_0000_0000_0000_0000 <= lo <= 0 <= hi <= 0x1_0000_0000_0000_0000,
            lo <= acc <= hi,
            parse_integer(v@, radix as int, lo as int, hi as int) == read_digits(
                v@.skip(i as int),
                radix as int,
                negative,
                lo as int,
                hi as int,
                acc as int,
            ),
        decreases n - i,
    {
        let ghost rest = v@.skip(i as int);
        assert(rest[0] == v@[i as int]);
        assert(rest.skip(1) =~= v@.skip(i + 1));
        match digit_value(v[i], radix) {
            None => {
                return Err(NumberError::InvalidDigit);
            },
            Some(d) => {
                assert(-0x40_0000_0000_0000_0000 <= acc * radix <= 0x40_0000_0000_0000_0000)
                    by (nonlinear_arith)
                    requires
                        -0x1_0000_0000_0000_0000 <= acc <= 0x1_0000_0000_0000_0000,
                        2 <= radix <= 36,
                ;
                let scaled: i128 = acc * (radix as i128);
                let next: i128 = if negative {
                    scaled - (d as i128)
                } else {
                    scaled + (d as i128)
                };
                if next > hi {
                    return Err(NumberError::PosOverflow);
                }
                if next < lo {
                    return Err(NumberError::NegOverflow);
                }
                acc = next;
            },
        }
        i += 1;
    }
    Ok(acc)
}

/// The character that writes a digit.
pub fn digit_char_of(d: u64) -> (c: char)
    requires
        d < 16,
    ensures
        c == digit_char(d as int),
{
    if d == 0 {
        '0'
    } else if d == 1 {
        '1'
    } else if d == 2 {
        '2'
    } else if d == 3 {
        '3'
    } else if d == 4 {
        '4'
    } else if d == 5 {
        '5'
    } else if d == 6 {
        '6'
    } else if d == 7 {
        '7'
    } else if d == 8 {
        '8'
    } else if d == 9 {
        '9'
    } else if d == 10 {
        'a'
    } else if d == 11 {
        'b'
    } else if d == 12 {
        'c'
    } else if d == 13 {
        'd'
    } else if d == 14 {
        'e'
    } else {
        'f'
    }
}

/// Appends `n` to `out`, in radix 16 when `hex`, else in radix 10.
pub fn append_digits(out: &mut Vec<char>, n: u64, hex: bool)
    ensures
        final(out)@ == old(out)@ + digits_text(n as nat, hex),
    decreases n,
{
    if hex {
        if n < 16 {
            out.push(digit_char_of(n));
            assert(old(out)@.push(digit_char(n as int)) =~= old(out)@ + digits_text(n as nat, hex));
        } else {
            append_digits(out, n / 16, hex);
            out.push(digit_char_of(n % 16));
            assert((old(out)@ + digits_text((n / 16) as nat, hex)).push(
                digit_char((n % 16) as int),
            ) =~= old(out)@ + digits_text(n as nat, hex));
        }
    } else {
        if n < 10 {
            out.push(digit_char_of(n));
            assert(old(out)@.push(digit_char(n as int)) =~= old(out)@ + digits_text(n as nat, hex));
        } else {
            append_digits(out, n / 10, hex);
            out.push(digit_char_of(n % 10));
            assert((old(out)@ + digits_text((n / 10) as nat, hex)).push(
                digit_char((n % 10) as int),
            ) =~= old(out)@ + digits_text(n as nat, hex));
        }
    }
}

/// Appends `n` in decimal to `out`.
pub fn append_decimal(out: &mut Vec<char>, n: i128)
    requires
        -0x1_0000_0000_0000_0000 < n < 0x1_0000_0000_0000_0000,
    ensures
        final(out)@ == old(out)@ + decimal_text(n as int),
{
    if n < 0 {
        out.push('-');
        let magnitude: u64 = (-n) as u64;
        append_digits(out, magnitude, false);
        assert(old(out)@.push('-') + digits_text((-n) as nat, false) =~= old(out)@ + (seq!['-']
            + digits_text((-n) as nat, false)));
    } else {
        append_digits(out, n as u64, false);
    }
}

/// Appends `0x` and `n` in lower-case hexadecimal to `out`.
pub fn append_hex(out: &mut Vec<char>, n: u64)
    ensures
        final(out)@ == old(out)@ + hex_text(n as nat),
{
    out.push('0');
    out.push('x');
    append_digits(out, n, true);
    assert(old(out)@.push('0').push('x') + digits_text(n as nat, true) =~= old(out)@ + (seq![
        '0',
        'x',
    ] + digits_text(n as nat, true)));
}

} // verus!
