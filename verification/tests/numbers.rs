use copar::decimal::{Decimal, DecimalError};
use copar::number::{append_decimal, append_hex, read_integer, NumberError};
use ordered_float::OrderedFloat;
use std::num::IntErrorKind;

fn chars(s: &str) -> Vec<char> {
    s.chars().collect()
}

fn kind_of(e: &IntErrorKind) -> NumberError {
    match e {
        IntErrorKind::Empty => NumberError::Empty,
        IntErrorKind::InvalidDigit => NumberError::InvalidDigit,
        IntErrorKind::PosOverflow => NumberError::PosOverflow,
        IntErrorKind::NegOverflow => NumberError::NegOverflow,
        other => panic!("{:?}", other),
    }
}

static LITERALS: [&str; 38] = [
    "", "0", "7", "+7", "-7", "+", "-", "++1", "--1", "+-1", "255", "256", "0255", "000000000256",
    "-0", "-128", "-129", "127", "128", "65535", "65536", "-32768", "-32769", "4294967295",
    "4294967296", "18446744073709551615", "18446744073709551616", "-9223372036854775808",
    "-9223372036854775809", "9223372036854775807", "ff", "FF", "fF3a", "0x10", "1 ", " 1", "12a",
    "99999999999999999999999x",
];

#[test]
fn integers_are_read_as_the_standard_library_reads_them() {
    for literal in LITERALS.iter() {
        let text = chars(literal);
        for radix in [10u32, 16u32] {
            assert_eq!(
                read_integer(&text, radix, 0, u8::MAX as i128),
                u8::from_str_radix(literal, radix).map(|v| v as i128).map_err(|e| kind_of(e.kind())),
                "u8 {:?} in radix {}",
                literal,
                radix
            );
            assert_eq!(
                read_integer(&text, radix, 0, u16::MAX as i128),
                u16::from_str_radix(literal, radix)
                    .map(|v| v as i128)
                    .map_err(|e| kind_of(e.kind())),
                "u16 {:?} in radix {}",
                literal,
                radix
            );
            assert_eq!(
                read_integer(&text, radix, 0, u32::MAX as i128),
                u32::from_str_radix(literal, radix)
                    .map(|v| v as i128)
                    .map_err(|e| kind_of(e.kind())),
                "u32 {:?} in radix {}",
                literal,
                radix
            );
            assert_eq!(
                read_integer(&text, radix, 0, u64::MAX as i128),
                u64::from_str_radix(literal, radix)
                    .map(|v| v as i128)
                    .map_err(|e| kind_of(e.kind())),
                "u64 {:?} in radix {}",
                literal,
                radix
            );
            assert_eq!(
                read_integer(&text, radix, i8::MIN as i128, i8::MAX as i128),
                i8::from_str_radix(literal, radix).map(|v| v as i128).map_err(|e| kind_of(e.kind())),
                "i8 {:?} in radix {}",
                literal,
                radix
            );
            assert_eq!(
                read_integer(&text, radix, i16::MIN as i128, i16::MAX as i128),
                i16::from_str_radix(literal, radix)
                    .map(|v| v as i128)
                    .map_err(|e| kind_of(e.kind())),
                "i16 {:?} in radix {}",
                literal,
                radix
            );
            assert_eq!(
                read_integer(&text, radix, i32::MIN as i128, i32::MAX as i128),
                i32::from_str_radix(literal, radix)
                    .map(|v| v as i128)
                    .map_err(|e| kind_of(e.kind())),
                "i32 {:?} in radix {}",
                literal,
                radix
            );
            assert_eq!(
                read_integer(&text, radix, i64::MIN as i128, i64::MAX as i128),
                i64::from_str_radix(literal, radix)
                    .map(|v| v as i128)
                    .map_err(|e| kind_of(e.kind())),
                "i64 {:?} in radix {}",
                literal,
                radix
            );
        }
    }
}

#[test]
fn each_number_error_has_an_input() {
    assert_eq!(read_integer(&chars(""), 10, 0, 255), Err(NumberError::Empty));
    assert_eq!(read_integer(&chars("1z"), 10, 0, 255), Err(NumberError::InvalidDigit));
    assert_eq!(read_integer(&chars("300"), 10, 0, 255), Err(NumberError::PosOverflow));
    assert_eq!(read_integer(&chars("-300"), 10, -128, 127), Err(NumberError::NegOverflow));
    assert_eq!(read_integer(&chars("-128"), 10, -128, 127), Ok(-128));
    assert_eq!(read_integer(&chars("7f"), 16, -128, 127), Ok(127));
}

#[test]
fn integers_are_written_as_the_standard_library_writes_them() {
    let values: [i128; 12] = [
        0,
        1,
        9,
        10,
        255,
        -1,
        -10,
        -128,
        65536,
        i64::MIN as i128,
        i64::MAX as i128,
        u64::MAX as i128,
    ];
    for v in values.iter() {
        let mut out = chars("n=");
        append_decimal(&mut out, *v);
        assert_eq!(out.iter().collect::<String>(), format!("n={}", v));
    }
    let hexes: [u64; 8] = [0, 1, 9, 10, 15, 16, 0xda5708c1, u64::MAX];
    for v in hexes.iter() {
        let mut out = Vec::new();
        append_hex(&mut out, *v);
        assert_eq!(out.iter().collect::<String>(), format!("0x{:x}", v));
    }
}

static FRACTIONS: [&str; 22] = [
    "3.565", "1.50", "15e-1", "100", "1e3", "1E3", "0.002", "-0.5", ".5", "5.", "0", "0.0", "+7",
    "-40525.1740", "-8540565256.5187840", "52.6", "-42.4", "0.000001", "123456.789", "1e-7",
    "00012.3400", "2e+2",
];

#[test]
fn fractions_are_written_as_the_floating_numbers_that_they_name() {
    for literal in FRACTIONS.iter() {
        let decimal = Decimal::from_text(literal).unwrap();
        let float: f64 = literal.parse().unwrap();
        assert_eq!(decimal.to_text(), format!("{}", float), "{:?}", literal);
        assert_eq!(decimal.to_text().parse::<f64>().unwrap(), float);
        assert_eq!(Decimal::from_text(&decimal.to_text()).unwrap(), decimal);
    }
}

#[test]
fn fractions_are_equal_where_the_ordered_floating_numbers_are() {
    for a in FRACTIONS.iter() {
        for b in FRACTIONS.iter() {
            let x = Decimal::from_text(a).unwrap();
            let y = Decimal::from_text(b).unwrap();
            let u = OrderedFloat(a.parse::<f64>().unwrap());
            let v = OrderedFloat(b.parse::<f64>().unwrap());
            assert_eq!(x.same(&y), u == v, "{:?} and {:?}", a, b);
            assert_eq!(x == y, u == v, "{:?} and {:?}", a, b);
        }
    }
}

#[test]
fn zero_has_one_form() {
    for literal in ["0", "-0", "+0.000", "0e9", "-.0", "000"].iter() {
        let zero = Decimal::from_text(literal).unwrap();
        assert_eq!(zero.to_text(), "0");
        assert!(!zero.is_negative());
        assert!(zero.digits().is_empty());
        assert_eq!(zero.exponent(), 0);
    }
}

#[test]
fn a_decimal_is_its_sign_its_digits_and_its_power_of_ten() {
    let d = Decimal::from_text("-40525.1740").unwrap();
    assert!(d.is_negative());
    assert_eq!(d.digits(), &vec![4, 0, 5, 2, 5, 1, 7, 4]);
    assert_eq!(d.exponent(), -3);
    assert_eq!(d.to_text(), "-40525.174");
    let e = Decimal::from_text("12e5").unwrap();
    assert_eq!(e.digits(), &vec![1, 2]);
    assert_eq!(e.exponent(), 5);
    assert_eq!(e.to_text(), "1200000");
    let f = Decimal::from_text("0.00120").unwrap();
    assert_eq!(f.digits(), &vec![1, 2]);
    assert_eq!(f.exponent(), -4);
    assert_eq!(f.to_text(), "0.0012");
    assert_eq!(f.clone(), f);
}

#[test]
fn each_decimal_error_has_an_input() {
    assert_eq!(Decimal::from_text(""), Err(DecimalError::Empty));
    for literal in [
        "abc", ".", "+", "-", "1e", "1e+", "e5", "1.2.3", "1,5", "0x10", " 1", "1 ", "1e1.5",
        "--1", "inf", "nan", "1e99999999999999999999999999", "1e9223372036854775808",
    ]
    .iter()
    {
        assert_eq!(Decimal::from_text(literal), Err(DecimalError::Invalid), "{:?}", literal);
    }
    assert_eq!(Decimal::from_text("1e9223372036854775807").unwrap().exponent(), i64::MAX);
    assert_eq!(Decimal::from_text("1e-9223372036854775808").unwrap().exponent(), i64::MIN);
    assert_eq!(Decimal::from_text("10e9223372036854775807"), Err(DecimalError::Invalid));
}
