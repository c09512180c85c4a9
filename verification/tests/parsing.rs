use svg_panelize::decimal::Dec;
use svg_panelize::length::{parse_length, parse_offset, LengthError};
use svg_panelize::render::{dec_to_string, i128_to_string, u128_to_string};
use svg_panelize::viewbox::{parse_view_box, ViewBox, ViewBoxError};

#[test]
fn mm_value_exact() {
    assert_eq!(parse_length("42mm"), Ok(Dec { neg: false, mant: 42, scale: 0 }));
    assert_eq!(parse_length("12.5mm"), Ok(Dec { neg: false, mant: 125, scale: 1 }));
    assert_eq!(parse_length("0mm"), Ok(Dec { neg: false, mant: 0, scale: 0 }));
}

#[test]
fn cm_is_ten_millimetres() {
    assert_eq!(parse_length("5cm"), Ok(Dec { neg: false, mant: 50, scale: 0 }));
    assert_eq!(parse_length("4.2cm"), Ok(Dec { neg: false, mant: 42, scale: 0 }));
    assert_eq!(parse_length("0.25cm"), Ok(Dec { neg: false, mant: 25, scale: 1 }));
}

#[test]
fn signed_lengths() {
    assert_eq!(parse_length("-5mm"), Ok(Dec { neg: true, mant: 5, scale: 0 }));
    assert_eq!(parse_length("+5mm"), Ok(Dec { neg: false, mant: 5, scale: 0 }));
}

#[test]
fn unknown_suffix_rejected() {
    assert_eq!(parse_length("5px"), Err(LengthError::BadSuffix));
    assert_eq!(parse_length("5"), Err(LengthError::BadSuffix));
    assert_eq!(parse_length(""), Err(LengthError::BadSuffix));
    assert_eq!(parse_length("5in"), Err(LengthError::BadSuffix));
}

#[test]
fn bad_numeral_rejected() {
    assert_eq!(parse_length("abcmm"), Err(LengthError::BadNumber));
    assert_eq!(parse_length("1.2.3mm"), Err(LengthError::BadNumber));
    assert_eq!(parse_length("mm"), Err(LengthError::BadNumber));
    assert_eq!(parse_length(".cm"), Err(LengthError::BadNumber));
    assert_eq!(parse_length("1234567890123mm"), Err(LengthError::BadNumber));
}

#[test]
fn offsets_default_to_zero() {
    assert_eq!(parse_offset(None), Dec { neg: false, mant: 0, scale: 0 });
    assert_eq!(parse_offset(Some("junk")), Dec { neg: false, mant: 0, scale: 0 });
    assert_eq!(parse_offset(Some("10")), Dec { neg: false, mant: 10, scale: 0 });
    assert_eq!(parse_offset(Some("-2.5")), Dec { neg: true, mant: 25, scale: 1 });
}

#[test]
fn view_box_four_integers() {
    assert_eq!(
        parse_view_box("0 0 100 100"),
        Ok(ViewBox { min_x: 0, min_y: 0, width: 100, height: 100 })
    );
    assert_eq!(
        parse_view_box("\n  -5 -10 100 200 \t"),
        Ok(ViewBox { min_x: -5, min_y: -10, width: 100, height: 200 })
    );
    assert_eq!(
        parse_view_box("-2147483648 2147483647 1 1"),
        Ok(ViewBox { min_x: -2147483648, min_y: 2147483647, width: 1, height: 1 })
    );
}

#[test]
fn view_box_wrong_count() {
    assert_eq!(parse_view_box("0 0 100"), Err(ViewBoxError::WrongCount));
    assert_eq!(parse_view_box("0 0 100 100 7"), Err(ViewBoxError::WrongCount));
}

#[test]
fn view_box_bad_integer() {
    assert_eq!(parse_view_box("0 0 1e2 100"), Err(ViewBoxError::BadInt));
    assert_eq!(parse_view_box("0 0 100 2147483648"), Err(ViewBoxError::BadInt));
    assert_eq!(parse_view_box("0  0 100 100"), Err(ViewBoxError::BadInt));
    assert_eq!(parse_view_box(""), Err(ViewBoxError::BadInt));
}

#[test]
fn decimal_rendering() {
    assert_eq!(u128_to_string(0), "0");
    assert_eq!(u128_to_string(1234567890), "1234567890");
    assert_eq!(i128_to_string(-42), "-42");
    assert_eq!(i128_to_string(7), "7");
    assert_eq!(dec_to_string(false, 250, 2), "2.5");
    assert_eq!(dec_to_string(false, 375, 2), "3.75");
    assert_eq!(dec_to_string(true, 375, 2), "-3.75");
    assert_eq!(dec_to_string(true, 0, 0), "0");
    assert_eq!(dec_to_string(false, 5, 1), "0.5");
    assert_eq!(dec_to_string(false, 100, 0), "100");
}
