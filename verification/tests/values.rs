use dataplane::value::{Value, ValueType, RWColumn};
use dataplane::convert::{value_to_elem, elem_to_value, scalar_from_value, PipelineError};
use dataplane::floatbits::double_hash_key;
use dataplane::text::{duration_to_display_str, format_i64, format_u64, trim_stars, lowered_contains};
use dataplane::table::Row;
use dataplane::colors::entity_colors;
use dataplane::output::{sorted_column_union, csv_cell_text, row_cells, str_le};

fn col() -> String {
    "c".to_string()
}

#[test]
fn element_type_names() {
    assert_eq!(ValueType::maybe_from_str("u8"), Some(ValueType::Uint8));
    assert_eq!(ValueType::maybe_from_str("UINT16"), Some(ValueType::Uint16));
    assert_eq!(ValueType::maybe_from_str("uint32"), Some(ValueType::Uint32));
    assert_eq!(ValueType::maybe_from_str("u64"), Some(ValueType::Uint64));
    assert_eq!(ValueType::maybe_from_str("int8"), Some(ValueType::Int8));
    assert_eq!(ValueType::maybe_from_str("I16"), Some(ValueType::Int16));
    assert_eq!(ValueType::maybe_from_str("i32"), Some(ValueType::Int32));
    assert_eq!(ValueType::maybe_from_str("int64"), Some(ValueType::Int64));
    assert_eq!(ValueType::maybe_from_str("float"), Some(ValueType::Float32));
    assert_eq!(ValueType::maybe_from_str("Float32"), Some(ValueType::Float32));
    assert_eq!(ValueType::maybe_from_str("f32"), Some(ValueType::Float32));
    assert_eq!(ValueType::maybe_from_str("double"), Some(ValueType::Float64));
    assert_eq!(ValueType::maybe_from_str("F64"), Some(ValueType::Float64));
    assert_eq!(ValueType::maybe_from_str("complex"), None);
    assert_eq!(ValueType::maybe_from_str(""), None);
}

#[test]
fn integer_text_stage_matches_std() {
    let cases = [
        "0", "42", "-42", "+7", "007", "9223372036854775807",
        "-9223372036854775808", "9223372036854775808", "-9223372036854775809",
        "", "-", "+", "1.5", "abc", " 1", "1 ", "1e5", "--3", "0x10",
        "18446744073709551615", "+0", "-0",
    ];
    for s in cases {
        let expect = s.parse::<i64>().ok().map(Value::Integer);
        assert_eq!(Value::from_integer_text(s), expect, "parse {s:?}");
    }
}

#[test]
fn rw_column_markings() {
    assert_eq!(RWColumn::from_str("r:a"), RWColumn::Read("a".to_string()));
    assert_eq!(RWColumn::from_str("w:b"), RWColumn::Write("b".to_string()));
    assert_eq!(RWColumn::from_str("rw:c"), RWColumn::ReadWrite("c".to_string()));
    assert_eq!(RWColumn::from_str("plain"), RWColumn::ReadWrite("plain".to_string()));
    assert_eq!(RWColumn::from_str(""), RWColumn::ReadWrite("".to_string()));
}

#[test]
fn integer_truncates_to_u8() {
    // 257 wraps to 1 on an 8-bit unsigned element
    assert_eq!(value_to_elem(&Value::Integer(257), ValueType::Uint8, &col()), Ok(1));
    assert_eq!(value_to_elem(&Value::Integer(-1), ValueType::Uint8, &col()), Ok(255));
    assert_eq!(value_to_elem(&Value::Integer(-1), ValueType::Int8, &col()), Ok(0xff));
}

#[test]
fn text_in_numeric_column_is_fatal() {
    let r = value_to_elem(&Value::Text("abc".to_string()), ValueType::Int32, &col());
    assert_eq!(r, Err(PipelineError::Binding("c".to_string())));
}

#[test]
fn double_truncation_matches_hardware() {
    let cases = [
        0.0f64, 1.5, -1.5, 257.9, -300.2, 255.999, 1e20, -1e20,
        f64::INFINITY, f64::NEG_INFINITY, f64::NAN, 1e-320, 4e9, -4e9,
        9.2233721e18, 1.9e19,
    ];
    for d in cases {
        let b = d.to_bits();
        assert_eq!(
            value_to_elem(&Value::Double(b), ValueType::Uint8, &col()),
            Ok((d as u8) as u64),
            "u8 of {d}"
        );
        assert_eq!(
            value_to_elem(&Value::Double(b), ValueType::Uint16, &col()),
            Ok((d as u16) as u64),
            "u16 of {d}"
        );
        assert_eq!(
            value_to_elem(&Value::Double(b), ValueType::Uint32, &col()),
            Ok((d as u32) as u64),
            "u32 of {d}"
        );
        assert_eq!(
            value_to_elem(&Value::Double(b), ValueType::Uint64, &col()),
            Ok(d as u64),
            "u64 of {d}"
        );
        assert_eq!(
            value_to_elem(&Value::Double(b), ValueType::Int8, &col()),
            Ok(((d as i8) as u8) as u64),
            "i8 of {d}"
        );
        assert_eq!(
            value_to_elem(&Value::Double(b), ValueType::Int16, &col()),
            Ok(((d as i16) as u16) as u64),
            "i16 of {d}"
        );
        assert_eq!(
            value_to_elem(&Value::Double(b), ValueType::Int32, &col()),
            Ok(((d as i32) as u32) as u64),
            "i32 of {d}"
        );
        assert_eq!(
            value_to_elem(&Value::Double(b), ValueType::Int64, &col()),
            Ok((d as i64) as u64),
            "i64 of {d}"
        );
    }
}

#[test]
fn integer_to_float_matches_hardware() {
    let cases = [
        0i64, 1, -1, 2, 123456789, -987654321, i64::MAX, i64::MIN,
        4503599627370497, 9007199254740993, -9007199254740995, 16777217,
    ];
    for i in cases {
        assert_eq!(
            value_to_elem(&Value::Integer(i), ValueType::Float64, &col()),
            Ok((i as f64).to_bits()),
            "f64 of {i}"
        );
        assert_eq!(
            value_to_elem(&Value::Integer(i), ValueType::Float32, &col()),
            Ok((i as f32).to_bits() as u64),
            "f32 of {i}"
        );
    }
}

#[test]
fn double_narrowing_matches_hardware() {
    let cases = [
        0.0f64, -0.0, 1.5, -2.25, 3.14159, 1e38, 3.4028236e38, 1e39, -1e39,
        f64::MAX, f64::MIN_POSITIVE, 1.0e-45, 7.0e-46, 1e-50, 16777217.0,
        -16777219.0, 1.1754942e-38, 2.3509886e-38,
    ];
    for d in cases {
        let b = d.to_bits();
        assert_eq!(
            value_to_elem(&Value::Double(b), ValueType::Float32, &col()),
            Ok((d as f32).to_bits() as u64),
            "f32 of {d}"
        );
        // a 64-bit float element keeps its bits exactly
        assert_eq!(value_to_elem(&Value::Double(b), ValueType::Float64, &col()), Ok(b));
    }
}

#[test]
fn float_element_widening_matches_hardware() {
    let cases = [
        1.5f32, -2.25, 0.0, -0.0, f32::MAX, f32::MIN_POSITIVE, 1.0e-45,
        5.9e-39, f32::INFINITY, f32::NEG_INFINITY,
    ];
    for f in cases {
        assert_eq!(
            elem_to_value(f.to_bits() as u64, ValueType::Float32),
            Some(Value::Double((f as f64).to_bits())),
            "promote {f}"
        );
    }
}

#[test]
fn f32_representable_cells_round_trip() {
    // a cell the 32-bit type represents exactly binds and reads back unchanged
    let cases = [
        0.0f32, -0.0, 1.5, -3.25, f32::MAX, f32::MIN_POSITIVE, 1.0e-45,
        f32::INFINITY, f32::NEG_INFINITY,
    ];
    for f in cases {
        let bits64 = (f as f64).to_bits();
        let elem = value_to_elem(&Value::Double(bits64), ValueType::Float32, &col()).unwrap();
        assert_eq!(elem, f.to_bits() as u64, "narrow {f}");
        assert_eq!(
            elem_to_value(elem, ValueType::Float32),
            Some(Value::Double(bits64)),
            "widen {f}"
        );
    }
}

#[test]
fn readback_sign_extension_and_overflow() {
    assert_eq!(elem_to_value(0xff, ValueType::Int8), Some(Value::Integer(-1)));
    assert_eq!(elem_to_value(0xff, ValueType::Uint8), Some(Value::Integer(255)));
    assert_eq!(elem_to_value(0x8000, ValueType::Int16), Some(Value::Integer(-32768)));
    assert_eq!(elem_to_value(u64::MAX, ValueType::Int64), Some(Value::Integer(-1)));
    assert_eq!(elem_to_value(i64::MAX as u64, ValueType::Uint64), Some(Value::Integer(i64::MAX)));
    // a 64-bit unsigned element beyond the signed range has no row value
    assert_eq!(elem_to_value(i64::MAX as u64 + 1, ValueType::Uint64), None);
}

#[test]
fn nan_hashes_to_the_sentinel() {
    assert_eq!(double_hash_key(f64::NAN.to_bits()), 0);
    assert_eq!(double_hash_key((-f64::NAN).to_bits()), 0);
    assert_eq!(double_hash_key((f64::NAN * 1e300).to_bits()), 0);
}

#[test]
fn scaled_billionths_matches_hardware() {
    let cases = [
        0.0f64, -0.0, 1.0, -1.0, 0.5, -0.5, 1.23456789, -1.23456789,
        2.5e-10, -2.5e-10, 3.5e-10, 1e10, -1e10, 9.3e9, 2.3e-13,
        6.7e300, -6.7e300, 1e9, -1e9, 9.223372036854775e9,
        f64::INFINITY, f64::NEG_INFINITY, 1e-320, f64::MIN_POSITIVE,
        12345.6789, -0.999999999, 0.9999999999, 1.0000000001,
        f64::MAX, f64::MIN, 9.3e-10, -9.3e-10, 4.9e-10, -4.9e-10,
        5.0e-10, 1.5e-9, 2.5e-9, -2.5e-9, 7.5e-10, 1.49999999e-9,
    ];
    for d in cases {
        assert_eq!(
            double_hash_key(d.to_bits()),
            (d * 1_000_000_000.0).round() as i64,
            "key of {d}"
        );
    }
}

#[test]
fn scalar_conversion_follows_type_hint() {
    let s = scalar_from_value(&Value::Integer(300), "uchar", &col()).unwrap();
    assert_eq!(s.et, ValueType::Uint8);
    assert_eq!(s.bits, 44);
    // unknown device type name: a 64-bit type fitting the value
    let s = scalar_from_value(&Value::Integer(-5), "size_t", &col()).unwrap();
    assert_eq!(s.et, ValueType::Int64);
    assert_eq!(s.bits, (-5i64) as u64);
    let s = scalar_from_value(&Value::Double(2.5f64.to_bits()), "half2", &col()).unwrap();
    assert_eq!(s.et, ValueType::Float64);
    assert_eq!(s.bits, 2.5f64.to_bits());
    assert!(scalar_from_value(&Value::Text("x".to_string()), "int", &col()).is_err());
}

#[test]
fn duration_display_formats() {
    assert_eq!(duration_to_display_str(0).as_str(), "000ms");
    assert_eq!(duration_to_display_str(4).as_str(), "004ms");
    assert_eq!(duration_to_display_str(61001).as_str(), "01m 01s 001ms");
    assert_eq!(duration_to_display_str(3_723_004).as_str(), "01h 02m 03s 004ms");
    assert_eq!(duration_to_display_str(45_067).as_str(), "45s 067ms");
    assert_eq!(duration_to_display_str(360_000_000).as_str(), "100h 00m 00s 000ms");
}

#[test]
fn decimal_rendering() {
    assert_eq!(format_u64(0).as_str(), "0");
    assert_eq!(format_u64(9_007_199_254_740_993).as_str(), "9007199254740993");
    assert_eq!(format_i64(-42).as_str(), "-42");
    assert_eq!(format_i64(i64::MIN).as_str(), "-9223372036854775808");
}

#[test]
fn type_name_star_trimming_and_contains() {
    assert_eq!(trim_stars("int*"), "int");
    assert_eq!(trim_stars("double"), "double");
    assert_eq!(trim_stars("uchar**"), "uchar");
    assert!(lowered_contains("GeForce RTX", "force"));
    assert!(!lowered_contains("GeForce RTX", "radeon"));
    assert!(lowered_contains("anything", ""));
}

fn row_of(pairs: &[(&str, Value)]) -> Row {
    let mut r = Row::new();
    for (k, v) in pairs {
        r.set(&k.to_string(), v.clone());
    }
    r
}

#[test]
fn entity_colors_parse_css_text() {
    let table = vec![
        row_of(&[("tint", Value::Text("red".to_string()))]),
        row_of(&[("tint", Value::Text("#00ff00".to_string()))]),
        row_of(&[("tint", Value::Text("not a colour".to_string()))]),
        row_of(&[("other", Value::Integer(3))]),
        row_of(&[("tint", Value::Double(1.25f64.to_bits()))]),
    ];
    let colors = entity_colors(&table, &"tint".to_string());
    assert_eq!(colors.len(), 5);
    assert_eq!(colors[0], (255, 0, 0, 255));
    assert_eq!(colors[1], (0, 255, 0, 255));
    assert_eq!(colors[2], (0, 0, 0, 255));
    assert_eq!(colors[3], (0, 0, 0, 255));
    assert_eq!(colors[4], (0, 0, 0, 255));
}

#[test]
fn csv_header_union_is_sorted() {
    let table = vec![
        row_of(&[("beta", Value::Integer(1)), ("alpha", Value::Integer(2))]),
        row_of(&[("gamma", Value::Integer(3)), ("alpha", Value::Integer(4))]),
    ];
    let header = sorted_column_union(&table);
    let names: Vec<&str> = header.iter().map(|s| s.as_str()).collect();
    assert_eq!(names, vec!["alpha", "beta", "gamma"]);
    let cells = row_cells(&table[1], &header);
    assert_eq!(cells[0], Some(Value::Integer(4)));
    assert_eq!(cells[1], None);
    assert_eq!(cells[2], Some(Value::Integer(3)));
}

#[test]
fn csv_cell_rendering() {
    assert_eq!(csv_cell_text(&Value::Integer(-7)).unwrap().as_str(), "-7");
    assert_eq!(csv_cell_text(&Value::Text("hi, there".to_string())).unwrap().as_str(), "hi, there");
    assert!(csv_cell_text(&Value::Double(1.5f64.to_bits())).is_none());
}

#[test]
fn text_ordering_is_lexicographic() {
    assert!(str_le("", "a"));
    assert!(str_le("a", "ab"));
    assert!(!str_le("ab", "a"));
    assert!(str_le("abc", "abd"));
    assert!(str_le("X", "x"));
    assert!(str_le("same", "same"));
}
