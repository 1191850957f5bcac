use cheat_engine_mcp::native_scan::{
    format_scan_output, native_byte_order, scan_buffer_with, ByteOrder, ParsedValue,
    ScanCriterion, ScanMatch, ScanType, MAX_MATCHES_SAVED,
};

fn parse_float(t: String, ty: ScanType) -> Result<ParsedValue, String> {
    match ty {
        ScanType::Float32 => t.parse::<f32>().map(|f| ParsedValue::F32(f.to_bits())).map_err(|e| e.to_string()),
        _ => t.parse::<f64>().map(|f| ParsedValue::F64(f.to_bits())).map_err(|e| e.to_string()),
    }
}

fn floats_close(a: ParsedValue, b: ParsedValue) -> bool {
    match (a, b) {
        (ParsedValue::F32(x), ParsedValue::F32(y)) => (f32::from_bits(x) - f32::from_bits(y)).abs() < 0.001,
        (ParsedValue::F64(x), ParsedValue::F64(y)) => (f64::from_bits(x) - f64::from_bits(y)).abs() < 0.00001,
        _ => false,
    }
}

fn float_text(v: ParsedValue) -> String {
    match v {
        ParsedValue::F32(x) => format!("{}", f32::from_bits(x)),
        ParsedValue::F64(x) => format!("{}", f64::from_bits(x)),
        _ => String::new(),
    }
}

const ALL_TYPES: [ScanType; 10] = [
    ScanType::Int8,
    ScanType::Int16,
    ScanType::Int32,
    ScanType::Int64,
    ScanType::UInt8,
    ScanType::UInt16,
    ScanType::UInt32,
    ScanType::UInt64,
    ScanType::Float32,
    ScanType::Float64,
];

#[test]
fn sizes_and_alignments() {
    let sizes: Vec<usize> = ALL_TYPES.iter().map(|t| t.size()).collect();
    assert_eq!(sizes, vec![1, 2, 4, 8, 1, 2, 4, 8, 4, 8]);
    let aligns: Vec<usize> = ALL_TYPES.iter().map(|t| t.alignment()).collect();
    assert_eq!(aligns, vec![1, 2, 4, 4, 1, 2, 4, 4, 4, 4]);
}

#[test]
fn type_names_round_trip() {
    for t in ALL_TYPES {
        assert_eq!(ScanType::from_lowercase_name(&t.to_string()), Some(t));
        assert_eq!(ScanType::from_str(&t.to_string()), Some(t));
    }
    assert_eq!(ScanType::from_str("FLOAT"), Some(ScanType::Float32));
    assert_eq!(ScanType::from_str("Number"), Some(ScanType::Int32));
    assert_eq!(ScanType::from_str("byte"), Some(ScanType::Int8));
    assert_eq!(ScanType::from_str("qword"), None);
    assert_eq!(ScanType::from_lowercase_name("INT"), None);
    assert_eq!(ScanType::Float64.to_string(), "double");
    assert!(ScanType::Float32.is_float());
    assert!(!ScanType::UInt64.is_float());
}

#[test]
fn detect_edge_cases() {
    assert_eq!(ScanType::detect("-2147483648"), ScanType::Int32);
    assert_eq!(ScanType::detect("2147483648"), ScanType::Int64);
    assert_eq!(ScanType::detect("99999999999999999999"), ScanType::Int32);
    assert_eq!(ScanType::detect("abc"), ScanType::Int32);
    assert_eq!(ScanType::detect(".5"), ScanType::Float32);
}

#[test]
fn integer_parse_errors() {
    let p = |s: &str, t: ScanType| ParsedValue::parse(s, t, &parse_float);
    assert_eq!(p(" 42 ", ScanType::Int32), Ok(ParsedValue::I32(42)));
    assert_eq!(p("+7", ScanType::UInt8), Ok(ParsedValue::U8(7)));
    assert_eq!(p("-128", ScanType::Int8), Ok(ParsedValue::I8(-128)));
    assert_eq!(p("18446744073709551615", ScanType::UInt64), Ok(ParsedValue::U64(u64::MAX)));
    assert_eq!(p("", ScanType::Int32), Err("cannot parse integer from empty string".to_string()));
    assert_eq!(p("   ", ScanType::Int16), Err("cannot parse integer from empty string".to_string()));
    assert_eq!(p("12a", ScanType::Int32), Err("invalid digit found in string".to_string()));
    assert_eq!(p("-", ScanType::Int32), Err("invalid digit found in string".to_string()));
    assert_eq!(p("-5", ScanType::UInt8), Err("invalid digit found in string".to_string()));
    assert_eq!(p("300", ScanType::Int8), Err("number too large to fit in target type".to_string()));
    assert_eq!(p("-200", ScanType::Int8), Err("number too small to fit in target type".to_string()));
    assert_eq!(p("65536", ScanType::UInt16), Err("number too large to fit in target type".to_string()));
}

#[test]
fn float_parse_goes_to_the_closure() {
    let v = ParsedValue::parse(" 1.5 ", ScanType::Float32, &parse_float).unwrap();
    assert_eq!(v, ParsedValue::F32(1.5f32.to_bits()));
    let v = ParsedValue::parse("2.25", ScanType::Float64, &parse_float).unwrap();
    assert_eq!(v, ParsedValue::F64(2.25f64.to_bits()));
    assert!(ParsedValue::parse("x", ScanType::Float64, &parse_float).is_err());
}

#[test]
fn bytes_round_trip() {
    let values = [
        ParsedValue::I8(-5),
        ParsedValue::U8(200),
        ParsedValue::I16(-30000),
        ParsedValue::U16(60000),
        ParsedValue::I32(-123456),
        ParsedValue::U32(4000000000),
        ParsedValue::I64(i64::MIN),
        ParsedValue::U64(u64::MAX - 7),
        ParsedValue::F32(3.25f32.to_bits()),
        ParsedValue::F64((-0.125f64).to_bits()),
    ];
    for v in values {
        let bytes = v.to_bytes();
        assert_eq!(bytes.len(), v.kind().size());
        assert_eq!(ParsedValue::from_bytes(&bytes, v.kind()), Some(v));
        for o in [ByteOrder::Little, ByteOrder::Big] {
            assert_eq!(ParsedValue::from_bytes_in(&v.to_bytes_in(o), v.kind(), o), Some(v));
        }
    }
    assert_eq!(ParsedValue::I32(-123456).to_bytes(), (-123456i32).to_ne_bytes().to_vec());
    assert_eq!(ParsedValue::U16(0x1234).to_bytes_in(ByteOrder::Big), vec![0x12, 0x34]);
    assert_eq!(ParsedValue::U16(0x1234).to_bytes_in(ByteOrder::Little), vec![0x34, 0x12]);
    assert_eq!(ParsedValue::from_bytes(&[1, 2, 3], ScanType::Int32), None);
    assert_eq!(ParsedValue::from_bytes(&[0xff], ScanType::Int8), Some(ParsedValue::I8(-1)));
    assert_eq!(ParsedValue::I8(-1).raw_bits(), 0xff);
}

#[test]
fn native_order_matches_the_machine() {
    let expected = if u16::from_ne_bytes([1, 0]) == 1 { ByteOrder::Little } else { ByteOrder::Big };
    assert_eq!(native_byte_order(), expected);
}

#[test]
fn comparisons_follow_ieee_order() {
    let f = |x: f32| ParsedValue::F32(x.to_bits());
    let nan = ParsedValue::F32(f32::NAN.to_bits());
    assert!(f(2.0).is_greater_than(&f(1.0)));
    assert!(f(-2.0).is_less_than(&f(-1.0)));
    assert!(f(-1.0).is_less_than(&f(0.5)));
    assert!(!f(0.0).is_greater_than(&f(-0.0)));
    assert!(f(0.0).is_in_range(&f(-0.0), &f(-0.0)));
    assert!(!nan.is_greater_than(&f(1.0)));
    assert!(!nan.is_less_than(&f(1.0)));
    assert!(!nan.is_in_range(&nan, &nan));
    assert!(f(f32::INFINITY).is_greater_than(&f(f32::MAX)));
    let d = |x: f64| ParsedValue::F64(x.to_bits());
    assert!(d(-0.5).is_in_range(&d(-1.0), &d(0.0)));
    // values of different kinds never compare
    assert!(!ParsedValue::I32(5).is_greater_than(&ParsedValue::I64(1)));
    assert!(!ParsedValue::U8(5).is_in_range(&ParsedValue::U8(1), &ParsedValue::U16(9)));
    assert!(ParsedValue::I64(-3).is_in_range(&ParsedValue::I64(-3), &ParsedValue::I64(-3)));
}

#[test]
fn greater_and_less_are_dual() {
    let vs = [ParsedValue::I16(-3), ParsedValue::I16(7), ParsedValue::I16(7)];
    for a in vs {
        for b in vs {
            assert_eq!(a.is_greater_than(&b), b.is_less_than(&a));
            assert!(!(a.is_greater_than(&b) && a.is_less_than(&b)));
        }
    }
}

#[test]
fn changed_is_not_unchanged() {
    let pairs = [
        (ParsedValue::I32(1), ParsedValue::I32(1)),
        (ParsedValue::I32(1), ParsedValue::I32(2)),
        (ParsedValue::I32(1), ParsedValue::I64(1)),
        (ParsedValue::F32(1.0f32.to_bits()), ParsedValue::F32(1.0004f32.to_bits())),
        (ParsedValue::F64(1.0f64.to_bits()), ParsedValue::F64(1.001f64.to_bits())),
    ];
    for (a, b) in pairs {
        assert_eq!(a.is_changed(&b, &floats_close), !a.is_unchanged(&b, &floats_close));
    }
    assert!(pairs[3].0.matches_exact(&pairs[3].1, &floats_close));
    assert!(!pairs[4].0.matches_exact(&pairs[4].1, &floats_close));
    assert!(!pairs[2].0.matches_exact(&pairs[2].1, &floats_close));
}

#[test]
fn value_text() {
    assert_eq!(ParsedValue::I8(-7).to_string(&float_text), "-7");
    assert_eq!(ParsedValue::U64(u64::MAX).to_string(&float_text), "18446744073709551615");
    assert_eq!(ParsedValue::I64(i64::MIN).to_string(&float_text), "-9223372036854775808");
    assert_eq!(ParsedValue::F32(1.5f32.to_bits()).to_string(&float_text), "1.5");
}

#[test]
fn scan_with_explicit_order_and_step() {
    let buf = vec![0x00, 0x01, 0x00, 0x02, 0x00, 0x01];
    let mut big = Vec::new();
    scan_buffer_with(0x100, &buf, ScanType::UInt16, ScanCriterion::Exact(ParsedValue::U16(1)), 0, ByteOrder::Big, &mut big, &floats_close);
    assert_eq!(big, vec![ScanMatch { address: 0x100, value: ParsedValue::U16(1) }, ScanMatch { address: 0x104, value: ParsedValue::U16(1) }]);
    let mut odd = Vec::new();
    scan_buffer_with(0x100, &buf, ScanType::UInt16, ScanCriterion::Any, 3, ByteOrder::Little, &mut odd, &floats_close);
    assert_eq!(odd, vec![ScanMatch { address: 0x100, value: ParsedValue::U16(0x100) }, ScanMatch { address: 0x103, value: ParsedValue::U16(2) }]);
    // the address wraps at the top of the address space
    let mut wrapped = Vec::new();
    scan_buffer_with(u64::MAX, &buf, ScanType::UInt8, ScanCriterion::Exact(ParsedValue::U8(2)), 1, ByteOrder::Little, &mut wrapped, &floats_close);
    assert_eq!(wrapped, vec![ScanMatch { address: 2, value: ParsedValue::U8(2) }]);
}

#[test]
fn scan_keeps_earlier_matches_and_stops_when_full() {
    let buf = vec![7u8; 64];
    let mut results = vec![ScanMatch { address: 1, value: ParsedValue::U8(1) }; MAX_MATCHES_SAVED - 3];
    scan_buffer_with(0, &buf, ScanType::UInt8, ScanCriterion::Any, 1, ByteOrder::Little, &mut results, &floats_close);
    assert_eq!(results.len(), MAX_MATCHES_SAVED);
    assert_eq!(results[0].address, 1);
    assert_eq!(results[MAX_MATCHES_SAVED - 3].address, 0);
    assert_eq!(results[MAX_MATCHES_SAVED - 1].address, 2);
    let mut short = Vec::new();
    scan_buffer_with(0, &buf[..3], ScanType::UInt32, ScanCriterion::Any, 1, ByteOrder::Little, &mut short, &floats_close);
    assert!(short.is_empty());
}

#[test]
fn report_of_many_matches() {
    let matches: Vec<ScanMatch> = (0..12u64)
        .map(|i| ScanMatch { address: 0x1000 + 4 * i, value: ParsedValue::I32(i as i32) })
        .collect();
    let out = format_scan_output(&matches, 25, ScanType::Int32, &float_text);
    assert!(out.starts_with("25 matches found.\n"));
    assert!(out.contains("[ 1] 0x00001000, 0, int32\n"));
    assert!(out.contains("[10] 0x00001024, 9, int32\n"));
    assert!(!out.contains("0x00001028"));
    assert!(out.ends_with("... and 15 more matches\n"));
    let f = vec![ScanMatch { address: 0x10, value: ParsedValue::F64(0.25f64.to_bits()) }];
    assert_eq!(format_scan_output(&f, 1, ScanType::Float64, &float_text), "1 matches found.\n[ 1] 0x00000010, 0.25, double\n");
    assert_eq!(format_scan_output(&[], 0, ScanType::Int8, &float_text), "0 matches found.\n");
}

#[test]
fn float_equality_is_ieee_equality() {
    let pz = ParsedValue::F32(0.0f32.to_bits());
    let nz = ParsedValue::F32((-0.0f32).to_bits());
    let nan = ParsedValue::F32(f32::NAN.to_bits());
    assert!(pz == nz);
    assert!(nan != nan);
    assert!(ParsedValue::F64(0.0f64.to_bits()) == ParsedValue::F64((-0.0f64).to_bits()));
    assert!(ParsedValue::F64(f64::NAN.to_bits()) != ParsedValue::F64(f64::NAN.to_bits()));
    assert!(ParsedValue::I32(5) == ParsedValue::I32(5));
    assert!(ParsedValue::I32(5) != ParsedValue::I64(5));
    assert!(ParsedValue::F32(1.0f32.to_bits()) != ParsedValue::F64(1.0f64.to_bits()));
    let m = ScanMatch { address: 0x10, value: pz };
    assert!(m == ScanMatch { address: 0x10, value: nz });
    assert!(m != ScanMatch { address: 0x14, value: pz });
    assert!(ScanMatch { address: 0x10, value: nan } != ScanMatch { address: 0x10, value: nan });
}
