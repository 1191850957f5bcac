use cheat_engine_mcp::native_scan::{
    format_scan_output, scan_buffer_any, scan_buffer_exact, scan_buffer_range, ParsedValue,
    ScanMatch, ScanType,
};

/// Reads a float from text, as the application does.
fn parse_float(t: String, ty: ScanType) -> Result<ParsedValue, String> {
    match ty {
        ScanType::Float32 => t
            .parse::<f32>()
            .map(|f| ParsedValue::F32(f.to_bits()))
            .map_err(|e| e.to_string()),
        _ => t
            .parse::<f64>()
            .map(|f| ParsedValue::F64(f.to_bits()))
            .map_err(|e| e.to_string()),
    }
}

/// The tolerance comparison of two floats, as the application does.
fn floats_close(a: ParsedValue, b: ParsedValue) -> bool {
    match (a, b) {
        (ParsedValue::F32(x), ParsedValue::F32(y)) => {
            (f32::from_bits(x) - f32::from_bits(y)).abs() < 0.001
        }
        (ParsedValue::F64(x), ParsedValue::F64(y)) => {
            (f64::from_bits(x) - f64::from_bits(y)).abs() < 0.00001
        }
        _ => false,
    }
}

/// Writes a float as text, as the application does.
fn float_text(v: ParsedValue) -> String {
    match v {
        ParsedValue::F32(x) => format!("{}", f32::from_bits(x)),
        ParsedValue::F64(x) => format!("{}", f64::from_bits(x)),
        _ => String::new(),
    }
}

#[test]
fn test_scan_type_detect() {
    assert_eq!(ScanType::detect("100"), ScanType::Int32);
    assert_eq!(ScanType::detect("100.5"), ScanType::Float32);
    assert_eq!(ScanType::detect("5000000000"), ScanType::Int64);
}

#[test]
fn test_parse_and_compare() {
    let val1 = ParsedValue::parse("100", ScanType::Int32, &parse_float).unwrap();
    let val2 = ParsedValue::parse("100", ScanType::Int32, &parse_float).unwrap();
    let val3 = ParsedValue::parse("150", ScanType::Int32, &parse_float).unwrap();

    assert!(val1.matches_exact(&val2, &floats_close));
    assert!(val3.is_greater_than(&val1));
    assert!(val1.is_less_than(&val3));
    assert!(val3.is_changed(&val1, &floats_close));
    assert!(val1.is_unchanged(&val2, &floats_close));
}

#[test]
fn test_scan_buffer_exact() {
    let mut buffer = vec![0u8; 32];
    let val: i32 = 42;
    buffer[8..12].copy_from_slice(&val.to_ne_bytes());
    buffer[20..24].copy_from_slice(&val.to_ne_bytes());

    let target = ParsedValue::I32(42);
    let mut matches = Vec::new();
    scan_buffer_exact(0x1000, &buffer, ScanType::Int32, &target, 4, &mut matches, &floats_close);

    assert_eq!(matches.len(), 2);
    assert_eq!(matches[0].address, 0x1008);
    assert_eq!(matches[1].address, 0x1014);
}

#[test]
fn test_scan_buffer_range() {
    let mut buffer = vec![0u8; 32];
    let val1: i32 = 50;
    let val2: i32 = 150;
    let val3: i32 = 300;
    buffer[4..8].copy_from_slice(&val1.to_ne_bytes());
    buffer[12..16].copy_from_slice(&val2.to_ne_bytes());
    buffer[20..24].copy_from_slice(&val3.to_ne_bytes());

    let low = ParsedValue::I32(40);
    let high = ParsedValue::I32(200);
    let mut matches = Vec::new();
    scan_buffer_range(
        0x2000,
        &buffer,
        ScanType::Int32,
        &low,
        &high,
        4,
        &mut matches,
    );

    assert_eq!(matches.len(), 2);
    assert_eq!(matches[0].address, 0x2004);
    assert_eq!(matches[1].address, 0x200c);
}

#[test]
fn test_scan_buffer_any() {
    let mut buffer = vec![0u8; 16];
    let val: i32 = 999;
    buffer[0..4].copy_from_slice(&val.to_ne_bytes());
    buffer[8..12].copy_from_slice(&val.to_ne_bytes());

    let mut matches = Vec::new();
    scan_buffer_any(0x3000, &buffer, ScanType::Int32, 4, &mut matches);
    assert_eq!(matches.len(), 4);
}

#[test]
fn test_format_scan_output() {
    let matches = vec![
        ScanMatch {
            address: 0x1000,
            value: ParsedValue::I32(100),
        },
        ScanMatch {
            address: 0x1004,
            value: ParsedValue::I32(200),
        },
    ];
    let out = format_scan_output(&matches, 2, ScanType::Int32, &float_text);
    assert!(out.contains("2 matches found."));
    assert!(out.contains("0x00001000, 100, int32"));
    assert!(out.contains("0x00001004, 200, int32"));
}
