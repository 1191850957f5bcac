use cheat_engine_mcp::native_scan::{ParsedValue, ScanCriterion, ScanMatch, ScanType, MAX_MATCHES_SAVED};
use cheat_engine_mcp::process::{
    chunk_to_read, finish_read, finish_write, get_module_base, is_process_selected, is_readable,
    is_writable, list_processes_step, module_info_from_entry, module_name_matches_exec,
    process_filter, process_info_from_entry, process_line_exec, process_not_found_message,
    protect_to_perms, refine_scan_matches, region_scan_start, region_step, scan_chunk_step,
    wchar_to_string, MemoryRegion, ModuleInfo, RefineOp, MAX_PROCESSES_LISTED, PROCESSENTRY32W,
    QUERY_LIMIT, SCAN_CHUNK_SIZE,
};

fn units(s: &str) -> Vec<u16> {
    let mut v: Vec<u16> = s.encode_utf16().collect();
    v.push(0);
    v
}

fn entry(pid: u32, parent: u32, threads: u32, name: &str) -> PROCESSENTRY32W {
    let mut exe = [0u16; 260];
    for (i, u) in name.encode_utf16().enumerate() {
        exe[i] = u;
    }
    PROCESSENTRY32W {
        dwSize: 568,
        cntUsage: 0,
        th32ProcessID: pid,
        th32DefaultHeapID: 0,
        th32ModuleID: 0,
        cntThreads: threads,
        th32ParentProcessID: parent,
        pcPriClassBase: 8,
        dwFlags: 0,
        szExeFile: exe,
    }
}

fn module(name: &str, base: u64) -> ModuleInfo {
    ModuleInfo { name: name.to_string(), base, size: 0x1000, path: format!("C:\\{name}") }
}

fn floats_close(a: ParsedValue, b: ParsedValue) -> bool {
    match (a, b) {
        (ParsedValue::F32(x), ParsedValue::F32(y)) => {
            (f32::from_bits(x) - f32::from_bits(y)).abs() < 0.001
        }
        (ParsedValue::F64(x), ParsedValue::F64(y)) => {
            (f64::from_bits(x) - f64::from_bits(y)).abs() < 0.00001
        }
        _ => false,
    }
}

#[test]
fn wchar_to_string_stops_at_nul() {
    assert_eq!(wchar_to_string(&[72, 105, 0, 88]), "Hi");
    assert_eq!(wchar_to_string(&[72, 105]), "Hi");
    assert_eq!(wchar_to_string(&[0, 72]), "");
}

#[test]
fn wchar_to_string_decodes_surrogates() {
    assert_eq!(wchar_to_string(&[0xD83D, 0xDE00, 0]), "\u{1F600}");
    assert_eq!(wchar_to_string(&[0xD800, 65, 0]), "\u{FFFD}A");
    assert_eq!(wchar_to_string(&[0xDC00]), "\u{FFFD}");
    assert_eq!(wchar_to_string(&units("héllo.exe")), "héllo.exe");
}

#[test]
fn protection_words() {
    assert_eq!(protect_to_perms(0x02), "r--");
    assert_eq!(protect_to_perms(0x04), "rw-");
    assert_eq!(protect_to_perms(0x08), "rw-");
    assert_eq!(protect_to_perms(0x10), "--x");
    assert_eq!(protect_to_perms(0x20), "r-x");
    assert_eq!(protect_to_perms(0x40), "rwx");
    assert_eq!(protect_to_perms(0x80), "rwx");
    assert_eq!(protect_to_perms(0x01), "---");
    assert_eq!(protect_to_perms(0x104), "rw-");
    assert!(is_writable(0x04));
    assert!(is_writable(0x204));
    assert!(!is_writable(0x02));
    assert!(!is_writable(0x20));
    assert!(is_readable(0x20));
    assert!(!is_readable(0x01));
    assert!(!is_readable(0x104));
}

#[test]
fn region_step_keeps_committed_readable_regions() {
    let mut regions: Vec<MemoryRegion> = Vec::new();
    let next = region_step(0x1000, 0x1000, 0x2000, 0x1000, 0x04, true, &mut regions);
    assert_eq!(next, Some(0x3000));
    assert_eq!(regions.len(), 1);
    assert_eq!(regions[0].start, 0x1000);
    assert_eq!(regions[0].end, 0x3000);
    assert_eq!(regions[0].perms, "rw-");
    assert_eq!(regions[0].size, 0x2000);

    // read-only pages are left out when only writable regions are asked for
    let next = region_step(0x3000, 0x3000, 0x1000, 0x1000, 0x02, true, &mut regions);
    assert_eq!(next, Some(0x4000));
    assert_eq!(regions.len(), 1);
    region_step(0x3000, 0x3000, 0x1000, 0x1000, 0x02, false, &mut regions);
    assert_eq!(regions.len(), 2);
    assert_eq!(regions[1].perms, "r--");

    // reserved memory and guard pages are left out
    region_step(0x4000, 0x4000, 0x1000, 0x2000, 0x04, false, &mut regions);
    region_step(0x4000, 0x4000, 0x1000, 0x1000, 0x104, false, &mut regions);
    assert_eq!(regions.len(), 2);
}

#[test]
fn region_step_ends_the_walk() {
    let mut regions: Vec<MemoryRegion> = Vec::new();
    assert_eq!(region_step(0x5000, 0x5000, 0, 0x1000, 0x04, false, &mut regions), None);
    assert_eq!(regions.len(), 1);
    assert_eq!(region_step(QUERY_LIMIT - 0x1000, QUERY_LIMIT - 0x1000, 0x1000, 0x2000, 0x04, false, &mut regions), None);
    assert_eq!(region_step(u64::MAX - 1, u64::MAX - 1, 0x10, 0x1000, 0x04, false, &mut regions), None);
    assert_eq!(regions[1].end, u64::MAX);
}

#[test]
fn process_listing_lines() {
    assert_eq!(process_filter(Some("NoTePad")), "notepad");
    assert_eq!(process_filter(None), "");
    assert_eq!(process_line_exec(1234, "Notepad.exe"), "   1234 Notepad.exe");
    assert_eq!(process_line_exec(12345678, "a"), "12345678 a");
    assert!(is_process_selected(4, "system", ""));
    assert!(!is_process_selected(0, "idle", ""));
    assert!(is_process_selected(1234, "notepad.exe", "pad"));
    assert!(is_process_selected(1234, "notepad.exe", "23"));
    assert!(!is_process_selected(1234, "notepad.exe", "calc"));
}

#[test]
fn list_processes_step_filters_by_lowered_name() {
    let mut results = Vec::new();
    let filter = process_filter(Some("NOTE"));
    assert!(list_processes_step(&mut results, &entry(1234, 4, 3, "Notepad.exe"), &filter));
    assert!(list_processes_step(&mut results, &entry(999, 4, 1, "calc.exe"), &filter));
    assert!(list_processes_step(&mut results, &entry(0, 0, 1, "[System Process]"), ""));
    assert_eq!(results, vec!["   1234 Notepad.exe".to_string()]);
}

#[test]
fn list_processes_step_stops_at_the_limit() {
    let mut results = Vec::new();
    for pid in 1..MAX_PROCESSES_LISTED as u32 {
        assert!(list_processes_step(&mut results, &entry(pid, 0, 1, "a.exe"), ""));
    }
    assert!(!list_processes_step(&mut results, &entry(500, 0, 1, "b.exe"), ""));
    assert_eq!(results.len(), MAX_PROCESSES_LISTED);
}

#[test]
fn process_info_from_matching_entry() {
    let e = entry(1234, 88, 7, "Game.exe");
    let info = process_info_from_entry(1234, &e).expect("entry of the process");
    assert_eq!(info.pid, 1234);
    assert_eq!(info.name, "Game.exe");
    assert_eq!(info.parent_pid, 88);
    assert_eq!(info.threads, 7);
    assert_eq!(info.state, "running (Windows Win32)");
    assert_eq!(info.platform, "windows");
    assert!(process_info_from_entry(1235, &e).is_none());
    // the id is compared truncated to 32 bits
    let wide = process_info_from_entry(0x1_0000_04D2, &e).expect("truncated id");
    assert_eq!(wide.pid, 0x1_0000_04D2);
    assert_eq!(process_not_found_message(42), "process with pid 42 not found");
}

#[test]
fn modules_are_found_without_case() {
    let m = module_info_from_entry(&units("GameAssembly.dll"), &units("C:\\Game\\GameAssembly.dll"), 0x7ff0_0000, 0x2000);
    assert_eq!(m.name, "GameAssembly.dll");
    assert_eq!(m.path, "C:\\Game\\GameAssembly.dll");
    assert_eq!(m.base, 0x7ff0_0000);
    assert_eq!(m.size, 0x2000);
    let modules = vec![module("ntdll.dll", 0x1000), m, module("UnityPlayer.dll", 0x3000)];
    assert_eq!(get_module_base(&modules, "GAMEASSEMBLY.DLL"), Some(0x7ff0_0000));
    assert_eq!(get_module_base(&modules, "gameassembly"), Some(0x7ff0_0000));
    assert_eq!(get_module_base(&modules, "unity"), Some(0x3000));
    assert_eq!(get_module_base(&modules, "dll"), Some(0x1000));
    assert_eq!(get_module_base(&modules, "kernel32"), None);
    assert_eq!(get_module_base(&[], "ntdll"), None);
    assert!(module_name_matches_exec("ntdll.dll", "ntdll.dll"));
    assert!(module_name_matches_exec("ntdll.dll", "ll.d"));
    assert!(!module_name_matches_exec("ntdll", "ntdll.dll"));
}

#[test]
fn reads_and_writes() {
    let buffer = vec![1u8, 2, 3, 4, 5, 6, 7, 8];
    assert_eq!(finish_read(buffer.clone(), true, 3, 0x1000, 8, 0), Ok(vec![1, 2, 3]));
    assert_eq!(finish_read(buffer.clone(), true, 8, 0x1000, 8, 0), Ok(buffer.clone()));
    assert_eq!(
        finish_read(buffer.clone(), false, 0, 0x1000, 16, 299),
        Err("failed to read memory at 0x00001000 (len=16): error code 299".to_string())
    );
    assert_eq!(
        finish_read(buffer.clone(), true, 0, 0xdead_beef_0, 8, 5),
        Err("failed to read memory at 0xdeadbeef0 (len=8): error code 5".to_string())
    );
    assert_eq!(finish_write(true, 4, 0x1000, 0), Ok(4));
    assert_eq!(
        finish_write(false, 0, 0x1234, 998),
        Err("failed to write memory at 0x00001234: error code 998".to_string())
    );
}

#[test]
fn chunks_of_a_region() {
    assert_eq!(chunk_to_read(0, 0x30000), SCAN_CHUNK_SIZE as usize);
    assert_eq!(chunk_to_read(0x1000, 0x1064), 100);
    let region = MemoryRegion { start: 0x1000, end: 0x2000, perms: "rw-".to_string(), size: 0x1000 };
    assert_eq!(region_scan_start(&region, &Vec::new()), Some(0x1000));
    let empty = MemoryRegion { start: 0x1000, end: 0x1000, perms: "rw-".to_string(), size: 0 };
    assert_eq!(region_scan_start(&empty, &Vec::new()), None);
    let full = vec![ScanMatch { address: 0, value: ParsedValue::U8(0) }; MAX_MATCHES_SAVED];
    assert_eq!(region_scan_start(&region, &full), None);
}

#[test]
fn scan_chunk_step_scans_and_moves_on() {
    let mut bytes = vec![0u8; 16];
    bytes[4..8].copy_from_slice(&42i32.to_ne_bytes());
    bytes[12..16].copy_from_slice(&42i32.to_ne_bytes());
    let mut matches = Vec::new();
    let criterion = ScanCriterion::Exact(ParsedValue::I32(42));
    let next = scan_chunk_step(criterion, ScanType::Int32, 0x10000, 0x30000, Some(&bytes), &mut matches, &floats_close);
    assert_eq!(next, Some(0x20000));
    assert_eq!(matches.len(), 2);
    assert_eq!(matches[0].address, 0x10004);
    assert_eq!(matches[1].address, 0x1000c);

    // a failed read adds nothing; the last chunk of a region ends its scan
    let next = scan_chunk_step(criterion, ScanType::Int32, 0x20000, 0x30000, None, &mut matches, &floats_close);
    assert_eq!(next, None);
    assert_eq!(matches.len(), 2);

    // fewer bytes than one value are not scanned
    let next = scan_chunk_step(ScanCriterion::Any, ScanType::Int32, 0, 0x30000, Some(&bytes[..3]), &mut matches, &floats_close);
    assert_eq!(next, Some(0x10000));
    assert_eq!(matches.len(), 2);

    let low = ParsedValue::I32(0);
    let high = ParsedValue::I32(10);
    scan_chunk_step(ScanCriterion::Range(low, high), ScanType::Int32, 0, 0x10, Some(&bytes), &mut matches, &floats_close);
    assert_eq!(matches.len(), 4);
    assert_eq!(matches[2].address, 0);
    assert_eq!(matches[3].address, 8);
}

#[test]
fn refine_op_names() {
    assert_eq!(RefineOp::parse("+"), RefineOp::Increased);
    assert_eq!(RefineOp::parse(">"), RefineOp::Increased);
    assert_eq!(RefineOp::parse("-"), RefineOp::Decreased);
    assert_eq!(RefineOp::parse("<"), RefineOp::Decreased);
    assert_eq!(RefineOp::parse("!="), RefineOp::Changed);
    assert_eq!(RefineOp::parse("changed"), RefineOp::Changed);
    assert_eq!(RefineOp::parse("="), RefineOp::Unchanged);
    assert_eq!(RefineOp::parse("unchanged"), RefineOp::Unchanged);
    assert_eq!(RefineOp::parse("exact"), RefineOp::Exact);
    assert_eq!(RefineOp::parse("Exact"), RefineOp::Unknown);
    assert_eq!(RefineOp::parse(""), RefineOp::Unknown);
}

fn matches_of(values: &[i32]) -> Vec<ScanMatch> {
    values
        .iter()
        .enumerate()
        .map(|(i, v)| ScanMatch { address: 0x1000 + 4 * i as u64, value: ParsedValue::I32(*v) })
        .collect()
}

fn reads_of(values: &[Option<i32>]) -> Vec<Option<Vec<u8>>> {
    values.iter().map(|v| v.map(|x| x.to_ne_bytes().to_vec())).collect()
}

#[test]
fn refine_keeps_increased_values() {
    let mut matches = matches_of(&[10, 20, 30]);
    let reads = reads_of(&[Some(11), Some(20), Some(29)]);
    let n = refine_scan_matches(&mut matches, &reads, ScanType::Int32, "+", None, &floats_close);
    assert_eq!(n, 1);
    assert_eq!(matches, vec![ScanMatch { address: 0x1000, value: ParsedValue::I32(11) }]);
}

#[test]
fn refine_changed_and_unchanged_split_the_matches() {
    let reads = reads_of(&[Some(10), Some(21), Some(30), Some(5)]);
    let mut changed = matches_of(&[10, 20, 30, 40]);
    let mut unchanged = changed.clone();
    refine_scan_matches(&mut changed, &reads, ScanType::Int32, "changed", None, &floats_close);
    refine_scan_matches(&mut unchanged, &reads, ScanType::Int32, "=", None, &floats_close);
    assert_eq!(changed.iter().map(|m| m.address).collect::<Vec<_>>(), vec![0x1004, 0x100c]);
    assert_eq!(unchanged.iter().map(|m| m.address).collect::<Vec<_>>(), vec![0x1000, 0x1008]);
    assert_eq!(changed.len() + unchanged.len(), 4);
}

#[test]
fn refine_drops_failed_reads_and_unknown_ops() {
    let mut matches = matches_of(&[1, 2, 3]);
    let reads = vec![None, Some(vec![1u8, 2]), Some(3i32.to_ne_bytes().to_vec())];
    let target = ParsedValue::I32(3);
    let n = refine_scan_matches(&mut matches, &reads, ScanType::Int32, "exact", Some(&target), &floats_close);
    assert_eq!(n, 1);
    assert_eq!(matches[0].address, 0x1008);

    let mut matches = matches_of(&[1, 2]);
    let reads = reads_of(&[Some(1), Some(2)]);
    assert_eq!(refine_scan_matches(&mut matches, &reads, ScanType::Int32, "exact", None, &floats_close), 0);
    let mut matches = matches_of(&[1, 2]);
    assert_eq!(refine_scan_matches(&mut matches, &reads, ScanType::Int32, "bogus", None, &floats_close), 0);
    assert!(matches.is_empty());
}

#[test]
fn refine_compares_floats_with_tolerance() {
    let mut matches = vec![ScanMatch { address: 0x10, value: ParsedValue::F32(1.0f32.to_bits()) }];
    let reads = vec![Some(1.0005f32.to_ne_bytes().to_vec())];
    assert_eq!(refine_scan_matches(&mut matches, &reads, ScanType::Float32, "unchanged", None, &floats_close), 1);
    assert_eq!(matches[0].value, ParsedValue::F32(1.0005f32.to_bits()));
    let reads = vec![Some(1.5f32.to_ne_bytes().to_vec())];
    assert_eq!(refine_scan_matches(&mut matches, &reads, ScanType::Float32, "unchanged", None, &floats_close), 0);
}
