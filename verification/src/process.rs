//! The decisions of process and memory inspection: what a process entry,
//! a module entry, a memory region, or a read of memory yields. The system
//! calls that produce these inputs are made by the caller.
use vstd::prelude::*;
use crate::native_scan::{
    criterion_keeps, exact_match, float_close_callable, float_close_deterministic,
    lemma_integer_order, machine_byte_order, native_byte_order, scan_buffer_with, scan_from,
    type_alignment, type_size, value_from_bytes, value_greater, value_less, ByteOrder,
    ParsedValue, ScanCriterion, ScanMatch, ScanType, MAX_MATCHES_SAVED,
};
use crate::text::{
    chars_of, contains, contains_exec, decimal, decimal_exec, equals_exec, equals_str, hex,
    hex_exec,
    lowercase, pad_left, pad_left_exec, push_all, push_str, string_of, to_lowercase,
};

verus! {

// ---------------------------------------------------------------------------
// UTF-16 text
// ---------------------------------------------------------------------------

/// The code points that UTF-16 units `s` encode, each unpaired surrogate
/// becoming U+FFFD, the replacement character (`String::from_utf16_lossy`).
pub open spec fn utf16_code_points(s: Seq<u16>) -> Seq<u32>
    decreases s.len(),
{
    if s.len() == 0 {
        Seq::empty()
    } else {
        let u = s[0];
        if u < 0xd800 || u > 0xdfff {
            seq![u as u32] + utf16_code_points(s.drop_first())
        } else if u <= 0xdbff && s.len() >= 2 && 0xdc00 <= s[1] && s[1] <= 0xdfff {
            seq![(0x10000 + (u - 0xd800) * 0x400 + (s[1] - 0xdc00)) as u32] + utf16_code_points(
                s.skip(2),
            )
        } else {
            seq![0xfffdu32] + utf16_code_points(s.drop_first())
        }
    }
}

/// The code points of a text.
pub open spec fn code_points(s: Seq<char>) -> Seq<u32> {
    s.map_values(|c: char| c as u32)
}

/// The text that UTF-16 units `s` encode (`String::from_utf16_lossy`).
pub open spec fn utf16_text(s: Seq<u16>) -> Seq<char> {
    utf16_code_points(s).map_values(|u: u32| u as char)
}

/// The units of `s` before its first 0 unit (all of them when there is none).
pub open spec fn before_nul(s: Seq<u16>) -> Seq<u16>
    decreases s.len(),
{
    if s.len() == 0 || s[0] == 0 {
        Seq::empty()
    } else {
        seq![s[0]] + before_nul(s.drop_first())
    }
}

/// `char::from_u32`: the character with code point `u`, or nothing for a
/// surrogate or a value above U+10FFFF.
#[verifier::external_body]
fn char_from_u32(u: u32) -> (res: Option<char>)
    ensures
        match res {
            Some(c) => c as u32 == u,
            None => (0xd800 <= u && u <= 0xdfff) || u > 0x10ffff,
        },
{
    char::from_u32(u)
}

/// The text of a NUL-terminated UTF-16 buffer, as Windows stores names.
pub fn wchar_to_string(slice: &[u16]) -> (res: String)
    ensures
        res@ == utf16_text(before_nul(slice@)),
{
    let mut n: usize = 0;
    while n < slice.len() && slice[n] != 0
        invariant
            n <= slice.len(),
            forall|k: int| 0 <= k < n ==> slice@[k] != 0,
        decreases slice.len() - n,
    {
        n = n + 1;
    }
    let ghost units = slice@.take(n as int);
    proof {
        lemma_before_nul(slice@, n as int);
    }
    let mut out: Vec<char> = Vec::new();
    let mut i: usize = 0;
    assert(units.skip(0) =~= units);
    assert(code_points(out@) + utf16_code_points(units) =~= utf16_code_points(units));
    while i < n
        invariant
            i <= n <= slice.len(),
            units == slice@.take(n as int),
            code_points(out@) + utf16_code_points(units.skip(i as int)) == utf16_code_points(units),
        decreases n - i,
    {
        let u = slice[i];
        let ghost rest = units.skip(i as int);
        assert(rest[0] == u);
        if u < 0xd800 || u > 0xdfff {
            let c = char_from_u32(u as u32);
            let ch = match c {
                Some(ch) => ch,
                None => '\u{FFFD}',
            };
            assert(ch as u32 == u as u32);
            let ghost before = out@;
            out.push(ch);
            assert(code_points(out@) =~= code_points(before).push(ch as u32));
            assert(rest.drop_first() =~= units.skip(i + 1));
            i = i + 1;
        } else if u <= 0xdbff && i + 1 < n && 0xdc00 <= slice[i + 1] && slice[i + 1] <= 0xdfff {
            let lo = slice[i + 1];
            assert(rest[1] == lo);
            let code: u32 = 0x10000 + (u as u32 - 0xd800) * 0x400 + (lo as u32 - 0xdc00);
            let c = char_from_u32(code);
            let ch = match c {
                Some(ch) => ch,
                None => '\u{FFFD}',
            };
            assert(ch as u32 == code);
            let ghost before = out@;
            out.push(ch);
            assert(code_points(out@) =~= code_points(before).push(ch as u32));
            assert(rest.skip(2) =~= units.skip(i + 2));
            i = i + 2;
        } else {
            let ghost before = out@;
            out.push('\u{FFFD}');
            assert(code_points(out@) =~= code_points(before).push(0xfffdu32));
            assert(rest.drop_first() =~= units.skip(i + 1));
            i = i + 1;
        }
    }
    assert(units.skip(n as int) =~= Seq::<u16>::empty());
    assert(code_points(out@) + Seq::<u32>::empty() =~= code_points(out@));
    assert forall|k: int| 0 <= k < out@.len() implies out@[k] == utf16_text(units)[k] by {
        assert(code_points(out@)[k] == out@[k] as u32);
        assert(utf16_code_points(units)[k] == out@[k] as u32);
        lemma_char_code_round_trip(out@[k]);
        assert(utf16_text(units)[k] == (utf16_code_points(units)[k]) as char);
    }
    assert(out@ =~= utf16_text(units));
    string_of(out.as_slice())
}

/// A character is the character of its code point.
proof fn lemma_char_code_round_trip(c: char)
    ensures
        (c as u32) as char == c,
{
}

/// The units before the first 0 are the first `n` units when the `n`-th is
/// the first 0 (or `n` is the length).
proof fn lemma_before_nul(s: Seq<u16>, n: int)
    requires
        0 <= n <= s.len(),
        forall|k: int| 0 <= k < n ==> s[k] != 0,
        n == s.len() || s[n] == 0,
    ensures
        before_nul(s) == s.take(n),
    decreases n,
{
    if n == 0 {
        assert(s.take(0) =~= Seq::<u16>::empty());
    } else {
        lemma_before_nul(s.drop_first(), n - 1);
        assert(s.take(n) =~= seq![s[0]] + s.drop_first().take(n - 1));
    }
}

// ---------------------------------------------------------------------------
// Processes
// ---------------------------------------------------------------------------

/// An entry of a Toolhelp process snapshot (`PROCESSENTRY32W`).
#[allow(non_snake_case, non_camel_case_types)]
pub struct PROCESSENTRY32W {
    pub dwSize: u32,
    pub cntUsage: u32,
    pub th32ProcessID: u32,
    pub th32DefaultHeapID: usize,
    pub th32ModuleID: u32,
    pub cntThreads: u32,
    pub th32ParentProcessID: u32,
    pub pcPriClassBase: i32,
    pub dwFlags: u32,
    pub szExeFile: [u16; 260],
}

/// The name of the executable of a process entry.
pub open spec fn exe_name_of(e: PROCESSENTRY32W) -> Seq<char> {
    utf16_text(before_nul(e.szExeFile@))
}

impl PROCESSENTRY32W {
    /// The name of the process's executable file.
    pub fn exe_name(&self) -> (res: String)
        ensures
            res@ == exe_name_of(*self),
    {
        wchar_to_string(self.szExeFile.as_slice())
    }
}

/// The texts of a list of strings.
pub open spec fn texts(v: Seq<String>) -> Seq<Seq<char>> {
    v.map_values(|s: String| s@)
}

/// The most lines a process listing holds.
pub const MAX_PROCESSES_LISTED: usize = 100;

/// The line of a process in a listing: its id right-aligned in 7 columns,
/// a space, and its name.
pub open spec fn process_line(pid: u32, name: Seq<char>) -> Seq<char> {
    pad_left(decimal(pid as nat), 7, ' ') + seq![' '] + name
}

/// A process is listed when its id is not 0 and the (lower-case) filter is
/// empty or occurs in its lower-cased name or in its decimal id.
pub open spec fn process_selected(pid: u32, lowered_name: Seq<char>, filter: Seq<char>) -> bool {
    pid > 0 && (filter.len() == 0 || contains(lowered_name, filter) || contains(
        decimal(pid as nat),
        filter,
    ))
}

/// The text of an optional filter: empty when none is given.
pub open spec fn filter_text(filter: Option<&str>) -> Seq<char> {
    match filter {
        Some(f) => f@,
        None => Seq::empty(),
    }
}

/// The filter of a process listing: the given one lower-cased, or the
/// lower-cased empty text when none is given.
pub fn process_filter(filter: Option<&str>) -> (res: String)
    ensures
        res@ == lowercase(filter_text(filter)),
{
    let f = match filter {
        Some(f) => f,
        None => "",
    };
    proof {
        reveal_strlit("");
    }
    assert(f@ == filter_text(filter));
    to_lowercase(f)
}

/// Whether the process `pid`, whose lower-cased name is `lowered_name`, is
/// listed under the lower-case `filter`.
pub fn is_process_selected(pid: u32, lowered_name: &str, filter: &str) -> (res: bool)
    ensures
        res == process_selected(pid, lowered_name@, filter@),
{
    if pid == 0 {
        return false;
    }
    let f = chars_of(filter);
    if f.len() == 0 {
        return true;
    }
    let n = chars_of(lowered_name);
    if contains_exec(n.as_slice(), f.as_slice()) {
        return true;
    }
    let d = decimal_exec(pid as u64);
    contains_exec(d.as_slice(), f.as_slice())
}

/// The line of the process `pid` named `name` in a listing.
pub fn process_line_exec(pid: u32, name: &str) -> (res: String)
    ensures
        res@ == process_line(pid, name@),
{
    let d = decimal_exec(pid as u64);
    let padded = pad_left_exec(d.as_slice(), 7, ' ');
    let mut line = string_of(padded.as_slice());
    let sep = [' '];
    push_all(&mut line, sep.as_slice());
    push_str(&mut line, name);
    assert(sep@ =~= seq![' ']);
    line
}

/// One entry of a process snapshot in a listing under the lower-case
/// `filter`: its line is added when the process is selected. The answer
/// says whether the walk goes on: fewer than `MAX_PROCESSES_LISTED` lines
/// are held.
pub fn list_processes_step(results: &mut Vec<String>, entry: &PROCESSENTRY32W, filter: &str) -> (go_on: bool)
    ensures
        texts(final(results)@) == if process_selected(
            entry.th32ProcessID,
            lowercase(exe_name_of(*entry)),
            filter@,
        ) {
            texts(old(results)@).push(process_line(entry.th32ProcessID, exe_name_of(*entry)))
        } else {
            texts(old(results)@)
        },
        go_on == (final(results)@.len() < MAX_PROCESSES_LISTED),
{
    let pid = entry.th32ProcessID;
    if pid > 0 {
        let name = entry.exe_name();
        let lowered = to_lowercase(name.as_str());
        if is_process_selected(pid, lowered.as_str(), filter) {
            let line = process_line_exec(pid, name.as_str());
            let ghost before = results@;
            results.push(line);
            assert(texts(results@) =~= texts(before).push(line@));
        }
    }
    results.len() < MAX_PROCESSES_LISTED
}

/// What is reported of a process.
pub struct ProcessInfo {
    pub pid: u64,
    pub name: String,
    pub parent_pid: u32,
    pub threads: u32,
    pub state: String,
    pub platform: String,
}

/// The value of a [`ProcessInfo`].
pub struct ProcessInfoModel {
    pub pid: u64,
    pub name: Seq<char>,
    pub parent_pid: u32,
    pub threads: u32,
    pub state: Seq<char>,
    pub platform: Seq<char>,
}

impl View for ProcessInfo {
    type V = ProcessInfoModel;

    open spec fn view(&self) -> ProcessInfoModel {
        ProcessInfoModel {
            pid: self.pid,
            name: self.name@,
            parent_pid: self.parent_pid,
            threads: self.threads,
            state: self.state@,
            platform: self.platform@,
        }
    }
}

/// The report of the process `pid` drawn from the snapshot entry `e`.
pub open spec fn process_info_of(pid: u64, e: PROCESSENTRY32W) -> ProcessInfoModel {
    ProcessInfoModel {
        pid: pid,
        name: exe_name_of(e),
        parent_pid: e.th32ParentProcessID,
        threads: e.cntThreads,
        state: "running (Windows Win32)"@,
        platform: "windows"@,
    }
}

/// The report of the process `pid` from a snapshot entry, when the entry is
/// that process's: its id equals `pid` truncated to 32 bits.
pub fn process_info_from_entry(pid: u64, entry: &PROCESSENTRY32W) -> (res: Option<ProcessInfo>)
    ensures
        (res is Some) == (entry.th32ProcessID == pid % 0x1_0000_0000),
        res matches Some(info) ==> info@ == process_info_of(pid, *entry),
{
    let low = (pid & 0xffff_ffff) as u32;
    assert(pid & 0xffff_ffff == pid % 0x1_0000_0000) by (bit_vector);
    if entry.th32ProcessID != low {
        return None;
    }
    let mut state = String::new();
    push_str(&mut state, "running (Windows Win32)");
    let mut platform = String::new();
    push_str(&mut platform, "windows");
    Some(
        ProcessInfo {
            pid,
            name: entry.exe_name(),
            parent_pid: entry.th32ParentProcessID,
            threads: entry.cntThreads,
            state,
            platform,
        },
    )
}

/// The message for a process that no snapshot entry describes.
pub fn process_not_found_message(pid: u64) -> (res: String)
    ensures
        res@ == "process with pid "@ + decimal(pid as nat) + " not found"@,
{
    let mut m = String::new();
    push_str(&mut m, "process with pid ");
    let d = decimal_exec(pid);
    push_all(&mut m, d.as_slice());
    push_str(&mut m, " not found");
    m
}

// ---------------------------------------------------------------------------
// Modules
// ---------------------------------------------------------------------------

/// A module loaded in a process.
#[derive(Debug, Clone)]
pub struct ModuleInfo {
    pub name: String,
    pub base: u64,
    pub size: u64,
    pub path: String,
}

/// The value of a [`ModuleInfo`].
pub struct ModuleInfoModel {
    pub name: Seq<char>,
    pub base: u64,
    pub size: u64,
    pub path: Seq<char>,
}

impl View for ModuleInfo {
    type V = ModuleInfoModel;

    open spec fn view(&self) -> ModuleInfoModel {
        ModuleInfoModel { name: self.name@, base: self.base, size: self.size, path: self.path@ }
    }
}

/// The module that a snapshot entry describes, from its name and path
/// buffers, its base address and its size.
pub fn module_info_from_entry(name: &[u16], path: &[u16], base: u64, size: u32) -> (res: ModuleInfo)
    ensures
        res@ == (ModuleInfoModel {
            name: utf16_text(before_nul(name@)),
            base: base,
            size: size as u64,
            path: utf16_text(before_nul(path@)),
        }),
{
    ModuleInfo {
        name: wchar_to_string(name),
        base,
        size: size as u64,
        path: wchar_to_string(path),
    }
}

/// A module whose lower-cased name is `lowered_name` is the one looked for
/// by the lower-cased `target`: the names are equal or the target occurs in
/// the name.
pub open spec fn module_name_matches(lowered_name: Seq<char>, target: Seq<char>) -> bool {
    lowered_name == target || contains(lowered_name, target)
}

/// The index of the first of `names`, from `i` on, that matches `target`.
pub open spec fn first_matching_module(names: Seq<Seq<char>>, target: Seq<char>, i: int) -> Option<
    int,
>
    decreases names.len() - i,
{
    if i < 0 || i >= names.len() {
        None
    } else if module_name_matches(names[i], target) {
        Some(i)
    } else {
        first_matching_module(names, target, i + 1)
    }
}

/// The lower-cased names of a list of modules.
pub open spec fn lowered_module_names(modules: Seq<ModuleInfo>) -> Seq<Seq<char>> {
    modules.map_values(|m: ModuleInfo| lowercase(m.name@))
}

/// The base address of the first module whose name, compared without
/// case, is `module_name` or holds it.
pub open spec fn module_base_of(modules: Seq<ModuleInfo>, module_name: Seq<char>) -> Option<u64> {
    match first_matching_module(lowered_module_names(modules), lowercase(module_name), 0) {
        Some(i) => Some(modules[i].base),
        None => None,
    }
}

/// Whether a module whose lower-cased name is `lowered_name` is the one
/// looked for by the lower-cased `target`.
pub fn module_name_matches_exec(lowered_name: &str, target: &str) -> (res: bool)
    ensures
        res == module_name_matches(lowered_name@, target@),
{
    let n = chars_of(lowered_name);
    let t = chars_of(target);
    equals_exec(n.as_slice(), t.as_slice()) || contains_exec(n.as_slice(), t.as_slice())
}

/// The base address of the first of `modules` whose name, compared without
/// case, equals or contains `module_name`.
pub fn get_module_base(modules: &[ModuleInfo], module_name: &str) -> (res: Option<u64>)
    ensures
        res == module_base_of(modules@, module_name@),
{
    let target = to_lowercase(module_name);
    let ghost names = lowered_module_names(modules@);
    let mut i: usize = 0;
    while i < modules.len()
        invariant
            i <= modules.len(),
            names == lowered_module_names(modules@),
            target@ == lowercase(module_name@),
            first_matching_module(names, target@, 0) == first_matching_module(names, target@, i as int),
        decreases modules.len() - i,
    {
        let lowered = to_lowercase(modules[i].name.as_str());
        assert(names[i as int] == lowered@);
        if module_name_matches_exec(lowered.as_str(), target.as_str()) {
            return Some(modules[i].base);
        }
        i = i + 1;
    }
    None
}

// ---------------------------------------------------------------------------
// Memory protection and regions
// ---------------------------------------------------------------------------

/// `MEM_COMMIT`: the state of committed pages.
pub const MEM_COMMIT: u32 = 0x1000;
/// `PAGE_NOACCESS`: pages that cannot be accessed.
pub const PAGE_NOACCESS: u32 = 0x01;
/// `PAGE_READONLY`.
pub const PAGE_READONLY: u32 = 0x02;
/// `PAGE_READWRITE`.
pub const PAGE_READWRITE: u32 = 0x04;
/// `PAGE_WRITECOPY`.
pub const PAGE_WRITECOPY: u32 = 0x08;
/// `PAGE_EXECUTE`.
pub const PAGE_EXECUTE: u32 = 0x10;
/// `PAGE_EXECUTE_READ`.
pub const PAGE_EXECUTE_READ: u32 = 0x20;
/// `PAGE_EXECUTE_READWRITE`.
pub const PAGE_EXECUTE_READWRITE: u32 = 0x40;
/// `PAGE_EXECUTE_WRITECOPY`.
pub const PAGE_EXECUTE_WRITECOPY: u32 = 0x80;
/// `PAGE_GUARD`: a modifier bit marking guard pages.
pub const PAGE_GUARD: u32 = 0x100;

/// The base protection of a protection word: its low byte.
pub open spec fn base_protection(protect: u32) -> u32 {
    (protect % 0x100) as u32
}

/// The `rwx` text of a protection word.
pub open spec fn perms_text(protect: u32) -> Seq<char> {
    let b = base_protection(protect);
    if b == PAGE_READONLY {
        "r--"@
    } else if b == PAGE_READWRITE || b == PAGE_WRITECOPY {
        "rw-"@
    } else if b == PAGE_EXECUTE {
        "--x"@
    } else if b == PAGE_EXECUTE_READ {
        "r-x"@
    } else if b == PAGE_EXECUTE_READWRITE || b == PAGE_EXECUTE_WRITECOPY {
        "rwx"@
    } else {
        "---"@
    }
}

/// Pages with this protection can be written.
pub open spec fn writable(protect: u32) -> bool {
    let b = base_protection(protect);
    b == PAGE_READWRITE || b == PAGE_WRITECOPY || b == PAGE_EXECUTE_READWRITE || b
        == PAGE_EXECUTE_WRITECOPY
}

/// Pages with this protection can be read: not `PAGE_NOACCESS`, and not guard pages.
pub open spec fn readable(protect: u32) -> bool {
    base_protection(protect) != PAGE_NOACCESS && (protect / 0x100) % 2 == 0
}

/// The low byte of a protection word.
fn base_protection_exec(protect: u32) -> (res: u32)
    ensures
        res == base_protection(protect),
{
    let r = protect & 0xff;
    assert(protect & 0xff == protect % 0x100) by (bit_vector);
    r
}

/// The `rwx` text of a protection word.
pub fn protect_to_perms(protect: u32) -> (res: &'static str)
    ensures
        res@ == perms_text(protect),
{
    let base = base_protection_exec(protect);
    if base == PAGE_READONLY {
        "r--"
    } else if base == PAGE_READWRITE || base == PAGE_WRITECOPY {
        "rw-"
    } else if base == PAGE_EXECUTE {
        "--x"
    } else if base == PAGE_EXECUTE_READ {
        "r-x"
    } else if base == PAGE_EXECUTE_READWRITE || base == PAGE_EXECUTE_WRITECOPY {
        "rwx"
    } else {
        "---"
    }
}

/// Pages with this protection can be written.
pub fn is_writable(protect: u32) -> (res: bool)
    ensures
        res == writable(protect),
{
    let base = base_protection_exec(protect);
    base == PAGE_READWRITE || base == PAGE_WRITECOPY || base == PAGE_EXECUTE_READWRITE || base
        == PAGE_EXECUTE_WRITECOPY
}

/// Pages with this protection can be read.
pub fn is_readable(protect: u32) -> (res: bool)
    ensures
        res == readable(protect),
{
    let base = base_protection_exec(protect);
    let guard = protect & PAGE_GUARD;
    assert(protect & 0x100 == 0 <==> (protect / 0x100) % 2 == 0) by (bit_vector);
    base != PAGE_NOACCESS && guard == 0
}

/// A range of committed, readable memory of a process.
#[derive(Debug, Clone)]
pub struct MemoryRegion {
    pub start: u64,
    pub end: u64,
    pub perms: String,
    pub size: u64,
}

/// The value of a [`MemoryRegion`].
pub struct MemoryRegionModel {
    pub start: u64,
    pub end: u64,
    pub perms: Seq<char>,
    pub size: u64,
}

impl View for MemoryRegion {
    type V = MemoryRegionModel;

    open spec fn view(&self) -> MemoryRegionModel {
        MemoryRegionModel { start: self.start, end: self.end, perms: self.perms@, size: self.size }
    }
}

/// The models of a list of regions.
pub open spec fn regions_model(rs: Seq<MemoryRegion>) -> Seq<MemoryRegionModel> {
    rs.map_values(|r: MemoryRegion| r@)
}

/// The region that a `VirtualQueryEx` answer describes, when it is kept:
/// committed, readable, and writable if only writable regions are asked for.
/// Its end is `start + size`, saturated at the top of the address space.
pub open spec fn region_of(
    start: u64,
    size: u64,
    state: u32,
    protect: u32,
    writable_only: bool,
) -> Option<MemoryRegionModel> {
    if state == MEM_COMMIT && readable(protect) && (!writable_only || writable(protect)) {
        Some(
            MemoryRegionModel {
                start: start,
                end: if start + size > u64::MAX {
                    u64::MAX
                } else {
                    (start + size) as u64
                },
                perms: perms_text(protect),
                size: size,
            },
        )
    } else {
        None
    }
}

/// The address below which the walk over a process's address space stays.
pub const QUERY_LIMIT: u64 = 0x7fff_ffff_0000;

/// The address to query after the region of `size` bytes queried at
/// `addr`: `addr + size`, or nothing (the walk ends) when `size` is 0, the
/// sum overflows, or it reaches `QUERY_LIMIT`.
pub open spec fn next_query_address(addr: u64, size: u64) -> Option<u64> {
    if size == 0 || addr + size >= QUERY_LIMIT {
        None
    } else {
        Some((addr + size) as u64)
    }
}

/// One step of the walk over a process's address space: the answer of
/// `VirtualQueryEx` at `addr` (region `start`, `size`, `state`, `protect`)
/// adds its region to `regions` when it is kept, and gives the next address
/// to query, if any.
pub fn region_step(
    addr: u64,
    start: u64,
    size: u64,
    state: u32,
    protect: u32,
    writable_only: bool,
    regions: &mut Vec<MemoryRegion>,
) -> (next: Option<u64>)
    ensures
        next == next_query_address(addr, size),
        regions_model(final(regions)@) == match region_of(
            start,
            size,
            state,
            protect,
            writable_only,
        ) {
            Some(r) => regions_model(old(regions)@).push(r),
            None => regions_model(old(regions)@),
        },
{
    let end = start.saturating_add(size);
    if state == MEM_COMMIT {
        let r = is_readable(protect);
        let w = is_writable(protect);
        if r && (!writable_only || w) {
            let perms = chars_of(protect_to_perms(protect));
            let region = MemoryRegion { start, end, perms: string_of(perms.as_slice()), size };
            let ghost before = regions@;
            regions.push(region);
            assert(regions_model(regions@) =~= regions_model(before).push(region@));
        }
    }
    if size == 0 {
        return None;
    }
    match addr.checked_add(size) {
        Some(next) => if next < QUERY_LIMIT {
            Some(next)
        } else {
            None
        },
        None => None,
    }
}

// ---------------------------------------------------------------------------
// Reading and writing memory
// ---------------------------------------------------------------------------

/// An address as `0x` and at least 8 lower-case hexadecimal digits.
pub open spec fn address_text(address: u64) -> Seq<char> {
    "0x"@ + pad_left(hex(address as nat), 8, '0')
}

/// The message of a failed read of `len` bytes at `address`, with the
/// system's error `code`.
pub open spec fn read_failure_message(address: u64, len: usize, code: u32) -> Seq<char> {
    "failed to read memory at "@ + address_text(address) + " (len="@ + decimal(len as nat)
        + "): error code "@ + decimal(code as nat)
}

/// The message of a failed write at `address`, with the system's error `code`.
pub open spec fn write_failure_message(address: u64, code: u32) -> Seq<char> {
    "failed to write memory at "@ + address_text(address) + ": error code "@ + decimal(
        code as nat,
    )
}

/// Appends the text of `address` to `s`.
fn push_address(s: &mut String, address: u64)
    ensures
        final(s)@ == old(s)@ + address_text(address),
{
    push_str(s, "0x");
    let h = hex_exec(address);
    let padded = pad_left_exec(h.as_slice(), 8, '0');
    push_all(s, padded.as_slice());
}

/// The outcome of a read of `len` bytes at `address` into `buffer`, where
/// the system reported `success` and `bytes_read` (and `code` as its last
/// error): the bytes read, or the failure message when the read failed or
/// gave no byte.
pub fn finish_read(
    buffer: Vec<u8>,
    success: bool,
    bytes_read: usize,
    address: u64,
    len: usize,
    code: u32,
) -> (res: Result<Vec<u8>, String>)
    ensures
        (res is Ok) == (success && bytes_read > 0),
        res matches Ok(b) ==> b@ == buffer@.take(
            if bytes_read < buffer@.len() {
                bytes_read as int
            } else {
                buffer@.len() as int
            },
        ),
        res matches Err(e) ==> e@ == read_failure_message(address, len, code),
{
    if !success || bytes_read == 0 {
        let mut m = String::new();
        push_str(&mut m, "failed to read memory at ");
        push_address(&mut m, address);
        push_str(&mut m, " (len=");
        let l = decimal_exec(len as u64);
        push_all(&mut m, l.as_slice());
        push_str(&mut m, "): error code ");
        let c = decimal_exec(code as u64);
        push_all(&mut m, c.as_slice());
        return Err(m);
    }
    let mut bytes = buffer;
    bytes.truncate(bytes_read);
    Ok(bytes)
}

/// The outcome of a write at `address`, where the system reported
/// `success` and `bytes_written` (and `code` as its last error): the number
/// of bytes written, or the failure message.
pub fn finish_write(success: bool, bytes_written: usize, address: u64, code: u32) -> (res: Result<
    usize,
    String,
>)
    ensures
        (res is Ok) == success,
        res matches Ok(n) ==> n == bytes_written,
        res matches Err(e) ==> e@ == write_failure_message(address, code),
{
    if !success {
        let mut m = String::new();
        push_str(&mut m, "failed to write memory at ");
        push_address(&mut m, address);
        push_str(&mut m, ": error code ");
        let c = decimal_exec(code as u64);
        push_all(&mut m, c.as_slice());
        return Err(m);
    }
    Ok(bytes_written)
}

// ---------------------------------------------------------------------------
// Scanning a process's memory
// ---------------------------------------------------------------------------

/// The most bytes read at once when a region is scanned.
pub const SCAN_CHUNK_SIZE: u64 = 0x10000;

/// The number of bytes to read at `curr` in a region that ends at `end`.
pub open spec fn chunk_len(curr: u64, end: u64) -> u64 {
    if end - curr < SCAN_CHUNK_SIZE {
        (end - curr) as u64
    } else {
        SCAN_CHUNK_SIZE
    }
}

/// The number of bytes to read at `curr` in a region that ends at `end`.
pub fn chunk_to_read(curr: u64, end: u64) -> (res: usize)
    requires
        curr < end,
    ensures
        res == chunk_len(curr, end),
{
    let left = end - curr;
    if left < SCAN_CHUNK_SIZE {
        left as usize
    } else {
        SCAN_CHUNK_SIZE as usize
    }
}

/// Where the scan of `region` begins: at its start, unless it is empty or
/// `MAX_MATCHES_SAVED` matches are already held.
pub fn region_scan_start(region: &MemoryRegion, matches: &Vec<ScanMatch>) -> (res: Option<u64>)
    ensures
        res == if region.start < region.end && matches@.len() < MAX_MATCHES_SAVED {
            Some(region.start)
        } else {
            None
        },
{
    if region.start < region.end && matches.len() < MAX_MATCHES_SAVED {
        Some(region.start)
    } else {
        None
    }
}

/// The bytes of an optional read.
pub open spec fn read_bytes(read: Option<&[u8]>) -> Option<Seq<u8>> {
    match read {
        Some(b) => Some(b@),
        None => None,
    }
}

/// The matches `acc` after the chunk `read` at `curr` (nothing when the
/// read failed) is scanned, at the alignment of `t`, for values stored in
/// order `o` that `criterion` keeps: unchanged when fewer bytes than one
/// value came back.
pub open spec fn chunk_scanned<F: Fn(ParsedValue, ParsedValue) -> bool>(
    acc: Seq<ScanMatch>,
    curr: u64,
    read: Option<Seq<u8>>,
    t: ScanType,
    criterion: ScanCriterion,
    o: ByteOrder,
    f: F,
) -> Seq<ScanMatch> {
    match read {
        Some(b) => if b.len() >= type_size(t) {
            scan_from(
                curr,
                b,
                t,
                o,
                type_alignment(t),
                0,
                acc,
                |v: ParsedValue| criterion_keeps(criterion, v, f),
            )
        } else {
            acc
        },
        None => acc,
    }
}

/// The next address to read in a region that ends at `end`, after the
/// chunk at `curr`, when `held` matches are held: none when the region is
/// done or the matches are full.
pub open spec fn next_chunk(curr: u64, end: u64, held: nat) -> Option<u64> {
    let next = curr + chunk_len(curr, end);
    if held >= MAX_MATCHES_SAVED || next >= end {
        None
    } else {
        Some(next as u64)
    }
}

/// One step of the scan of a region that ends at `end`: the chunk `read`
/// at `curr` (`None` when the read failed) is scanned for the values of
/// `scan_type`, in this machine's byte order, that `criterion` keeps (float
/// pairs compared by `float_close`), and the next address to read is given.
pub fn scan_chunk_step<F: Fn(ParsedValue, ParsedValue) -> bool>(
    criterion: ScanCriterion,
    scan_type: ScanType,
    curr: u64,
    end: u64,
    read: Option<&[u8]>,
    matches: &mut Vec<ScanMatch>,
    float_close: &F,
) -> (next: Option<u64>)
    requires
        curr < end,
        float_close_callable(*float_close),
        float_close_deterministic(*float_close),
    ensures
        final(matches)@ == chunk_scanned(
            old(matches)@,
            curr,
            read_bytes(read),
            scan_type,
            criterion,
            machine_byte_order(),
            *float_close,
        ),
        next == next_chunk(curr, end, final(matches)@.len()),
{
    let to_read = chunk_to_read(curr, end);
    let order = native_byte_order();
    match read {
        Some(bytes) => {
            if bytes.len() >= scan_type.size() {
                scan_buffer_with(
                    curr,
                    bytes,
                    scan_type,
                    criterion,
                    scan_type.alignment(),
                    order,
                    matches,
                    float_close,
                );
            }
        },
        None => {},
    }
    assert(matches@ == chunk_scanned(
        old(matches)@,
        curr,
        read_bytes(read),
        scan_type,
        criterion,
        order,
        *float_close,
    ));
    let next = curr + to_read as u64;
    if matches.len() >= MAX_MATCHES_SAVED || next >= end {
        None
    } else {
        Some(next)
    }
}

// ---------------------------------------------------------------------------
// Refining the matches of a scan
// ---------------------------------------------------------------------------

/// How a refinement compares a match's current value with its earlier one.
#[derive(Clone, Copy, Debug, PartialEq, Eq, Structural)]
pub enum RefineOp {
    /// `+` or `>`: the value grew.
    Increased,
    /// `-` or `<`: the value shrank.
    Decreased,
    /// `!=` or `changed`: the value no longer matches.
    Changed,
    /// `=` or `unchanged`: the value still matches.
    Unchanged,
    /// `exact`: the value matches the target.
    Exact,
    /// Any other text: nothing is kept.
    Unknown,
}

/// The operation that the text `op` names.
pub open spec fn refine_op_of(op: Seq<char>) -> RefineOp {
    if op == "+"@ || op == ">"@ {
        RefineOp::Increased
    } else if op == "-"@ || op == "<"@ {
        RefineOp::Decreased
    } else if op == "!="@ || op == "changed"@ {
        RefineOp::Changed
    } else if op == "="@ || op == "unchanged"@ {
        RefineOp::Unchanged
    } else if op == "exact"@ {
        RefineOp::Exact
    } else {
        RefineOp::Unknown
    }
}

impl RefineOp {
    /// The operation that the text `op` names.
    pub fn parse(op: &str) -> (res: RefineOp)
        ensures
            res == refine_op_of(op@),
    {
        let c = chars_of(op);
        let s = c.as_slice();
        if equals_str(s, "+") || equals_str(s, ">") {
            RefineOp::Increased
        } else if equals_str(s, "-") || equals_str(s, "<") {
            RefineOp::Decreased
        } else if equals_str(s, "!=") || equals_str(s, "changed") {
            RefineOp::Changed
        } else if equals_str(s, "=") || equals_str(s, "unchanged") {
            RefineOp::Unchanged
        } else if equals_str(s, "exact") {
            RefineOp::Exact
        } else {
            RefineOp::Unknown
        }
    }
}

/// Whether a match whose value was `prev` and is now `curr` is kept by
/// `op` (`target` for `Exact`, float pairs compared by `f`).
pub open spec fn refine_keeps<F: Fn(ParsedValue, ParsedValue) -> bool>(
    op: RefineOp,
    curr: ParsedValue,
    prev: ParsedValue,
    target: Option<ParsedValue>,
    f: F,
) -> bool {
    match op {
        RefineOp::Increased => value_greater(curr, prev),
        RefineOp::Decreased => value_less(curr, prev),
        RefineOp::Changed => !exact_match(curr, prev, f),
        RefineOp::Unchanged => exact_match(curr, prev, f),
        RefineOp::Exact => match target {
            Some(t) => exact_match(curr, t, f),
            None => false,
        },
        RefineOp::Unknown => false,
    }
}

/// The match `m` after its address was read again, giving `read` (`None`
/// when the read failed): kept with the value read when at least one value
/// came back and `op` keeps it; dropped otherwise.
pub open spec fn refined_match<F: Fn(ParsedValue, ParsedValue) -> bool>(
    m: ScanMatch,
    read: Option<Vec<u8>>,
    t: ScanType,
    op: RefineOp,
    target: Option<ParsedValue>,
    o: ByteOrder,
    f: F,
) -> Option<ScanMatch> {
    match read {
        Some(b) => if b@.len() >= type_size(t) {
            let v = value_from_bytes(b@, t, o).unwrap();
            if refine_keeps(op, v, m.value, target, f) {
                Some(ScanMatch { address: m.address, value: v })
            } else {
                None
            }
        } else {
            None
        },
        None => None,
    }
}

/// The matches `ms`, in order, after each was refined with its read.
pub open spec fn refine_all<F: Fn(ParsedValue, ParsedValue) -> bool>(
    ms: Seq<ScanMatch>,
    reads: Seq<Option<Vec<u8>>>,
    t: ScanType,
    op: RefineOp,
    target: Option<ParsedValue>,
    o: ByteOrder,
    f: F,
) -> Seq<ScanMatch>
    decreases ms.len(),
{
    if ms.len() == 0 {
        Seq::empty()
    } else {
        let rest = refine_all(ms.drop_last(), reads.take(ms.len() - 1), t, op, target, o, f);
        match refined_match(ms.last(), reads[ms.len() - 1], t, op, target, o, f) {
            Some(m) => rest.push(m),
            None => rest,
        }
    }
}

/// The match `m` refined with `read`, the bytes its address gave now
/// (decoded in `order`): kept by `op` with the value read, or dropped.
fn refine_one<F: Fn(ParsedValue, ParsedValue) -> bool>(
    m: &ScanMatch,
    read: &Option<Vec<u8>>,
    scan_type: ScanType,
    op: RefineOp,
    target: Option<&ParsedValue>,
    order: ByteOrder,
    float_close: &F,
) -> (res: Option<ScanMatch>)
    requires
        float_close_callable(*float_close),
        float_close_deterministic(*float_close),
    ensures
        res == refined_match(
            *m,
            *read,
            scan_type,
            op,
            match target {
                Some(t) => Some(*t),
                None => None,
            },
            order,
            *float_close,
        ),
{
    let bytes = match read {
        Some(b) => b,
        None => {
            return None;
        },
    };
    if bytes.len() < scan_type.size() {
        return None;
    }
    let curr = match ParsedValue::from_bytes_in(bytes.as_slice(), scan_type, order) {
        Some(v) => v,
        None => {
            return None;
        },
    };
    let keep = match op {
        RefineOp::Increased => curr.is_greater_than(&m.value),
        RefineOp::Decreased => curr.is_less_than(&m.value),
        RefineOp::Changed => curr.is_changed(&m.value, float_close),
        RefineOp::Unchanged => curr.is_unchanged(&m.value, float_close),
        RefineOp::Exact => match target {
            Some(t) => curr.matches_exact(t, float_close),
            None => false,
        },
        RefineOp::Unknown => false,
    };
    proof {
        let tg = match target {
            Some(t) => Some(*t),
            None => None,
        };
        assert(keep == refine_keeps(op, curr, m.value, tg, *float_close));
    }
    if keep {
        Some(ScanMatch { address: m.address, value: curr })
    } else {
        None
    }
}

/// Refines the matches of a scan: `reads[i]` is what reading the size of
/// `scan_type` at `matches[i]`'s address gave (`None` for a failed read).
/// A match stays, with the value read in this machine's byte order, when the
/// read gave a whole value and the operation `op` keeps it (`target` for
/// `exact`; float pairs compared by `float_close`); the others are dropped,
/// the order kept. Returns the number of matches left.
pub fn refine_scan_matches<F: Fn(ParsedValue, ParsedValue) -> bool>(
    matches: &mut Vec<ScanMatch>,
    reads: &Vec<Option<Vec<u8>>>,
    scan_type: ScanType,
    op: &str,
    target: Option<&ParsedValue>,
    float_close: &F,
) -> (res: usize)
    requires
        reads@.len() == old(matches)@.len(),
        float_close_callable(*float_close),
        float_close_deterministic(*float_close),
    ensures
        ({
            let tg = match target {
                Some(t) => Some(*t),
                None => None,
            };
            final(matches)@ == refine_all(
                old(matches)@,
                reads@,
                scan_type,
                refine_op_of(op@),
                tg,
                machine_byte_order(),
                *float_close,
            )
        }),
        res == final(matches)@.len(),
{
    let ghost tg = match target {
        Some(t) => Some(*t),
        None => None,
    };
    let kind = RefineOp::parse(op);
    let order = native_byte_order();
    let mut kept: Vec<ScanMatch> = Vec::new();
    let mut i: usize = 0;
    while i < matches.len()
        invariant
            i <= matches@.len(),
            matches@ == old(matches)@,
            reads@.len() == matches@.len(),
            kind == refine_op_of(op@),
            tg == (match target {
                Some(t) => Some(*t),
                None => None,
            }),
            float_close_callable(*float_close),
            float_close_deterministic(*float_close),
            kept@ == refine_all(
                matches@.take(i as int),
                reads@.take(i as int),
                scan_type,
                kind,
                tg,
                order,
                *float_close,
            ),
        decreases matches@.len() - i,
    {
        let r = refine_one(&matches[i], &reads[i], scan_type, kind, target, order, float_close);
        proof {
            let ms = matches@.take(i + 1);
            let rs = reads@.take(i + 1);
            assert(ms.drop_last() =~= matches@.take(i as int));
            assert(rs.take(ms.len() - 1) =~= reads@.take(i as int));
            assert(ms.last() == matches@[i as int]);
            assert(rs[ms.len() - 1] == reads@[i as int]);
        }
        match r {
            Some(m) => kept.push(m),
            None => {},
        }
        i = i + 1;
    }
    assert(matches@.take(i as int) =~= matches@);
    assert(reads@.take(i as int) =~= reads@);
    *matches = kept;
    matches.len()
}

// ---------------------------------------------------------------------------
// Laws
// ---------------------------------------------------------------------------

/// The walk over an address space moves forward and stays below
/// `QUERY_LIMIT`, and the scan of a region moves forward and stays inside
/// it: both walks end.
pub proof fn lemma_walks_move_forward(addr: u64, size: u64, curr: u64, end: u64, held: nat)
    requires
        curr < end,
    ensures
        next_query_address(addr, size) matches Some(n) ==> addr < n < QUERY_LIMIT,
        next_chunk(curr, end, held) matches Some(n) ==> curr < n < end,
{
}

/// A region kept when only writable regions are asked for shows a `w`
/// among its permissions.
pub proof fn lemma_writable_region_perms(start: u64, size: u64, state: u32, protect: u32)
    ensures
        region_of(start, size, state, protect, true) matches Some(r) ==> r.perms.len() == 3
            && r.perms[1] == 'w',
{
    reveal_strlit("r--");
    reveal_strlit("rw-");
    reveal_strlit("--x");
    reveal_strlit("r-x");
    reveal_strlit("rwx");
    reveal_strlit("---");
}

/// `+` keeps a match whose value grew and `-` one whose value shrank, as
/// the numbers held compare; `-` keeps what `+` keeps with the two values
/// swapped.
pub proof fn lemma_refine_increased_decreased<F: Fn(ParsedValue, ParsedValue) -> bool>(
    target: Option<ParsedValue>,
    f: F,
)
    ensures
        forall|c: ParsedValue, p: ParsedValue|
            #[trigger] refine_keeps(RefineOp::Decreased, c, p, target, f) == refine_keeps(
                RefineOp::Increased,
                p,
                c,
                target,
                f,
            ),
        forall|a: i8, b: i8|
            #[trigger] refine_keeps(RefineOp::Increased, ParsedValue::I8(a), ParsedValue::I8(b), target, f)
                == (a > b),
        forall|a: i8, b: i8|
            #[trigger] refine_keeps(RefineOp::Decreased, ParsedValue::I8(a), ParsedValue::I8(b), target, f)
                == (a < b),
        forall|a: u8, b: u8|
            #[trigger] refine_keeps(RefineOp::Increased, ParsedValue::U8(a), ParsedValue::U8(b), target, f)
                == (a > b),
        forall|a: u8, b: u8|
            #[trigger] refine_keeps(RefineOp::Decreased, ParsedValue::U8(a), ParsedValue::U8(b), target, f)
                == (a < b),
        forall|a: i16, b: i16|
            #[trigger] refine_keeps(RefineOp::Increased, ParsedValue::I16(a), ParsedValue::I16(b), target, f)
                == (a > b),
        forall|a: i16, b: i16|
            #[trigger] refine_keeps(RefineOp::Decreased, ParsedValue::I16(a), ParsedValue::I16(b), target, f)
                == (a < b),
        forall|a: u16, b: u16|
            #[trigger] refine_keeps(RefineOp::Increased, ParsedValue::U16(a), ParsedValue::U16(b), target, f)
                == (a > b),
        forall|a: u16, b: u16|
            #[trigger] refine_keeps(RefineOp::Decreased, ParsedValue::U16(a), ParsedValue::U16(b), target, f)
                == (a < b),
        forall|a: i32, b: i32|
            #[trigger] refine_keeps(RefineOp::Increased, ParsedValue::I32(a), ParsedValue::I32(b), target, f)
                == (a > b),
        forall|a: i32, b: i32|
            #[trigger] refine_keeps(RefineOp::Decreased, ParsedValue::I32(a), ParsedValue::I32(b), target, f)
                == (a < b),
        forall|a: u32, b: u32|
            #[trigger] refine_keeps(RefineOp::Increased, ParsedValue::U32(a), ParsedValue::U32(b), target, f)
                == (a > b),
        forall|a: u32, b: u32|
            #[trigger] refine_keeps(RefineOp::Decreased, ParsedValue::U32(a), ParsedValue::U32(b), target, f)
                == (a < b),
        forall|a: i64, b: i64|
            #[trigger] refine_keeps(RefineOp::Increased, ParsedValue::I64(a), ParsedValue::I64(b), target, f)
                == (a > b),
        forall|a: i64, b: i64|
            #[trigger] refine_keeps(RefineOp::Decreased, ParsedValue::I64(a), ParsedValue::I64(b), target, f)
                == (a < b),
        forall|a: u64, b: u64|
            #[trigger] refine_keeps(RefineOp::Increased, ParsedValue::U64(a), ParsedValue::U64(b), target, f)
                == (a > b),
        forall|a: u64, b: u64|
            #[trigger] refine_keeps(RefineOp::Decreased, ParsedValue::U64(a), ParsedValue::U64(b), target, f)
                == (a < b),
{
    lemma_integer_order();
}

/// `changed` keeps exactly the matches that `unchanged` drops.
pub proof fn lemma_changed_complements_unchanged<F: Fn(ParsedValue, ParsedValue) -> bool>(
    curr: ParsedValue,
    prev: ParsedValue,
    target: Option<ParsedValue>,
    f: F,
)
    ensures
        refine_keeps(RefineOp::Changed, curr, prev, target, f) == !refine_keeps(
            RefineOp::Unchanged,
            curr,
            prev,
            target,
            f,
        ),
{
}

/// Refining never adds a match: it keeps at most as many, and each one it
/// keeps is the refinement of one of the matches it was given, at the same
/// address.
pub proof fn lemma_refine_all_shape<F: Fn(ParsedValue, ParsedValue) -> bool>(
    ms: Seq<ScanMatch>,
    reads: Seq<Option<Vec<u8>>>,
    t: ScanType,
    op: RefineOp,
    target: Option<ParsedValue>,
    o: ByteOrder,
    f: F,
)
    requires
        reads.len() == ms.len(),
    ensures
        ({
            let r = refine_all(ms, reads, t, op, target, o, f);
            &&& r.len() <= ms.len()
            &&& forall|j: int|
                0 <= j < r.len() ==> exists|i: int|
                    0 <= i < ms.len() && refined_match(ms[i], reads[i], t, op, target, o, f)
                        == Some(#[trigger] r[j]) && r[j].address == ms[i].address
        }),
    decreases ms.len(),
{
    if ms.len() > 0 {
        let n = ms.len() - 1;
        let ms0 = ms.drop_last();
        let rs0 = reads.take(n);
        lemma_refine_all_shape(ms0, rs0, t, op, target, o, f);
        let rest = refine_all(ms0, rs0, t, op, target, o, f);
        let r = refine_all(ms, reads, t, op, target, o, f);
        assert forall|j: int| 0 <= j < r.len() implies exists|i: int|
            0 <= i < ms.len() && refined_match(ms[i], reads[i], t, op, target, o, f) == Some(
                #[trigger] r[j],
            ) && r[j].address == ms[i].address by {
            if j < rest.len() {
                assert(r[j] == rest[j]);
                let i = choose|i: int|
                    0 <= i < ms0.len() && refined_match(ms0[i], rs0[i], t, op, target, o, f)
                        == Some(#[trigger] rest[j]) && rest[j].address == ms0[i].address;
                assert(ms0[i] == ms[i] && rs0[i] == reads[i]);
            } else {
                assert(refined_match(ms[n], reads[n], t, op, target, o, f) == Some(r[j]));
                assert(r[j].address == ms[n].address);
            }
        }
    }
}

} // verus!
