//! Recovery of TaskbarHero method offsets from an IL2CPP `dump.cs`, by the
//! structural anchors that survive the game's name obfuscation:
//! the class with a `SpriteSlider HpBar` field, its subclass with a `Hero`
//! field, the extension method computing a `StatType` stat, and the class
//! with a `DamageDetectRadiusRawValue` field.
use vstd::prelude::*;
use crate::text::{
    chars_of, contains, contains_str, copy_range, decimal, decimal_exec, equals_exec, equals_str,
    find, find_str, occurs_at, occurs_at_exec, position_of, push_all, push_str, rfind_char,
    rfind_char_exec, split_whitespace, split_ws, starts_with, starts_with_str, string_of,
    strip_prefix, trim, trimmed,
};
use crate::int_parse::{parse_int, parse_int_exec};

verus! {

// ---------------------------------------------------------------------------
// Line parsers: specifications
// ---------------------------------------------------------------------------

/// `s` with every leading repetition of `p` removed (`str::trim_start_matches`).
pub open spec fn strip_all(s: Seq<char>, p: Seq<char>) -> Seq<char>
    decreases s.len(),
{
    if p.len() > 0 && starts_with(s, p) {
        strip_all(s.skip(p.len() as int), p)
    } else {
        s
    }
}

/// The RVA token of a `// RVA: 0x...` comment line, when it is hexadecimal.
pub open spec fn spec_parse_rva_hex(line: Seq<char>) -> Option<Seq<char>> {
    match strip_prefix(line, "//"@) {
        None => None,
        Some(a) => match strip_prefix(trimmed(a), "RVA:"@) {
            None => None,
            Some(b) => {
                let toks = split_ws(trimmed(b));
                if toks.len() == 0 {
                    None
                } else if starts_with(toks[0], "0x"@) || starts_with(toks[0], "0X"@) {
                    Some(toks[0])
                } else {
                    None
                }
            },
        },
    }
}

/// The numeric value of an RVA token: its `0x`/`0X` prefixes removed and the
/// rest read in base 16, or 0 when that fails.
pub open spec fn spec_rva_value(rva: Seq<char>) -> u64 {
    match parse_int(strip_all(strip_all(rva, "0x"@), "0X"@), 16, false, 0, 0xffff_ffff_ffff_ffff) {
        Ok(v) => v as u64,
        Err(_) => 0,
    }
}

/// The vtable slot after `Slot:` in a line, when it is a `u32`.
pub open spec fn spec_parse_slot(line: Seq<char>) -> Option<u32> {
    match find(line, "Slot:"@) {
        None => None,
        Some(i) => {
            let toks = split_ws(trimmed(line.skip(i + 5)));
            if toks.len() == 0 {
                None
            } else {
                match parse_int(toks[0], 10, false, 0, 0xffff_ffff) {
                    Ok(v) => Some(v as u32),
                    Err(_) => None,
                }
            }
        },
    }
}

/// `s` cut before its first `//` comment marker.
pub open spec fn before_comment(s: Seq<char>) -> Seq<char> {
    match find(s, "//"@) {
        Some(i) => s.take(i),
        None => s,
    }
}

/// The class name after `class` and the base name after `:` in a class
/// declaration line (the base is empty when there is none).
pub open spec fn spec_parse_class_and_base(line: Seq<char>) -> Option<(Seq<char>, Seq<char>)> {
    let parts = split_ws(before_comment(line));
    match position_of(parts, "class"@) {
        None => None,
        Some(ci) => {
            if ci + 1 >= parts.len() {
                None
            } else {
                let base = match position_of(parts, ":"@) {
                    Some(k) => if k + 1 < parts.len() {
                        trimmed(parts[k + 1])
                    } else {
                        Seq::empty()
                    },
                    None => Seq::empty(),
                };
                Some((trimmed(parts[ci + 1]), base))
            }
        },
    }
}

/// The word just before the first `(` of a method signature, or the whole
/// signature when there is no such word.
pub open spec fn spec_parse_method_name(sig: Seq<char>) -> Seq<char> {
    let clean = before_comment(sig);
    match find(clean, "("@) {
        None => sig,
        Some(p) => {
            let before = trimmed(clean.take(p));
            match rfind_char(before, ' ') {
                None => sig,
                Some(sp) => trimmed(before.skip(sp + 1)),
            }
        },
    }
}

// ---------------------------------------------------------------------------
// Line parsers: executable
// ---------------------------------------------------------------------------

/// `str::trim_start_matches` with a non-empty literal pattern.
pub fn strip_all_exec(s: &[char], p: &str) -> (res: Vec<char>)
    ensures
        res@ == strip_all(s@, p@),
{
    let pv = chars_of(p);
    let mut i: usize = 0;
    assert(s@.skip(0) =~= s@);
    while pv.len() > 0 && i <= s.len() && occurs_at_exec(s, pv.as_slice(), i)
        invariant
            i <= s.len(),
            pv@ == p@,
            strip_all(s@, p@) == strip_all(s@.skip(i as int), p@),
        decreases s.len() - i,
    {
        assert(s@.skip(i as int).subrange(0, pv@.len() as int) =~= s@.subrange(
            i as int,
            i + pv@.len(),
        ));
        assert(s@.skip(i as int).skip(pv@.len() as int) =~= s@.skip(i + pv@.len()));
        i = i + pv.len();
    }
    if pv.len() > 0 && i <= s.len() {
        assert(s@.skip(i as int).subrange(0, pv@.len() as int) =~= s@.subrange(
            i as int,
            i + pv@.len(),
        ) || pv@.len() > s@.skip(i as int).len());
    }
    copy_range(s, i, s.len())
}

/// The characters of `v`, or nothing.
pub open spec fn opt_chars(v: Option<Vec<char>>) -> Option<Seq<char>> {
    match v {
        Some(x) => Some(x@),
        None => None,
    }
}

/// The first index of `x` among `parts`.
pub fn position_exec(parts: &Vec<Vec<char>>, x: &str) -> (res: Option<usize>)
    ensures
        match res {
            Some(i) => i < parts@.len() && position_of(parts@.map_values(|t: Vec<char>| t@), x@)
                == Some(i as int),
            None => position_of(parts@.map_values(|t: Vec<char>| t@), x@) is None,
        },
{
    let ghost all = parts@.map_values(|t: Vec<char>| t@);
    let mut i: usize = 0;
    assert(all.skip(0) =~= all);
    while i < parts.len()
        invariant
            i <= parts.len(),
            all == parts@.map_values(|t: Vec<char>| t@),
            forall|k: int| 0 <= k < i ==> all[k] != x@,
            position_of(all, x@) == (match position_of(all.skip(i as int), x@) {
                Some(j) => Some(j + i),
                None => None,
            }),
        decreases parts.len() - i,
    {
        assert(all.skip(i as int)[0] == all[i as int]);
        if equals_str(parts[i].as_slice(), x) {
            return Some(i);
        }
        assert(all.skip(i as int).drop_first() =~= all.skip(i + 1));
        i = i + 1;
    }
    assert(all.skip(i as int).len() == 0);
    None
}

/// `s` cut before its first `//`.
pub fn before_comment_exec(s: &[char]) -> (res: Vec<char>)
    ensures
        res@ == before_comment(s@),
{
    proof {
        crate::text::lemma_find_from(s@, "//"@, 0);
    }
    match find_str(s, "//") {
        Some(i) => copy_range(s, 0, i),
        None => copy_range(s, 0, s.len()),
    }
}

/// The RVA token of a `// RVA: 0x...` comment line, when it is hexadecimal.
pub fn parse_rva_hex(line: &[char]) -> (res: Option<Vec<char>>)
    ensures
        opt_chars(res) == spec_parse_rva_hex(line@),
{
    proof {
        reveal_strlit("//");
        reveal_strlit("RVA:");
    }
    if !starts_with_str(line, "//") {
        return None;
    }
    let a = copy_range(line, 2, line.len());
    assert(a@ =~= line@.skip(2));
    let at = trim(a.as_slice());
    if !starts_with_str(at.as_slice(), "RVA:") {
        return None;
    }
    let b = copy_range(at.as_slice(), 4, at.len());
    assert(b@ =~= at@.skip(4));
    let bt = trim(b.as_slice());
    let toks = split_whitespace(bt.as_slice());
    if toks.len() == 0 {
        return None;
    }
    let tok = copy_range(toks[0].as_slice(), 0, toks[0].len());
    assert(tok@ =~= toks@[0]@);
    assert(toks@.map_values(|t: Vec<char>| t@)[0] == toks@[0]@);
    if starts_with_str(tok.as_slice(), "0x") || starts_with_str(tok.as_slice(), "0X") {
        Some(tok)
    } else {
        None
    }
}

/// The numeric value of an RVA token (0 when it does not read as hexadecimal).
pub fn rva_value(rva: &[char]) -> (res: u64)
    ensures
        res == spec_rva_value(rva@),
{
    let a = strip_all_exec(rva, "0x");
    let b = strip_all_exec(a.as_slice(), "0X");
    match parse_int_exec(b.as_slice(), 16, false, 0, 0xffff_ffff_ffff_ffff) {
        Ok(v) => v as u64,
        Err(_) => 0,
    }
}

/// The vtable slot after `Slot:` in a line, when it is a `u32`.
pub fn parse_slot(line: &[char]) -> (res: Option<u32>)
    ensures
        res == spec_parse_slot(line@),
{
    proof {
        reveal_strlit("Slot:");
        crate::text::lemma_find_from(line@, "Slot:"@, 0);
    }
    match find_str(line, "Slot:") {
        None => None,
        Some(i) => {
            assert("Slot:"@.len() == 5);
            assert(i + 5 <= line.len());
            let rest = copy_range(line, i + 5, line.len());
            assert(rest@ =~= line@.skip(i + 5));
            let t = trim(rest.as_slice());
            let toks = split_whitespace(t.as_slice());
            if toks.len() == 0 {
                return None;
            }
            assert(toks@.map_values(|t: Vec<char>| t@)[0] == toks@[0]@);
            match parse_int_exec(toks[0].as_slice(), 10, false, 0, 0xffff_ffff) {
                Ok(v) => Some(v as u32),
                Err(_) => None,
            }
        },
    }
}

/// The class name and base name of a class declaration line.
pub fn parse_class_and_base(line: &[char]) -> (res: Option<(Vec<char>, Vec<char>)>)
    ensures
        match res {
            Some((c, b)) => spec_parse_class_and_base(line@) == Some((c@, b@)),
            None => spec_parse_class_and_base(line@) is None,
        },
{
    let clean = before_comment_exec(line);
    let parts = split_whitespace(clean.as_slice());
    let ghost ps = parts@.map_values(|t: Vec<char>| t@);
    let ci = match position_exec(&parts, "class") {
        None => {
            return None;
        },
        Some(ci) => ci,
    };
    assert(ci < parts@.len());
    assert(ci < parts.len());
    if ci + 1 >= parts.len() {
        return None;
    }
    assert(ps[ci + 1] == parts@[ci + 1]@);
    let name = trim(parts[ci + 1].as_slice());
    let base = match position_exec(&parts, ":") {
        Some(k) => {
            if k + 1 < parts.len() {
                assert(ps[k + 1] == parts@[k + 1]@);
                trim(parts[k + 1].as_slice())
            } else {
                Vec::new()
            }
        },
        None => Vec::new(),
    };
    assert(base@ =~= (match position_of(ps, ":"@) {
        Some(k) => if k + 1 < ps.len() {
            trimmed(ps[k + 1])
        } else {
            Seq::empty()
        },
        None => Seq::empty(),
    }));
    Some((name, base))
}

/// The method name in a method signature line.
pub fn parse_method_name(sig: &[char]) -> (res: Vec<char>)
    ensures
        res@ == spec_parse_method_name(sig@),
{
    proof {
        reveal_strlit("(");
    }
    let clean = before_comment_exec(sig);
    match find_str(clean.as_slice(), "(") {
        None => copy_range(sig, 0, sig.len()),
        Some(p) => {
            let head = copy_range(clean.as_slice(), 0, p);
            assert(head@ =~= clean@.take(p as int));
            let before = trim(head.as_slice());
            match rfind_char_exec(before.as_slice(), ' ') {
                None => copy_range(sig, 0, sig.len()),
                Some(sp) => {
                    assert(sp < before.len());
                    let tail = copy_range(before.as_slice(), sp + 1, before.len());
                    assert(tail@ =~= before@.skip(sp + 1));
                    trim(tail.as_slice())
                },
            }
        },
    }
}

// ---------------------------------------------------------------------------
// Findings and their models
// ---------------------------------------------------------------------------

/// A method located in the dump, with the metadata of its `// RVA:` comment.
#[derive(Debug)]
pub struct MethodFinding {
    pub class_name: String,
    pub method_name: String,
    pub signature: String,
    pub rva: String,
    pub rva_int: u64,
    pub slot: Option<u32>,
    pub line_number: usize,
}

/// The value of a [`MethodFinding`], its texts as character sequences.
pub struct MethodFindingModel {
    pub class_name: Seq<char>,
    pub method_name: Seq<char>,
    pub signature: Seq<char>,
    pub rva: Seq<char>,
    pub rva_int: u64,
    pub slot: Option<u32>,
    pub line_number: usize,
}

impl View for MethodFinding {
    type V = MethodFindingModel;

    open spec fn view(&self) -> MethodFindingModel {
        MethodFindingModel {
            class_name: self.class_name@,
            method_name: self.method_name@,
            signature: self.signature@,
            rva: self.rva@,
            rva_int: self.rva_int,
            slot: self.slot,
            line_number: self.line_number,
        }
    }
}

impl MethodFinding {
    /// A copy of this finding.
    pub fn duplicate(&self) -> (res: MethodFinding)
        ensures
            res@ == self@,
    {
        MethodFinding {
            class_name: self.class_name.clone(),
            method_name: self.method_name.clone(),
            signature: self.signature.clone(),
            rva: self.rva.clone(),
            rva_int: self.rva_int,
            slot: self.slot,
            line_number: self.line_number,
        }
    }
}

impl Clone for MethodFinding {
    fn clone(&self) -> (res: MethodFinding)
        ensures
            res@ == self@,
    {
        self.duplicate()
    }
}

impl Default for MethodFinding {
    fn default() -> (res: MethodFinding)
        ensures
            res@ == (MethodFindingModel {
                class_name: Seq::empty(),
                method_name: Seq::empty(),
                signature: Seq::empty(),
                rva: Seq::empty(),
                rva_int: 0,
                slot: None,
                line_number: 0,
            }),
    {
        MethodFinding {
            class_name: String::new(),
            method_name: String::new(),
            signature: String::new(),
            rva: String::new(),
            rva_int: 0,
            slot: None,
            line_number: 0,
        }
    }
}

/// The offsets recovered from a dump.
#[derive(Debug)]
pub struct TaskbarHeroOffsets {
    pub base_health_class: Option<String>,
    pub hero_health_class: Option<String>,
    pub godmode_hero: Option<MethodFinding>,
    pub godmode_base: Option<MethodFinding>,
    pub stat_multiplier: Option<MethodFinding>,
    pub aoe_radius: Option<MethodFinding>,
    pub unit_hero_offset: Option<String>,
}

/// The value of a [`TaskbarHeroOffsets`].
pub struct OffsetsModel {
    pub base_health_class: Option<Seq<char>>,
    pub hero_health_class: Option<Seq<char>>,
    pub godmode_hero: Option<MethodFindingModel>,
    pub godmode_base: Option<MethodFindingModel>,
    pub stat_multiplier: Option<MethodFindingModel>,
    pub aoe_radius: Option<MethodFindingModel>,
    pub unit_hero_offset: Option<Seq<char>>,
}

/// The characters of an optional string.
pub open spec fn opt_string(s: Option<String>) -> Option<Seq<char>> {
    match s {
        Some(x) => Some(x@),
        None => None,
    }
}

/// The model of an optional finding.
pub open spec fn opt_finding(m: Option<MethodFinding>) -> Option<MethodFindingModel> {
    match m {
        Some(x) => Some(x@),
        None => None,
    }
}

impl View for TaskbarHeroOffsets {
    type V = OffsetsModel;

    open spec fn view(&self) -> OffsetsModel {
        OffsetsModel {
            base_health_class: opt_string(self.base_health_class),
            hero_health_class: opt_string(self.hero_health_class),
            godmode_hero: opt_finding(self.godmode_hero),
            godmode_base: opt_finding(self.godmode_base),
            stat_multiplier: opt_finding(self.stat_multiplier),
            aoe_radius: opt_finding(self.aoe_radius),
            unit_hero_offset: opt_string(self.unit_hero_offset),
        }
    }
}

impl Default for TaskbarHeroOffsets {
    fn default() -> (res: TaskbarHeroOffsets)
        ensures
            res@ == (OffsetsModel {
                base_health_class: None,
                hero_health_class: None,
                godmode_hero: None,
                godmode_base: None,
                stat_multiplier: None,
                aoe_radius: None,
                unit_hero_offset: None,
            }),
    {
        TaskbarHeroOffsets {
            base_health_class: None,
            hero_health_class: None,
            godmode_hero: None,
            godmode_base: None,
            stat_multiplier: None,
            aoe_radius: None,
            unit_hero_offset: None,
        }
    }
}

// ---------------------------------------------------------------------------
// The line-by-line scan: models
// ---------------------------------------------------------------------------

/// Metadata read from the lines before a method declaration.
pub struct PendingModel {
    pub rva: Option<Seq<char>>,
    pub rva_int: u64,
    pub slot: Option<u32>,
    pub is_extension: bool,
}

/// A class of the dump with the anchors seen in it and its methods (each
/// with whether it was marked `[Extension]`).
pub struct ClassModel {
    pub name: Seq<char>,
    pub base: Seq<char>,
    pub has_hero_field: bool,
    pub has_hpbar_field: bool,
    pub has_radius_field: bool,
    pub methods: Seq<(MethodFindingModel, bool)>,
}

/// The state of the scan between two lines: the class being read, the
/// classes already closed, and the pending method metadata.
pub struct ScanModel {
    pub current_class: Seq<char>,
    pub current_base: Seq<char>,
    pub has_hero_field: bool,
    pub has_hpbar_field: bool,
    pub has_radius_field: bool,
    pub methods: Seq<(MethodFindingModel, bool)>,
    pub classes: Seq<ClassModel>,
    pub pending: PendingModel,
}

/// No pending metadata.
pub open spec fn no_pending() -> PendingModel {
    PendingModel { rva: None, rva_int: 0, slot: None, is_extension: false }
}

/// The state before the first line.
pub open spec fn initial_scan() -> ScanModel {
    ScanModel {
        current_class: Seq::empty(),
        current_base: Seq::empty(),
        has_hero_field: false,
        has_hpbar_field: false,
        has_radius_field: false,
        methods: Seq::empty(),
        classes: Seq::empty(),
        pending: no_pending(),
    }
}

/// A trimmed line that declares a class.
pub open spec fn is_class_decl(t: Seq<char>) -> bool {
    (starts_with(t, "public "@) || starts_with(t, "private "@) || starts_with(t, "protected "@)
        || starts_with(t, "internal "@)) && contains(t, "class "@)
}

/// A trimmed line that declares the `SpriteSlider HpBar` field.
pub open spec fn is_hpbar_line(t: Seq<char>) -> bool {
    contains(t, "SpriteSlider HpBar;"@) || contains(t, "SpriteSlider HpBar"@)
}

/// A trimmed line that declares the `DamageDetectRadiusRawValue` field.
pub open spec fn is_radius_line(t: Seq<char>) -> bool {
    contains(t, "DamageDetectRadiusRawValue;"@) || contains(t, "DamageDetectRadiusRawValue"@)
}

/// A trimmed line that declares a `Hero` field.
pub open spec fn is_hero_line(t: Seq<char>) -> bool {
    contains(t, "Hero "@) && (contains(t, "private "@) || contains(t, "public "@) || contains(
        t,
        "protected "@,
    ))
}

/// A trimmed line that declares a method.
pub open spec fn is_method_line(t: Seq<char>) -> bool {
    contains(t, "("@) && contains(t, ")"@) && !starts_with(t, "//"@)
}

/// The pending metadata after a `// RVA:` line.
pub open spec fn step_rva(p: PendingModel, t: Seq<char>) -> PendingModel {
    let p1 = match spec_parse_rva_hex(t) {
        Some(r) => PendingModel { rva: Some(r), rva_int: spec_rva_value(r), ..p },
        None => p,
    };
    match spec_parse_slot(t) {
        Some(v) => PendingModel { slot: Some(v), ..p1 },
        None => p1,
    }
}

/// The class being read, closed.
pub open spec fn close_class(st: ScanModel) -> ClassModel {
    ClassModel {
        name: st.current_class,
        base: st.current_base,
        has_hero_field: st.has_hero_field,
        has_hpbar_field: st.has_hpbar_field,
        has_radius_field: st.has_radius_field,
        methods: st.methods,
    }
}

/// The state after a class declaration line: the class being read (if it
/// has a name) is closed, and the declared class becomes current.
pub open spec fn step_class(st: ScanModel, t: Seq<char>) -> ScanModel {
    let st1 = if st.current_class.len() > 0 {
        ScanModel {
            current_class: Seq::empty(),
            current_base: Seq::empty(),
            has_hero_field: false,
            has_hpbar_field: false,
            has_radius_field: false,
            methods: Seq::empty(),
            classes: st.classes.push(close_class(st)),
            ..st
        }
    } else {
        st
    };
    let st2 = match spec_parse_class_and_base(t) {
        Some((c, b)) => ScanModel { current_class: c, current_base: b, ..st1 },
        None => st1,
    };
    ScanModel { pending: no_pending(), ..st2 }
}

/// The state after any other line: field anchors are noted, and a method
/// declaration that follows an RVA comment is recorded.
pub open spec fn step_body(st: ScanModel, t: Seq<char>, idx: int) -> ScanModel {
    let st1 = ScanModel {
        has_hpbar_field: st.has_hpbar_field || is_hpbar_line(t),
        has_radius_field: st.has_radius_field || is_radius_line(t),
        has_hero_field: st.has_hero_field || is_hero_line(t),
        ..st
    };
    match st.pending.rva {
        None => st1,
        Some(rva) => {
            let methods = if is_method_line(t) {
                st.methods.push(
                    (
                        MethodFindingModel {
                            class_name: st.current_class,
                            method_name: spec_parse_method_name(t),
                            signature: t,
                            rva: rva,
                            rva_int: st.pending.rva_int,
                            slot: st.pending.slot,
                            line_number: (idx + 1) as usize,
                        },
                        st.pending.is_extension,
                    ),
                )
            } else {
                st.methods
            };
            ScanModel { methods: methods, pending: no_pending(), ..st1 }
        },
    }
}

/// The state after line `line`, whose index is `idx`.
pub open spec fn step(st: ScanModel, line: Seq<char>, idx: int) -> ScanModel {
    let t = trimmed(line);
    if t == "[Extension]"@ {
        ScanModel { pending: PendingModel { is_extension: true, ..st.pending }, ..st }
    } else if starts_with(t, "// RVA:"@) {
        ScanModel { pending: step_rva(st.pending, t), ..st }
    } else if is_class_decl(t) {
        step_class(st, t)
    } else {
        step_body(st, t, idx)
    }
}

/// The state after the first `n` lines.
pub open spec fn scan_upto(lines: Seq<Seq<char>>, n: nat) -> ScanModel
    decreases n,
{
    if n == 0 {
        initial_scan()
    } else {
        step(scan_upto(lines, (n - 1) as nat), lines[n - 1], n - 1)
    }
}

/// The classes of the dump once every line is read.
pub open spec fn dump_classes(lines: Seq<Seq<char>>) -> Seq<ClassModel> {
    let st = scan_upto(lines, lines.len());
    if st.current_class.len() > 0 {
        st.classes.push(close_class(st))
    } else {
        st.classes
    }
}

// ---------------------------------------------------------------------------
// Resolution of the anchors: models
// ---------------------------------------------------------------------------

/// The structural anchor that selects a class.
#[derive(Clone, Copy, Debug, PartialEq, Eq, Structural)]
pub enum ClassAnchor {
    /// The class declares `SpriteSlider HpBar`: the base health class.
    HpBar,
    /// The class declares `DamageDetectRadiusRawValue`: the AoE class.
    Radius,
    /// The class derives from a given class and declares a `Hero` field.
    HeroSubclass,
}

/// The structural anchor that selects a method.
#[derive(Clone, Copy, Debug, PartialEq, Eq, Structural)]
pub enum MethodAnchor {
    /// The damage receiver `(float a, Unit b)`.
    Godmode,
    /// An extension method returning `float` from a `StatType`.
    StatMultiplier,
    /// The AoE hit method taking a position and a unit or a damage factory.
    AoeRadius,
}

/// Class `c` carries `anchor` (`base` is the base class for `HeroSubclass`).
pub open spec fn class_matches(c: ClassModel, anchor: ClassAnchor, base: Seq<char>) -> bool {
    match anchor {
        ClassAnchor::HpBar => c.has_hpbar_field,
        ClassAnchor::Radius => c.has_radius_field,
        ClassAnchor::HeroSubclass => c.base == base && c.has_hero_field,
    }
}

/// Method `m` (with its extension mark) carries `anchor`.
pub open spec fn method_matches(m: (MethodFindingModel, bool), anchor: MethodAnchor) -> bool {
    let sig = m.0.signature;
    match anchor {
        MethodAnchor::Godmode => contains(sig, "(float a, Unit b)"@),
        MethodAnchor::StatMultiplier => m.1 && contains(sig, "float "@) && (contains(
            sig,
            "StatType b)"@,
        ) || contains(sig, "StatType b,"@) || contains(sig, "StatType "@)) && !contains(
            sig,
            "int a, StatType b"@,
        ) && !contains(sig, "string "@) && !contains(sig, "double "@),
        MethodAnchor::AoeRadius => (contains(sig, "Vector3 a, Unit b"@) || contains(
            sig,
            "Func<DamageInfo>"@,
        )) && (contains(sig, "Slot: 10"@) || contains(sig, "Slot: 5"@) || contains(
            sig,
            "virtual void"@,
        )),
    }
}

/// The index of the first class at or after `i` that carries `anchor`.
pub open spec fn first_class_from(
    cs: Seq<ClassModel>,
    anchor: ClassAnchor,
    base: Seq<char>,
    i: int,
) -> Option<int>
    decreases cs.len() - i,
{
    if i < 0 || i >= cs.len() {
        None
    } else if class_matches(cs[i], anchor, base) {
        Some(i)
    } else {
        first_class_from(cs, anchor, base, i + 1)
    }
}

/// The first method at or after `i` that carries `anchor`.
pub open spec fn first_method_from(
    ms: Seq<(MethodFindingModel, bool)>,
    anchor: MethodAnchor,
    i: int,
) -> Option<MethodFindingModel>
    decreases ms.len() - i,
{
    if i < 0 || i >= ms.len() {
        None
    } else if method_matches(ms[i], anchor) {
        Some(ms[i].0)
    } else {
        first_method_from(ms, anchor, i + 1)
    }
}

/// The first method carrying `anchor` among the classes from index `i` on,
/// classes in order and methods in order within each.
pub open spec fn first_method_in_classes(
    cs: Seq<ClassModel>,
    anchor: MethodAnchor,
    i: int,
) -> Option<MethodFindingModel>
    decreases cs.len() - i,
{
    if i < 0 || i >= cs.len() {
        None
    } else {
        match first_method_from(cs[i].methods, anchor, 0) {
            Some(m) => Some(m),
            None => first_method_in_classes(cs, anchor, i + 1),
        }
    }
}

/// The first method of the class at index `ci` (if any) that carries `anchor`.
pub open spec fn method_of_class(
    cs: Seq<ClassModel>,
    ci: Option<int>,
    anchor: MethodAnchor,
) -> Option<MethodFindingModel> {
    match ci {
        Some(i) => first_method_from(cs[i].methods, anchor, 0),
        None => None,
    }
}

/// The name of the class at index `ci`, if any.
pub open spec fn name_of_class(cs: Seq<ClassModel>, ci: Option<int>) -> Option<Seq<char>> {
    match ci {
        Some(i) => Some(cs[i].name),
        None => None,
    }
}

/// The offsets that the anchors select among the classes `cs`.
pub open spec fn resolve(cs: Seq<ClassModel>) -> OffsetsModel {
    let base = first_class_from(cs, ClassAnchor::HpBar, Seq::empty(), 0);
    let hero = match base {
        Some(b) => first_class_from(cs, ClassAnchor::HeroSubclass, cs[b].name, 0),
        None => None,
    };
    let aoe = first_class_from(cs, ClassAnchor::Radius, Seq::empty(), 0);
    OffsetsModel {
        base_health_class: name_of_class(cs, base),
        hero_health_class: name_of_class(cs, hero),
        godmode_hero: method_of_class(cs, hero, MethodAnchor::Godmode),
        godmode_base: method_of_class(cs, base, MethodAnchor::Godmode),
        stat_multiplier: first_method_in_classes(cs, MethodAnchor::StatMultiplier, 0),
        aoe_radius: method_of_class(cs, aoe, MethodAnchor::AoeRadius),
        unit_hero_offset: Some("0x100"@),
    }
}

/// The offsets found in the lines of a dump.
pub open spec fn spec_dump_offsets(lines: Seq<Seq<char>>) -> OffsetsModel {
    resolve(dump_classes(lines))
}

/// The index of the first line that could not be read, if any.
pub open spec fn first_read_error(lines: Seq<Result<String, String>>, i: int) -> Option<int>
    decreases lines.len() - i,
{
    if i < 0 || i >= lines.len() {
        None
    } else if lines[i] is Err {
        Some(i)
    } else {
        first_read_error(lines, i + 1)
    }
}

/// The text of the lines (an unreadable line counts as empty).
pub open spec fn line_texts(lines: Seq<Result<String, String>>) -> Seq<Seq<char>> {
    lines.map_values(
        |r: Result<String, String>|
            match r {
                Ok(s) => s@,
                Err(_) => Seq::empty(),
            },
    )
}

/// The message for a line that could not be read.
pub open spec fn read_failure_text(lines: Seq<Result<String, String>>, k: int) -> Seq<char> {
    "Failed to read line "@ + decimal((k + 1) as nat) + ": "@ + match lines[k] {
        Err(e) => e@,
        Ok(_) => Seq::empty(),
    }
}

// ---------------------------------------------------------------------------
// The line-by-line scan: executable
// ---------------------------------------------------------------------------

/// The models of a list of methods with their extension marks.
pub open spec fn methods_model(ms: Seq<(MethodFinding, bool)>) -> Seq<(MethodFindingModel, bool)> {
    ms.map_values(|p: (MethodFinding, bool)| (p.0@, p.1))
}

struct PendingMeta {
    rva: Option<Vec<char>>,
    rva_int: u64,
    slot: Option<u32>,
    is_extension: bool,
}

impl View for PendingMeta {
    type V = PendingModel;

    closed spec fn view(&self) -> PendingModel {
        PendingModel {
            rva: opt_chars(self.rva),
            rva_int: self.rva_int,
            slot: self.slot,
            is_extension: self.is_extension,
        }
    }
}

impl PendingMeta {
    fn none() -> (res: PendingMeta)
        ensures
            res@ == no_pending(),
    {
        PendingMeta { rva: None, rva_int: 0, slot: None, is_extension: false }
    }
}

struct ClassSummary {
    name: Vec<char>,
    base: Vec<char>,
    has_hero_field: bool,
    has_hpbar_field: bool,
    has_radius_field: bool,
    methods: Vec<(MethodFinding, bool)>,
}

impl View for ClassSummary {
    type V = ClassModel;

    closed spec fn view(&self) -> ClassModel {
        ClassModel {
            name: self.name@,
            base: self.base@,
            has_hero_field: self.has_hero_field,
            has_hpbar_field: self.has_hpbar_field,
            has_radius_field: self.has_radius_field,
            methods: methods_model(self.methods@),
        }
    }
}

/// The models of a list of classes.
spec fn classes_model(cs: Seq<ClassSummary>) -> Seq<ClassModel> {
    cs.map_values(|c: ClassSummary| c@)
}

struct DumpScanner {
    current_class: Vec<char>,
    current_base: Vec<char>,
    has_hero_field: bool,
    has_hpbar_field: bool,
    has_radius_field: bool,
    methods: Vec<(MethodFinding, bool)>,
    classes: Vec<ClassSummary>,
    pending: PendingMeta,
}

impl View for DumpScanner {
    type V = ScanModel;

    closed spec fn view(&self) -> ScanModel {
        ScanModel {
            current_class: self.current_class@,
            current_base: self.current_base@,
            has_hero_field: self.has_hero_field,
            has_hpbar_field: self.has_hpbar_field,
            has_radius_field: self.has_radius_field,
            methods: methods_model(self.methods@),
            classes: classes_model(self.classes@),
            pending: self.pending@,
        }
    }
}

impl DumpScanner {
    fn new() -> (res: DumpScanner)
        ensures
            res@ == initial_scan(),
    {
        let res = DumpScanner {
            current_class: Vec::new(),
            current_base: Vec::new(),
            has_hero_field: false,
            has_hpbar_field: false,
            has_radius_field: false,
            methods: Vec::new(),
            classes: Vec::new(),
            pending: PendingMeta::none(),
        };
        assert(res@.methods =~= Seq::<(MethodFindingModel, bool)>::empty());
        assert(res@.classes =~= Seq::<ClassModel>::empty());
        res
    }

    /// Closes the class being read and appends it to the closed classes.
    fn close_current(&mut self)
        ensures
            final(self)@.classes == old(self)@.classes.push(close_class(old(self)@)),
            final(self)@.current_class == Seq::<char>::empty(),
            final(self)@.current_base == Seq::<char>::empty(),
            final(self)@.methods == Seq::<(MethodFindingModel, bool)>::empty(),
            final(self)@.pending == old(self)@.pending,
            final(self)@.has_hero_field == old(self)@.has_hero_field,
            final(self)@.has_hpbar_field == old(self)@.has_hpbar_field,
            final(self)@.has_radius_field == old(self)@.has_radius_field,
    {
        let mut name: Vec<char> = Vec::new();
        std::mem::swap(&mut name, &mut self.current_class);
        let mut base: Vec<char> = Vec::new();
        std::mem::swap(&mut base, &mut self.current_base);
        let mut methods: Vec<(MethodFinding, bool)> = Vec::new();
        std::mem::swap(&mut methods, &mut self.methods);
        let c = ClassSummary {
            name,
            base,
            has_hero_field: self.has_hero_field,
            has_hpbar_field: self.has_hpbar_field,
            has_radius_field: self.has_radius_field,
            methods,
        };
        self.classes.push(c);
        assert(classes_model(self.classes@) =~= classes_model(old(self).classes@).push(
            close_class(old(self)@),
        ));
        assert(methods_model(self.methods@) =~= Seq::<(MethodFindingModel, bool)>::empty());
    }

    /// Reads line `line`, whose index is `idx`.
    fn feed(&mut self, line: &[char], idx: usize)
        requires
            idx < usize::MAX,
        ensures
            final(self)@ == step(old(self)@, line@, idx as int),
    {
        let t = trim(line);
        let ts = t.as_slice();
        if equals_str(ts, "[Extension]") {
            self.pending.is_extension = true;
            return;
        }
        if starts_with_str(ts, "// RVA:") {
            match parse_rva_hex(ts) {
                Some(r) => {
                    let v = rva_value(r.as_slice());
                    self.pending.rva = Some(r);
                    self.pending.rva_int = v;
                },
                None => {},
            }
            match parse_slot(ts) {
                Some(sl) => {
                    self.pending.slot = Some(sl);
                },
                None => {},
            }
            return;
        }
        let decl = (starts_with_str(ts, "public ") || starts_with_str(ts, "private ")
            || starts_with_str(ts, "protected ") || starts_with_str(ts, "internal "))
            && contains_str(ts, "class ");
        if decl {
            if self.current_class.len() > 0 {
                self.close_current();
                self.has_hero_field = false;
                self.has_hpbar_field = false;
                self.has_radius_field = false;
            }
            match parse_class_and_base(ts) {
                Some((c, b)) => {
                    self.current_class = c;
                    self.current_base = b;
                },
                None => {},
            }
            self.pending = PendingMeta::none();
            return;
        }
        if contains_str(ts, "SpriteSlider HpBar;") || contains_str(ts, "SpriteSlider HpBar") {
            self.has_hpbar_field = true;
        }
        if contains_str(ts, "DamageDetectRadiusRawValue;") || contains_str(
            ts,
            "DamageDetectRadiusRawValue",
        ) {
            self.has_radius_field = true;
        }
        if contains_str(ts, "Hero ") && (contains_str(ts, "private ") || contains_str(
            ts,
            "public ",
        ) || contains_str(ts, "protected ")) {
            self.has_hero_field = true;
        }
        let rva_opt = self.pending.rva.take();
        match rva_opt {
            None => {},
            Some(rva) => {
                if contains_str(ts, "(") && contains_str(ts, ")") && !starts_with_str(ts, "//") {
                    let name = parse_method_name(ts);
                    let f = MethodFinding {
                        class_name: string_of(self.current_class.as_slice()),
                        method_name: string_of(name.as_slice()),
                        signature: string_of(ts),
                        rva: string_of(rva.as_slice()),
                        rva_int: self.pending.rva_int,
                        slot: self.pending.slot,
                        line_number: idx + 1,
                    };
                    let ext = self.pending.is_extension;
                    let ghost before = self.methods@;
                    self.methods.push((f, ext));
                    assert(methods_model(self.methods@) =~= methods_model(before).push(
                        (f@, ext),
                    ));
                }
                self.pending = PendingMeta::none();
            },
        }
    }

    /// The classes read, with the class being read closed if it has a name.
    fn finish(self) -> (res: Vec<ClassSummary>)
        ensures
            classes_model(res@) == (if self@.current_class.len() > 0 {
                self@.classes.push(close_class(self@))
            } else {
                self@.classes
            }),
    {
        let mut me = self;
        if me.current_class.len() > 0 {
            me.close_current();
        }
        me.classes
    }
}

// ---------------------------------------------------------------------------
// Resolution of the anchors: executable
// ---------------------------------------------------------------------------

fn class_matches_exec(c: &ClassSummary, anchor: ClassAnchor, base: &[char]) -> (res: bool)
    ensures
        res == class_matches(c@, anchor, base@),
{
    match anchor {
        ClassAnchor::HpBar => c.has_hpbar_field,
        ClassAnchor::Radius => c.has_radius_field,
        ClassAnchor::HeroSubclass => equals_exec(c.base.as_slice(), base) && c.has_hero_field,
    }
}

fn method_matches_exec(m: &(MethodFinding, bool), anchor: MethodAnchor) -> (res: bool)
    ensures
        res == method_matches((m.0@, m.1), anchor),
{
    let sig = chars_of(m.0.signature.as_str());
    let s = sig.as_slice();
    match anchor {
        MethodAnchor::Godmode => contains_str(s, "(float a, Unit b)"),
        MethodAnchor::StatMultiplier => m.1 && contains_str(s, "float ") && (contains_str(
            s,
            "StatType b)",
        ) || contains_str(s, "StatType b,") || contains_str(s, "StatType ")) && !contains_str(
            s,
            "int a, StatType b",
        ) && !contains_str(s, "string ") && !contains_str(s, "double "),
        MethodAnchor::AoeRadius => (contains_str(s, "Vector3 a, Unit b") || contains_str(
            s,
            "Func<DamageInfo>",
        )) && (contains_str(s, "Slot: 10") || contains_str(s, "Slot: 5") || contains_str(
            s,
            "virtual void",
        )),
    }
}

fn first_class_exec(cs: &Vec<ClassSummary>, anchor: ClassAnchor, base: &[char]) -> (res: Option<
    usize,
>)
    ensures
        match res {
            Some(i) => i < cs@.len() && first_class_from(classes_model(cs@), anchor, base@, 0)
                == Some(i as int),
            None => first_class_from(classes_model(cs@), anchor, base@, 0) is None,
        },
{
    let ghost m = classes_model(cs@);
    let mut i: usize = 0;
    while i < cs.len()
        invariant
            i <= cs.len(),
            m == classes_model(cs@),
            first_class_from(m, anchor, base@, 0) == first_class_from(m, anchor, base@, i as int),
        decreases cs.len() - i,
    {
        if class_matches_exec(&cs[i], anchor, base) {
            return Some(i);
        }
        i = i + 1;
    }
    None
}

fn first_method_exec(ms: &Vec<(MethodFinding, bool)>, anchor: MethodAnchor) -> (res: Option<usize>)
    ensures
        match res {
            Some(i) => i < ms@.len() && first_method_from(methods_model(ms@), anchor, 0) == Some(
                ms@[i as int].0@,
            ),
            None => first_method_from(methods_model(ms@), anchor, 0) is None,
        },
{
    let ghost m = methods_model(ms@);
    let mut i: usize = 0;
    while i < ms.len()
        invariant
            i <= ms.len(),
            m == methods_model(ms@),
            first_method_from(m, anchor, 0) == first_method_from(m, anchor, i as int),
        decreases ms.len() - i,
    {
        if method_matches_exec(&ms[i], anchor) {
            return Some(i);
        }
        i = i + 1;
    }
    None
}

/// The first method of class `ci` (if any) that carries `anchor`, copied.
fn method_of_class_exec(cs: &Vec<ClassSummary>, ci: Option<usize>, anchor: MethodAnchor) -> (res:
    Option<MethodFinding>)
    requires
        ci matches Some(i) ==> i < cs@.len(),
    ensures
        opt_finding(res) == method_of_class(
            classes_model(cs@),
            match ci {
                Some(i) => Some(i as int),
                None => None,
            },
            anchor,
        ),
{
    match ci {
        None => None,
        Some(i) => {
            assert(classes_model(cs@)[i as int] == cs@[i as int]@);
            match first_method_exec(&cs[i].methods, anchor) {
                None => None,
                Some(j) => Some(cs[i].methods[j].0.duplicate()),
            }
        },
    }
}

fn name_of_class_exec(cs: &Vec<ClassSummary>, ci: Option<usize>) -> (res: Option<String>)
    requires
        ci matches Some(i) ==> i < cs@.len(),
    ensures
        opt_string(res) == name_of_class(
            classes_model(cs@),
            match ci {
                Some(i) => Some(i as int),
                None => None,
            },
        ),
{
    match ci {
        None => None,
        Some(i) => {
            assert(classes_model(cs@)[i as int] == cs@[i as int]@);
            Some(string_of(cs[i].name.as_slice()))
        },
    }
}

fn first_method_in_classes_exec(cs: &Vec<ClassSummary>, anchor: MethodAnchor) -> (res: Option<
    MethodFinding,
>)
    ensures
        opt_finding(res) == first_method_in_classes(classes_model(cs@), anchor, 0),
{
    let ghost m = classes_model(cs@);
    let mut i: usize = 0;
    while i < cs.len()
        invariant
            i <= cs.len(),
            m == classes_model(cs@),
            first_method_in_classes(m, anchor, 0) == first_method_in_classes(m, anchor, i as int),
        decreases cs.len() - i,
    {
        assert(m[i as int] == cs@[i as int]@);
        match first_method_exec(&cs[i].methods, anchor) {
            Some(j) => {
                return Some(cs[i].methods[j].0.duplicate());
            },
            None => {},
        }
        i = i + 1;
    }
    None
}

fn resolve_exec(cs: &Vec<ClassSummary>) -> (res: TaskbarHeroOffsets)
    ensures
        res@ == resolve(classes_model(cs@)),
{
    broadcast use vstd::string::group_string_axioms;

    let ghost m = classes_model(cs@);
    let empty: Vec<char> = Vec::new();
    assert(empty@ =~= Seq::<char>::empty());
    let base = first_class_exec(cs, ClassAnchor::HpBar, empty.as_slice());
    let hero = match base {
        Some(b) => {
            assert(m[b as int] == cs@[b as int]@);
            first_class_exec(cs, ClassAnchor::HeroSubclass, cs[b].name.as_slice())
        },
        None => None,
    };
    let aoe = first_class_exec(cs, ClassAnchor::Radius, empty.as_slice());
    TaskbarHeroOffsets {
        base_health_class: name_of_class_exec(cs, base),
        hero_health_class: name_of_class_exec(cs, hero),
        godmode_hero: method_of_class_exec(cs, hero, MethodAnchor::Godmode),
        godmode_base: method_of_class_exec(cs, base, MethodAnchor::Godmode),
        stat_multiplier: first_method_in_classes_exec(cs, MethodAnchor::StatMultiplier),
        aoe_radius: method_of_class_exec(cs, aoe, MethodAnchor::AoeRadius),
        unit_hero_offset: Some("0x100".to_string()),
    }
}

/// Scans the lines of a `dump.cs` (each as read, or the error met reading
/// it) and recovers the TaskbarHero offsets from its structural anchors.
/// The first line that could not be read makes the scan fail with
/// `Failed to read line <n>: <error>`.
pub fn scan_taskbarhero_dump(lines: &Vec<Result<String, String>>) -> (res: Result<
    TaskbarHeroOffsets,
    String,
>)
    ensures
        match first_read_error(lines@, 0) {
            Some(k) => res matches Err(e) && e@ == read_failure_text(lines@, k),
            None => res matches Ok(o) && o@ == spec_dump_offsets(line_texts(lines@)),
        },
{
    let ghost texts = line_texts(lines@);
    let mut sc = DumpScanner::new();
    let mut i: usize = 0;
    while i < lines.len()
        invariant
            i <= lines.len(),
            texts == line_texts(lines@),
            first_read_error(lines@, 0) == first_read_error(lines@, i as int),
            sc@ == scan_upto(texts, i as nat),
        decreases lines.len() - i,
    {
        match &lines[i] {
            Err(e) => {
                let mut msg = String::new();
                push_str(&mut msg, "Failed to read line ");
                let n = decimal_exec((i + 1) as u64);
                push_all(&mut msg, n.as_slice());
                push_str(&mut msg, ": ");
                push_str(&mut msg, e.as_str());
                assert(msg@ =~= read_failure_text(lines@, i as int));
                return Err(msg);
            },
            Ok(s) => {
                let cs = chars_of(s.as_str());
                sc.feed(cs.as_slice(), i);
            },
        }
        i = i + 1;
    }
    let classes = sc.finish();
    Ok(resolve_exec(&classes))
}

// ---------------------------------------------------------------------------
// Laws
// ---------------------------------------------------------------------------

/// Every method of `ms` is named after the class `name`, or has an empty
/// class name (a method declared before any class).
pub open spec fn methods_named(ms: Seq<(MethodFindingModel, bool)>, name: Seq<char>) -> bool {
    forall|j: int|
        0 <= j < ms.len() ==> (#[trigger] ms[j]).0.class_name == name || ms[j].0.class_name.len()
            == 0
}

/// The methods held by a scan state are named after their classes.
pub open spec fn scan_names_methods(st: ScanModel) -> bool {
    &&& methods_named(st.methods, st.current_class)
    &&& forall|k: int|
        0 <= k < st.classes.len() ==> methods_named(
            #[trigger] st.classes[k].methods,
            st.classes[k].name,
        )
}

/// One line keeps the methods named after their classes.
proof fn lemma_step_names_methods(st: ScanModel, line: Seq<char>, idx: int)
    requires
        scan_names_methods(st),
    ensures
        scan_names_methods(step(st, line, idx)),
{
    let t = trimmed(line);
    if t == "[Extension]"@ || starts_with(t, "// RVA:"@) {
    } else if is_class_decl(t) {
        let next = step_class(st, t);
        if st.current_class.len() > 0 {
            assert forall|k: int| 0 <= k < next.classes.len() implies methods_named(
                #[trigger] next.classes[k].methods,
                next.classes[k].name,
            ) by {
                if k < st.classes.len() {
                    assert(next.classes[k] == st.classes[k]);
                } else {
                    assert(next.classes[k] == close_class(st));
                }
            }
            assert(next.methods.len() == 0);
        } else {
            assert forall|j: int| 0 <= j < next.methods.len() implies (#[trigger] next.methods[j]).0.class_name
                == next.current_class || next.methods[j].0.class_name.len() == 0 by {
                assert(next.methods[j] == st.methods[j]);
            }
        }
    } else {
        let next = step_body(st, t, idx);
        assert forall|j: int| 0 <= j < next.methods.len() implies (#[trigger] next.methods[j]).0.class_name
            == next.current_class || next.methods[j].0.class_name.len() == 0 by {
            if j < st.methods.len() {
                assert(next.methods[j] == st.methods[j]);
            }
        }
    }
}

/// After any number of lines, the methods are named after their classes.
proof fn lemma_scan_names_methods(lines: Seq<Seq<char>>, n: nat)
    ensures
        scan_names_methods(scan_upto(lines, n)),
    decreases n,
{
    if n > 0 {
        lemma_scan_names_methods(lines, (n - 1) as nat);
        lemma_step_names_methods(scan_upto(lines, (n - 1) as nat), lines[n - 1], n - 1);
    }
}

/// The first method carrying `anchor` is one of the methods, and carries it.
proof fn lemma_first_method_from(ms: Seq<(MethodFindingModel, bool)>, anchor: MethodAnchor, i: int)
    ensures
        first_method_from(ms, anchor, i) matches Some(m) ==> exists|j: int|
            0 <= j < ms.len() && (#[trigger] ms[j]).0 == m && method_matches(ms[j], anchor),
    decreases ms.len() - i,
{
    if 0 <= i < ms.len() && !method_matches(ms[i], anchor) {
        lemma_first_method_from(ms, anchor, i + 1);
    }
}

/// What the scan of a dump finds hangs together: a damage receiver is
/// found only in a class that was found, with the receiver's signature and
/// named after that class (or with an empty class name, when declared
/// before any class); a hero class is found only under a base class; the
/// AoE method takes a position and a unit or a damage factory; and the
/// unit's hero flag offset is always `0x100`.
pub proof fn lemma_dump_offsets_consistent(lines: Seq<Seq<char>>)
    ensures
        ({
            let o = spec_dump_offsets(lines);
            &&& o.unit_hero_offset == Some("0x100"@)
            &&& o.hero_health_class is Some ==> o.base_health_class is Some
            &&& o.godmode_base is Some ==> o.base_health_class is Some
            &&& o.godmode_hero is Some ==> o.hero_health_class is Some
            &&& o.aoe_radius matches Some(m) ==> contains(m.signature, "Vector3 a, Unit b"@)
                || contains(m.signature, "Func<DamageInfo>"@)
            &&& o.godmode_base matches Some(m) ==> contains(m.signature, "(float a, Unit b)"@) && (
            Some(m.class_name) == o.base_health_class || m.class_name.len() == 0)
            &&& o.godmode_hero matches Some(m) ==> contains(m.signature, "(float a, Unit b)"@) && (
            Some(m.class_name) == o.hero_health_class || m.class_name.len() == 0)
        }),
{
    let st = scan_upto(lines, lines.len());
    let cs = dump_classes(lines);
    lemma_scan_names_methods(lines, lines.len());
    assert forall|k: int| 0 <= k < cs.len() implies methods_named(
        #[trigger] cs[k].methods,
        cs[k].name,
    ) by {
        if k < st.classes.len() {
            assert(cs[k] == st.classes[k]);
        } else {
            assert(cs[k] == close_class(st));
        }
    }
    let o = resolve(cs);
    let base = first_class_from(cs, ClassAnchor::HpBar, Seq::empty(), 0);
    let hero = match base {
        Some(b) => first_class_from(cs, ClassAnchor::HeroSubclass, cs[b].name, 0),
        None => None,
    };
    lemma_first_class_in_range(cs, ClassAnchor::HpBar, Seq::empty(), 0);
    let aoe = first_class_from(cs, ClassAnchor::Radius, Seq::empty(), 0);
    lemma_first_class_in_range(cs, ClassAnchor::Radius, Seq::empty(), 0);
    if let Some(a) = aoe {
        lemma_first_method_from(cs[a].methods, MethodAnchor::AoeRadius, 0);
    }
    if let Some(b) = base {
        lemma_first_class_in_range(cs, ClassAnchor::HeroSubclass, cs[b].name, 0);
        lemma_first_method_from(cs[b].methods, MethodAnchor::Godmode, 0);
        if let Some(h) = hero {
            lemma_first_method_from(cs[h].methods, MethodAnchor::Godmode, 0);
        }
    }
}

/// The first class carrying an anchor lies among the classes.
proof fn lemma_first_class_in_range(cs: Seq<ClassModel>, anchor: ClassAnchor, base: Seq<char>, i: int)
    ensures
        first_class_from(cs, anchor, base, i) matches Some(k) ==> 0 <= k < cs.len(),
    decreases cs.len() - i,
{
    if 0 <= i < cs.len() && !class_matches(cs[i], anchor, base) {
        lemma_first_class_in_range(cs, anchor, base, i + 1);
    }
}

/// The first class carrying an anchor carries it, and when there is none,
/// no class from `i` on carries it.
proof fn lemma_first_class_found(cs: Seq<ClassModel>, anchor: ClassAnchor, base: Seq<char>, i: int)
    requires
        0 <= i,
    ensures
        first_class_from(cs, anchor, base, i) matches Some(k) ==> i <= k < cs.len()
            && class_matches(cs[k], anchor, base),
        first_class_from(cs, anchor, base, i) is None ==> forall|k: int|
            i <= k < cs.len() ==> !class_matches(#[trigger] cs[k], anchor, base),
    decreases cs.len() - i,
{
    if i < cs.len() && !class_matches(cs[i], anchor, base) {
        lemma_first_class_found(cs, anchor, base, i + 1);
    }
}

/// The hero health class is a subclass of the base health class: when one
/// is found, the dump has a class of that name whose declared base is the
/// base health class and which has a `Hero` field; a class with a `Hero`
/// field and another base is never chosen; and when the base health class
/// has such a subclass, one is found.
pub proof fn lemma_hero_class_is_subclass(lines: Seq<Seq<char>>)
    ensures
        ({
            let cs = dump_classes(lines);
            let o = spec_dump_offsets(lines);
            &&& o.hero_health_class matches Some(n) ==> exists|k: int|
                #![trigger cs[k]]
                0 <= k < cs.len() && cs[k].name == n && Some(cs[k].base) == o.base_health_class
                    && cs[k].has_hero_field
            &&& (o.base_health_class matches Some(b) && exists|k: int|
                #![trigger cs[k]]
                0 <= k < cs.len() && cs[k].base == b && cs[k].has_hero_field)
                ==> o.hero_health_class is Some
        }),
{
    let cs = dump_classes(lines);
    let base = first_class_from(cs, ClassAnchor::HpBar, Seq::empty(), 0);
    lemma_first_class_found(cs, ClassAnchor::HpBar, Seq::empty(), 0);
    if let Some(b) = base {
        lemma_first_class_found(cs, ClassAnchor::HeroSubclass, cs[b].name, 0);
        let hero = first_class_from(cs, ClassAnchor::HeroSubclass, cs[b].name, 0);
        if let Some(h) = hero {
            assert(class_matches(cs[h], ClassAnchor::HeroSubclass, cs[b].name));
        }
    }
}

/// The first method carrying an anchor among the classes from `i` on is a
/// method of one of them that carries it.
proof fn lemma_first_method_in_classes(cs: Seq<ClassModel>, anchor: MethodAnchor, i: int)
    requires
        0 <= i,
    ensures
        first_method_in_classes(cs, anchor, i) matches Some(m) ==> exists|k: int, j: int|
            #![trigger cs[k].methods[j]]
            i <= k < cs.len() && 0 <= j < cs[k].methods.len() && cs[k].methods[j].0 == m
                && method_matches(cs[k].methods[j], anchor),
    decreases cs.len() - i,
{
    if i < cs.len() {
        lemma_first_method_from(cs[i].methods, anchor, 0);
        if first_method_from(cs[i].methods, anchor, 0) is None {
            lemma_first_method_in_classes(cs, anchor, i + 1);
        }
    }
}

/// Each finding of a dump is backed by its anchor: the base health class
/// declares `SpriteSlider HpBar`; the stat multiplier is an `[Extension]`
/// method returning `float` from a `StatType` and taking no `string` or
/// `double`; the AoE method belongs to a class that declares
/// `DamageDetectRadiusRawValue`, takes a position and a unit or a damage
/// factory, and is virtual or sits in slot 5 or 10.
pub proof fn lemma_dump_findings_anchored(lines: Seq<Seq<char>>)
    ensures
        ({
            let cs = dump_classes(lines);
            let o = spec_dump_offsets(lines);
            &&& o.base_health_class matches Some(n) ==> exists|k: int|
                #![trigger cs[k]]
                0 <= k < cs.len() && cs[k].name == n && cs[k].has_hpbar_field
            &&& o.stat_multiplier matches Some(m) ==> exists|k: int, j: int|
                #![trigger cs[k].methods[j]]
                0 <= k < cs.len() && 0 <= j < cs[k].methods.len() && cs[k].methods[j] == (m, true)
                    && contains(m.signature, "float "@) && contains(m.signature, "StatType "@)
                    && !contains(m.signature, "string "@) && !contains(m.signature, "double "@)
            &&& o.aoe_radius matches Some(m) ==> exists|k: int, j: int|
                #![trigger cs[k].methods[j]]
                0 <= k < cs.len() && cs[k].has_radius_field && 0 <= j < cs[k].methods.len()
                    && cs[k].methods[j].0 == m && (contains(m.signature, "Vector3 a, Unit b"@)
                    || contains(m.signature, "Func<DamageInfo>"@)) && (contains(
                    m.signature,
                    "Slot: 10"@,
                ) || contains(m.signature, "Slot: 5"@) || contains(m.signature, "virtual void"@))
        }),
{
    let cs = dump_classes(lines);
    let o = spec_dump_offsets(lines);
    lemma_first_class_found(cs, ClassAnchor::HpBar, Seq::empty(), 0);
    let base = first_class_from(cs, ClassAnchor::HpBar, Seq::empty(), 0);
    if let Some(b) = base {
        assert(class_matches(cs[b], ClassAnchor::HpBar, Seq::empty()));
    }
    lemma_first_method_in_classes(cs, MethodAnchor::StatMultiplier, 0);
    if let Some(m) = o.stat_multiplier {
        let (k, j) = choose|k: int, j: int|
            #![trigger cs[k].methods[j]]
            0 <= k < cs.len() && 0 <= j < cs[k].methods.len() && cs[k].methods[j].0 == m
                && method_matches(cs[k].methods[j], MethodAnchor::StatMultiplier);
        let p = cs[k].methods[j];
        assert(p.1);
        assert(p == (m, true));
        assert(contains(m.signature, "StatType "@)) by {
            lemma_stat_type_variants(m.signature);
        }
    }
    lemma_first_class_found(cs, ClassAnchor::Radius, Seq::empty(), 0);
    let aoe = first_class_from(cs, ClassAnchor::Radius, Seq::empty(), 0);
    if let Some(a) = aoe {
        lemma_first_method_from(cs[a].methods, MethodAnchor::AoeRadius, 0);
        if let Some(m) = o.aoe_radius {
            let j = choose|j: int|
                0 <= j < cs[a].methods.len() && (#[trigger] cs[a].methods[j]).0 == m
                    && method_matches(cs[a].methods[j], MethodAnchor::AoeRadius);
            assert(cs[a].methods[j].0 == m);
        }
    }
}

/// `StatType b)` and `StatType b,` each hold `StatType `.
proof fn lemma_stat_type_variants(sig: Seq<char>)
    ensures
        (contains(sig, "StatType b)"@) || contains(sig, "StatType b,"@) || contains(
            sig,
            "StatType "@,
        )) ==> contains(sig, "StatType "@),
{
    reveal_strlit("StatType b)");
    reveal_strlit("StatType b,");
    reveal_strlit("StatType ");
    if contains(sig, "StatType b)"@) {
        let i = choose|i: int| occurs_at(sig, "StatType b)"@, i);
        assert(sig.subrange(i, i + 9) =~= "StatType "@);
        assert(occurs_at(sig, "StatType "@, i));
    } else if contains(sig, "StatType b,"@) {
        let i = choose|i: int| occurs_at(sig, "StatType b,"@, i);
        assert(sig.subrange(i, i + 9) =~= "StatType "@);
        assert(occurs_at(sig, "StatType "@, i));
    }
}

} // verus!
