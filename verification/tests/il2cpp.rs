use cheat_engine_mcp::il2cpp::{
    parse_class_and_base, parse_method_name, parse_rva_hex, parse_slot, rva_value,
    scan_taskbarhero_dump,
};

/// The lines of a text, each read successfully.
fn lines_of(text: &str) -> Vec<Result<String, String>> {
    text.lines().map(|l| Ok(l.to_string())).collect()
}

#[test]
fn test_synthetic_taskbarhero_dump() {
    let snippet = r#"
// Namespace:
public class pj : MonoBehaviour // TypeDefIndex: 630
{
    // Fields
    public SpriteSlider HpBar; // 0x20
    public Action<float> OnHpChange; // 0x28

    // Methods
    // RVA: 0xCABC30 Offset: 0xCAA230 VA: 0x180CABC30 Slot: 9
    public virtual void gsi(float a, Unit b) { }
}

public class pf : pj // TypeDefIndex: 620
{
    // Fields
    private Hero bdeg; // 0x58

    // Methods
    // RVA: 0xCAA8B0 Offset: 0xCA8EB0 VA: 0x180CAA8B0 Slot: 9
    public override void gsi(float a, Unit b) { }
}

public static class pp
{
    [Extension]
    // RVA: 0xCB8A90 Offset: 0xCB7090 VA: 0x180CB8A90
    public static float haz(zo a, StatType b) { }
}

public class bec : MonoBehaviour
{
    // Fields
    [FormerlySerializedAs("DamageDetectRadius")]
    public int DamageDetectRadiusRawValue; // 0x68

    // Methods
    // RVA: 0xB6D950 Offset: 0xB6BF50 VA: 0x180B6D950 Slot: 10
    public virtual void nax(Vector3 a, Unit b, float c = 0, bool d = False, Func<DamageInfo> e, Action f) { }
}
"#;

    let offsets = scan_taskbarhero_dump(&lines_of(snippet)).expect("Should scan successfully");

    assert_eq!(offsets.base_health_class.as_deref(), Some("pj"));
    assert_eq!(offsets.hero_health_class.as_deref(), Some("pf"));

    let base_dmg = offsets.godmode_base.expect("Should find godmode_base");
    assert_eq!(base_dmg.rva, "0xCABC30");
    assert_eq!(base_dmg.method_name, "gsi");

    let hero_dmg = offsets.godmode_hero.expect("Should find godmode_hero");
    assert_eq!(hero_dmg.rva, "0xCAA8B0");
    assert_eq!(hero_dmg.method_name, "gsi");

    let stat_calc = offsets
        .stat_multiplier
        .expect("Should find stat_multiplier");
    assert_eq!(stat_calc.rva, "0xCB8A90");
    assert_eq!(stat_calc.method_name, "haz");

    let aoe = offsets.aoe_radius.expect("Should find aoe_radius");
    assert_eq!(aoe.rva, "0xB6D950");
    assert_eq!(aoe.method_name, "nax");
}

fn chars(s: &str) -> Vec<char> {
    s.chars().collect()
}

fn text(v: &[char]) -> String {
    v.iter().collect()
}

#[test]
fn dump_read_error_is_reported() {
    let lines = vec![Ok("public class A : B".to_string()), Err("stream did not contain valid UTF-8".to_string()), Err("later".to_string())];
    match scan_taskbarhero_dump(&lines) {
        Err(e) => assert_eq!(e, "Failed to read line 2: stream did not contain valid UTF-8"),
        Ok(_) => panic!("a read error must fail the scan"),
    }
}

#[test]
fn empty_dump_finds_nothing_but_the_unit_offset() {
    let offsets = scan_taskbarhero_dump(&Vec::new()).expect("an empty dump scans");
    assert!(offsets.base_health_class.is_none());
    assert!(offsets.hero_health_class.is_none());
    assert!(offsets.godmode_base.is_none());
    assert!(offsets.godmode_hero.is_none());
    assert!(offsets.stat_multiplier.is_none());
    assert!(offsets.aoe_radius.is_none());
    assert_eq!(offsets.unit_hero_offset.as_deref(), Some("0x100"));
}

#[test]
fn method_finding_records_its_line() {
    let dump = "public class pj : MonoBehaviour\n{\n    public SpriteSlider HpBar; // 0x20\n    // RVA: 0x10 Offset: 0x10 VA: 0x10 Slot: 4\n    public virtual void gsi(float a, Unit b) { }\n}\n";
    let offsets = scan_taskbarhero_dump(&lines_of(dump)).unwrap();
    let m = offsets.godmode_base.unwrap();
    assert_eq!(m.class_name, "pj");
    assert_eq!(m.rva_int, 0x10);
    assert_eq!(m.slot, Some(4));
    assert_eq!(m.line_number, 5);
    assert_eq!(m.signature, "public virtual void gsi(float a, Unit b) { }");
    // no subclass with a Hero field: no hero class
    assert!(offsets.hero_health_class.is_none());
}

#[test]
fn rva_comment_without_a_method_is_dropped() {
    let dump = "public class pj\n{\n    SpriteSlider HpBar;\n    // RVA: 0x20 Offset: 0x20\n    // a comment (float a, Unit b)\n    public void gsi(float a, Unit b) { }\n}\n";
    let offsets = scan_taskbarhero_dump(&lines_of(dump)).unwrap();
    assert_eq!(offsets.base_health_class.as_deref(), Some("pj"));
    assert!(offsets.godmode_base.is_none());
}

#[test]
fn line_parsers() {
    let rva_line = chars("// RVA: 0xCABC30 Offset: 0xCAA230 VA: 0x180CABC30 Slot: 9");
    assert_eq!(parse_rva_hex(&rva_line).map(|v| text(&v)), Some("0xCABC30".to_string()));
    assert_eq!(parse_rva_hex(&chars("// RVA: -1 Offset: -1")), None);
    assert_eq!(parse_rva_hex(&chars("RVA: 0x10")), None);
    assert_eq!(parse_slot(&rva_line), Some(9));
    assert_eq!(parse_slot(&chars("// RVA: 0x10 Slot: x")), None);
    assert_eq!(parse_slot(&chars("// RVA: 0x10")), None);
    assert_eq!(rva_value(&chars("0xCABC30")), 0xCABC30);
    assert_eq!(rva_value(&chars("0Xff")), 0xff);
    assert_eq!(rva_value(&chars("0xZZ")), 0);
    let (c, b) = parse_class_and_base(&chars("public class pf : pj // TypeDefIndex: 620")).unwrap();
    assert_eq!((text(&c), text(&b)), ("pf".to_string(), "pj".to_string()));
    let (c, b) = parse_class_and_base(&chars("public static class pp")).unwrap();
    assert_eq!((text(&c), text(&b)), ("pp".to_string(), String::new()));
    assert_eq!(parse_class_and_base(&chars("public class")), None);
    assert_eq!(parse_class_and_base(&chars("public struct S")), None);
    assert_eq!(text(&parse_method_name(&chars("public static float haz(zo a, StatType b) { }"))), "haz");
    assert_eq!(text(&parse_method_name(&chars("noparen"))), "noparen");
    assert_eq!(text(&parse_method_name(&chars("gsi(float a)"))), "gsi(float a)");
}

#[test]
fn method_before_any_class_joins_the_first_class_unnamed() {
    let dump = "// RVA: 0x30 Offset: 0x30\nvoid gsi(float a, Unit b) { }\npublic class pj\n{\n    SpriteSlider HpBar;\n}\n";
    let offsets = scan_taskbarhero_dump(&lines_of(dump)).unwrap();
    assert_eq!(offsets.base_health_class.as_deref(), Some("pj"));
    let m = offsets.godmode_base.expect("the early method is kept with the first class");
    assert_eq!(m.class_name, "");
    assert_eq!(m.rva, "0x30");
    assert_eq!(m.line_number, 2);
}
