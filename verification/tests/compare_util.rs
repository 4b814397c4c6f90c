use polaris_vbios::compare_util::{
    align_other_lines, field_at, finish_buf, note_push, other_fields_lines, part_numbers,
    strap_other_groups, RegGroup, StrapValues, TimingField, TimingRegister, VramModule,
};
use polaris_vbios::render::color::Palette;

fn group(label: &str, fields: &[(&str, &str)]) -> RegGroup {
    (
        label.to_string(),
        fields.iter().map(|(n, v)| (n.to_string(), v.to_string())).collect(),
    )
}

fn ras_register() -> TimingRegister {
    TimingRegister {
        index: 0x5550,
        name: "MC_SEQ_RAS_TIMING",
        fields: vec![
            TimingField { name: "tRCDW", offset: 0, width: 5, in_ns_set: true },
            TimingField { name: "tRCDWA", offset: 5, width: 5, in_ns_set: true },
            TimingField { name: "tRAS", offset: 20, width: 6, in_ns_set: true },
        ],
    }
}

#[test]
fn notes_mark_the_table_as_filled() {
    let mut buf = String::from("a\n");
    let mut any = false;
    note_push(&mut buf, &mut any, "b");
    assert_eq!(buf, "a\nb\n");
    assert!(any);
    assert_eq!(finish_buf(buf.clone(), true, "empty"), "a\nb\n");
    assert_eq!(finish_buf(String::new(), false, "empty"), "  empty\n");
    assert_eq!(finish_buf("x\n".to_string(), false, "e"), "x\n  e\n");
}

#[test]
fn part_numbers_skip_empty_entries() {
    let mods = vec![
        VramModule { part_number: "H5GC8H24AJR".to_string() },
        VramModule { part_number: String::new() },
        VramModule { part_number: "MT51J256M32".to_string() },
    ];
    assert_eq!(part_numbers(&mods), vec!["H5GC8H24AJR", "MT51J256M32"]);
    assert!(part_numbers(&[]).is_empty());
}

#[test]
fn strap_groups_split_known_and_raw_registers() {
    let regs = vec![ras_register()];
    let values = [0x0000_0043u32, 0xdead_beef, 7];
    let indices = [0x5550u16, 0x1234];
    let groups = strap_other_groups(&values, &indices, &["tRAS"], &regs, |i| format!("reg 0x{i:X}"));
    assert_eq!(
        groups,
        vec![
            group("MC_SEQ_RAS_TIMING (0x5550)", &[("tRCDW", "3"), ("tRCDWA", "2")]),
            group("RAW", &[("reg 0x1234", "0xDEADBEEF")]),
        ]
    );
}

#[test]
fn strap_groups_drop_registers_with_only_core_fields() {
    let regs = vec![ras_register()];
    let values = [0x0030_0000u32];
    let indices = [0x5550u16];
    let groups = strap_other_groups(&values, &indices, &["tRCDW", "tRCDWA", "tRAS"], &regs, |i| {
        format!("{i}")
    });
    assert!(groups.is_empty());
    let groups = strap_other_groups(&values, &indices, &[], &regs, |i| format!("{i}"));
    assert_eq!(
        groups,
        vec![group(
            "MC_SEQ_RAS_TIMING (0x5550)",
            &[("tRCDW", "0"), ("tRCDWA", "0"), ("tRAS", "3")]
        )]
    );
    let groups = strap_other_groups(&[1, 2], &[0xA, 0xB], &[], &[], |i| format!("#{i}"));
    assert_eq!(groups, vec![group("RAW", &[("#10", "0x00000001"), ("#11", "0x00000002")])]);
}

#[test]
fn other_fields_pair_registers_by_label() {
    let off = Palette::new(false);
    let per_rom = vec![
        vec![group("R1", &[("a", "1"), ("b", "2")])],
        vec![group("R1", &[("a", "1"), ("b", "3")]), group("R2", &[("c", "4")])],
    ];
    let (identical, lines) = other_fields_lines(&off, &per_rom);
    assert!(!identical);
    assert_eq!(lines, vec!["R1: a=1/1 b=2/3", "R2: c=·/4"]);
}

#[test]
fn other_fields_identical_when_all_equal() {
    let on = Palette::new(true);
    let per_rom = vec![vec![group("R", &[("x", "5")])], vec![group("R", &[("x", "5")])]];
    let (identical, lines) = other_fields_lines(&on, &per_rom);
    assert!(identical);
    assert_eq!(lines, vec!["R: \x1b[32mx=5/5\x1b[0m"]);
    let (identical, lines) = other_fields_lines(&on, &[]);
    assert!(identical);
    assert!(lines.is_empty());
    let per_rom = vec![vec![group("R", &[("x", "5")])], vec![group("R", &[("x", "6")])]];
    let (identical, lines) = other_fields_lines(&on, &per_rom);
    assert!(!identical);
    assert_eq!(lines, vec!["R: \x1b[33mx=5/6\x1b[0m"]);
}

#[test]
fn other_field_lines_skip_labels_without_fields() {
    let off = Palette::new(false);
    let per_rom = vec![vec![group("E", &[])], vec![group("E", &[])]];
    let (identical, lines) = other_fields_lines(&off, &per_rom);
    assert!(identical);
    assert!(lines.is_empty());
}

#[test]
fn aligned_lines_share_the_value_column() {
    let off = Palette::new(false);
    let lines = vec!["R1: a=1".to_string(), "LONG: b=2".to_string(), "nocolon".to_string()];
    assert_eq!(
        align_other_lines(&off, &lines),
        vec!["    R1:     a=1", "    LONG:   b=2", "    nocolon"]
    );
    let on = Palette::new(true);
    assert_eq!(
        align_other_lines(&on, &["A: 1".to_string(), "BB: 2".to_string()]),
        vec!["    \x1b[2mA: \x1b[0m 1", "    \x1b[2mBB:\x1b[0m 2"]
    );
    assert!(align_other_lines(&off, &[]).is_empty());
}

#[test]
fn aligned_lines_measure_labels_in_bytes() {
    // The colon is found by byte position, the padding counts chars.
    let off = Palette::new(false);
    let lines = vec!["é: 1".to_string(), "ab: 2".to_string()];
    assert_eq!(align_other_lines(&off, &lines), vec!["    é:  1", "    ab: 2"]);
}

#[test]
fn field_at_reads_the_strap_of_a_clock() {
    let regs = vec![ras_register()];
    let straps = vec![
        StrapValues { clock_mhz: 1750, values: vec![0xdead_beef, 0x0030_0043] },
        StrapValues { clock_mhz: 2000, values: vec![0, 0x0050_0000] },
        StrapValues { clock_mhz: 2000, values: vec![0, 0x0060_0000] },
    ];
    let indices = [0x1234u16, 0x5550];
    assert_eq!(field_at(&straps, &indices, &regs, 1750, "tRCDW"), Some(3));
    assert_eq!(field_at(&straps, &indices, &regs, 1750, "tRCDWA"), Some(2));
    assert_eq!(field_at(&straps, &indices, &regs, 1750, "tRAS"), Some(3));
    assert_eq!(field_at(&straps, &indices, &regs, 2000, "tRAS"), Some(5));
    assert_eq!(field_at(&straps, &indices, &regs, 1500, "tRAS"), None);
    assert_eq!(field_at(&straps, &indices, &regs, 1750, "tCL"), None);
    assert_eq!(field_at(&straps, &[0x5550], &regs, 1750, "tRAS"), Some(42));
    assert_eq!(field_at(&straps, &[0x1234], &regs, 1750, "tRAS"), None);
}
