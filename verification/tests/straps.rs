use std::collections::HashMap;
use polaris_vbios::compare::differs;

use polaris_vbios::compare_util::{StrapValues, TimingField, TimingRegister};
use polaris_vbios::render::color::Palette;
use polaris_vbios::straps::{block_set_text, compare_straps, strap_clocks, straps_section, VramStraps};

fn rom(name: &str, straps: Vec<StrapValues>, blocks: Vec<u8>) -> VramStraps {
    VramStraps {
        file_name: name.to_string(),
        straps,
        block_ids: blocks,
        reg_indices: vec![0x5550, 0x5551],
        max_clock: "2000".to_string(),
        cross_checks: vec![],
    }
}

fn rom_a() -> VramStraps {
    rom(
        "a.rom",
        vec![
            StrapValues { clock_mhz: 1750, values: vec![0x11, 0x22] },
            StrapValues { clock_mhz: 2000, values: vec![0x33] },
        ],
        vec![1, 1],
    )
}

fn rom_b() -> VramStraps {
    rom(
        "b.rom",
        vec![
            StrapValues { clock_mhz: 2000, values: vec![0x33, 0x44] },
            StrapValues { clock_mhz: 1750, values: vec![0x11, 0x99] },
        ],
        vec![1, 1],
    )
}

fn row(label: &str, a: &str, b: &str, mark: &str) -> String {
    format!("  {:<28} {:<26} {:<26} {}", label, a, b, mark)
}

#[test]
fn straps_are_matched_by_clock_in_a_register_matrix() {
    let out = compare_straps(&rom_a(), &rom_b(), true, "", &Palette::new(false), false, None);
    let expected = [
        "── Memory straps ".to_string(),
        format!("  {:<28} {:<26} {:<26}", "field", "a.rom", "b.rom"),
        format!("  {}", "─".repeat(82)),
        row("Available straps (count)", "2", "2", "="),
        row("Max strap (MHz)", "2000", "2000", "="),
        row("Memory blocks (vendor)", "{1}", "{1}", "="),
        String::new(),
        "  Straps x register matrix (A/B values in hex):".to_string(),
        format!("  {:<24}  {:<20}{}", "reg (name)", "1750", "2000"),
        format!("    {:<22} {:<20}{:<20}", "0", "00000011=", "00000033="),
        format!("  ≠ {:<22} {:<20}{:<20}", "1", "00000022/00000099≠", "----/00000044"),
        "  (= equal, ≠ differs; ---- = register not present in that strap)".to_string(),
        String::new(),
    ]
    .join("\n");
    assert_eq!(out, expected);
}

#[test]
fn straps_diff_only_keeps_the_differing_slots() {
    let mut names = HashMap::new();
    names.insert(0x5551u16, "MC_SEQ_CAS_TIMING".to_string());
    let out = compare_straps(
        &rom_a(),
        &rom_b(),
        false,
        "+14.3%",
        &Palette::new(false),
        true,
        Some(&names),
    );
    assert!(out.contains(&row("Max strap (MHz)", "2000", "2000 (+14.3%)", "≠")));
    assert!(!out.contains("Available straps"));
    assert!(!out.contains("Memory blocks"));
    assert!(!out.contains("00000011="));
    assert!(out.contains(&format!(
        "  ≠ {:<22} {:<20}{:<20}",
        "1(MC_SEQ_CAS_TIMING)", "00000022/00000099≠", "----/00000044"
    )));
}

#[test]
fn straps_reordered_give_the_same_text() {
    let mut a2 = rom_a();
    a2.straps.reverse();
    a2.block_ids.reverse();
    let mut b2 = rom_b();
    b2.straps.reverse();
    let pal = Palette::new(false);
    assert_eq!(
        compare_straps(&a2, &b2, true, "", &pal, false, None),
        compare_straps(&rom_a(), &rom_b(), true, "", &pal, false, None)
    );
}

#[test]
fn straps_cross_checks_close_the_section() {
    let mut a = rom_a();
    a.cross_checks = vec!["MCLK 2000 MHz above the limit".to_string()];
    let out = compare_straps(&a, &rom_b(), true, "", &Palette::new(false), false, None);
    assert!(out.ends_with(
        "\n\n  Hard limit cross-check (informational):\n    ⚠ a.rom: MCLK 2000 MHz above the limit\n"
    ));
}

#[test]
fn strap_clocks_are_the_sorted_union() {
    let a = vec![
        StrapValues { clock_mhz: 2000, values: vec![] },
        StrapValues { clock_mhz: 1500, values: vec![] },
    ];
    let b = vec![
        StrapValues { clock_mhz: 1750, values: vec![] },
        StrapValues { clock_mhz: 2000, values: vec![] },
        StrapValues { clock_mhz: -5, values: vec![] },
    ];
    assert_eq!(strap_clocks(&a, &b), vec![-5, 1500, 1750, 2000]);
}

#[test]
fn block_sets_print_like_debug_sets() {
    assert_eq!(block_set_text(&[3, 1, 3, 0]), "{0, 1, 3}");
    assert_eq!(block_set_text(&[]), "{}");
}

fn ras_register() -> TimingRegister {
    TimingRegister {
        index: 0x5550,
        name: "MC_SEQ_RAS_TIMING",
        fields: vec![
            TimingField { name: "tRCDW", offset: 0, width: 5, in_ns_set: true },
            TimingField { name: "tRCDWA", offset: 5, width: 5, in_ns_set: true },
            TimingField { name: "tRAS", offset: 20, width: 6, in_ns_set: true },
        ],
    }
}

fn timing_roms() -> Vec<VramStraps> {
    let mut a = rom(
        "a.rom",
        vec![StrapValues { clock_mhz: 1750, values: vec![0x0030_0043, 0xdead_beef] }],
        vec![1],
    );
    a.reg_indices = vec![0x5550, 0x1234];
    a.max_clock = "1750".to_string();
    let mut b = rom(
        "b.rom",
        vec![
            StrapValues { clock_mhz: 1750, values: vec![0x0030_0043, 0xdead_beef] },
            StrapValues { clock_mhz: 2000, values: vec![0x0050_0044, 1] },
        ],
        vec![1, 1],
    );
    b.reg_indices = vec![0x5550, 0x1234];
    vec![a, b]
}

#[test]
fn straps_section_matches_core_timings_by_clock() {
    let roms = timing_roms();
    let names = vec!["a.rom".to_string(), "b.rom".to_string()];
    let out = straps_section(&roms, &names, &[ras_register()], &Palette::new(false), false);
    let head = format!(
        "── Memory straps \n  {:<24} {:<26} {:<26}\n  {}\n",
        "field",
        "a.rom",
        "b.rom",
        "─".repeat(78)
    );
    assert!(out.starts_with(&head));
    assert!(out.contains(&format!("  {:<24} {:<26} {:<26} ≠\n", "Straps (count)", "1", "2")));
    assert!(out.contains(&format!("  {:<24} {:<26} {:<26} ≠\n", "Max strap (MHz)", "1750", "2000")));
    assert!(out.contains(&format!(
        "\n  Core timings per clock (cycles, values in ROM order; · = no strap at this clock):\n  {:<24} {:<9}2000\n",
        "timing", "1750"
    )));
    assert!(out.contains(&format!("  ≠ {:<22} {:<9}{:<9}\n", "tRCDW", "3/3", "·/4")));
    assert!(out.contains(&format!("  ≠ {:<22} {:<9}{:<9}\n", "tRCDWA", "2/2", "·/2")));
    assert!(out.contains(&format!("    {:<22} {:<9}{:<9}\n", "tCL", "·/·", "·/·")));
    assert!(out.contains("  (= equal, ≠ differs, · = absent; values are memory-clock cycles)\n"));
    assert!(out.contains("  = 1750 MHz\n"));
    assert!(out.contains("  ≠ 2000 MHz\n"));
}

#[test]
fn straps_section_rows_agreeing_everywhere_are_plain() {
    let mut roms = timing_roms();
    roms[0].straps.push(StrapValues { clock_mhz: 2000, values: vec![0x0050_0044, 1] });
    roms[0].max_clock = "2000".to_string();
    let names = vec!["a.rom".to_string(), "b.rom".to_string()];
    let out = straps_section(&roms, &names, &[ras_register()], &Palette::new(false), true);
    assert!(out.contains(&format!("    {:<22}", "tRCDW")) == false);
    assert!(!out.contains("Straps (count)"));
    assert!(!out.contains("tCL"));
    assert!(!out.contains("1750 MHz"));
    assert!(!out.contains("2000 MHz"));
    let out = straps_section(&roms, &names, &[ras_register()], &Palette::new(false), false);
    assert!(out.contains(&format!("    {:<22} {:<9}{:<9}\n", "tRCDW", "3/3", "4/4")));
    assert!(out.contains("  = 1750 MHz\n  = 2000 MHz\n"));
}

#[test]
fn differing_strap_rows_make_the_report_differ() {
    let mut b = rom_a();
    b.file_name = "b.rom".to_string();
    let pal = Palette::new(true);
    let same = compare_straps(&rom_a(), &b, true, "", &pal, false, None);
    assert!(!differs(&same));
    b.straps[0].values[1] = 0x23;
    let other = compare_straps(&rom_a(), &b, true, "", &pal, false, None);
    assert!(differs(&other));
    let roms = timing_roms();
    let names = vec!["a.rom".to_string(), "b.rom".to_string()];
    assert!(differs(&straps_section(&roms, &names, &[ras_register()], &pal, true)));
    let same_roms = vec![timing_roms().remove(1), timing_roms().remove(1)];
    assert!(!differs(&straps_section(&same_roms, &names, &[ras_register()], &pal, false)));
}
