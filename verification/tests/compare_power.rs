use polaris_vbios::compare_power::{
    compare_mm, compare_pcie, compare_voltages, mm_section, pcie_section, voltages_section, VddEntry,
};
use polaris_vbios::render::color::Palette;

fn row(label: &str, a: &str, b: &str, mark: &str) -> String {
    format!("  {:<28} {:<26} {:<26} {}\n", label, a, b, mark)
}

fn head(title: &str) -> String {
    format!("── {} \n  {:<28} {:<26} {:<26}\n  {}\n", title, "field", "a.rom", "b.rom", "─".repeat(82))
}

fn e(mv: u16, valid: bool) -> VddEntry {
    VddEntry { index: 0, vdd_mv: mv, valid }
}

#[test]
fn counts_and_voltage_lists_compare_row_by_row() {
    let off = Palette::new(false);
    let out = compare_mm(8, 2, 8, 3, "a.rom", "b.rom", &off, false);
    assert_eq!(
        out,
        head("Multimedia clocks (UVD/VCE/SAMU)") + &row("Levels (count)", "8", "8", "=")
            + &row("VCE states (count)", "2", "3", "≠")
    );
    let out = compare_pcie(2, 2, "a.rom", "b.rom", &off, true);
    assert!(out.ends_with("  (nothing differs in this section)\n"));
    let a = [e(800, true), e(0, false), e(900, true)];
    let b = [e(800, true), e(950, true)];
    let out = compare_voltages(&a, &[], &b, &[], "a.rom", "b.rom", &off, false);
    assert!(out.ends_with(
        &(row("VDDC valid slots", "800mV,900mV", "800mV,950mV", "≠") + &row("VDDGFX valid slots", "", "", "="))
    ));
}

#[test]
fn matrix_sections_show_one_value_per_rom() {
    let off = Palette::new(false);
    let names = vec!["a.rom".to_string(), "b.rom".to_string()];
    let cell = |v: &str| format!(" {:<26}", v);
    let out = mm_section(&[8, 7], &names, &off, false);
    assert!(out.ends_with(&format!("  {:<24}{}{} ≠\n", "Levels (count)", cell("8"), cell("7"))));
    let out = pcie_section(&[2, 2], &names, &off, false);
    assert!(out.ends_with(&format!("  {:<24}{}{} =\n", "PCIe levels (count)", cell("2"), cell("2"))));
    let out = voltages_section(&[vec![e(800, true), e(850, false)], vec![e(800, true)]], &names, &off, false);
    assert!(out.ends_with(&format!("  {:<24}{}{} =\n", "VDDC valid slots", cell("800"), cell("800"))));
}
