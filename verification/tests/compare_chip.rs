use polaris_vbios::compare_chip::{
    asic_section, compare_asic, compare_gpio, compare_i2c, i2c_section, AsicInfo, I2cLine,
};
use polaris_vbios::render::color::Palette;

fn fit(s: &str, w: usize) -> String {
    if s.chars().count() > w {
        let head: String = s.chars().take(w - 3).collect();
        format!("{}...", head)
    } else {
        format!("{:<w$}", s, w = w)
    }
}

fn row(label: &str, a: &str, b: &str, mark: &str) -> String {
    format!("  {} {} {} {}\n", fit(label, 28), fit(a, 26), fit(b, 26), mark)
}

fn head(title: &str) -> String {
    format!("── {} \n  {:<28} {:<26} {:<26}\n  {}\n", title, "field", "a.rom", "b.rom", "─".repeat(82))
}

fn asic(cu: u8) -> AsicInfo {
    AsicInfo {
        gfx_ip_maj_ver: 8,
        gfx_ip_min_ver: 0,
        max_shader_engines: 4,
        max_sh_per_se: 1,
        max_cu_per_sh: cu,
        max_backends_per_se: 2,
        max_tile_pipes: 8,
        max_texture_channel_caches: 8,
        hi_lo_leakage_threshold: None,
    }
}

#[test]
fn gfx_configuration_rows_include_the_cu_product() {
    let off = Palette::new(false);
    let out = compare_asic(Some(&asic(9)), Some(&asic(8)), "a.rom", "b.rom", &off, true);
    assert_eq!(
        out,
        head("ASIC layout (GFX_Info)")
            + &row("Compute units per SH", "9", "8", "≠")
            + &row("Total CUs (max)", "36", "32", "≠")
    );
    let out = compare_asic(Some(&asic(9)), None, "a.rom", "b.rom", &off, true);
    assert!(out.ends_with("  GFX_Info table present only in a.rom\n"));
    let out = compare_asic(None, None, "a.rom", "b.rom", &off, false);
    assert!(out.ends_with("  GFX_Info table not present in either ROM\n"));
}

fn line(id: u8, reg: u16) -> I2cLine {
    I2cLine {
        i2c_id: id,
        clk_mask_reg: reg,
        clk_mask_shift: 0,
        clk_en_shift: 1,
        clk_y_shift: 2,
        clk_a_shift: 0x1F,
        data_mask_reg: reg + 1,
        data_mask_shift: 8,
        data_en_shift: 9,
        data_y_shift: 10,
        data_a_shift: 11,
    }
}

#[test]
fn i2c_lines_compare_pins_by_position() {
    let off = Palette::new(false);
    let a = vec![line(0x90, 0x1F44), line(0x0A, 0x1F50)];
    let b = vec![line(0x90, 0x1F44)];
    let out = compare_i2c(Some(&a), Some(&b), "a.rom", "b.rom", &off, false);
    let pins = |reg: &str, s: [u8; 4]| {
        format!("{} mask/en/y/a 0x{:02X}/0x{:02X}/0x{:02X}/0x{:02X}", reg, s[0], s[1], s[2], s[3])
    };
    let expected = [
        row("I2C lines (count)", "2", "1", "≠"),
        row("Line ids", "[90, 0A]", "[90]", "≠"),
        row("line 0 clk", &pins("0x1F44", [0, 1, 2, 0x1F]), &pins("0x1F44", [0, 1, 2, 0x1F]), "="),
        row("  0 data", &pins("0x1F45", [8, 9, 10, 11]), &pins("0x1F45", [8, 9, 10, 11]), "="),
        "  I2C line 1 present only in a.rom\n".to_string(),
    ]
    .concat();
    assert_eq!(out, head("I2C bus wiring (GPIO_I2C_Info)") + &expected);
}

#[test]
fn gfx_and_i2c_matrices_dash_out_missing_tables() {
    let off = Palette::new(false);
    let names = vec!["a.rom".to_string(), "b.rom".to_string()];
    let cell = |v: &str| format!(" {:<26}", v);
    let out = asic_section(&[Some(asic(9)), None], &names, &off, true);
    assert!(out.contains(&format!("  {:<24}{}{} ≠\n", "Total CUs (max)", cell("36"), cell("-"))));
    assert!(out.contains(&format!("  {:<24}{}{} ≠\n", "GFX IP version", cell("8.0"), cell("-"))));
    let out = i2c_section(&[Some(vec![line(0x90, 1), line(0x0A, 2)]), None], &names, &off, false);
    assert!(out.ends_with(&format!("  {:<24}{}{} ≠\n", "Line ids (0x..)", cell("90,0A"), cell("-"))));
}

#[test]
fn gpio_ids_only_in_one_rom_are_listed_in_order() {
    let off = Palette::new(false);
    let a = vec![9, 3, 1, 3];
    let b = vec![1, 2];
    let out = compare_gpio(Some(&a), Some(&b), "a.rom", "b.rom", &off, false);
    assert_eq!(
        out,
        head("GPIO pin roles (GPIO_Pin_LUT)")
            + &row("GPIO pins (count)", "4", "2", "≠")
            + "  → GPIO ids only in a.rom: [3, 9]\n"
            + "  → GPIO ids only in b.rom: [2]\n"
    );
    let out = compare_gpio(Some(&b), Some(&b), "a.rom", "b.rom", &off, false);
    assert!(out.ends_with("  same GPIO ids in both ROMs\n"));
    let out = compare_gpio(None, Some(&b), "a.rom", "b.rom", &off, false);
    assert!(out.ends_with("  GPIO_Pin_LUT table present only in b.rom\n"));
}
