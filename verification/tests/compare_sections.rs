use polaris_vbios::compare_sections::{compare_header, compare_vrm, header_section, vrm_section};
use polaris_vbios::render::color::Palette;
use polaris_vbios::render::header::HeaderInfo;
use polaris_vbios::render::vrm::{VoltageObject, VoltageObjectDetail, VrmInfo};

fn head(size: u32, vendor: Option<&str>, valid: bool) -> HeaderInfo {
    HeaderInfo {
        file_size: size,
        atom_header_offset: 0x220,
        atom_fmt_rev: 2,
        atom_cont_rev: 1,
        master_data_table_offset: 0,
        master_cmd_table_offset: 0,
        pp_table_revision: 7,
        pp_fmt_rev: 7,
        pp_cont_rev: 1,
        subsystem_vendor_id: 0x1DA2,
        subsystem_device_id: 0xE366,
        subsystem_vendor_name: vendor.map(|v| v.to_string()),
        checksum_valid: valid,
        checksum_checked_bytes: 0,
        checksum_computed_sum: 0,
        bios_bootup_message: None,
        config_filename: None,
        build_date_candidates: vec!["2017/03/01".to_string()],
        command_tables_present: vec![],
        command_table_count: 81,
    }
}

fn row(label: &str, a: &str, b: &str, mark: &str) -> String {
    format!("  {:<28} {:<26} {:<26} {}\n", label, a, b, mark)
}

fn table_head(title: &str, a: &str, b: &str) -> String {
    format!("── {} \n  {:<28} {:<26} {:<26}\n  {}\n", title, "field", a, b, "─".repeat(82))
}

#[test]
fn header_comparison_lists_each_identification_row() {
    let a = head(262144, Some("Sapphire"), true);
    let b = head(524288, None, false);
    let out = compare_header(&a, &b, "a.rom", "b.rom", &Palette::new(false), false);
    let expected = [
        table_head("Identification (ROM/ATOM/PCB)", "a.rom", "b.rom"),
        row("File size (bytes)", "262144", "524288", "≠"),
        row("PowerPlay format/revision", "7.1", "7.1", "="),
        row("PowerPlay table revision", "7", "7", "="),
        row("Subsystem vendor", "Sapphire", "0x1DA2", "≠"),
        row("Checksum valid", "true", "false", "≠"),
        row("Build date (heuristic)", "2017/03/01", "2017/03/01", "="),
    ]
    .concat();
    assert_eq!(out, expected);
}

#[test]
fn header_comparison_of_equal_roms_in_diff_only_mode_says_so() {
    let a = head(262144, Some("Sapphire"), true);
    let out = compare_header(&a, &a, "a.rom", "b.rom", &Palette::new(false), true);
    assert_eq!(
        out,
        table_head("Identification (ROM/ATOM/PCB)", "a.rom", "b.rom")
            + "  (nothing differs in this section)\n"
    );
}

#[test]
fn header_matrix_has_one_column_per_rom() {
    let heads = vec![head(262144, Some("Sapphire"), true), head(262144, None, true)];
    let names = vec!["a.rom".to_string(), "b.rom".to_string()];
    let out = header_section(&heads, &names, &Palette::new(false), true);
    assert!(out.starts_with("── Identification (ROM/ATOM/PCB) \n"));
    assert!(out.contains(&format!("  {:<24} {:<26} {:<26} ≠\n", "Subsystem vendor", "Sapphire", "0x1DA2")));
    assert!(!out.contains("Size (bytes)"));
    assert!(!out.contains("Checksum valid"));
}

fn obj(rail: &str, mode: &str, detail: VoltageObjectDetail) -> VoltageObject {
    VoltageObject {
        voltage_type_name: rail.to_string(),
        mode_name: mode.to_string(),
        mode_raw: 0,
        detail,
    }
}

fn i2c(name: Option<&str>) -> VoltageObjectDetail {
    VoltageObjectDetail::I2cInitSeq {
        regulator_id: 1,
        regulator_name: name.map(|n| n.to_string()),
        i2c_line: 1,
        i2c_address: 0x70,
        init_pairs: vec![],
    }
}

#[test]
fn vrm_comparison_pairs_objects_by_position() {
    let a = VrmInfo {
        recognized_format: true,
        fmt_rev: 3,
        cont_rev: 1,
        objects: vec![
            obj("VDDC", "I2C", i2c(Some("IR3567B"))),
            obj("VDDCI", "GPIO", VoltageObjectDetail::LeakageLut { entries_count: 1 }),
        ],
    };
    let b = VrmInfo {
        recognized_format: true,
        fmt_rev: 3,
        cont_rev: 1,
        objects: vec![obj("VDDC", "I2C", i2c(None))],
    };
    let out = compare_vrm(&a, &b, "a.rom", "b.rom", &Palette::new(false), false);
    let expected = [
        table_head("VRM (voltage control / VoltageObjectInfo)", "a.rom", "b.rom"),
        row("Voltage objects (count)", "2", "1", "≠"),
        row("object 0", "VDDC via I2C", "VDDC via I2C", "="),
        row("  regulator (obj. 0)", "IR3567B", "uncatalogued", "≠"),
        row("object 1", "VDDCI via GPIO", "-", "≠"),
    ]
    .concat();
    assert_eq!(out, expected);
    let vrms = vec![a, b];
    let names = vec!["a.rom".to_string(), "b.rom".to_string()];
    let out = vrm_section(&vrms, &names, &Palette::new(false), false);
    assert!(out.ends_with(&format!("  {:<24} {:<26} {:<26} ≠\n", "Voltage objects (count)", "2", "1")));
}

use polaris_vbios::compare_sections::profiling_section;
use polaris_vbios::render::profiling::ProfilingInfo;

fn prof(max: u32, tdc: Vec<u32>) -> ProfilingInfo {
    ProfilingInfo {
        max_vddc_mv: max,
        min_vddc_mv: 80049,
        max_voltage_0_25mv: 4600,
        load_line_slop: 0,
        lkg_euse_index: 0,
        lkg_efuse_bit_lsb: 0,
        lkg_efuse_length: 0,
        ro_efuse_index: 0,
        ro_efuse_bit_lsb: 0,
        ro_efuse_length: 0,
        ro_efuse_encode_range: 0,
        ro_efuse_min: 0,
        evv_default_vddc_volts: "1.100".to_string(),
        evv_no_calc_vddc_volts: "1.150".to_string(),
        tdc_limit_per_dpm_a10: tdc,
        no_calc_vddc_per_dpm_v1000000: vec![],
        enable_gb_vdroop_cksoff: 0,
        enable_gb_vdroop_ckson: 0,
        enable_gb_fuse_cksoff: 0,
        enable_gb_fuse_ckson: 0,
    }
}

#[test]
fn profiling_matrix_rounds_voltages_and_lists_tdc_levels() {
    let profs = vec![Some(prof(115050, vec![1305, 1400])), Some(prof(115150, vec![1305])), None];
    let names = vec!["a.rom".to_string(), "b.rom".to_string(), "c.rom".to_string()];
    let out = profiling_section(&profs, &names, &Palette::new(false), false);
    let cell = |v: &str| format!(" {:<26}", v);
    let line = |label: &str, vals: [&str; 3], mark: &str| {
        format!("  {:<24}{}{}{} {}\n", label, cell(vals[0]), cell(vals[1]), cell(vals[2]), mark)
    };
    assert!(out.contains(&line("Max VDDC (mV)", ["1150", "1152", "-"], "≠")));
    assert!(out.contains(&line("Min VDDC (mV)", ["800", "800", "-"], "≠")));
    assert!(out.contains(&line("TDC DPM0 (A)", ["130", "130", "-"], "≠")));
    assert!(out.contains(&line("TDC DPM1 (A)", ["140", "-", "-"], "≠")));
    assert!(!out.contains("TDC DPM2"));
}

use polaris_vbios::compare_sections::caps_section;

#[test]
fn caps_matrix_shows_the_raw_flags() {
    let names = vec!["a.rom".to_string(), "b.rom".to_string()];
    let out = caps_section(&[0x1A2B, 0x1A2B], &names, &Palette::new(false), true);
    assert!(out.ends_with("  (nothing differs in this section)\n"));
    let out = caps_section(&[0x1A2B, 0x1], &names, &Palette::new(false), true);
    assert!(out.ends_with(&format!("  {:<24} {:<26} {:<26} ≠\n", "platform_caps (hex)", "0x1A2B", "0x1")));
}
