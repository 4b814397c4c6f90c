use polaris_vbios::render::color::Palette;
use polaris_vbios::render::header::{render_header, HeaderInfo};
use polaris_vbios::render::profiling::{render_profiling, ProfilingInfo};

fn header() -> HeaderInfo {
    HeaderInfo {
        file_size: 262144,
        atom_header_offset: 0x220,
        atom_fmt_rev: 2,
        atom_cont_rev: 1,
        master_data_table_offset: 0xA8D4,
        master_cmd_table_offset: 0xA6F8,
        pp_table_revision: 7,
        pp_fmt_rev: 7,
        pp_cont_rev: 1,
        subsystem_vendor_id: 0x1DA2,
        subsystem_device_id: 0xE366,
        subsystem_vendor_name: Some("Sapphire".to_string()),
        checksum_valid: true,
        checksum_checked_bytes: 59904,
        checksum_computed_sum: 0,
        bios_bootup_message: None,
        config_filename: None,
        build_date_candidates: vec![],
        command_tables_present: vec![],
        command_table_count: 81,
    }
}

fn kv(k: &str, v: &str) -> String {
    format!("  {:<28}  {}", k, v)
}

#[test]
fn header_section_lists_the_identification_fields() {
    let out = render_header(&header(), &Palette::new(false));
    let expected = [
        "── Identification (ROM/ATOM/PCB) \n".to_string(),
        kv("File size", "262144 bytes (256 KiB)"),
        kv("ATOM header at", "0x220"),
        kv("ATOM format/revision", "2.1"),
        kv("Master Data Table", "0xA8D4"),
        kv("Master Command Table", "0xA6F8"),
        kv("PowerPlay table rev.", "7 (format 7.1) - Tonga/Fiji/Polaris family"),
        kv("Subsystem vendor:device", "1DA2:E366 (Sapphire)"),
        format!("  {:<28}  {}", "Checksum", "OK (sum 0x00 over 59904 bytes)"),
    ]
    .join("\n");
    assert_eq!(out, expected);
}

#[test]
fn header_file_size_rounds_half_kib_to_even() {
    let mut h = header();
    h.file_size = 2560;
    let out = render_header(&h, &Palette::new(false));
    assert!(out.contains(&kv("File size", "2560 bytes (2 KiB)")));
    h.file_size = 3584;
    let out = render_header(&h, &Palette::new(false));
    assert!(out.contains(&kv("File size", "3584 bytes (4 KiB)")));
    h.file_size = 1000;
    let out = render_header(&h, &Palette::new(false));
    assert!(out.contains(&kv("File size", "1000 bytes (1 KiB)")));
}

#[test]
fn header_shows_an_invalid_checksum_in_red() {
    let mut h = header();
    h.checksum_valid = false;
    h.checksum_computed_sum = 0x0B;
    let out = render_header(&h, &Palette::new(true));
    assert!(out.ends_with(&format!(
        "  \u{1b}[2m{:<28}\u{1b}[0m  \u{1b}[31m{}\u{1b}[0m",
        "Checksum", "INVALID (sum 0x0B, expected 0x00, over 59904 declared bytes)"
    )));
}

#[test]
fn header_optional_lines_follow_the_checksum() {
    let mut h = header();
    h.subsystem_vendor_name = None;
    h.pp_fmt_rev = 6;
    h.bios_bootup_message = Some("POLARIS20 BIOS".to_string());
    h.config_filename = Some("D0000.cfg".to_string());
    h.build_date_candidates = vec!["2017/03/01".to_string(), "03/01/17".to_string()];
    h.command_tables_present = vec!["ASIC_Init".to_string(), "SetEngineClock".to_string()];
    let out = render_header(&h, &Palette::new(false));
    assert!(out.contains(&kv("Subsystem vendor:device", "1DA2:E366 (uncatalogued vendor)")));
    assert!(out.contains(&kv(
        "PowerPlay table rev.",
        "7 (format 6.1) - unusual format for Polaris - check the warnings"
    )));
    let tail = [
        format!("  {:<28}  {}", "Checksum", "OK (sum 0x00 over 59904 bytes)"),
        kv("BIOS bootup message", "POLARIS20 BIOS"),
        kv("Config filename (BIOS build)", "D0000.cfg"),
        kv("Build date (heuristic)", "2017/03/01 · 03/01/17"),
        "  Command tables (2 of 81 present)".to_string(),
        "    • ASIC_Init".to_string(),
        "    • SetEngineClock".to_string(),
        String::new(),
    ]
    .join("\n");
    assert!(out.ends_with(&tail));
}

fn profiling() -> ProfilingInfo {
    ProfilingInfo {
        max_vddc_mv: 115000,
        min_vddc_mv: 80000,
        max_voltage_0_25mv: 4600,
        load_line_slop: 0,
        lkg_euse_index: 20,
        lkg_efuse_bit_lsb: 6,
        lkg_efuse_length: 10,
        ro_efuse_index: 64,
        ro_efuse_bit_lsb: 0,
        ro_efuse_length: 8,
        ro_efuse_encode_range: 1000,
        ro_efuse_min: 2000,
        evv_default_vddc_volts: "1.100".to_string(),
        evv_no_calc_vddc_volts: "1.150".to_string(),
        tdc_limit_per_dpm_a10: vec![1305, 1400],
        no_calc_vddc_per_dpm_v1000000: vec![800000, 1150500],
        enable_gb_vdroop_cksoff: 1,
        enable_gb_vdroop_ckson: 0,
        enable_gb_fuse_cksoff: 1,
        enable_gb_fuse_ckson: 0,
    }
}

#[test]
fn profiling_section_lists_limits_efuses_and_dpm_values() {
    let out = render_profiling(Some(&profiling()), &Palette::new(false));
    let expected = [
        "── ASIC profiling (die voltage range / efuse / TDC) \n".to_string(),
        kv("Max VDDC (die limit)", "1150 mV"),
        kv("Min VDDC (die limit)", "800 mV"),
        kv("Max voltage (0.25 mV units)", "4600 (1150 mV)"),
        kv("Load line slope", "0"),
        "  Leakage efuse leakage efuse · dword idx 20 · bit lsb 6 · length 10".to_string(),
        "  RO (ring osc) efuse dword idx 64 · bit lsb 0 · length 8 · encode range 1000 · min 2000"
            .to_string(),
        String::new(),
        kv("EVV default VDDC", "1.100 V"),
        kv("EVV no-calc VDDC", "1.150 V"),
        "  TDC limit per DPM (0.1 A per unit)".to_string(),
        "    ▸ DPM0: 130 A".to_string(),
        "    ▸ DPM1: 140 A".to_string(),
        String::new(),
        "  No-calc VDDC per DPM (VDDC to use when EVV fails)".to_string(),
        "    ▸ DPM0: 800 mV".to_string(),
        "    ▸ DPM1: 1150 mV".to_string(),
        String::new(),
        "  AVFS enables GB droop: cksoff 1 · ckson 0 · fuse cksoff 1 · fuse ckson 0".to_string(),
        String::new(),
    ]
    .join("\n");
    assert_eq!(out, expected);
}

#[test]
fn profiling_section_without_dpm_lists_skips_them() {
    let mut p = profiling();
    p.tdc_limit_per_dpm_a10 = vec![];
    p.no_calc_vddc_per_dpm_v1000000 = vec![];
    let out = render_profiling(Some(&p), &Palette::new(false));
    assert!(out.ends_with(&format!(
        "{}\n  AVFS enables GB droop: cksoff 1 · ckson 0 · fuse cksoff 1 · fuse ckson 0\n",
        kv("EVV no-calc VDDC", "1.150 V")
    )));
}

#[test]
fn profiling_section_notes_a_missing_table() {
    let out = render_profiling(None, &Palette::new(false));
    assert_eq!(
        out,
        "── ASIC profiling (die voltage range / efuse / TDC) \n\n  ⚠ table not present in this ROM."
    );
}

use polaris_vbios::render::vrm::{render_vrm, EvvLevel, VoltageObject, VoltageObjectDetail, VrmInfo};

const VRM_NOTE: &str = "Note: voltage regulator names (when shown) come from the official atombios.h comments in the amdgpu driver - not reverse engineering. The I2C \"init pairs\" are not always voltages in mV (the header names the field that way, but real data sometimes shows register writes to the regulator) - hence they appear as raw values without assuming a unit.";

fn object(rail: &str, mode: &str, detail: VoltageObjectDetail) -> VoltageObject {
    VoltageObject {
        voltage_type_name: rail.to_string(),
        mode_name: mode.to_string(),
        mode_raw: 0x42,
        detail,
    }
}

#[test]
fn vrm_section_describes_each_voltage_object() {
    let v = VrmInfo {
        recognized_format: true,
        fmt_rev: 3,
        cont_rev: 1,
        objects: vec![
            object(
                "VDDCI",
                "GPIO LUT",
                VoltageObjectDetail::GpioLut { gpio_cntl_id: 4, phase_delay_us: 10, lut_mv: vec![850, 900] },
            ),
            object(
                "VDDC",
                "I2C init sequence",
                VoltageObjectDetail::I2cInitSeq {
                    regulator_id: 0x0C,
                    regulator_name: Some("IR3567B".to_string()),
                    i2c_line: 150,
                    i2c_address: 0x08,
                    init_pairs: vec![(0x1A, 300), (0x0102, 7)],
                },
            ),
            object(
                "VDDC",
                "SVID2",
                VoltageObjectDetail::Svid2 { svd_gpio_id: 1, svc_gpio_id: 2, load_line_psi_raw: 0x0A0B },
            ),
            object(
                "VDDC",
                "EVV",
                VoltageObjectDetail::Evv {
                    entries: vec![
                        EvvLevel { sclk_mhz: "300".to_string(), active: true, v_adj_offset_mv: 12, dpm_v_index: 0, dpm_state: 1 },
                        EvvLevel { sclk_mhz: "0".to_string(), active: false, v_adj_offset_mv: 0, dpm_v_index: 1, dpm_state: 0 },
                        EvvLevel { sclk_mhz: "1340".to_string(), active: true, v_adj_offset_mv: -6, dpm_v_index: 7, dpm_state: 2 },
                    ],
                },
            ),
            object("MVDDC", "leakage", VoltageObjectDetail::LeakageLut { entries_count: 8 }),
            object("VDDGFX", "?", VoltageObjectDetail::Unknown),
        ],
    };
    let out = render_vrm(&v, &Palette::new(false));
    let expected = [
        "── VRM (voltage control / VoltageObjectInfo) \n\n",
        "  VDDCI controlled via GPIO LUT\n",
        "    GPIO cntl id 4 · phase delay 10µs · 2 voltage step(s): 850mV, 900mV\n",
        "  VDDC controlled via I2C init sequence\n",
        "    regulator: IR3567B (id 0x0C) · i2c line 150 address 0x08\n",
        "    2 init pair(s) (code→raw value, not confirmed to be voltage in mV - see note below):\n",
        "      0x001A → 300\n",
        "      0x0102 → 7\n",
        "  VDDC controlled via SVID2\n",
        "    GPIO SVD 1 / SVC 2 · load-line/PSI (raw) 0x0A0B\n",
        "  VDDC controlled via EVV\n",
        "    2 EVV level(s) (SCLK → leakage-based voltage adjust):\n",
        "      300 MHz → offset +12 mV (table index 0, state 1)\n",
        "      1340 MHz → offset -6 mV (table index 7, state 2)\n",
        "  MVDDC controlled via leakage\n",
        "    leakage table with 8 entry(ies) (not detailed)\n",
        "  VDDGFX controlled via ?\n",
        "    ⚠ unrecognized object mode (0x42)\n",
        "\n",
        VRM_NOTE,
    ]
    .concat();
    assert_eq!(out, expected);
}

#[test]
fn vrm_section_notes_unknown_formats_and_empty_tables() {
    let mut v = VrmInfo { recognized_format: false, fmt_rev: 1, cont_rev: 2, objects: vec![] };
    assert_eq!(
        render_vrm(&v, &Palette::new(false)),
        "── VRM (voltage control / VoltageObjectInfo) \n\n  ⚠ unrecognized VoltageObjectInfo format (revision 1.2, expected 3.1) - skipped detailed parsing to avoid misinterpreting data."
    );
    v.recognized_format = true;
    assert_eq!(
        render_vrm(&v, &Palette::new(false)),
        "── VRM (voltage control / VoltageObjectInfo) \n\n  (no voltage objects found)"
    );
}

#[test]
fn vrm_regulator_without_a_name_is_uncatalogued() {
    let v = VrmInfo {
        recognized_format: true,
        fmt_rev: 3,
        cont_rev: 1,
        objects: vec![object(
            "VDDC",
            "I2C",
            VoltageObjectDetail::I2cInitSeq {
                regulator_id: 0xFF,
                regulator_name: None,
                i2c_line: 1,
                i2c_address: 0x70,
                init_pairs: vec![],
            },
        )],
    };
    let out = render_vrm(&v, &Palette::new(false));
    assert!(out.contains("    regulator: uncatalogued (id 0xFF) · i2c line 1 address 0x70\n\n"));
}

use polaris_vbios::render::caps::{render_caps, CapsInfo, ThermalController};

#[test]
fn caps_section_lists_flags_limits_and_thermal_controller() {
    let c = CapsInfo {
        platform_caps: 0x1A2B,
        platform_caps_decoded: vec!["PowerPlay".to_string(), "SBIOSPowerSource".to_string()],
        max_overdrive_engine_mhz: "2000".to_string(),
        max_overdrive_memory_mhz: "2250".to_string(),
        power_control_limit_pct: 50,
        thermal_controller: Some(ThermalController {
            kind: 27,
            kind_name: "Polaris internal".to_string(),
            i2c_line: 0,
            i2c_addr: 0x4C,
        }),
    };
    let out = render_caps(&c, &Palette::new(false));
    let expected = [
        "── Platform caps (PowerPlay table flags) \n".to_string(),
        kv("platform_caps (raw)", "0x1A2B"),
        "  • PowerPlay".to_string(),
        "  • SBIOSPowerSource".to_string(),
        kv("Max engine overdrive", "2000 MHz"),
        kv("Max memory overdrive", "2250 MHz"),
        kv("Power control limit", "50%"),
        kv("Thermal controller", "type 27 (Polaris internal) · i2c line 0 address 0x4C"),
    ]
    .join("\n");
    assert_eq!(out, expected);
}

#[test]
fn caps_section_without_flags_says_so() {
    let c = CapsInfo {
        platform_caps: 0,
        platform_caps_decoded: vec![],
        max_overdrive_engine_mhz: "0".to_string(),
        max_overdrive_memory_mhz: "0".to_string(),
        power_control_limit_pct: 0,
        thermal_controller: None,
    };
    let out = render_caps(&c, &Palette::new(false));
    assert!(out.contains(&format!("{}\n  (no recognized flags active)\n", kv("platform_caps (raw)", "0x0"))));
    assert!(out.ends_with(&kv("Power control limit", "0%")));
}
