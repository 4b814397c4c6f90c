use polaris_vbios::compare_display::compare_display;
use polaris_vbios::render::chain::DisplayPath;
use polaris_vbios::compare_power::{compare_mm, compare_pcie};
use polaris_vbios::compare_all_report::compare_all_section;
use polaris_vbios::compare_power::mm_section;
use polaris_vbios::compare_report::{compare_roms, compare_section, RomData};
use polaris_vbios::csv_table::PcieRow;
use polaris_vbios::render::caps::CapsInfo;
use polaris_vbios::render::chain::DisplayInfo;
use polaris_vbios::render::dump::{render_rom, render_section};
use polaris_vbios::render::tables::render_pcie;
use polaris_vbios::compare_sections::{compare_header, VramInfo};
use polaris_vbios::render::color::Palette;
use polaris_vbios::render::header::HeaderInfo;
use polaris_vbios::render::sections::Section;
use polaris_vbios::render::vrm::VrmInfo;
use polaris_vbios::straps::VramStraps;

fn header(size: u32) -> HeaderInfo {
    HeaderInfo {
        file_size: size,
        atom_header_offset: 0x220,
        atom_fmt_rev: 2,
        atom_cont_rev: 1,
        master_data_table_offset: 0,
        master_cmd_table_offset: 0,
        pp_table_revision: 7,
        pp_fmt_rev: 7,
        pp_cont_rev: 1,
        subsystem_vendor_id: 0x1DA2,
        subsystem_device_id: 0xE366,
        subsystem_vendor_name: None,
        checksum_valid: true,
        checksum_checked_bytes: 0,
        checksum_computed_sum: 0,
        bios_bootup_message: None,
        config_filename: None,
        build_date_candidates: vec![],
        command_tables_present: vec![],
        command_table_count: 81,
    }
}

fn rom(name: &str, size: u32, mm_levels: usize, tag: &str) -> RomData {
    RomData {
        file_name: name.to_string(),
        header: header(size),
        vrm: VrmInfo { recognized_format: true, fmt_rev: 3, cont_rev: 1, objects: vec![] },
        vram: VramInfo {
            num_modules: 1,
            modules: vec![],
            mcu_code_version: None,
            mcu_code_rom_start_addr: None,
            mcu_code_length: None,
        },
        straps: VramStraps {
            file_name: name.to_string(),
            straps: vec![],
            block_ids: vec![],
            reg_indices: vec![],
            max_clock: "2000".to_string(),
            cross_checks: vec![],
        },
        mm_levels,
        vce_states: 2,
        pcie: vec![PcieRow { pcie_gen: 0, pcie_lane_width: 16 }, PcieRow { pcie_gen: 2, pcie_lane_width: 16 }],
        vrhot_sclk_dpm_index: None,
        vddc: vec![],
        vddgfx: vec![],
        display: DisplayInfo {
            paths: vec![DisplayPath {
                device_tag_name: tag.to_string(),
                connector_chip: None,
                connector_raw: 0x3113,
                connector_instance: 0,
                encoder_chain: vec![],
            }],
            supported_devices_bitmap: None,
            supported_devices_names: vec![],
        },
        pci_images: vec![],
        asic: None,
        i2c: None,
        gpio_pins: None,
        caps: CapsInfo {
            platform_caps: 0x1,
            platform_caps_decoded: vec![],
            max_overdrive_engine_mhz: "1450".to_string(),
            max_overdrive_memory_mhz: "2250".to_string(),
            power_control_limit_pct: 50,
            thermal_controller: None,
        },
        profiling: None,
        power_sources: None,
    }
}

#[test]
fn each_section_gets_its_own_comparison() {
    let off = Palette::new(false);
    let a = rom("a.rom", 262144, 8, "DFP1");
    let b = rom("b.rom", 524288, 7, "DFP2");
    let out = compare_section(&a, &b, Section::Header, true, "", &off, false, None);
    assert_eq!(out, Some(compare_header(&a.header, &b.header, "a.rom", "b.rom", &off, false)));
    let out = compare_section(&a, &b, Section::Display, true, "", &off, false, None);
    assert_eq!(out, Some(compare_display(&a.display.paths, &b.display.paths, "a.rom", "b.rom", &off, false)));
    assert!(out.unwrap().starts_with("── Video outputs (connectors/encoders) \n"));
    let out = compare_section(&a, &b, Section::Asic, true, "", &off, false, None).unwrap();
    assert!(out.starts_with("── "));
    assert!(out.contains("  GFX_Info table not present in either ROM\n"));
    assert_eq!(compare_section(&a, &b, Section::Fan, true, "", &off, false, None), None);
}

#[test]
fn the_report_joins_the_compared_sections_under_its_title() {
    let off = Palette::new(false);
    let a = rom("a.rom", 262144, 8, "DFP1");
    let b = rom("b.rom", 262144, 7, "DFP1");
    let out = compare_roms(&a, &b, &[Section::Multimedia, Section::Pcie], true, "", &off, false, None);
    let expected = format!(
        "═══ Comparison: a.rom vs b.rom ═══\n\n{}\n\n{}",
        compare_mm(8, 2, 7, 2, "a.rom", "b.rom", &off, false),
        compare_pcie(2, 2, "a.rom", "b.rom", &off, false)
    );
    assert_eq!(out, Some(expected));
    let out = compare_roms(&a, &b, &[Section::Multimedia, Section::Fan], true, "", &off, false, None);
    assert_eq!(out, None);
}

#[test]
fn the_dump_joins_the_rendered_sections_under_the_file_name() {
    let off = Palette::new(false);
    let a = rom("a.rom", 262144, 8, "DFP1");
    let pcie = render_section(&a, Section::Pcie, &off);
    assert_eq!(pcie, Some(render_pcie(&a.pcie, None, &off)));
    let out = render_rom(&a, &[], &[Section::Pcie], &off);
    assert_eq!(out, Some(format!("═══ a.rom ═══\n\n{}", pcie.unwrap())));
    assert_eq!(render_rom(&a, &[], &[Section::Pcie, Section::Sclk], &off), None);
}

#[test]
fn the_matrix_gives_each_section_its_own_rows() {
    let off = Palette::new(false);
    let roms = vec![rom("a.rom", 262144, 8, "DFP1"), rom("b.rom", 262144, 7, "DFP1")];
    let names = vec!["a.rom".to_string(), "b.rom".to_string()];
    let out = compare_all_section(&roms, &names, Section::Multimedia, &off, false);
    assert_eq!(out, Some(mm_section(&[8, 7], &names, &off, false)));
    let out = compare_all_section(&roms, &names, Section::Caps, &off, false).unwrap();
    assert!(out.ends_with(&format!("  {:<24} {:<26} {:<26} =\n", "platform_caps (hex)", "0x1", "0x1")));
    assert_eq!(compare_all_section(&roms, &names, Section::Header, &off, false), None);
}

#[test]
fn every_rendered_section_opens_with_its_heading() {
    let off = Palette::new(false);
    let a = rom("a.rom", 262144, 8, "DFP1");
    let sections = [
        Section::Header,
        Section::Vrm,
        Section::Caps,
        Section::Profiling,
        Section::PcirChain,
        Section::Display,
        Section::Asic,
        Section::Gpio,
        Section::Vram,
        Section::Pcie,
        Section::Voltages,
        Section::Power,
    ];
    for s in sections {
        let out = render_section(&a, s, &off).unwrap();
        assert!(out.starts_with(&format!("── {} \n", s.label())), "{:?}", s);
    }
}
