use polaris_vbios::compare_sections::VramInfo;
use polaris_vbios::csv_table::{PcieRow, VramRow};
use polaris_vbios::render::color::Palette;
use polaris_vbios::compare_power::VddEntry;
use polaris_vbios::render::tables::{render_pcie, render_voltages, render_vram};

fn kv(k: &str, v: &str) -> String {
    format!("  {:<28}  {}", k, v)
}

#[test]
fn vram_dump_lists_modules_and_microcode() {
    let off = Palette::new(false);
    let v = VramInfo {
        num_modules: 2,
        modules: vec![
            VramRow {
                index: 0,
                part_number: "H5GC8H24MJR".to_string(),
                memory_size_mb: 8192,
                memory_type_name: "GDDR5".to_string(),
                channel_num: 8,
                vendor_id_raw: 6,
            },
            VramRow {
                index: 1,
                part_number: String::new(),
                memory_size_mb: 8192,
                memory_type_name: "GDDR5".to_string(),
                channel_num: 8,
                vendor_id_raw: 1,
            },
        ],
        mcu_code_version: Some(7),
        mcu_code_rom_start_addr: Some(0xA000),
        mcu_code_length: None,
    };
    let out = render_vram(&v, &off);
    let expected = format!(
        "── VRAM configuration \n\n{}\n  module 0: H5GC8H24MJR  ·  8192 MB  ·  GDDR5  ·  8 channel(s)  ·  vendor_id raw=6\n  module 1: (empty / placeholder)  ·  8192 MB  ·  GDDR5  ·  8 channel(s)  ·  vendor_id raw=1\n{}",
        kv("Modules declared in ROM", "2"),
        kv("MC ucode version", "7 (rom start 0xA000, length 0 bytes)")
    );
    assert_eq!(out, expected);
}

#[test]
fn pcie_dump_lists_levels() {
    let off = Palette::new(false);
    let levels = vec![PcieRow { pcie_gen: 0, pcie_lane_width: 16 }, PcieRow { pcie_gen: 2, pcie_lane_width: 16 }];
    let out = render_pcie(&levels, Some(1), &off);
    let expected = format!(
        "── PCIe table \n\n  level 0: gen index 0, bus width 16 lane(s)\n  level 1: gen index 2, bus width 16 lane(s)\n{}",
        kv("VRHot forces DPM SCLK to level", "1")
    );
    assert_eq!(out, expected);
    assert_eq!(render_pcie(&[], None, &off), "── PCIe table \n\n  (table not present in this ROM)");
}

#[test]
fn voltage_dump_lists_valid_slots_and_counts_placeholders() {
    let off = Palette::new(false);
    let vddc = vec![
        VddEntry { index: 0, vdd_mv: 800, valid: true },
        VddEntry { index: 1, vdd_mv: 0xFF01, valid: false },
        VddEntry { index: 2, vdd_mv: 900, valid: true },
    ];
    let out = render_voltages(&vddc, &[], &off);
    assert_eq!(
        out,
        "── Voltage tables (VDDC/VDDGFX) \n\nVDDC - valid slots: idx 0 = 800 mV, idx 2 = 900 mV\n  (1 reserved/placeholder slot(s) from the ROM itself, ignored)\n"
    );
}
