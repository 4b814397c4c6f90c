use polaris_vbios::compare_display::{compare_display, compare_pcir_chain, display_section, pcir_section};
use polaris_vbios::render::chain::{DisplayPath, PciImage};
use polaris_vbios::render::color::Palette;

fn row(label: &str, a: &str, b: &str, mark: &str) -> String {
    format!("  {:<28} {:<26} {:<26} {}\n", label, a, b, mark)
}

fn head(title: &str) -> String {
    format!("── {} \n  {:<28} {:<26} {:<26}\n  {}\n", title, "field", "a.rom", "b.rom", "─".repeat(82))
}

fn path(tag: &str, chip: Option<&str>) -> DisplayPath {
    DisplayPath {
        device_tag_name: tag.to_string(),
        connector_chip: chip.map(|c| c.to_string()),
        connector_raw: 0x3113,
        connector_instance: 0,
        encoder_chain: vec![],
    }
}

fn image(kind: &str, size: u64, device_id: u16) -> PciImage {
    PciImage {
        index: 0,
        file_offset: 0,
        code_type_name: kind.to_string(),
        declared_size_bytes: size,
        vendor_id: 0x1002,
        device_id,
        class_code: 0x030000,
        class_name: None,
        is_last_image: false,
        is_atom_bios: false,
        identity_string: None,
    }
}

#[test]
fn display_paths_compare_by_position() {
    let off = Palette::new(false);
    let a = [path("DFP1", Some("HDMI-A")), path("DFP2", None)];
    let b = [path("DFP1", Some("HDMI-A")), path("DFP2", Some("DP")), path("DFP3", Some("DP"))];
    let out = compare_display(&a, &b, "a.rom", "b.rom", &off, false);
    assert_eq!(
        out,
        head("Video outputs (connectors/encoders)")
            + &row("Video paths (count)", "2", "3", "≠")
            + &row("Logical devices", "DFP1, DFP2", "DFP1, DFP2, DFP3", "≠")
            + &row("  path 0 connector", "HDMI-A", "HDMI-A", "=")
            + &row("  path 1 connector", "-", "DP", "≠")
            + &row("  path 2 connector", "-", "DP", "≠")
    );
    let same = compare_display(&a, &a, "a.rom", "b.rom", &off, true);
    assert!(same.ends_with("  (nothing differs in this section)\n"));
}

#[test]
fn option_rom_chain_compares_images_and_shared_device_ids() {
    let off = Palette::new(false);
    let a = [image("x86 BIOS", 59392, 0x67DF), image("EFI", 52224, 0x67DF)];
    let b = [image("x86 BIOS", 59392, 0x67EF)];
    let out = compare_pcir_chain(&a, &b, "a.rom", "b.rom", &off, false);
    assert_eq!(
        out,
        head("PCI Option ROM chain (chip images)")
            + &row("Chain images (count)", "2", "1", "≠")
            + &row("image 0", "x86 BIOS (59392 bytes)", "x86 BIOS (59392 bytes)", "=")
            + &row("  device ID (img. 0)", "0x67DF", "0x67EF", "≠")
            + &row("image 1", "EFI (52224 bytes)", "-", "≠")
    );
}

#[test]
fn display_and_chain_matrices_count_per_rom() {
    let off = Palette::new(false);
    let names = vec!["a.rom".to_string(), "b.rom".to_string()];
    let cell = |v: &str| format!(" {:<26}", v);
    let out = display_section(&[2, 3], &names, &off, false);
    assert!(out.ends_with(&format!("  {:<24}{}{} ≠\n", "Video paths (count)", cell("2"), cell("3"))));
    let out = pcir_section(&[2, 2], &names, &off, false);
    assert!(out.ends_with(&format!("  {:<24}{}{} =\n", "Chain images (count)", cell("2"), cell("2"))));
}
