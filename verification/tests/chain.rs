use polaris_vbios::render::chain::{
    render_display, render_pcir_chain, DisplayInfo, DisplayPath, Encoder, PciImage,
};
use polaris_vbios::render::color::Palette;

const PCIR_NOTE: &str = "Standard PCI Firmware Specification structure - allows more than one firmware image on the same flash chip, one per boot environment. Most modern VBIOS have a legacy (x86) image (with the AtomBIOS that the rest of this program reads) followed by an EFI image (GOP driver for pure UEFI boot).\n";

const DISPLAY_NOTE: &str = "Read from ATOM_OBJECT_HEADER → video path table (the modern and authoritative source since the GCN era). Connector/encoder names come verbatim from the official amdgpu driver's ObjectID.h, not from reverse engineering.\n";

fn legacy_image() -> PciImage {
    PciImage {
        index: 0,
        file_offset: 0,
        code_type_name: "x86 BIOS".to_string(),
        declared_size_bytes: 59392,
        vendor_id: 0x1002,
        device_id: 0x67DF,
        class_code: 0x030000,
        class_name: Some("VGA".to_string()),
        is_last_image: false,
        is_atom_bios: true,
        identity_string: Some("113-D0090100-101".to_string()),
    }
}

#[test]
fn option_rom_chain_lists_each_image() {
    let off = Palette::new(false);
    let efi = PciImage {
        index: 1,
        file_offset: 0xE800,
        code_type_name: "EFI".to_string(),
        declared_size_bytes: 52224,
        vendor_id: 0x1002,
        device_id: 0x67DF,
        class_code: 0x30000,
        class_name: None,
        is_last_image: true,
        is_atom_bios: false,
        identity_string: None,
    };
    let out = render_pcir_chain(&[legacy_image(), efi], &off);
    let expected = format!(
        "── PCI Option ROM chain (chip images) \n\n{}\n  ▸ image 0 - offset 0x0 · 59392 bytes · x86 BIOS\n      PCI vendor:device = 1002:67DF · class code 0x030000 (VGA)\n      ✓ contains a valid AtomBIOS (this is what this program analyzes in detail)\n      identity string found: \"113-D0090100-101\"\n\n  ▸ image 1 - offset 0xE800 · 52224 bytes · EFI (last image)\n      PCI vendor:device = 1002:67DF · class code 0x030000\n",
        PCIR_NOTE
    );
    assert_eq!(out, expected);
    assert_eq!(
        render_pcir_chain(&[], &off),
        "── PCI Option ROM chain (chip images) \n\n  (no valid PCIR image found)"
    );
}

#[test]
fn video_paths_show_connector_and_encoders() {
    let off = Palette::new(false);
    let d = DisplayInfo {
        paths: vec![
            DisplayPath {
                device_tag_name: "DFP1".to_string(),
                connector_chip: Some("HDMI type A".to_string()),
                connector_raw: 0x310C,
                connector_instance: 0,
                encoder_chain: vec![Encoder {
                    chip_name: Some("UNIPHY".to_string()),
                    object_type_name: "encoder".to_string(),
                    raw: 0x211E,
                }],
            },
            DisplayPath {
                device_tag_name: "DFP2".to_string(),
                connector_chip: None,
                connector_raw: 0x31AB,
                connector_instance: 2,
                encoder_chain: vec![],
            },
        ],
        supported_devices_bitmap: None,
        supported_devices_names: vec![],
    };
    let out = render_display(&d, &off);
    let expected = format!(
        "── Video outputs (connectors/encoders) \n\n{}\n  ▸ path 0 - logical device DFP1 · connector: HDMI type A\n      encoder chain (GPU → connector): UNIPHY\n\n  ▸ path 1 - logical device DFP2 · connector: unknown type (0xAB) (instance 2)\n",
        DISPLAY_NOTE
    );
    assert_eq!(out, expected);
    let none = DisplayInfo { paths: vec![], supported_devices_bitmap: None, supported_devices_names: vec![] };
    assert!(render_display(&none, &off).ends_with("\n  (no video output information found in this ROM)"));
    let old = DisplayInfo {
        paths: vec![],
        supported_devices_bitmap: Some(0x0F),
        supported_devices_names: vec!["CRT1".to_string(), "LCD1".to_string()],
    };
    let out = render_display(&old, &off);
    assert!(out.contains("Supported devices (bitmap)    0x000F\n"));
    assert!(out.ends_with("Device names                  CRT1, LCD1"));
}
