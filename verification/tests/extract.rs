use polaris_vbios::cmd::extract::{image_end, image_file_name, select_images};
use polaris_vbios::cmd::transplant::PciImage;

fn image(index: usize, file_offset: usize, code_type: u8, size: usize) -> PciImage {
    PciImage {
        index,
        file_offset,
        pcir_offset: file_offset + 0x1C,
        code_type,
        code_type_name: String::new(),
        vendor_id: 0x1002,
        device_id: 0x67DF,
        declared_size_bytes: size,
    }
}

fn chain() -> Vec<PciImage> {
    vec![image(0, 0, 0x00, 0xE800), image(1, 0xE800, 0x03, 0xC600), image(2, 0x1AE00, 0x01, 0x200)]
}

fn indices(v: &[PciImage]) -> Vec<usize> {
    v.iter().map(|i| i.index).collect()
}

#[test]
fn image_selection_by_kind() {
    let c = chain();
    assert_eq!(indices(&select_images(&c, "all").unwrap()), vec![0, 1, 2]);
    assert_eq!(indices(&select_images(&c, "EFI").unwrap()), vec![1]);
    assert_eq!(indices(&select_images(&c, "Legacy").unwrap()), vec![0]);
    assert!(select_images(&[], "efi").unwrap().is_empty());
    assert_eq!(
        select_images(&c, "GOP").err(),
        Some("unknown --image 'gop' (use 'efi', 'legacy' or 'all')".to_string())
    );
    assert_eq!(
        select_images(&c, "ÉFI").err(),
        Some("unknown --image 'Éfi' (use 'efi', 'legacy' or 'all')".to_string())
    );
}

#[test]
fn extracted_file_names_and_bounds() {
    let c = chain();
    assert_eq!(image_file_name("xfx-rx570", &c[0]), "xfx-rx570.0-legacy.bin");
    assert_eq!(image_file_name("xfx-rx570", &c[1]), "xfx-rx570.1-efi.bin");
    assert_eq!(image_file_name("rom", &c[2]), "rom.2-image.bin");
    assert_eq!(image_end(&c[0], 0x40000), 0xE800);
    assert_eq!(image_end(&c[1], 0x10000), 0x10000);
    assert_eq!(image_end(&c[1], 0x1AE00), 0x1AE00);
}
