use polaris_vbios::cmd::transplant::{
    plan_text, transplant_image, transplant_output, transplant_pair, validate_transplant, PciImage,
    TransplantArgs, TransplantMode, TransplantPlan,
};

fn image(index: usize, file_offset: usize, code_type: u8, size: usize, device_id: u16) -> PciImage {
    PciImage {
        index,
        file_offset,
        pcir_offset: file_offset + 0x20,
        code_type,
        code_type_name: if code_type == 3 { "EFI".to_string() } else { "x86".to_string() },
        vendor_id: 0x1002,
        device_id,
        declared_size_bytes: size,
    }
}

/// A file of `len` bytes filled with `fill`, with an ATOM header at
/// `atom` (relative to the image at offset 0), and `ind` at the
/// indicator byte of the image at offset 0.
fn rom(len: usize, fill: u8, atom: u16, ind: u8) -> Vec<u8> {
    let mut d = vec![fill; len];
    d[0x48] = (atom & 0xff) as u8;
    d[0x49] = (atom >> 8) as u8;
    let a = atom as usize;
    d[a + 4..a + 8].copy_from_slice(b"ATOM");
    d[0x35] = ind;
    d
}

fn args<'a>(
    target_data: &'a [u8],
    donor_data: &'a [u8],
    target_chain: &'a [PciImage],
    donor_chain: &'a [PciImage],
    mode: TransplantMode,
) -> TransplantArgs<'a> {
    TransplantArgs {
        target_data,
        donor_data,
        target_chain,
        donor_chain,
        mode,
        target_index: None,
        donor_index: None,
        force: false,
    }
}

fn errors_of(r: Result<TransplantPlan, Vec<String>>) -> Vec<String> {
    match r {
        Ok(_) => panic!("expected errors"),
        Err(e) => e,
    }
}

#[test]
fn legacy_transplant_pads_and_keeps_the_indicator() {
    let target = rom(0x400, 0x11, 0x100, 0x80);
    let donor = rom(0x300, 0xAA, 0x80, 0x00);
    let tchain = vec![image(0, 0, 0, 0x200, 0x67DF), image(1, 0x200, 3, 0x200, 0x67DF)];
    let dchain = vec![image(0, 0, 0, 0x100, 0x67DF), image(1, 0x100, 3, 0x200, 0x67DF)];
    let plan = match validate_transplant(&args(&target, &donor, &tchain, &dchain, TransplantMode::Legacy)) {
        Ok(p) => p,
        Err(e) => panic!("{e:?}"),
    };
    assert!(plan.target_efi.is_none() && plan.source_efi.is_none());
    assert_eq!(plan.target_legacy.as_ref().map(|i| i.declared_size_bytes), Some(0x200));
    assert_eq!(plan.source_legacy.as_ref().map(|i| i.declared_size_bytes), Some(0x100));
    assert!(plan.warnings.is_empty());
    assert_eq!(plan.target_chain.len(), 2);

    let out = transplant_output(&target, &donor, &plan).unwrap();
    assert_eq!(out.len(), target.len());
    let mut expected = target.clone();
    expected[..0x100].copy_from_slice(&donor[..0x100]);
    expected[0x35] = 0x80;
    expected[0x100..0x200].fill(0xFF);
    assert_eq!(out, expected);
    // The EFI image of the target is untouched.
    assert_eq!(&out[0x200..], &target[0x200..]);
}

#[test]
fn both_images_are_transplanted() {
    let target = rom(0x400, 0x11, 0x100, 0x80);
    let donor = rom(0x400, 0xAA, 0x100, 0x00);
    let tchain = vec![image(0, 0, 0, 0x200, 1), image(1, 0x200, 3, 0x200, 1)];
    let dchain = vec![image(0, 0, 0, 0x200, 1), image(1, 0x200, 3, 0x200, 1)];
    let plan = match validate_transplant(&args(&target, &donor, &tchain, &dchain, TransplantMode::Both)) {
        Ok(p) => p,
        Err(e) => panic!("{e:?}"),
    };
    let out = transplant_output(&target, &donor, &plan).unwrap();
    let mut expected = donor.clone();
    expected[0x35] = 0x80;
    expected[0x235] = target[0x235];
    assert_eq!(out, expected);
}

#[test]
fn missing_images_are_reported_first() {
    let target = rom(0x400, 0, 0x100, 0);
    let donor = rom(0x400, 0, 0x100, 0);
    let tchain = vec![image(0, 0, 0, 0x200, 1)];
    let dchain = vec![image(0, 0, 0, 0x200, 1), image(1, 0x200, 3, 0x200, 1)];
    let e = errors_of(validate_transplant(&args(&target, &donor, &tchain, &dchain, TransplantMode::Efi)));
    assert_eq!(e, vec!["no EFI image found in chain"]);
    let e = errors_of(validate_transplant(&args(&target, &donor, &tchain, &dchain, TransplantMode::Both)));
    assert_eq!(e, vec!["no EFI image found in chain"]);

    let mut a = args(&target, &donor, &tchain, &dchain, TransplantMode::Legacy);
    a.target_index = Some(5);
    assert_eq!(errors_of(validate_transplant(&a)), vec!["index 5 out of range (chain has 1 images)"]);
    let mut a = args(&target, &donor, &dchain, &dchain, TransplantMode::Legacy);
    a.donor_index = Some(1);
    assert_eq!(
        errors_of(validate_transplant(&a)),
        vec!["index 1 is EFI (code_type=0x03), expected Legacy (code_type=0x00)"]
    );
}

#[test]
fn pair_checks_collect_all_errors_then_warnings() {
    let target = rom(0x400, 0, 0x100, 0);
    let mut donor = rom(0x800, 0, 0x100, 0);
    donor[0x104..0x108].copy_from_slice(b"MOTA");
    let tchain = vec![image(0, 0, 0, 0x200, 0x67DF)];
    let mut d = image(0, 0, 0, 0x400, 0x67EF);
    d.vendor_id = 0x1234;
    let dchain = vec![d];
    let e = errors_of(validate_transplant(&args(&target, &donor, &tchain, &dchain, TransplantMode::Legacy)));
    assert_eq!(
        e,
        vec![
            "donor Legacy (1024 bytes) is larger than target Legacy (512 bytes); cannot expand without corrupting the PCI ROM chain".to_string(),
            "donor Legacy image has no valid ATOM signature (found [77, 79, 84, 65] at 0x104)".to_string(),
            "Legacy device ID mismatch: donor=0x67EF, target=0x67DF (use --force to override)".to_string(),
            "Legacy vendor ID mismatch: donor=0x1234, target=0x1002".to_string(),
        ]
    );
    let mut a = args(&target, &donor, &tchain, &dchain, TransplantMode::Legacy);
    a.force = true;
    assert_eq!(errors_of(validate_transplant(&a)).len(), 2);
}

#[test]
fn differing_ids_refuse_the_pair_unless_forced() {
    let target = rom(0x400, 0, 0x100, 0);
    let donor = rom(0x400, 0, 0x100, 0);
    let tchain = vec![image(0, 0, 0, 0x200, 0x67DF)];
    let dchain = vec![image(0, 0, 0, 0x200, 0x67EF)];
    let e = errors_of(validate_transplant(&args(&target, &donor, &tchain, &dchain, TransplantMode::Legacy)));
    assert_eq!(e, vec!["Legacy device ID mismatch: donor=0x67EF, target=0x67DF (use --force to override)"]);
    let mut a = args(&target, &donor, &tchain, &dchain, TransplantMode::Legacy);
    a.force = true;
    let r = validate_transplant(&a);
    assert!(matches!(r, Ok(ref p) if p.warnings.is_empty()));
}

#[test]
fn atom_pointer_checks() {
    let target = rom(0x400, 0, 0x100, 0);
    let mut donor = rom(0x400, 0, 0x100, 0);
    donor[0x48] = 0xFC;
    donor[0x49] = 0x03;
    let tchain = vec![image(0, 0, 0, 0x200, 1)];
    let dchain = vec![image(0, 0, 0, 0x200, 1)];
    assert_eq!(
        errors_of(validate_transplant(&args(&target, &donor, &tchain, &dchain, TransplantMode::Legacy))),
        vec!["donor ATOM pointer points past end of file"]
    );
    let small = vec![0u8; 0x40];
    let good = rom(0x400, 0, 0x100, 0);
    assert_eq!(
        errors_of(validate_transplant(&args(&small, &good, &tchain, &dchain, TransplantMode::Legacy))),
        vec!["target Legacy image too small to contain ATOM pointer"]
    );
    let zero = vec![image(0, 0, 0, 0, 1)];
    assert_eq!(
        errors_of(validate_transplant(&args(&target, &donor, &tchain, &zero, TransplantMode::Legacy))),
        vec!["donor Legacy image has zero declared size", "donor ATOM pointer points past end of file"]
    );
}

#[test]
fn transplant_image_checks_bounds() {
    let t = image(0, 0x300, 3, 0x200, 1);
    let d = image(0, 0x100, 3, 0x200, 1);
    let mut out = vec![0u8; 0x400];
    assert_eq!(
        transplant_image(&mut out, &[0u8; 0x200], &t, &d, 0),
        Err("donor image extends past end of file (src_end=0x300, file_len=0x200)".to_string())
    );
    let d = image(0, 0, 3, 0x200, 1);
    assert_eq!(
        transplant_image(&mut out, &[0u8; 0x200], &t, &d, 0),
        Err("target image extends past end of file (dst_end=0x500, file_len=0x400)".to_string())
    );
    assert_eq!(out, vec![0u8; 0x400]);
    assert_eq!(
        transplant_pair(&mut out, &[0u8; 0x200], &[0u8; 0x400], &t, &d, "EFI"),
        Err("EFI transplant failed: target image extends past end of file (dst_end=0x500, file_len=0x400)".to_string())
    );
    let t = image(0, 0x100, 3, 0x100, 1);
    let donor: Vec<u8> = (0..0x200).map(|i| i as u8).collect();
    assert_eq!(transplant_image(&mut out, &donor, &t, &d, 0x7E), Ok(()));
    assert_eq!(&out[0x100..0x200], &donor[..0x100].iter().enumerate().map(|(i, b)| if i == 0x35 { 0x7E } else { *b }).collect::<Vec<_>>()[..]);
    assert_eq!(&out[..0x100], &[0u8; 0x100][..]);
}

#[test]
fn dry_run_plan_report() {
    let target = rom(0x400, 0x11, 0x100, 0x80);
    let donor = rom(0x300, 0xAA, 0x80, 0x00);
    let tchain = vec![image(0, 0, 0, 0x200, 0x67DF), image(1, 0x200, 3, 0x200, 0x67DF)];
    let dchain = vec![image(0, 0, 0, 0x100, 0x67EF), image(1, 0x100, 3, 0x200, 0x67DF)];
    let mut a = args(&target, &donor, &tchain, &dchain, TransplantMode::Both);
    a.force = true;
    let plan = match validate_transplant(&a) {
        Ok(p) => p,
        Err(e) => panic!("{e:?}"),
    };
    let report = plan_text(&plan, TransplantMode::Both, "t.rom", "d.rom", "o.rom", target.len());
    assert_eq!(
        report,
        "=== Transplant Plan ===\n\n\
         Target: t.rom\n\
         \x20 [0] x86 @ 0x00000 (512B) dev=0x67DF\n\
         \x20 [1] EFI @ 0x00200 (512B) dev=0x67DF\n\
         \nDonor: d.rom\n\
         \x20 [0] x86 @ 0x00000 (256B) dev=0x67EF\n\
         \x20 [1] EFI @ 0x00100 (512B) dev=0x67DF\n\
         \nOperation: --both\n\
         \x20 Legacy: donor[0] (256B) -> target[0] (512B) diff=-256B\n\
         \x20   (donor smaller, will pad with 0xFF)\n\
         \x20 WARNING: Legacy device IDs differ (donor=0x67EF, target=0x67DF)\n\
         \x20 EFI: donor[1] (512B) -> target[1] (512B) diff=0B\n\
         \x20   (exact match)\n\
         \x20 EFI device IDs match (0x67DF)\n\
         \nGuardrails:\n\
         \x20 WARNING: Legacy device IDs differ (donor=0x67EF, target=0x67DF)\n\
         \x20 EFI device IDs match (0x67DF)\n\
         \nOutput: o.rom (1024 bytes)\n"
    );
}

#[test]
fn transplant_image_refuses_indicator_and_padding_past_the_end() {
    let mut out = vec![7u8; 0x200];
    let donor = vec![1u8; 0x200];
    let mut t = image(0, 0, 3, 0x100, 1);
    t.pcir_offset = 0x1F0;
    let d = image(0, 0, 3, 0x100, 1);
    assert_eq!(
        transplant_image(&mut out, &donor, &t, &d, 0),
        Err("target indicator byte lies past end of file (offset=0x205, file_len=0x200)".to_string())
    );
    let t = image(0, 0x100, 3, 0x200, 1);
    let d = image(0, 0, 3, 0x80, 1);
    assert_eq!(
        transplant_image(&mut out, &donor, &t, &d, 0),
        Err("target image extends past end of file (dst_end=0x300, file_len=0x200)".to_string())
    );
    assert_eq!(out, vec![7u8; 0x200]);
}
