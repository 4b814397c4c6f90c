use polaris_vbios::cmd::patch::{build_ops, checksum_gate, patch_precheck, PatchOp};

fn v(xs: &[&str]) -> Vec<String> {
    xs.iter().map(|s| s.to_string()).collect()
}

fn none() -> Vec<String> {
    vec![]
}

#[test]
fn patch_arguments_become_edits_in_order() {
    let ops = build_ops(
        &v(&["1750", "3", "0x00300043"]),
        &v(&["0xA2F", "dead"]),
        &v(&["2000", "2050"]),
        &v(&["7", "1366"]),
        &v(&["2", "2000"]),
        &v(&["4", "1150"]),
        &v(&["180"]),
        &v(&["0x100", "0A,FF 01"]),
    )
    .unwrap();
    assert_eq!(ops.len(), 8);
    assert!(matches!(ops[0], PatchOp::SetStrap { clock_mhz: 1750, reg: 3, value: 0x0030_0043 }));
    assert!(matches!(ops[1], PatchOp::SetStrapReg { reg_offset: 0xA2F, value: 0xDEAD }));
    assert!(matches!(ops[2], PatchOp::RetagStrap { clock_mhz: 2000, new_clock_mhz: 2050 }));
    assert!(matches!(ops[3], PatchOp::PpSclk { level: 7, mhz: 1366 }));
    assert!(matches!(ops[4], PatchOp::PpMclk { level: 2, mhz: 2000 }));
    assert!(matches!(ops[5], PatchOp::PpVddc { index: 4, mv: 1150 }));
    assert!(matches!(ops[6], PatchOp::PpTdp { watts: 180 }));
    match &ops[7] {
        PatchOp::Hex { offset, bytes } => {
            assert_eq!(*offset, 0x100);
            assert_eq!(bytes, &vec![0x0A, 0xFF, 0x01]);
        }
        _ => panic!("expected a hex edit"),
    }
}

#[test]
fn the_first_unreadable_argument_stops_the_reading() {
    let err = build_ops(&v(&["fast", "3", "0"]), &none(), &none(), &none(), &none(), &none(), &v(&["x"]), &none())
        .unwrap_err();
    assert_eq!(err, "cannot parse 'fast' as clock (MHz)");
    let err = build_ops(&none(), &none(), &none(), &none(), &none(), &none(), &v(&["150W"]), &none())
        .unwrap_err();
    assert_eq!(err, "cannot parse '150W' as TDP (W)");
    let err = build_ops(&none(), &none(), &none(), &none(), &none(), &none(), &none(), &v(&["0x10", " , "]))
        .unwrap_err();
    assert_eq!(err, "--hex needs at least one byte");
    let err = build_ops(&none(), &v(&["0x100000000", "1"]), &none(), &none(), &none(), &none(), &none(), &none())
        .unwrap_err();
    assert_eq!(err, "cannot parse '0x100000000' as a hex value for --set-strap-reg");
    assert!(build_ops(&none(), &none(), &none(), &none(), &none(), &none(), &none(), &none()).unwrap().is_empty());
}

#[test]
fn patch_guards_refuse_empty_in_place_and_corrupt_runs() {
    assert_eq!(
        patch_precheck(0, false, false).unwrap_err(),
        "nothing to do - add an edit (--set-strap, --pp-*, --hex...) or --fix-checksum"
    );
    assert_eq!(
        patch_precheck(2, false, true).unwrap_err(),
        "--out must be a different file than the source ROM (never patch in place)"
    );
    assert!(patch_precheck(0, true, false).is_ok());
    assert_eq!(
        checksum_gate(false, false).unwrap_err(),
        "input ROM checksum is invalid - refusing to patch a corrupt image (run with --fix-checksum to repair it)"
    );
    assert_eq!(checksum_gate(false, true), Ok(true));
    assert_eq!(checksum_gate(true, false), Ok(false));
}
