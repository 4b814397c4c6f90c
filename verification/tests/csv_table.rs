use polaris_vbios::csv_export::csv_refusal;
use polaris_vbios::csv_table::{
    csv_records, export_csv, CsvRom, MclkRow, MmRow, PcieRow, SclkRow, StrapRow, VramRow,
};
use polaris_vbios::render::sections::Section;

fn empty_rom(name: &str) -> CsvRom {
    CsvRom {
        file_name: name.to_string(),
        sclk: vec![],
        mclk: vec![],
        mm: vec![],
        vram: vec![],
        pcie: vec![],
        straps: vec![],
    }
}

#[test]
fn sclk_table_has_one_record_per_level() {
    let mut a = empty_rom("a.rom");
    a.sclk = vec![
        SclkRow { level: 0, sclk_mhz: "300".to_string(), vdd_index: 0, vddc_offset_mv: 0 },
        SclkRow { level: 1, sclk_mhz: "1366".to_string(), vdd_index: 7, vddc_offset_mv: -25 },
    ];
    let mut b = empty_rom("b.rom");
    b.sclk = vec![SclkRow { level: 0, sclk_mhz: "214".to_string(), vdd_index: 1, vddc_offset_mv: 12 }];
    let out = export_csv(&[a, b], Section::Sclk).unwrap();
    assert_eq!(
        out,
        "rom,level,sclk_mhz,vdd_index,vddc_offset_mv\na.rom,0,300,0,0\na.rom,1,1366,7,-25\nb.rom,0,214,1,12\n"
    );
}

#[test]
fn fields_with_commas_or_quotes_are_quoted() {
    let mut a = empty_rom("my,\"best\".rom");
    a.pcie = vec![PcieRow { pcie_gen: 3, pcie_lane_width: 16 }, PcieRow { pcie_gen: 2, pcie_lane_width: 8 }];
    let out = export_csv(&[a], Section::Pcie).unwrap();
    assert_eq!(
        out,
        "rom,level,pcie_gen,pcie_lane_width\n\"my,\"\"best\"\".rom\",0,3,16\n\"my,\"\"best\"\".rom\",1,2,8\n"
    );
}

#[test]
fn strap_records_are_padded_to_the_widest_strap() {
    let mut a = empty_rom("a.rom");
    a.straps = vec![
        StrapRow { mem_block_id: 1, clock_mhz: "1750".to_string(), effective_gbps: "7.00".to_string(), values: vec![1, 2] },
        StrapRow { mem_block_id: 1, clock_mhz: "2000".to_string(), effective_gbps: "8.00".to_string(), values: vec![3] },
    ];
    let out = export_csv(&[a], Section::Straps).unwrap();
    assert_eq!(
        out,
        "rom,memory_block,clock_mhz,effective_gbps,reg0,reg1\na.rom,1,1750,7.00,1,2\na.rom,1,2000,8.00,3,\n"
    );
    let recs = csv_records(&[empty_rom("x")], Section::Straps);
    assert_eq!(recs, vec![vec!["rom", "memory_block", "clock_mhz", "effective_gbps"]]);
}

#[test]
fn mclk_mm_and_vram_tables_list_their_columns() {
    let mut a = empty_rom("a.rom");
    a.mclk = vec![MclkRow { level: 0, mclk_mhz: "300".to_string(), vddc_resolved_mv: None, vddci_mv: 800, mvdd_mv: 1350 }];
    a.mm = vec![MmRow {
        uvd_dclk_mhz: "600".to_string(),
        uvd_vclk_mhz: "480".to_string(),
        vce_eclk_mhz: "600".to_string(),
        samu_clk_mhz: "0".to_string(),
    }];
    a.vram = vec![VramRow {
        index: 0,
        part_number: "H5GC8H24AJR".to_string(),
        memory_size_mb: 8192,
        memory_type_name: "GDDR5".to_string(),
        channel_num: 8,
        vendor_id_raw: 6,
    }];
    let rom = [a];
    assert_eq!(
        export_csv(&rom, Section::Mclk).unwrap(),
        "rom,level,mclk_mhz,vddc_resolved_mv,vddci_mv,mvdd_mv\na.rom,0,300,,800,1350\n"
    );
    assert_eq!(
        export_csv(&rom, Section::Multimedia).unwrap(),
        "rom,level,uvd_dclk_mhz,uvd_vclk_mhz,vce_eclk_mhz,samu_clk_mhz\na.rom,0,600,480,600,0\n"
    );
    assert_eq!(
        export_csv(&rom, Section::Vram).unwrap(),
        "rom,module,part_number,size_mb,memory_type,channels,vendor_id_raw\na.rom,0,H5GC8H24AJR,8192,GDDR5,8,6\n"
    );
}

#[test]
fn free_form_sections_are_refused() {
    let err = export_csv(&[empty_rom("a.rom")], Section::Header).unwrap_err();
    assert_eq!(Some(err.clone()), csv_refusal(Section::Header));
    assert!(err.starts_with("section 'header' is not exportable as CSV"));
}
