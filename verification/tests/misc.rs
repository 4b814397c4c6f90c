use std::collections::HashMap;

use polaris_vbios::cmd::identify::{file_column, guess_memory_vendor};
use polaris_vbios::csv_export::{exportable_keys, is_csv_exportable};
use polaris_vbios::reg_names::parse;
use polaris_vbios::render::color::Palette;
use polaris_vbios::render::sections::Section;

#[test]
fn reg_names_accept_hex_decimal_comments_and_blank_lines() {
    let content = "# user annotations\n0xA2F=MC_SEQ_CAS_TIMING\n\n  2608 = MC_SEQ_CAS_TIMING2 \r\n0X10=x\n";
    let mut expected = HashMap::new();
    expected.insert(0xA2F, "MC_SEQ_CAS_TIMING".to_string());
    expected.insert(2608, "MC_SEQ_CAS_TIMING2".to_string());
    expected.insert(0x10, "x".to_string());
    assert_eq!(parse(content, "names.txt"), Ok(expected));
    assert_eq!(parse("", "names.txt"), Ok(HashMap::new()));
}

#[test]
fn reg_names_later_lines_replace_earlier_ones() {
    let mut expected = HashMap::new();
    expected.insert(1, "b".to_string());
    assert_eq!(parse("1=a\n0x1=b", "p"), Ok(expected));
    let mut expected = HashMap::new();
    expected.insert(5, "a=b".to_string());
    assert_eq!(parse("5=a=b", "p"), Ok(expected));
}

#[test]
fn reg_names_report_the_first_bad_line() {
    assert_eq!(
        parse("1=a\n  foo  \n2=", "names.txt"),
        Err("line 2 of 'names.txt' is invalid (expected 'INDEX=NAME'): \"foo\"".to_string())
    );
    assert_eq!(
        parse("0xZZ=a", "p"),
        Err("line 1 of 'p': invalid hex index: \"0xZZ\"".to_string())
    );
    assert_eq!(
        parse("0x10000=a", "p"),
        Err("line 1 of 'p': invalid hex index: \"0x10000\"".to_string())
    );
    assert_eq!(
        parse("# c\nabc=a", "p"),
        Err("line 2 of 'p': invalid index (use decimal or 0xHEX): \"abc\"".to_string())
    );
    assert_eq!(
        parse("65536=a", "p"),
        Err("line 1 of 'p': invalid index (use decimal or 0xHEX): \"65536\"".to_string())
    );
    assert_eq!(parse("5 = ", "p"), Err("line 1 of 'p': empty name for index 5".to_string()));
}

#[test]
fn reg_names_quote_the_offending_text() {
    assert_eq!(
        parse("a\"b\\c", "p"),
        Err("line 1 of 'p' is invalid (expected 'INDEX=NAME'): \"a\\\"b\\\\c\"".to_string())
    );
    assert_eq!(
        parse("x\ty=1", "p"),
        Err("line 1 of 'p': invalid index (use decimal or 0xHEX): \"x\\ty\"".to_string())
    );
}

#[test]
fn csv_exportable_sections() {
    let tabular: Vec<Section> = Section::ALL.iter().copied().filter(|s| is_csv_exportable(*s)).collect();
    assert_eq!(
        tabular,
        vec![
            Section::Sclk,
            Section::Mclk,
            Section::Multimedia,
            Section::Pcie,
            Section::Vram,
            Section::Straps
        ]
    );
    assert_eq!(exportable_keys(), vec!["sclk", "mclk", "mm", "pcie", "vram", "straps"]);
    assert!(!is_csv_exportable(Section::Header));
}

#[test]
fn memory_vendor_from_part_number() {
    assert_eq!(guess_memory_vendor("H5GC8H24AJR-R0C"), Some("Hynix"));
    assert_eq!(guess_memory_vendor("  K4G80325FB-HC25"), Some("Samsung"));
    assert_eq!(guess_memory_vendor("EDW4032BABG"), Some("Elpida/Micron"));
    assert_eq!(guess_memory_vendor("W4032BABG"), Some("Elpida/Micron"));
    assert_eq!(guess_memory_vendor("MT51J256M32"), None);
    assert_eq!(guess_memory_vendor("K"), None);
    assert_eq!(guess_memory_vendor("KA"), None);
    assert_eq!(guess_memory_vendor(""), None);
    assert_eq!(guess_memory_vendor("H5"), None);
}

#[test]
fn file_column_is_32_wide() {
    assert_eq!(file_column("a.rom", &Palette::new(false)), format!("{:<32}", "a.rom"));
    assert_eq!(
        file_column("a_very_long_rom_file_name_that_overflows.rom", &Palette::new(false)),
        "a_very_long_rom_file_name_tha..."
    );
    assert_eq!(
        file_column("x", &Palette::new(true)),
        format!("\x1b[1;33m{:<32}\x1b[0m", "x")
    );
}
