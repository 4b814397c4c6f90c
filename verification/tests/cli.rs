use polaris_vbios::cli::{csv_format, section_listing};
use polaris_vbios::clipboard::clipboard_sequence;
use polaris_vbios::cmd::decode::{check_slots, parse_values};
use polaris_vbios::cmd::{compare_exit_code, documents_differ};
use polaris_vbios::csv_export::{csv_refusal, single_csv_section};
use polaris_vbios::render::sections::Section;

#[test]
fn dump_format_option() {
    assert_eq!(csv_format(None, false), Ok(false));
    assert_eq!(csv_format(None, true), Ok(false));
    assert_eq!(csv_format(Some("csv"), false), Ok(true));
    assert_eq!(csv_format(Some("text"), true), Ok(false));
    assert_eq!(
        csv_format(Some("CSV"), false),
        Err("unknown format: 'CSV' (use 'csv' or 'text')".to_string())
    );
    assert_eq!(
        csv_format(Some("csv"), true),
        Err("use --json OR --format csv, not both".to_string())
    );
}

#[test]
fn section_listing_has_one_line_per_section() {
    let text = section_listing();
    let mut expected = String::from("Available sections (use with --sections, comma-separated):\n\n");
    for s in Section::ALL {
        expected.push_str(&format!("  {:<10} {}\n", s.key(), s.label()));
    }
    expected.push_str(&format!("  {:<10} All sections above (default)\n", "all"));
    assert_eq!(text, expected);
    assert!(text.contains("  powertune  PowerTune (TDP / TDC / thermal limits)\n"));
    assert!(text.contains("  profiling  ASIC profiling"));
}

#[test]
fn clipboard_sequence_sends_plain_text_base64() {
    assert_eq!(clipboard_sequence("hi"), "\x1b]52;c;aGk=\x07");
    assert_eq!(clipboard_sequence("\x1b[32mhi\x1b[0m"), "\x1b]52;c;aGk=\x07");
    assert_eq!(clipboard_sequence(""), "\x1b]52;c;\x07");
    assert_eq!(clipboard_sequence("≠"), "\x1b]52;c;4omg\x07");
    assert_eq!(clipboard_sequence("abc\n"), "\x1b]52;c;YWJjCg==\x07");
}

#[test]
fn decode_strap_values() {
    assert_eq!(
        parse_values(&["0x1".to_string(), " DEADBEEF ".to_string()]),
        Ok(vec![1, 0xdead_beef])
    );
    assert_eq!(parse_values(&[]), Ok(vec![]));
    assert_eq!(
        parse_values(&["1".to_string(), "xyz".to_string(), "1g".to_string()]),
        Err("cannot parse 'xyz' as a hex value for decode-strap".to_string())
    );
    assert_eq!(check_slots(3, 14), Ok(()));
    assert_eq!(check_slots(14, 14), Ok(()));
    assert_eq!(
        check_slots(15, 14),
        Err(
            "15 register values but only 14 register slots - give --indices with more slots or fewer values"
                .to_string()
        )
    );
}

#[test]
fn csv_needs_one_tabular_section() {
    assert_eq!(single_csv_section(&[Section::Straps]), Ok(Section::Straps));
    assert_eq!(
        single_csv_section(&[Section::Straps, Section::Sclk]),
        Err("--format csv requires exactly one tabular section in --sections (got 2). Tabular sections: sclk, mclk, mm, pcie, vram, straps".to_string())
    );
    assert_eq!(
        single_csv_section(&[]),
        Err("--format csv requires exactly one tabular section in --sections (got 0). Tabular sections: sclk, mclk, mm, pcie, vram, straps".to_string())
    );
    assert_eq!(csv_refusal(Section::Vram), None);
    assert_eq!(
        csv_refusal(Section::Fan),
        Some("section 'fan' is not exportable as CSV (it is structured/free-form content, not a flat table). Tabular sections: sclk, mclk, mm, pcie, vram, straps".to_string())
    );
}

#[test]
fn comparison_exit_codes() {
    assert_eq!(compare_exit_code(true, false, false), 1);
    assert_eq!(compare_exit_code(true, false, true), 1);
    assert_eq!(compare_exit_code(false, true, false), 1);
    assert_eq!(compare_exit_code(false, false, true), 2);
    assert_eq!(compare_exit_code(false, false, false), 0);
    let d = |v: &[&str]| documents_differ(&v.iter().map(|s| s.to_string()).collect::<Vec<_>>());
    assert!(!d(&[]));
    assert!(!d(&["a"]));
    assert!(!d(&["a", "a", "a"]));
    assert!(d(&["a", "a", "b"]));
    assert!(d(&["b", "a", "a"]));
}
