use polaris_vbios::compare::render_compare;
use polaris_vbios::compare_all::render_compare_all;
use polaris_vbios::compare::{differs, has_difference_marker, header_row, title, Table, NAME_W, VAL_W};
use polaris_vbios::compare_all::{col_width, Matrix};
use polaris_vbios::render::color::Palette;

fn plain_header(a: &str, b: &str) -> String {
    format!(
        "  {:<28} {:<26} {:<26}\n  {}",
        "field",
        a,
        b,
        "─".repeat(NAME_W + VAL_W * 2 + 2)
    )
}

#[test]
fn header_row_is_aligned_before_coloring() {
    let off = Palette::new(false);
    assert_eq!(header_row(&off, "a.rom", "b.rom"), plain_header("a.rom", "b.rom"));
    let on = Palette::new(true);
    let h = header_row(&on, "a.rom", "b.rom");
    assert!(h.starts_with("\x1b[2m  field"));
    assert!(h.ends_with("─\x1b[0m"));
}

#[test]
fn table_rows_carry_their_marker() {
    let off = Palette::new(false);
    let mut t = Table::new(&off, false);
    t.header("a.rom", "b.rom");
    t.row("Clock", "300", "300").row("Voltage", "1000 mV", "1100 mV");
    let s = t.finish("no rows");
    let expected = format!(
        "{}\n  {:<28} {:<26} {:<26} =\n  {:<28} {:<26} {:<26} ≠\n",
        plain_header("a.rom", "b.rom"),
        "Clock",
        "300",
        "300",
        "Voltage",
        "1000 mV",
        "1100 mV"
    );
    assert_eq!(s, expected);
    assert!(differs(&s));
}

#[test]
fn diff_only_drops_equal_rows_and_reports_empty_tables() {
    let off = Palette::new(false);
    let mut t = Table::new(&off, true);
    t.row("Clock", "300", "300");
    assert!(!t.any_row);
    assert_eq!(t.finish("identical"), "  identical\n");

    let mut t = Table::new(&off, true);
    t.note("note line");
    assert_eq!(t.finish("identical"), "note line\n");
}

#[test]
fn long_values_are_cut_to_the_column() {
    let off = Palette::new(false);
    let mut t = Table::new(&off, false);
    t.row("A label that is far too long to fit", "x", "y");
    let s = t.finish("");
    assert_eq!(
        s,
        format!("  A label that is far too l... {:<26} {:<26} ≠\n", "x", "y")
    );
}

#[test]
fn differs_reads_colored_reports() {
    let on = Palette::new(true);
    let mut t = Table::new(&on, false);
    t.row("Clock", "300", "301");
    let colored = t.finish("");
    // The marker is wrapped in escape codes: only the stripped text ends with it.
    assert!(colored.trim_end().ends_with("\x1b[0m"));
    assert!(!has_difference_marker(&colored));
    assert!(differs(&colored));

    let mut t = Table::new(&on, false);
    t.row("Clock", "300", "300");
    assert!(!differs(&t.finish("")));
    assert!(!differs(""));
    assert!(differs("x ≠  \r\nnext"));
    assert!(!differs("≠ not at the end"));
}

#[test]
fn section_titles() {
    assert_eq!(title(&Palette::new(false), "Header"), "── Header ");
    assert_eq!(title(&Palette::new(true), "H"), "\x1b[1;36m── H \x1b[0m");
    assert_eq!(
        polaris_vbios::compare_all::title(&Palette::new(false), "Fan"),
        "── Fan "
    );
}

#[test]
fn matrix_columns_shrink_with_more_roms() {
    assert_eq!(col_width(0), 26);
    assert_eq!(col_width(1), 26);
    assert_eq!(col_width(3), 26);
    assert_eq!(col_width(4), 22);
    assert_eq!(col_width(5), 18);
    assert_eq!(col_width(9), 10);
    assert_eq!(col_width(50), 10);
}

#[test]
fn matrix_rows_and_header() {
    let off = Palette::new(false);
    let names = vec!["a".to_string(), "b".to_string(), "c".to_string(), "d".to_string()];
    let mut m = Matrix::new(&off, names.len(), false);
    assert_eq!((m.col_w, m.name_w), (22, 24));
    m.header(&names);
    m.row("Clock", &["1".to_string(), "1".to_string(), "1".to_string(), "1".to_string()]);
    m.row("Volt", &["1".to_string(), "2".to_string(), "1".to_string(), "1".to_string()]);
    let s = m.finish("none");
    let rule = "─".repeat(24 + 4 * 23);
    let expected = format!(
        "  {:<24} {:<22} {:<22} {:<22} {:<22}\n  {}\n  {:<24} {:<22} {:<22} {:<22} {:<22} =\n  {:<24} {:<22} {:<22} {:<22} {:<22} ≠\n",
        "field", "a", "b", "c", "d", rule, "Clock", "1", "1", "1", "1", "Volt", "1", "2", "1", "1"
    );
    assert_eq!(s, expected);
}

#[test]
fn matrix_diff_only_and_notes() {
    let off = Palette::new(false);
    let mut m = Matrix::new(&off, 3, true);
    m.row("Same", &["x".to_string(), "x".to_string(), "x".to_string()]);
    m.row("Single", &["x".to_string()]);
    m.row("Empty", &[]);
    assert!(!m.any_row);
    m.note("legend");
    assert_eq!(m.finish("all identical"), "legend\n");
    let m = Matrix::new(&off, 3, true);
    assert_eq!(m.finish("all identical"), "  all identical\n");
}

#[test]
fn report_headers() {
    let off = Palette::new(false);
    let secs = vec!["s1".to_string(), "s2".to_string()];
    assert_eq!(
        render_compare("a.rom", "b.rom", &secs, &off, false),
        "═══ Comparison: a.rom vs b.rom ═══\n\ns1\n\ns2"
    );
    assert_eq!(
        render_compare("a", "b", &[], &off, true),
        "═══ Comparison: a vs b ═══\n(--diff-only mode: identical lines in both ROMs were omitted)"
    );
    let names = vec!["a".to_string(), "b".to_string(), "c".to_string()];
    assert_eq!(
        render_compare_all(&names, &secs[..1], &off, false),
        "═══ Comparison (matrix): a · b · c ═══\n\ns1"
    );
    assert_eq!(
        render_compare_all(&names[..1], &[], &off, true),
        "═══ Comparison (matrix): a ═══\n(--diff-only mode: identical lines across all ROMs were omitted)"
    );
    assert_eq!(
        render_compare_all(&[], &[], &Palette::new(true), false),
        "\x1b[1;35m═══ Comparison (matrix):  ═══\x1b[0m"
    );
}

#[test]
fn report_verdict_is_the_verdict_of_its_parts() {
    let parts = ["", "a =\n", "b ≠\n", "note\n", "c ≠  \n", "x"];
    for x in parts.iter().filter(|p| p.is_empty() || p.ends_with('\n')) {
        for y in parts {
            let joined = format!("{x}{y}");
            assert_eq!(
                has_difference_marker(&joined),
                has_difference_marker(x) || has_difference_marker(y),
                "{x:?} {y:?}"
            );
        }
    }
}
