use polaris_vbios::diff_disasm::{diff_table, run, DisasmLine, TableDisasm};
use polaris_vbios::render::color::Palette;

fn line(addr: usize, text: &str) -> DisasmLine {
    DisasmLine { addr, text: text.to_string() }
}

fn table(index: usize, name: &str, lines: Vec<DisasmLine>) -> TableDisasm {
    TableDisasm { index, name: name.to_string(), fmt_rev: 1, cont_rev: 2, lines }
}

fn lines_a() -> Vec<DisasmLine> {
    vec![
        line(0x00, "MOVE reg[0x10] <- 1"),
        line(0x06, "MOVE reg[0x11] <- 2"),
        line(0x0C, "MOVE reg[0x12] <- 3"),
        line(0x12, "MOVE reg[0x13] <- 4"),
        line(0x18, "EOT"),
    ]
}

fn lines_b() -> Vec<DisasmLine> {
    vec![
        line(0x00, "MOVE reg[0x10] <- 1"),
        line(0x06, "MOVE reg[0x11] <- 2"),
        line(0x0C, "MOVE reg[0x12] <- 3"),
        line(0x12, "MOVE reg[0x13] <- 5"),
        line(0x15, "NOP"),
        line(0x18, "EOT"),
    ]
}

#[test]
fn identical_tables_report_identical() {
    let off = Palette::new(false);
    let a = table(3, "ASIC_Init", lines_a());
    let b = table(3, "ASIC_Init", lines_a());
    assert_eq!(diff_table(&a, &b, &off, false), "  (identical)\n");
    assert_eq!(diff_table(&a, &b, &off, true), "");
    let e = table(3, "ASIC_Init", vec![]);
    assert_eq!(diff_table(&e, &e, &off, false), "  (identical)\n");
}

#[test]
fn changed_lines_keep_two_lines_of_context() {
    let off = Palette::new(false);
    let a = table(3, "ASIC_Init", lines_a());
    let b = table(3, "ASIC_Init", lines_b());
    assert_eq!(
        diff_table(&a, &b, &off, false),
        "  ≠ 1 changed line(s) in A, 2 in B (3 total)\n\
         \x20 0006  MOVE reg[0x11] <- 2\n\
         \x20 000C  MOVE reg[0x12] <- 3\n\
         - 0012  MOVE reg[0x13] <- 4\n\
         + 0012  MOVE reg[0x13] <- 5\n\
         + 0015  NOP\n"
    );
    assert_eq!(
        diff_table(&a, &b, &off, true),
        "  ≠ 1 changed line(s) in A, 2 in B (3 total)\n\
         - 0012  MOVE reg[0x13] <- 4\n\
         + 0012  MOVE reg[0x13] <- 5\n\
         + 0015  NOP\n"
    );
}

#[test]
fn lines_only_on_one_side() {
    let off = Palette::new(false);
    let a = table(1, "T", vec![line(0, "A0"), line(4, "A4")]);
    let b = table(1, "T", vec![line(2, "B2")]);
    assert_eq!(
        diff_table(&a, &b, &off, false),
        "  ≠ 2 changed line(s) in A, 1 in B (3 total)\n- 0000  A0\n+ 0002  B2\n- 0004  A4\n"
    );
    let on = Palette::new(true);
    let e = table(1, "T", vec![]);
    assert_eq!(
        diff_table(&e, &b, &on, false),
        "  \x1b[33m≠\x1b[0m 0 changed line(s) in A, 1 in B (1 total)\n\x1b[32m+\x1b[0m 0002  B2\n"
    );
}

#[test]
fn report_walks_table_positions_in_order() {
    let a = vec![
        table(5, "SetEngineClock", lines_a()),
        table(1, "ASIC_Init", vec![line(0, "EOT")]),
    ];
    let b = vec![
        table(1, "ASIC_Init", vec![line(0, "EOT")]),
        table(7, "ReadEDID", vec![line(0, "X")]),
    ];
    let report = run(&a, &b, false, false);
    assert_eq!(
        report,
        "\n── 01 ASIC_Init (rev 1.2)\n  (identical)\n\
         \n── 05 SetEngineClock: present only in A\n\
         \x20 0000  MOVE reg[0x10] <- 1\n\
         \x20 0006  MOVE reg[0x11] <- 2\n\
         \x20 000C  MOVE reg[0x12] <- 3\n\
         \x20 0012  MOVE reg[0x13] <- 4\n\
         \x20 0018  EOT\n\
         \n── 07 ReadEDID: present only in B\n  0000  X\n"
    );
    let report = run(&a, &b, true, false);
    assert_eq!(
        report,
        "\n── 01 ASIC_Init (rev 1.2)\n\
         \n── 05 SetEngineClock: present only in A\n\
         \n── 07 ReadEDID: present only in B\n"
    );
    assert_eq!(run(&[], &[], false, true), "");
}

#[test]
fn later_tables_with_the_same_position_win() {
    let a = vec![table(2, "Old", vec![line(0, "A")]), table(2, "New", vec![line(0, "B")])];
    let report = run(&a, &[], false, false);
    assert_eq!(report, "\n── 02 New: present only in A\n  0000  B\n");
}

#[test]
fn changed_line_counts_are_the_unmatched_lines_of_each_side() {
    let off = Palette::new(false);
    let a = table(3, "ASIC_Init", lines_a());
    let b = table(3, "ASIC_Init", lines_b());
    // A: 0x12 has no twin in B; B: 0x12 (new text) and 0x15 have none in A.
    let out = diff_table(&a, &b, &off, true);
    assert!(out.starts_with("  ≠ 1 changed line(s) in A, 2 in B (3 total)\n"));
}

#[test]
fn minus_and_plus_lines_are_the_lines_each_side_lacks() {
    let off = Palette::new(false);
    let a = table(3, "ASIC_Init", lines_a());
    let b = table(3, "ASIC_Init", lines_b());
    let out = diff_table(&a, &b, &off, false);
    let minus: Vec<&str> = out.lines().filter(|l| l.starts_with('-')).collect();
    let plus: Vec<&str> = out.lines().filter(|l| l.starts_with('+')).collect();
    assert_eq!(minus, vec!["- 0012  MOVE reg[0x13] <- 4"]);
    assert_eq!(plus, vec!["+ 0012  MOVE reg[0x13] <- 5", "+ 0015  NOP"]);
}
