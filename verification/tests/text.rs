use polaris_vbios::render::color::Palette;
use polaris_vbios::render::sections::Section;
use polaris_vbios::render::text::{
    fmt_kib, heading, kv, optional_heading, render_sections, render_warnings,
};

#[test]
fn fmt_kib_switches_to_mib_at_1024() {
    assert_eq!(fmt_kib(0), "0 KiB");
    assert_eq!(fmt_kib(32), "32 KiB");
    assert_eq!(fmt_kib(1023), "1023 KiB");
    assert_eq!(fmt_kib(1024), "1 MiB");
    assert_eq!(fmt_kib(8192), "8 MiB");
    assert_eq!(fmt_kib(1536), "2 MiB");
    assert_eq!(fmt_kib(2560), "2 MiB");
    assert_eq!(fmt_kib(65535), "64 MiB");
}

#[test]
fn fmt_kib_rounds_as_float_formatting_does() {
    for k in 0..=u16::MAX {
        let expected = if k >= 1024 {
            format!("{:.0} MiB", k as f64 / 1024.0)
        } else {
            format!("{k} KiB")
        };
        assert_eq!(fmt_kib(k), expected, "{k}");
    }
}

#[test]
fn kv_pads_the_key_to_28_columns() {
    let off = Palette::new(false);
    assert_eq!(kv(&off, "Clock", "300 MHz"), format!("  {:<28}  300 MHz", "Clock"));
    let on = Palette::new(true);
    assert_eq!(
        kv(&on, "k", "v"),
        format!("  \x1b[2m{:<28}\x1b[0m  \x1b[1;33mv\x1b[0m", "k")
    );
}

#[test]
fn heading_and_optional_heading() {
    let off = Palette::new(false);
    assert_eq!(heading(&off, "Fan curve"), "── Fan curve \n");
    assert_eq!(optional_heading(&off, Section::Fan, true), "── Fan curve \n");
    assert_eq!(
        optional_heading(&off, Section::Fan, false),
        "── Fan curve \n\n  ⚠ table not present in this ROM."
    );
    let on = Palette::new(true);
    assert_eq!(heading(&on, "X"), "\x1b[1;36m── X \x1b[0m\n");
}

#[test]
fn warnings_block_lists_each_warning() {
    let off = Palette::new(false);
    assert_eq!(render_warnings(&[], &off), None);
    let ws = vec!["checksum mismatch".to_string(), "TDP is 0".to_string()];
    assert_eq!(
        render_warnings(&ws, &off),
        Some("⚠ 2 validation warning(s):\n  • checksum mismatch\n  • TDP is 0".to_string())
    );
    let on = Palette::new(true);
    assert_eq!(
        render_warnings(&ws[..1], &on),
        Some(
            "\x1b[31m⚠ 1 validation warning(s):\x1b[0m\n  \x1b[31m•\x1b[0m checksum mismatch"
                .to_string()
        )
    );
}

#[test]
fn dump_assembles_name_warnings_and_sections() {
    let off = Palette::new(false);
    let secs = vec!["── A \n  x".to_string(), "── B \n  y".to_string()];
    assert_eq!(
        render_sections("rx580.rom", &[], &secs, &off),
        "═══ rx580.rom ═══\n\n── A \n  x\n\n── B \n  y"
    );
    assert_eq!(
        render_sections("r.rom", &["TDP is 0".to_string()], &[], &off),
        "═══ r.rom ═══\n\n⚠ 1 validation warning(s):\n  • TDP is 0"
    );
    let on = Palette::new(true);
    assert_eq!(render_sections("r", &[], &[], &on), "\x1b[1;35m═══ r ═══\x1b[0m");
}
