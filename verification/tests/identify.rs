use polaris_vbios::cmd::identify::{
    identify_line, memory_vendors, vendor_label, vram_column, vram_size_mb,
};
use polaris_vbios::order::{sorted_unique, text_less};
use polaris_vbios::render::color::Palette;

fn strings(v: &[&str]) -> Vec<String> {
    v.iter().map(|s| s.to_string()).collect()
}

#[test]
fn sorted_unique_sorts_and_drops_repeats() {
    let v = strings(&["GDDR5", "HBM", "GDDR5", "DDR3", "gddr5", "GDDR"]);
    let mut expected = v.clone();
    expected.sort();
    expected.dedup();
    assert_eq!(sorted_unique(&v), expected);
    assert_eq!(sorted_unique(&v), strings(&["DDR3", "GDDR", "GDDR5", "HBM", "gddr5"]));
    assert!(sorted_unique(&[]).is_empty());
    let u = strings(&["é", "z", "e", "Ω", "ü"]);
    let mut expected = u.clone();
    expected.sort();
    assert_eq!(sorted_unique(&u), expected);
}

#[test]
fn text_order_is_str_order() {
    let words = ["", "a", "ab", "b", "B", "é", "e\u{301}", "z", "Ω"];
    for a in words {
        for b in words {
            assert_eq!(text_less(a, b), a < b, "{a:?} {b:?}");
        }
    }
}

#[test]
fn vendors_of_modules() {
    let parts = strings(&["K4G80325FB", "H5GC8H24AJR", "", "K4G41325FE", "MT51J256"]);
    assert_eq!(memory_vendors(&parts), strings(&["Hynix", "Samsung"]));
    assert!(memory_vendors(&strings(&["MT51J256"])).is_empty());
}

#[test]
fn vram_column_and_size() {
    assert_eq!(vram_size_mb(&[4096, 8192, 2048]), 8192);
    assert_eq!(vram_size_mb(&[]), 0);
    let types = strings(&["GDDR5"]);
    assert_eq!(vram_column(8192, &types, &strings(&["Hynix", "Samsung"])), "8192MB GDDR5 (Hynix+Samsung)");
    assert_eq!(vram_column(4096, &strings(&["GDDR5", "HBM"]), &[]), "4096MB GDDR5/HBM");
    assert_eq!(vram_column(0, &types, &[]), "VRAM: ?");
    assert_eq!(vendor_label(Some("Sapphire"), 0x1DA2), "Sapphire");
    assert_eq!(vendor_label(None, 0x1DA2), "0x1DA2");
    assert_eq!(vendor_label(None, 0xA), "0x000A");
}

#[test]
fn summary_line() {
    let off = Palette::new(false);
    let line = identify_line(
        "rx580.rom", "Sapphire", "Polaris 20", "8192MB GDDR5 (Samsung)", "1366", "2000", 145, "", 0, &off,
    );
    assert_eq!(
        line,
        format!(
            "{:<32} [Sapphire] {:<20} {:<28} boost 1366/2000MHz  TDP 145W  ✓",
            "rx580.rom", "Polaris 20", "8192MB GDDR5 (Samsung)"
        )
    );
    let on = Palette::new(true);
    let line = identify_line("a", "V", "F", "VRAM: ?", "0", "0", 0, "113-C9400100-101", 2, &on);
    assert_eq!(
        line,
        format!(
            "\x1b[1;33m{:<32}\x1b[0m [V] {:<20} {:<28} boost 0/0MHz  TDP 0W  \x1b[1;33m113-C9400100-101\x1b[0m  \x1b[31m⚠2\x1b[0m",
            "a", "F", "VRAM: ?"
        )
    );
}
