use polaris_vbios::render::color::{fit, pad, truncate, visible_truncate, wrap_ansi, Palette};

fn visible(s: &str) -> usize {
    let mut in_esc = false;
    let mut n = 0;
    for c in s.chars() {
        if in_esc {
            if c.is_ascii_alphabetic() {
                in_esc = false;
            }
            continue;
        }
        if c == '\u{1b}' {
            in_esc = true;
        } else {
            n += 1;
        }
    }
    n
}

#[test]
fn wraps_plain_text_at_exact_width() {
    let lines = wrap_ansi("hello world", 5);
    assert_eq!(
        lines.iter().map(|l| visible(l)).collect::<Vec<_>>(),
        [5, 5, 1]
    );
}

#[test]
fn keeps_colors_across_wrap() {
    let colored = format!("\x1b[32m{}\x1b[0m", "abcdefghij");
    let lines = wrap_ansi(&colored, 4);
    assert_eq!(lines.len(), 3);
    for l in &lines {
        assert!(
            l.starts_with("\x1b["),
            "continuation must re-emit color: {l:?}"
        );
        assert!(l.ends_with("\x1b[0m"), "every line must reset: {l:?}");
        assert!(visible(l) <= 4);
    }
}

#[test]
fn single_line_under_limit_is_untouched() {
    let colored = format!("\x1b[1;33m{}\x1b[0m", "abc");
    let lines = wrap_ansi(&colored, 10);
    assert_eq!(lines.len(), 1);
    assert_eq!(lines[0], colored);
}

#[test]
fn zero_width_yields_nothing() {
    assert!(wrap_ansi("abc", 0).is_empty());
}

#[test]
fn short_lines_do_not_get_a_trailing_wrap() {
    let lines = wrap_ansi("hello", 10);
    assert_eq!(lines.len(), 1);
}

#[test]
fn wrap_plain_lines_get_a_reset_each() {
    let lines = wrap_ansi("hello world", 5);
    assert_eq!(lines, ["hello\x1b[0m", " worl\x1b[0m", "d\x1b[0m"]);
}

#[test]
fn wrap_reset_clears_the_reemitted_codes() {
    let s = "\x1b[31mab\x1b[0mcd";
    let lines = wrap_ansi(s, 2);
    assert_eq!(lines, ["\x1b[31mab\x1b[0m", "cd\x1b[0m"]);
    let s = "\x1b[31mab\x1b[1mcd";
    let lines = wrap_ansi(s, 2);
    assert_eq!(lines, ["\x1b[31mab\x1b[1m\x1b[0m", "\x1b[31m\x1b[1mcd\x1b[0m"]);
}

#[test]
fn wrap_keeps_every_visible_char_once() {
    let s = "\x1b[32mabc\x1b[0mdef\x1b[1mghij";
    for w in 1..12 {
        let lines = wrap_ansi(s, w);
        let total: usize = lines.iter().map(|l| visible(l)).sum();
        assert_eq!(total, 10);
        for l in &lines {
            assert!(visible(l) <= w);
            assert!(l.ends_with("\x1b[0m"));
        }
    }
}

#[test]
fn pad_left_aligns_to_width() {
    assert_eq!(pad("ab", 5), "ab   ");
    assert_eq!(pad("abcdef", 3), "abcdef");
    assert_eq!(pad("", 2), "  ");
    assert_eq!(pad("é", 3), "é  ");
}

#[test]
fn truncate_marks_the_cut() {
    assert_eq!(truncate("hello", 10), "hello");
    assert_eq!(truncate("hello", 5), "hello");
    assert_eq!(truncate("hello world", 8), "hello...");
    assert_eq!(truncate("hello", 3), "...");
    assert_eq!(truncate("hello", 2), "..");
    assert_eq!(truncate("hello", 0), "");
}

#[test]
fn fit_is_always_exactly_the_width() {
    for w in 0..12 {
        for s in ["", "a", "abc", "hello world", "ümlaut-text"] {
            assert_eq!(fit(s, w).chars().count(), w, "{s:?} {w}");
        }
    }
    assert_eq!(fit("hello world", 8), "hello...");
    assert_eq!(fit("hi", 4), "hi  ");
}

#[test]
fn visible_truncate_keeps_escapes_and_marks_the_cut() {
    assert_eq!(visible_truncate("hello", 10), "hello");
    assert_eq!(visible_truncate("hello world", 8), "hello...\x1b[0m");
    assert_eq!(
        visible_truncate("\x1b[32mhello world\x1b[0m", 8),
        "\x1b[32mhello...\x1b[0m"
    );
    // The limit reserves three columns for the ellipsis.
    assert_eq!(visible_truncate("abcd", 4), "a...\x1b[0m");
    // Below a limit of 3 the ellipsis is cut to the limit.
    assert_eq!(visible_truncate("abc", 2), "..\x1b[0m");
    assert_eq!(visible_truncate("abc", 1), ".\x1b[0m");
    assert_eq!(visible_truncate("\x1b[31mabc", 0), "\x1b[31m\x1b[0m");
    assert_eq!(visible_truncate("", 0), "");
}

#[test]
fn palette_paints_only_when_on() {
    let on = Palette::new(true);
    let off = Palette::new(false);
    assert_eq!(on.title("t"), "\x1b[1;36mt\x1b[0m");
    assert_eq!(on.label("t"), "\x1b[2mt\x1b[0m");
    assert_eq!(on.value("t"), "\x1b[1;33mt\x1b[0m");
    assert_eq!(on.good("t"), "\x1b[32mt\x1b[0m");
    assert_eq!(on.warn("t"), "\x1b[33mt\x1b[0m");
    assert_eq!(on.bad("t"), "\x1b[31mt\x1b[0m");
    assert_eq!(on.accent("t"), "\x1b[1;35mt\x1b[0m");
    assert_eq!(off.title("t"), "t");
    assert_eq!(off.bad("t"), "t");
    assert!(on.on && !off.on);
}

#[test]
fn wrapped_lines_are_full_but_the_last() {
    let s = "\x1b[1;33mhello\x1b[0m \x1b[31mworld\x1b[0m and more";
    for w in 1..20 {
        let lines = wrap_ansi(s, w);
        let widths: Vec<usize> = lines.iter().map(|l| visible(l)).collect();
        for (k, v) in widths.iter().enumerate() {
            if k + 1 < widths.len() {
                assert_eq!(*v, w);
            } else {
                assert!(*v <= w);
            }
        }
        let text: String = lines
            .iter()
            .map(|l| {
                let mut t = String::new();
                let mut esc = false;
                for c in l.chars() {
                    if esc {
                        esc = !c.is_ascii_alphabetic();
                    } else if c == '\x1b' {
                        esc = true;
                    } else {
                        t.push(c);
                    }
                }
                t
            })
            .collect();
        assert_eq!(text, "hello world and more");
    }
}

#[test]
fn visible_truncate_keeps_limit_minus_three() {
    for max in 0..16 {
        let s = "\x1b[32mabcdefghij\x1b[0m";
        let t = visible_truncate(s, max);
        assert!(visible(&t) <= max);
        if max >= 13 {
            assert_eq!(t, s);
        } else {
            assert_eq!(visible(&t), max);
            let dots = ".".repeat(max.min(3));
            assert!(t.ends_with(&format!("{dots}\x1b[0m")));
        }
    }
}

#[test]
fn wrapped_line_count_is_the_ceiling() {
    let s = "\x1b[1;33mhello\x1b[0m \x1b[31mworld\x1b[0m!";
    for w in 1..15 {
        let lines = wrap_ansi(s, w);
        assert_eq!(lines.len(), (12 + w - 1) / w);
        assert!(visible(lines.last().unwrap()) > 0);
    }
    assert_eq!(wrap_ansi("\x1b[31m", 4).len(), 1);
    assert_eq!(wrap_ansi("", 4).len(), 0);
}
