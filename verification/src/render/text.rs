//! Building blocks of the plain-text dump: key/value lines, headings and
//! the validation-warning block.

use vstd::prelude::*;

use crate::num::{dec, push_dec};
use crate::render::color::{
    accent_code, bad_code, label_code, pad, padded, painted, title_code, value_code, warn_code,
    Palette,
};
use crate::render::sections::{label_of, Section};
use crate::textutil::{push_str_chars, string_of};

verus! {

/// One `key  value` line of a section.
pub open spec fn kv_text(on: bool, k: Seq<char>, v: Seq<char>) -> Seq<char> {
    "  "@ + painted(on, label_code(), padded(k, 28)) + "  "@ + painted(on, value_code(), v)
}

pub fn kv(pal: &Palette, k: &str, v: &str) -> (r: String)
    ensures
        r@ == kv_text(pal.on, k@, v@),
{
    let mut out: Vec<char> = Vec::new();
    push_str_chars(&mut out, "  ");
    push_str_chars(&mut out, pal.label(pad(k, 28).as_str()).as_str());
    push_str_chars(&mut out, "  ");
    push_str_chars(&mut out, pal.value(v).as_str());
    string_of(&out)
}

/// The heading line of a section (followed by a line break).
pub open spec fn heading_text(on: bool, title: Seq<char>) -> Seq<char> {
    painted(on, title_code(), "── "@ + title + " "@) + "\n"@
}

pub fn heading(pal: &Palette, title: &str) -> (r: String)
    ensures
        r@ == heading_text(pal.on, title@),
{
    let mut t: Vec<char> = Vec::new();
    push_str_chars(&mut t, "── ");
    push_str_chars(&mut t, title);
    push_str_chars(&mut t, " ");
    let mut out: Vec<char> = Vec::new();
    push_str_chars(&mut out, pal.title(string_of(&t).as_str()).as_str());
    push_str_chars(&mut out, "\n");
    string_of(&out)
}

/// `n / d` rounded to the nearest integer, ties to even (how `{:.0}`
/// renders an exactly representable quotient).
pub open spec fn div_round_even(n: nat, d: nat) -> nat {
    let q = n / d;
    let r = n % d;
    if 2 * r > d {
        q + 1
    } else if 2 * r < d {
        q
    } else if q % 2 == 0 {
        q
    } else {
        q + 1
    }
}

/// A KiB amount as "32 KiB" or, at 1 MiB and above, "8 MiB".
pub open spec fn kib_text(kib: u16) -> Seq<char> {
    if kib >= 1024 {
        dec(div_round_even(kib as nat, 1024)) + " MiB"@
    } else {
        dec(kib as nat) + " KiB"@
    }
}

/// Formats a KiB value as "32 KiB" or, at 1 MiB and above, "8 MiB".
pub fn fmt_kib(kib: u16) -> (r: String)
    ensures
        r@ == kib_text(kib),
{
    let mut out: Vec<char> = Vec::new();
    if kib >= 1024 {
        let q = kib / 1024;
        let rem = kib % 1024;
        let mib = if 2 * rem > 1024 {
            q + 1
        } else if 2 * rem < 1024 {
            q
        } else if q % 2 == 0 {
            q
        } else {
            q + 1
        };
        push_dec(&mut out, mib as u64);
        push_str_chars(&mut out, " MiB");
    } else {
        push_dec(&mut out, kib as u64);
        push_str_chars(&mut out, " KiB");
    }
    string_of(&out)
}

/// The heading of an optional table, with a note when the ROM lacks it.
pub open spec fn optional_heading_text(on: bool, section: Section, present: bool) -> Seq<char> {
    heading_text(on, label_of(section)) + if present {
        seq![]
    } else {
        "\n  "@ + painted(on, warn_code(), "⚠"@) + " table not present in this ROM."@
    }
}

/// Shared header line for the optional master-data-table sections:
/// shows "table not present" when the ROM has no such table.
pub fn optional_heading(pal: &Palette, section: Section, present: bool) -> (r: String)
    ensures
        r@ == optional_heading_text(pal.on, section, present),
{
    let mut out: Vec<char> = Vec::new();
    push_str_chars(&mut out, heading(pal, section.label()).as_str());
    if !present {
        push_str_chars(&mut out, "\n  ");
        push_str_chars(&mut out, pal.warn("⚠").as_str());
        push_str_chars(&mut out, " table not present in this ROM.");
    }
    string_of(&out)
}

/// The bullet lines of the warnings `ws`.
pub open spec fn warning_lines(on: bool, ws: Seq<Seq<char>>) -> Seq<char>
    decreases ws.len(),
{
    if ws.len() == 0 {
        seq![]
    } else {
        warning_lines(on, ws.drop_last()) + "\n  "@ + painted(on, bad_code(), "•"@) + " "@
            + ws.last()
    }
}

/// The warning block of a ROM, if it has warnings.
pub open spec fn warnings_block(on: bool, ws: Seq<Seq<char>>) -> Option<Seq<char>> {
    if ws.len() == 0 {
        None
    } else {
        Some(
            painted(on, bad_code(), "⚠ "@ + dec(ws.len()) + " validation warning(s):"@)
                + warning_lines(on, ws),
        )
    }
}

/// Sanity warning block (checksum, TDP=0, implausible ranges etc.) -
/// always shown at the top of the dump regardless of which sections
/// were requested via `--sections`, because it is reliability info
/// for what follows, not a data section itself.
pub fn render_warnings(warnings: &[String], pal: &Palette) -> (r: Option<String>)
    ensures
        match r {
            Some(s) => warnings_block(pal.on, crate::textutil::views(warnings@)) == Some(s@),
            None => warnings_block(pal.on, crate::textutil::views(warnings@)) is None,
        },
{
    if warnings.len() == 0 {
        return None;
    }
    let ghost ws = crate::textutil::views(warnings@);
    let mut head: Vec<char> = Vec::new();
    push_str_chars(&mut head, "⚠ ");
    push_dec(&mut head, warnings.len() as u64);
    push_str_chars(&mut head, " validation warning(s):");
    let mut s: Vec<char> = Vec::new();
    push_str_chars(&mut s, pal.bad(string_of(&head).as_str()).as_str());
    let ghost start = s@;
    let mut i: usize = 0;
    assert(ws.take(0) =~= seq![]);
    while i < warnings.len()
        invariant
            i <= warnings@.len(),
            ws == crate::textutil::views(warnings@),
            s@ == start + warning_lines(pal.on, ws.take(i as int)),
        decreases warnings@.len() - i,
    {
        push_str_chars(&mut s, "\n  ");
        push_str_chars(&mut s, pal.bad("•").as_str());
        push_str_chars(&mut s, " ");
        push_str_chars(&mut s, warnings[i].as_str());
        i = i + 1;
        proof {
            let p = ws.take(i as int);
            assert(p.drop_last() == ws.take(i - 1));
            assert(p.last() == warnings@[i - 1]@);
        }
    }
    assert(ws.take(warnings@.len() as int) == ws);
    Some(string_of(&s))
}

/// Each rendered section after a blank line.
pub open spec fn sections_tail(sections: Seq<Seq<char>>) -> Seq<char>
    decreases sections.len(),
{
    if sections.len() == 0 {
        seq![]
    } else {
        sections_tail(sections.drop_last()) + "\n\n"@ + sections.last()
    }
}

/// Appends each rendered section after a blank line.
pub fn push_sections(out: &mut Vec<char>, sections: &[String])
    ensures
        final(out)@ == old(out)@ + sections_tail(crate::textutil::views(sections@)),
{
    let ghost ss = crate::textutil::views(sections@);
    let ghost start = out@;
    let mut i: usize = 0;
    assert(ss.take(0) =~= seq![]);
    while i < sections.len()
        invariant
            i <= sections@.len(),
            ss == crate::textutil::views(sections@),
            out@ == start + sections_tail(ss.take(i as int)),
        decreases sections@.len() - i,
    {
        push_str_chars(out, "\n\n");
        push_str_chars(out, sections[i].as_str());
        i = i + 1;
        proof {
            let p = ss.take(i as int);
            assert(p.drop_last() == ss.take(i - 1));
            assert(p.last() == sections@[i - 1]@);
        }
    }
    assert(ss.take(sections@.len() as int) == ss);
}

/// The dump of one ROM: its name, its warning block if it has warnings,
/// then the rendered sections, each after a blank line.
pub open spec fn dump_text(
    on: bool,
    file_name: Seq<char>,
    warnings: Seq<Seq<char>>,
    sections: Seq<Seq<char>>,
) -> Seq<char> {
    painted(on, accent_code(), "═══ "@ + file_name + " ═══"@) + match warnings_block(on, warnings) {
        Some(w) => "\n\n"@ + w,
        None => seq![],
    } + sections_tail(sections)
}

/// Assembles the dump of one ROM from its file name, its validation
/// warnings and its sections as already rendered (in the order asked
/// for with `--sections`).
pub fn render_sections(file_name: &str, warnings: &[String], sections: &[String], pal: &Palette) -> (r:
    String)
    ensures
        r@ == dump_text(
            pal.on,
            file_name@,
            crate::textutil::views(warnings@),
            crate::textutil::views(sections@),
        ),
{
    let mut t: Vec<char> = Vec::new();
    push_str_chars(&mut t, "═══ ");
    push_str_chars(&mut t, file_name);
    push_str_chars(&mut t, " ═══");
    let mut out: Vec<char> = Vec::new();
    push_str_chars(&mut out, pal.accent(string_of(&t).as_str()).as_str());
    match render_warnings(warnings, pal) {
        Some(w) => {
            push_str_chars(&mut out, "\n\n");
            push_str_chars(&mut out, w.as_str());
        },
        None => {},
    }
    push_sections(&mut out, sections);
    string_of(&out)
}

} // verus!
