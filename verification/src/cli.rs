//! What the command line asks for, beyond what the argument parser
//! itself checks: the output format of `dump`, and the section listing.

use vstd::prelude::*;

use crate::render::color::{pad, padded};
use crate::render::sections::{all_sections, key_of, label_of, Section};
use crate::textutil::{push_str_chars, str_eq, string_of};

verus! {

/// The message of a `--format` that is neither `csv` nor `text`.
pub open spec fn unknown_format_msg(other: Seq<char>) -> Seq<char> {
    "unknown format: '"@ + other + "' (use 'csv' or 'text')"@
}

/// Whether `dump` writes CSV: `--format csv` does, `--format text` or no
/// `--format` does not; any other format is an error, and so is CSV
/// together with `--json`.
pub open spec fn csv_choice(format: Option<Seq<char>>, json: bool) -> Result<bool, Seq<char>> {
    let csv = match format {
        Some(f) => if f == "csv"@ {
            Ok(true)
        } else if f == "text"@ {
            Ok(false)
        } else {
            Err(unknown_format_msg(f))
        },
        None => Ok(false),
    };
    match csv {
        Err(e) => Err(e),
        Ok(c) => if c && json {
            Err("use --json OR --format csv, not both"@)
        } else {
            Ok(c)
        },
    }
}

/// The view of an optional text.
pub open spec fn opt_view(o: Option<&str>) -> Option<Seq<char>> {
    match o {
        Some(s) => Some(s@),
        None => None,
    }
}

/// Whether `dump` writes CSV, from its `--format` and `--json` options.
pub fn csv_format(format: Option<&str>, json: bool) -> (r: Result<bool, String>)
    ensures
        match r {
            Ok(c) => csv_choice(opt_view(format), json) == Ok::<bool, Seq<char>>(c),
            Err(e) => csv_choice(opt_view(format), json) == Err::<bool, Seq<char>>(e@),
        },
{
    let csv = match format {
        Some(f) => {
            if str_eq(f, "csv") {
                true
            } else if str_eq(f, "text") {
                false
            } else {
                let mut msg = String::new();
                msg.push_str("unknown format: '");
                msg.push_str(f);
                msg.push_str("' (use 'csv' or 'text')");
                return Err(msg);
            }
        },
        None => false,
    };
    if csv && json {
        return Err(String::from_str("use --json OR --format csv, not both"));
    }
    Ok(csv)
}

/// One line of the section listing: the key in a column of 10, then the
/// label.
pub open spec fn listing_line(key: Seq<char>, label: Seq<char>) -> Seq<char> {
    "  "@ + padded(key, 10) + " "@ + label + "\n"@
}

/// The listing lines of `secs`.
pub open spec fn listing_lines(secs: Seq<Section>) -> Seq<char>
    decreases secs.len(),
{
    if secs.len() == 0 {
        seq![]
    } else {
        listing_lines(secs.drop_last()) + listing_line(key_of(secs.last()), label_of(secs.last()))
    }
}

/// The text of `--list-sections`.
pub open spec fn listing_text() -> Seq<char> {
    "Available sections (use with --sections, comma-separated):\n\n"@ + listing_lines(
        all_sections(),
    ) + listing_line("all"@, "All sections above (default)"@)
}

/// The available sections, one per line, as `--list-sections` shows them.
pub fn section_listing() -> (r: String)
    ensures
        r@ == listing_text(),
{
    let all = Section::ALL;
    let mut out: Vec<char> = Vec::new();
    push_str_chars(&mut out, "Available sections (use with --sections, comma-separated):\n\n");
    let ghost start = out@;
    let mut i: usize = 0;
    assert(all_sections().take(0) =~= seq![]);
    while i < 23
        invariant
            i <= 23,
            all@ == all_sections(),
            out@ == start + listing_lines(all_sections().take(i as int)),
        decreases 23 - i,
    {
        let s = all[i];
        push_str_chars(&mut out, "  ");
        push_str_chars(&mut out, pad(s.key(), 10).as_str());
        push_str_chars(&mut out, " ");
        push_str_chars(&mut out, s.label());
        push_str_chars(&mut out, "\n");
        i = i + 1;
        proof {
            let p = all_sections().take(i as int);
            assert(p.drop_last() == all_sections().take(i - 1));
            assert(p.last() == s);
        }
    }
    assert(all_sections().take(23) == all_sections());
    push_str_chars(&mut out, "  ");
    push_str_chars(&mut out, pad("all", 10).as_str());
    push_str_chars(&mut out, " ");
    push_str_chars(&mut out, "All sections above (default)");
    push_str_chars(&mut out, "\n");
    string_of(&out)
}

} // verus!
