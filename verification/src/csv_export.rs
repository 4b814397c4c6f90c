//! Which sections are flat tables that can be exported as CSV.

use vstd::prelude::*;

use crate::num::{dec, push_dec};
use crate::render::sections::{all_sections, key_of, Section};
use crate::textutil::{joined, push_str_chars, string_of};

verus! {

/// The tabular sections.
pub open spec fn csv_exportable(s: Section) -> bool {
    s == Section::Sclk || s == Section::Mclk || s == Section::Straps || s == Section::Multimedia
        || s == Section::Vram || s == Section::Pcie
}

pub fn is_csv_exportable(s: Section) -> (b: bool)
    ensures
        b == csv_exportable(s),
{
    match s {
        Section::Sclk | Section::Mclk | Section::Straps | Section::Multimedia | Section::Vram
        | Section::Pcie => true,
        _ => false,
    }
}

/// The keys of the sections of `secs` that are tabular, in order.
pub open spec fn exportable_keys_of(secs: Seq<Section>) -> Seq<Seq<char>>
    decreases secs.len(),
{
    if secs.len() == 0 {
        seq![]
    } else {
        let init = exportable_keys_of(secs.drop_last());
        if csv_exportable(secs.last()) {
            init.push(key_of(secs.last()))
        } else {
            init
        }
    }
}

/// The keys of the tabular sections, in section order.
pub fn exportable_keys() -> (r: Vec<&'static str>)
    ensures
        r@.map_values(|k: &'static str| k@) == exportable_keys_of(all_sections()),
{
    let all = Section::ALL;
    let mut r: Vec<&'static str> = Vec::new();
    let mut i: usize = 0;
    assert(all_sections().take(0) =~= seq![]);
    assert(r@.map_values(|k: &'static str| k@) =~= seq![]);
    while i < 23
        invariant
            i <= 23,
            all@ == all_sections(),
            r@.map_values(|k: &'static str| k@) == exportable_keys_of(
                all_sections().take(i as int),
            ),
        decreases 23 - i,
    {
        let s = all[i];
        let ghost before = r@;
        if is_csv_exportable(s) {
            r.push(s.key());
            assert(r@.map_values(|k: &'static str| k@) =~= before.map_values(
                |k: &'static str| k@,
            ).push(key_of(s)));
        }
        i = i + 1;
        proof {
            let p = all_sections().take(i as int);
            assert(p.drop_last() == all_sections().take(i - 1));
            assert(p.last() == s);
        }
    }
    assert(all_sections().take(23) == all_sections());
    r
}

/// The keys of the tabular sections, comma-separated.
pub open spec fn tabular_list() -> Seq<char> {
    joined(exportable_keys_of(all_sections()), ", "@)
}

/// Appends the keys of the tabular sections, comma-separated.
fn push_tabular_list(out: &mut Vec<char>)
    ensures
        final(out)@ == old(out)@ + tabular_list(),
{
    let keys = exportable_keys();
    let ghost ks = keys@.map_values(|k: &'static str| k@);
    let ghost start = out@;
    let mut i: usize = 0;
    assert(ks.take(0) =~= seq![]);
    while i < keys.len()
        invariant
            i <= keys@.len(),
            ks == keys@.map_values(|k: &'static str| k@),
            out@ == start + joined(ks.take(i as int), ", "@),
        decreases keys@.len() - i,
    {
        if i > 0 {
            push_str_chars(out, ", ");
        }
        push_str_chars(out, keys[i]);
        i = i + 1;
        proof {
            let p = ks.take(i as int);
            assert(p.drop_last() == ks.take(i - 1));
            assert(p.last() == keys@[i - 1]@);
            if i == 1 {
                assert(p[0] == p.last());
                assert(ks.take(0).len() == 0);
            }
        }
    }
    assert(ks.take(ks.len() as int) == ks);
}

/// Why `section` cannot be written as CSV, if it cannot.
pub open spec fn refusal_msg(section: Section) -> Seq<char> {
    "section '"@ + key_of(section)
        + "' is not exportable as CSV (it is structured/free-form content, not a flat table). Tabular sections: "@
        + tabular_list()
}

/// The error of a CSV export of a section that is no flat table, or
/// `None` for a tabular section.
pub fn csv_refusal(section: Section) -> (r: Option<String>)
    ensures
        match r {
            Some(m) => !csv_exportable(section) && m@ == refusal_msg(section),
            None => csv_exportable(section),
        },
{
    if is_csv_exportable(section) {
        return None;
    }
    let mut out: Vec<char> = Vec::new();
    push_str_chars(&mut out, "section '");
    push_str_chars(&mut out, section.key());
    push_str_chars(
        &mut out,
        "' is not exportable as CSV (it is structured/free-form content, not a flat table). Tabular sections: ",
    );
    push_tabular_list(&mut out);
    Some(string_of(&out))
}

/// The message of a CSV dump asked for `n` sections.
pub open spec fn section_count_msg(n: nat) -> Seq<char> {
    "--format csv requires exactly one tabular section in --sections (got "@ + dec(n)
        + "). Tabular sections: "@ + tabular_list()
}

/// The one section that a CSV dump writes: `--format csv` takes exactly
/// one section.
pub fn single_csv_section(sections: &[Section]) -> (r: Result<Section, String>)
    ensures
        match r {
            Ok(s) => sections@.len() == 1 && s == sections@[0],
            Err(e) => sections@.len() != 1 && e@ == section_count_msg(sections@.len() as nat),
        },
{
    if sections.len() == 1 {
        return Ok(sections[0]);
    }
    let mut out: Vec<char> = Vec::new();
    push_str_chars(&mut out, "--format csv requires exactly one tabular section in --sections (got ");
    push_dec(&mut out, sections.len() as u64);
    push_str_chars(&mut out, "). Tabular sections: ");
    push_tabular_list(&mut out);
    Err(string_of(&out))
}

} // verus!
