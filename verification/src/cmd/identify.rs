//! `identify` subcommand: the pieces of the one-line ROM summary.

use vstd::prelude::*;

use crate::num::{dec, push_dec};
use crate::order::{sorted_unique, strictly_sorted};
use crate::render::color::{
    bad_code, fit, fitted, good_code, pad, padded, painted, truncate, truncated, value_code,
    Palette,
};
use crate::textutil::{
    chars_of, ends_with, joined, push_str_chars, string_of, trim, trim_bounds, views,
};

verus! {

/// `t` starts with `p`.
pub open spec fn starts_with(t: Seq<char>, p: Seq<char>) -> bool {
    p.len() <= t.len() && t.take(p.len() as int) == p
}

/// The memory vendor that a VRAM part number names, by its prefix.
pub open spec fn memory_vendor_of(part_number: Seq<char>) -> Option<Seq<char>> {
    let p = trim(part_number);
    if starts_with(p, seq!['H', '5', 'G']) {
        Some("Hynix"@)
    } else if p.len() >= 2 && p[0] == 'K' && p[1] == '4' {
        Some("Samsung"@)
    } else if starts_with(p, seq!['E', 'D', 'W']) || starts_with(p, seq!['W', '4']) {
        Some("Elpida/Micron"@)
    } else {
        None
    }
}

/// Whether `v[a..b]` starts with the characters `p`.
fn range_starts_with(v: &Vec<char>, a: usize, b: usize, p: &[char]) -> (r: bool)
    requires
        a <= b <= v@.len(),
    ensures
        r == starts_with(v@.subrange(a as int, b as int), p@),
{
    let ghost t = v@.subrange(a as int, b as int);
    if b - a < p.len() {
        return false;
    }
    let mut k: usize = 0;
    while k < p.len()
        invariant
            a <= b <= v@.len(),
            p@.len() <= b - a,
            t == v@.subrange(a as int, b as int),
            k <= p@.len(),
            forall|m: int| 0 <= m < k ==> t[m] == p@[m],
        decreases p@.len() - k,
    {
        if v[a + k] != p[k] {
            assert(t.take(p@.len() as int)[k as int] != p@[k as int]);
            return false;
        }
        k = k + 1;
    }
    assert(t.take(p@.len() as int) =~= p@);
    true
}

pub fn guess_memory_vendor(part_number: &str) -> (r: Option<&'static str>)
    ensures
        match r {
            Some(v) => memory_vendor_of(part_number@) == Some(v@),
            None => memory_vendor_of(part_number@) is None,
        },
{
    let cs = chars_of(part_number);
    let (a, b) = trim_bounds(&cs, 0, cs.len());
    assert(cs@.subrange(0, cs@.len() as int) == cs@);
    let ghost p = trim(part_number@);
    if range_starts_with(&cs, a, b, &['H', '5', 'G']) {
        Some("Hynix")
    } else if b - a >= 2 && cs[a] == 'K' && cs[a + 1] == '4' {
        assert(p[0] == cs@[a as int] && p[1] == cs@[a + 1]);
        Some("Samsung")
    } else if range_starts_with(&cs, a, b, &['E', 'D', 'W']) || range_starts_with(
        &cs,
        a,
        b,
        &['W', '4'],
    ) {
        proof {
            if p.len() >= 2 {
                assert(p[0] == cs@[a as int] && p[1] == cs@[a + 1]);
            }
        }
        Some("Elpida/Micron")
    } else {
        proof {
            if p.len() >= 2 {
                assert(p[0] == cs@[a as int] && p[1] == cs@[a + 1]);
            }
        }
        None
    }
}

/// The filename column, width 32. Padding/truncation always happens on
/// PLAIN text first - applying color BEFORE alignment would make the
/// ANSI escape bytes count toward the field width and push every
/// following column out of line.
pub fn file_column(name: &str, pal: &Palette) -> (r: String)
    ensures
        r@ == painted(pal.on, value_code(), fitted(name@, 32)),
{
    pal.value(fit(name, 32).as_str())
}

/// The vendors named by some part number of `parts`.
pub open spec fn named_vendor(parts: Seq<Seq<char>>, v: Seq<char>) -> bool {
    exists|k: int| 0 <= k < parts.len() && memory_vendor_of(#[trigger] parts[k]) == Some(v)
}

/// The memory vendors that the part numbers of the VRAM modules name,
/// in order, each once.
pub fn memory_vendors(part_numbers: &[String]) -> (r: Vec<String>)
    ensures
        strictly_sorted(views(r@)),
        forall|v: Seq<char>| views(r@).contains(v) <==> named_vendor(views(part_numbers@), v),
{
    let ghost ps = views(part_numbers@);
    let mut found: Vec<String> = Vec::new();
    let mut i: usize = 0;
    while i < part_numbers.len()
        invariant
            i <= part_numbers@.len(),
            ps == views(part_numbers@),
            forall|v: Seq<char>|
                views(found@).contains(v) <==> exists|k: int|
                    0 <= k < i && memory_vendor_of(#[trigger] ps[k]) == Some(v),
        decreases part_numbers@.len() - i,
    {
        assert(ps[i as int] == part_numbers@[i as int]@);
        let ghost before = views(found@);
        match guess_memory_vendor(part_numbers[i].as_str()) {
            Some(v) => {
                found.push(String::from_str(v));
                assert(views(found@) == before.push(v@));
            },
            None => {},
        }
        i = i + 1;
        assert forall|v: Seq<char>| views(found@).contains(v) <==> exists|k: int|
            0 <= k < i && memory_vendor_of(#[trigger] ps[k]) == Some(v) by {
            if views(found@).contains(v) && !before.contains(v) {
                assert(memory_vendor_of(ps[i - 1]) == Some(v));
            }
            if exists|k: int| 0 <= k < i && memory_vendor_of(#[trigger] ps[k]) == Some(v) {
                let k = choose|k: int| 0 <= k < i && memory_vendor_of(#[trigger] ps[k]) == Some(v);
                if k == i - 1 {
                    assert(views(found@).last() == v);
                    assert(views(found@)[views(found@).len() - 1] == v);
                } else {
                    assert(before.contains(v));
                    let w = choose|w: int| 0 <= w < before.len() && before[w] == v;
                    assert(views(found@)[w] == v);
                }
            }
        }
    }
    sorted_unique(&found)
}

/// The largest of `sizes`, 0 for none.
pub open spec fn largest(sizes: Seq<u32>) -> u32
    decreases sizes.len(),
{
    if sizes.len() == 0 {
        0
    } else {
        let m = largest(sizes.drop_last());
        if sizes.last() > m {
            sizes.last()
        } else {
            m
        }
    }
}

/// The VRAM size of a ROM: the largest module size, 0 without modules.
pub fn vram_size_mb(module_sizes_mb: &[u32]) -> (r: u32)
    ensures
        r == largest(module_sizes_mb@),
{
    let mut m: u32 = 0;
    let mut i: usize = 0;
    assert(module_sizes_mb@.take(0) =~= seq![]);
    while i < module_sizes_mb.len()
        invariant
            i <= module_sizes_mb@.len(),
            m == largest(module_sizes_mb@.take(i as int)),
        decreases module_sizes_mb@.len() - i,
    {
        if module_sizes_mb[i] > m {
            m = module_sizes_mb[i];
        }
        i = i + 1;
        proof {
            let p = module_sizes_mb@.take(i as int);
            assert(p.drop_last() == module_sizes_mb@.take(i - 1));
            assert(p.last() == module_sizes_mb@[i - 1]);
        }
    }
    assert(module_sizes_mb@.take(module_sizes_mb@.len() as int) == module_sizes_mb@);
    m
}

/// The VRAM column: size, memory types and the vendors in parentheses,
/// or `VRAM: ?` when no module declares a size.
pub open spec fn vram_text(size_mb: u32, types: Seq<Seq<char>>, vendors: Seq<Seq<char>>) -> Seq<char> {
    if size_mb > 0 {
        dec(size_mb as nat) + "MB "@ + joined(types, "/"@) + if vendors.len() == 0 {
            seq![]
        } else {
            " ("@ + joined(vendors, "+"@) + ")"@
        }
    } else {
        "VRAM: ?"@
    }
}

fn push_joined(out: &mut Vec<char>, parts: &[String], sep: &str)
    ensures
        final(out)@ == old(out)@ + joined(views(parts@), sep@),
{
    let ghost ps = views(parts@);
    let ghost start = out@;
    let mut i: usize = 0;
    assert(ps.take(0) =~= seq![]);
    while i < parts.len()
        invariant
            i <= parts@.len(),
            ps == views(parts@),
            out@ == start + joined(ps.take(i as int), sep@),
        decreases parts@.len() - i,
    {
        if i > 0 {
            push_str_chars(out, sep);
        }
        push_str_chars(out, parts[i].as_str());
        i = i + 1;
        proof {
            let p = ps.take(i as int);
            assert(p.drop_last() == ps.take(i - 1));
            assert(p.last() == parts@[i - 1]@);
            if i == 1 {
                assert(p[0] == p.last());
            }
        }
    }
    assert(ps.take(parts@.len() as int) == ps);
}

/// The VRAM column of the summary line.
pub fn vram_column(size_mb: u32, memory_types: &[String], memory_vendors: &[String]) -> (r: String)
    ensures
        r@ == vram_text(size_mb, views(memory_types@), views(memory_vendors@)),
{
    if size_mb == 0 {
        return String::from_str("VRAM: ?");
    }
    let mut out: Vec<char> = Vec::new();
    push_dec(&mut out, size_mb as u64);
    push_str_chars(&mut out, "MB ");
    push_joined(&mut out, memory_types, "/");
    if memory_vendors.len() > 0 {
        push_str_chars(&mut out, " (");
        push_joined(&mut out, memory_vendors, "+");
        push_str_chars(&mut out, ")");
    }
    string_of(&out)
}

/// The vendor of the board: the subsystem vendor's name, or its ID.
pub open spec fn vendor_text(name: Option<Seq<char>>, id: u16) -> Seq<char> {
    match name {
        Some(n) => n,
        None => "0x"@ + crate::num::zero_padded(crate::num::hex(id as nat), 4),
    }
}

/// The vendor column: the subsystem vendor's name when known, else its
/// ID in hex.
pub fn vendor_label(name: Option<&str>, id: u16) -> (r: String)
    ensures
        r@ == vendor_text(crate::cli::opt_view(name), id),
{
    match name {
        Some(n) => String::from_str(n),
        None => {
            let mut out: Vec<char> = Vec::new();
            push_str_chars(&mut out, "0x");
            crate::num::push_hex(&mut out, id as u64, 4);
            string_of(&out)
        },
    }
}

/// The status mark: a check for a ROM without warnings, else the number
/// of its warnings.
pub open spec fn status_text(on: bool, n_warnings: nat) -> Seq<char> {
    if n_warnings == 0 {
        painted(on, good_code(), "✓"@)
    } else {
        painted(on, bad_code(), "⚠"@ + dec(n_warnings))
    }
}

/// The one-line summary of a ROM. The boost clocks come already rounded
/// to whole MHz.
pub open spec fn identify_text(
    on: bool,
    file_name: Seq<char>,
    vendor: Seq<char>,
    family: Seq<char>,
    vram: Seq<char>,
    boost_sclk: Seq<char>,
    boost_mclk: Seq<char>,
    tdp_w: u16,
    bootup: Seq<char>,
    n_warnings: nat,
) -> Seq<char> {
    painted(on, value_code(), fitted(file_name, 32)) + " ["@ + vendor + "] "@ + padded(family, 20)
        + " "@ + padded(vram, 28) + " boost "@ + boost_sclk + "/"@ + boost_mclk + "MHz  TDP "@
        + dec(tdp_w as nat) + "W"@ + (if bootup.len() == 0 {
        seq![]
    } else {
        "  "@ + painted(on, value_code(), truncated(bootup, 46))
    }) + "  "@ + status_text(on, n_warnings)
}

/// The one-line summary of a ROM: file, vendor, family, VRAM, boost
/// clocks, TDP, the BIOS boot-up message and the warning status.
pub fn identify_line(
    file_name: &str,
    vendor: &str,
    family: &str,
    vram: &str,
    boost_sclk: &str,
    boost_mclk: &str,
    tdp_w: u16,
    bootup: &str,
    n_warnings: usize,
    pal: &Palette,
) -> (r: String)
    ensures
        r@ == identify_text(
            pal.on,
            file_name@,
            vendor@,
            family@,
            vram@,
            boost_sclk@,
            boost_mclk@,
            tdp_w,
            bootup@,
            n_warnings as nat,
        ),
{
    let mut out: Vec<char> = Vec::new();
    push_str_chars(&mut out, file_column(file_name, pal).as_str());
    push_str_chars(&mut out, " [");
    push_str_chars(&mut out, vendor);
    push_str_chars(&mut out, "] ");
    push_str_chars(&mut out, pad(family, 20).as_str());
    push_str_chars(&mut out, " ");
    push_str_chars(&mut out, pad(vram, 28).as_str());
    push_str_chars(&mut out, " boost ");
    push_str_chars(&mut out, boost_sclk);
    push_str_chars(&mut out, "/");
    push_str_chars(&mut out, boost_mclk);
    push_str_chars(&mut out, "MHz  TDP ");
    push_dec(&mut out, tdp_w as u64);
    push_str_chars(&mut out, "W");
    if chars_of(bootup).len() > 0 {
        push_str_chars(&mut out, "  ");
        push_str_chars(&mut out, pal.value(truncate(bootup, 46).as_str()).as_str());
    }
    push_str_chars(&mut out, "  ");
    if n_warnings == 0 {
        push_str_chars(&mut out, pal.good("✓").as_str());
    } else {
        let mut w: Vec<char> = Vec::new();
        push_str_chars(&mut w, "⚠");
        push_dec(&mut w, n_warnings as u64);
        push_str_chars(&mut out, pal.bad(string_of(&w).as_str()).as_str());
    }
    string_of(&out)
}

/// The identify line ends with its warning status: a check mark exactly
/// for a ROM without warnings, and for one with `n >= 1` warnings a
/// warning sign followed by `n` in decimal.
pub proof fn law_identify_status(
    on: bool,
    file_name: Seq<char>,
    vendor: Seq<char>,
    family: Seq<char>,
    vram: Seq<char>,
    boost_sclk: Seq<char>,
    boost_mclk: Seq<char>,
    tdp_w: u16,
    bootup: Seq<char>,
    n_warnings: nat,
)
    ensures
        n_warnings == 0 ==> ends_with(
            identify_text(on, file_name, vendor, family, vram, boost_sclk, boost_mclk, tdp_w, bootup, n_warnings),
            painted(on, good_code(), "✓"@),
        ),
        n_warnings >= 1 ==> ends_with(
            identify_text(on, file_name, vendor, family, vram, boost_sclk, boost_mclk, tdp_w, bootup, n_warnings),
            painted(on, bad_code(), "⚠"@ + dec(n_warnings)),
        ),
{
    let t = identify_text(on, file_name, vendor, family, vram, boost_sclk, boost_mclk, tdp_w, bootup, n_warnings);
    let st = status_text(on, n_warnings);
    assert(t.len() >= st.len());
    assert(t.subrange(t.len() - st.len(), t.len() as int) =~= st);
}

/// The identify line opens with the file name, then the vendor in
/// brackets, then the family and VRAM columns and the boost clocks as
/// `engine/memory` in that order, with the TDP in watts after them.
#[verifier::spinoff_prover]
pub proof fn law_identify_fields(
    on: bool,
    file_name: Seq<char>,
    vendor: Seq<char>,
    family: Seq<char>,
    vram: Seq<char>,
    boost_sclk: Seq<char>,
    boost_mclk: Seq<char>,
    tdp_w: u16,
    bootup: Seq<char>,
    n_warnings: nat,
)
    ensures
        ({
            let t = identify_text(on, file_name, vendor, family, vram, boost_sclk, boost_mclk, tdp_w, bootup, n_warnings);
            let head = painted(on, value_code(), fitted(file_name, 32)) + " ["@ + vendor + "] "@;
            let mid = padded(family, 20) + " "@ + padded(vram, 28) + " boost "@ + boost_sclk + "/"@ + boost_mclk
                + "MHz  TDP "@ + dec(tdp_w as nat) + "W"@;
            &&& t.len() >= head.len() + mid.len()
            &&& t.subrange(0, (head.len() + mid.len()) as int) == head + mid
        }),
{
    let t = identify_text(on, file_name, vendor, family, vram, boost_sclk, boost_mclk, tdp_w, bootup, n_warnings);
    let head = painted(on, value_code(), fitted(file_name, 32)) + " ["@ + vendor + "] "@;
    let mid = padded(family, 20) + " "@ + padded(vram, 28) + " boost "@ + boost_sclk + "/"@ + boost_mclk
        + "MHz  TDP "@ + dec(tdp_w as nat) + "W"@;
    let boot: Seq<char> = if bootup.len() == 0 {
        seq![]
    } else {
        "  "@ + painted(on, value_code(), truncated(bootup, 46))
    };
    let tail = boot + "  "@ + status_text(on, n_warnings);
    assert(t =~= (head + mid) + tail);
    assert(t.subrange(0, (head.len() + mid.len()) as int) =~= head + mid);
}

} // verus!
