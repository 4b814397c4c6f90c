//! Comparison sections of the PowerPlay tables whose rows are counts and
//! voltage lists: multimedia, PCIe and the voltage lookup tables.

use vstd::prelude::*;

use crate::compare::row_text;
use crate::compare_sections::{
    lemma_pair_contains, lemma_rows_contain, matrix_section, matrix_section_text, pair_section,
    pair_section_text, MatrixRowV, RowV,
};
use crate::num::{dec, push_dec};
use crate::render::color::Palette;
use crate::render::header::join_strings;
use crate::render::sections::{label_of, Section};
use crate::textutil::{contains_text, joined, push_str_chars, string_of, views};

verus! {

/// One entry of a voltage lookup table.
#[derive(Clone, Copy)]
pub struct VddEntry {
    /// The slot's index in the table.
    pub index: u8,
    pub vdd_mv: u16,
    pub valid: bool,
}

/// The voltages of the valid entries, each followed by `suffix`.
pub open spec fn valid_texts(lut: Seq<VddEntry>, suffix: Seq<char>) -> Seq<Seq<char>>
    decreases lut.len(),
{
    if lut.len() == 0 {
        seq![]
    } else {
        let init = valid_texts(lut.drop_last(), suffix);
        if lut.last().valid {
            init.push(dec(lut.last().vdd_mv as nat) + suffix)
        } else {
            init
        }
    }
}

/// The valid voltages of a table, comma-separated.
pub open spec fn valid_list(lut: Seq<VddEntry>, suffix: Seq<char>) -> Seq<char> {
    joined(valid_texts(lut, suffix), ","@)
}

fn text(s: &str) -> (r: String)
    ensures
        r@ == s@,
{
    let mut v: Vec<char> = Vec::new();
    push_str_chars(&mut v, s);
    string_of(&v)
}

fn dec_string(n: u64) -> (r: String)
    ensures
        r@ == dec(n as nat),
{
    let mut v: Vec<char> = Vec::new();
    push_dec(&mut v, n);
    string_of(&v)
}

fn valid_string(lut: &[VddEntry], suffix: &str) -> (r: String)
    ensures
        r@ == valid_list(lut@, suffix@),
{
    let mut parts: Vec<String> = Vec::new();
    let mut i: usize = 0;
    while i < lut.len()
        invariant
            i <= lut@.len(),
            views(parts@) == valid_texts(lut@.take(i as int), suffix@),
        decreases lut@.len() - i,
    {
        proof {
            let t = lut@.take(i + 1);
            assert(t.drop_last() == lut@.take(i as int));
            assert(t.last() == lut@[i as int]);
        }
        if lut[i].valid {
            let mut v: Vec<char> = Vec::new();
            push_dec(&mut v, lut[i].vdd_mv as u64);
            push_str_chars(&mut v, suffix);
            let ghost before = views(parts@);
            parts.push(string_of(&v));
            assert(views(parts@) =~= before.push(v@));
        }
        i = i + 1;
    }
    assert(lut@.take(lut@.len() as int) == lut@);
    join_strings(&parts, ",")
}

/// The rows of the multimedia section of two ROMs.
pub open spec fn mm_rows(levels_a: nat, vce_a: nat, levels_b: nat, vce_b: nat) -> Seq<RowV> {
    seq![
        ("Levels (count)"@, dec(levels_a), dec(levels_b)),
        ("VCE states (count)"@, dec(vce_a), dec(vce_b)),
    ]
}

/// Compares the multimedia tables of two ROMs: their numbers of clock
/// levels and of VCE states.
pub fn compare_mm(
    levels_a: usize,
    vce_a: usize,
    levels_b: usize,
    vce_b: usize,
    name_a: &str,
    name_b: &str,
    pal: &Palette,
    diff_only: bool,
) -> (r: String)
    ensures
        r@ == pair_section_text(
            pal.on,
            label_of(Section::Multimedia),
            name_a@,
            name_b@,
            mm_rows(levels_a as nat, vce_a as nat, levels_b as nat, vce_b as nat),
            diff_only,
        ),
{
    let rows = vec![
        (text("Levels (count)"), dec_string(levels_a as u64), dec_string(levels_b as u64)),
        (text("VCE states (count)"), dec_string(vce_a as u64), dec_string(vce_b as u64)),
    ];
    assert(crate::compare_sections::rows_view(rows@) =~= mm_rows(
        levels_a as nat,
        vce_a as nat,
        levels_b as nat,
        vce_b as nat,
    ));
    pair_section(pal, Section::Multimedia.label(), name_a, name_b, &rows, diff_only)
}

/// Compares the PCIe tables of two ROMs: their numbers of link levels.
pub fn compare_pcie(
    levels_a: usize,
    levels_b: usize,
    name_a: &str,
    name_b: &str,
    pal: &Palette,
    diff_only: bool,
) -> (r: String)
    ensures
        r@ == pair_section_text(
            pal.on,
            label_of(Section::Pcie),
            name_a@,
            name_b@,
            seq![("PCIe levels (count)"@, dec(levels_a as nat), dec(levels_b as nat))],
            diff_only,
        ),
{
    let rows = vec![
        (text("PCIe levels (count)"), dec_string(levels_a as u64), dec_string(levels_b as u64)),
    ];
    assert(crate::compare_sections::rows_view(rows@) =~= seq![
        ("PCIe levels (count)"@, dec(levels_a as nat), dec(levels_b as nat)),
    ]);
    pair_section(pal, Section::Pcie.label(), name_a, name_b, &rows, diff_only)
}

/// The rows of the voltage section of two ROMs.
pub open spec fn voltage_rows(
    vddc_a: Seq<VddEntry>,
    vddgfx_a: Seq<VddEntry>,
    vddc_b: Seq<VddEntry>,
    vddgfx_b: Seq<VddEntry>,
) -> Seq<RowV> {
    seq![
        ("VDDC valid slots"@, valid_list(vddc_a, "mV"@), valid_list(vddc_b, "mV"@)),
        ("VDDGFX valid slots"@, valid_list(vddgfx_a, "mV"@), valid_list(vddgfx_b, "mV"@)),
    ]
}

/// Compares the voltage lookup tables of two ROMs: the voltages of the
/// valid VDDC and VDDGFX slots.
pub fn compare_voltages(
    vddc_a: &[VddEntry],
    vddgfx_a: &[VddEntry],
    vddc_b: &[VddEntry],
    vddgfx_b: &[VddEntry],
    name_a: &str,
    name_b: &str,
    pal: &Palette,
    diff_only: bool,
) -> (r: String)
    ensures
        r@ == pair_section_text(
            pal.on,
            label_of(Section::Voltages),
            name_a@,
            name_b@,
            voltage_rows(vddc_a@, vddgfx_a@, vddc_b@, vddgfx_b@),
            diff_only,
        ),
{
    let rows = vec![
        (text("VDDC valid slots"), valid_string(vddc_a, "mV"), valid_string(vddc_b, "mV")),
        (text("VDDGFX valid slots"), valid_string(vddgfx_a, "mV"), valid_string(vddgfx_b, "mV")),
    ];
    assert(crate::compare_sections::rows_view(rows@) =~= voltage_rows(
        vddc_a@,
        vddgfx_a@,
        vddc_b@,
        vddgfx_b@,
    ));
    pair_section(pal, Section::Voltages.label(), name_a, name_b, &rows, diff_only)
}

/// A matrix section with one row, `label`, whose values are `values`.
pub(crate) fn one_row_section(
    pal: &Palette,
    section: Section,
    label: &str,
    names: &[String],
    values: Vec<String>,
    diff_only: bool,
) -> (r: String)
    requires
        names@.len() * 27 + 26 <= usize::MAX,
    ensures
        r@ == matrix_section_text(
            pal.on,
            label_of(section),
            views(names@),
            values@.len(),
            seq![(label@, views(values@))],
            diff_only,
        ),
{
    let n = values.len();
    let labels = vec![text(label)];
    let ghost vv = views(values@);
    let vals = vec![values];
    assert(Seq::new(labels@.len(), |k: int| (labels@[k]@, views(vals@[k]@))) =~= seq![
        (label@, vv),
    ]);
    matrix_section(pal, section.label(), names, n, &labels, &vals, diff_only)
}

pub(crate) fn count_strings(counts: &[usize]) -> (r: Vec<String>)
    ensures
        views(r@) == counts@.map_values(|c: usize| dec(c as nat)),
{
    let mut v: Vec<String> = Vec::new();
    let mut i: usize = 0;
    while i < counts.len()
        invariant
            i <= counts@.len(),
            v@.len() == i,
            forall|k: int| 0 <= k < i ==> #[trigger] v@[k]@ == dec(counts@[k] as nat),
        decreases counts@.len() - i,
    {
        v.push(dec_string(counts[i] as u64));
        i = i + 1;
    }
    assert(views(v@) =~= counts@.map_values(|c: usize| dec(c as nat)));
    v
}

/// Compares the multimedia tables of several ROMs: their numbers of
/// clock levels.
pub fn mm_section(levels: &[usize], names: &[String], pal: &Palette, diff_only: bool) -> (r: String)
    requires
        names@.len() * 27 + 26 <= usize::MAX,
    ensures
        r@ == matrix_section_text(
            pal.on,
            label_of(Section::Multimedia),
            views(names@),
            levels@.len(),
            seq![("Levels (count)"@, levels@.map_values(|c: usize| dec(c as nat)))],
            diff_only,
        ),
{
    one_row_section(pal, Section::Multimedia, "Levels (count)", names, count_strings(levels), diff_only)
}

/// Compares the PCIe tables of several ROMs: their numbers of link
/// levels.
pub fn pcie_section(levels: &[usize], names: &[String], pal: &Palette, diff_only: bool) -> (r: String)
    requires
        names@.len() * 27 + 26 <= usize::MAX,
    ensures
        r@ == matrix_section_text(
            pal.on,
            label_of(Section::Pcie),
            views(names@),
            levels@.len(),
            seq![("PCIe levels (count)"@, levels@.map_values(|c: usize| dec(c as nat)))],
            diff_only,
        ),
{
    one_row_section(pal, Section::Pcie, "PCIe levels (count)", names, count_strings(levels), diff_only)
}

/// Compares the VDDC lookup tables of several ROMs: the voltages of
/// their valid slots.
pub fn voltages_section(vddc: &[Vec<VddEntry>], names: &[String], pal: &Palette, diff_only: bool) -> (r:
    String)
    requires
        names@.len() * 27 + 26 <= usize::MAX,
    ensures
        r@ == matrix_section_text(
            pal.on,
            label_of(Section::Voltages),
            views(names@),
            vddc@.len(),
            seq![
                (
                    "VDDC valid slots"@,
                    vddc@.map_values(|l: Vec<VddEntry>| valid_list(l@, seq![])),
                ),
            ],
            diff_only,
        ),
{
    let mut v: Vec<String> = Vec::new();
    let mut i: usize = 0;
    while i < vddc.len()
        invariant
            i <= vddc@.len(),
            v@.len() == i,
            forall|k: int| 0 <= k < i ==> #[trigger] v@[k]@ == valid_list(vddc@[k]@, seq![]),
        decreases vddc@.len() - i,
    {
        let s = valid_string(vddc[i].as_slice(), "");
        proof {
            reveal_strlit("");
            assert(""@ =~= Seq::<char>::empty());
            assert(vddc[i as int]@ == vddc@[i as int]@);
        }
        v.push(s);
        i = i + 1;
    }
    assert(views(v@) =~= vddc@.map_values(|l: Vec<VddEntry>| valid_list(l@, seq![])));
    one_row_section(pal, Section::Voltages, "VDDC valid slots", names, v, diff_only)
}

/// In the two-ROM multimedia comparison the value columns follow the
/// ROM order of the heading: the `Levels (count)` row shows ROM A's level
/// count under A and ROM B's under B, and the `VCE states (count)` row
/// likewise the VCE state counts; each row is there whenever it is shown
/// (always, or under `diff_only` when its two values differ).
pub proof fn law_mm_columns(
    levels_a: nat,
    vce_a: nat,
    levels_b: nat,
    vce_b: nat,
    on: bool,
    name_a: Seq<char>,
    name_b: Seq<char>,
    diff_only: bool,
)
    ensures
        (!diff_only || dec(levels_a) != dec(levels_b)) ==> contains_text(
            pair_section_text(
                on,
                label_of(Section::Multimedia),
                name_a,
                name_b,
                mm_rows(levels_a, vce_a, levels_b, vce_b),
                diff_only,
            ),
            row_text(on, "Levels (count)"@, dec(levels_a), dec(levels_b)),
        ),
        (!diff_only || dec(vce_a) != dec(vce_b)) ==> contains_text(
            pair_section_text(
                on,
                label_of(Section::Multimedia),
                name_a,
                name_b,
                mm_rows(levels_a, vce_a, levels_b, vce_b),
                diff_only,
            ),
            row_text(on, "VCE states (count)"@, dec(vce_a), dec(vce_b)),
        ),
{
    let rows = mm_rows(levels_a, vce_a, levels_b, vce_b);
    let t = label_of(Section::Multimedia);
    if !diff_only || rows[0].1 != rows[0].2 {
        lemma_rows_contain(on, diff_only, rows, 0);
        lemma_pair_contains(on, t, name_a, name_b, rows, diff_only, row_text(on, rows[0].0, rows[0].1, rows[0].2));
    }
    if !diff_only || rows[1].1 != rows[1].2 {
        lemma_rows_contain(on, diff_only, rows, 1);
        lemma_pair_contains(on, t, name_a, name_b, rows, diff_only, row_text(on, rows[1].0, rows[1].1, rows[1].2));
    }
}

/// In the two-ROM PCIe comparison the `PCIe levels (count)` row shows ROM
/// A's level count under A and ROM B's under B, whenever it is shown.
pub proof fn law_pcie_columns(
    levels_a: nat,
    levels_b: nat,
    on: bool,
    name_a: Seq<char>,
    name_b: Seq<char>,
    diff_only: bool,
)
    ensures
        (!diff_only || dec(levels_a) != dec(levels_b)) ==> contains_text(
            pair_section_text(
                on,
                label_of(Section::Pcie),
                name_a,
                name_b,
                seq![("PCIe levels (count)"@, dec(levels_a), dec(levels_b))],
                diff_only,
            ),
            row_text(on, "PCIe levels (count)"@, dec(levels_a), dec(levels_b)),
        ),
{
    let rows = seq![("PCIe levels (count)"@, dec(levels_a), dec(levels_b))];
    if !diff_only || rows[0].1 != rows[0].2 {
        lemma_rows_contain(on, diff_only, rows, 0);
        lemma_pair_contains(
            on,
            label_of(Section::Pcie),
            name_a,
            name_b,
            rows,
            diff_only,
            row_text(on, rows[0].0, rows[0].1, rows[0].2),
        );
    }
}

/// In the two-ROM voltage comparison the `VDDC valid slots` row shows the
/// valid VDDC voltages of ROM A under A and of ROM B under B, and the
/// `VDDGFX valid slots` row likewise for VDDGFX, whenever shown.
pub proof fn law_voltage_columns(
    vddc_a: Seq<VddEntry>,
    vddgfx_a: Seq<VddEntry>,
    vddc_b: Seq<VddEntry>,
    vddgfx_b: Seq<VddEntry>,
    on: bool,
    name_a: Seq<char>,
    name_b: Seq<char>,
    diff_only: bool,
)
    ensures
        (!diff_only || valid_list(vddc_a, "mV"@) != valid_list(vddc_b, "mV"@)) ==> contains_text(
            pair_section_text(
                on,
                label_of(Section::Voltages),
                name_a,
                name_b,
                voltage_rows(vddc_a, vddgfx_a, vddc_b, vddgfx_b),
                diff_only,
            ),
            row_text(on, "VDDC valid slots"@, valid_list(vddc_a, "mV"@), valid_list(vddc_b, "mV"@)),
        ),
        (!diff_only || valid_list(vddgfx_a, "mV"@) != valid_list(vddgfx_b, "mV"@)) ==> contains_text(
            pair_section_text(
                on,
                label_of(Section::Voltages),
                name_a,
                name_b,
                voltage_rows(vddc_a, vddgfx_a, vddc_b, vddgfx_b),
                diff_only,
            ),
            row_text(on, "VDDGFX valid slots"@, valid_list(vddgfx_a, "mV"@), valid_list(vddgfx_b, "mV"@)),
        ),
{
    let rows = voltage_rows(vddc_a, vddgfx_a, vddc_b, vddgfx_b);
    let t = label_of(Section::Voltages);
    if !diff_only || rows[0].1 != rows[0].2 {
        lemma_rows_contain(on, diff_only, rows, 0);
        lemma_pair_contains(on, t, name_a, name_b, rows, diff_only, row_text(on, rows[0].0, rows[0].1, rows[0].2));
    }
    if !diff_only || rows[1].1 != rows[1].2 {
        lemma_rows_contain(on, diff_only, rows, 1);
        lemma_pair_contains(on, t, name_a, name_b, rows, diff_only, row_text(on, rows[1].0, rows[1].1, rows[1].2));
    }
}

} // verus!
