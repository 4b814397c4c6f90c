//! Comparison sections of the chip tables whose rows are counts and
//! register layouts: the GFX configuration and the I2C lines, with
//! notes where only one ROM has the table.

use vstd::prelude::*;

use crate::compare::{header_row_text, row_text, title, title_text, Table};
use crate::compare_all::{all_same, col_width_for, matrix_row_text as all_matrix_row_text};
use crate::compare_sections::{
    lemma_matrix_contains, lemma_matrix_rows_contain, matrix_section, matrix_section_text,
};
use crate::compare_util::finished;
use crate::num::{dec, hex, push_dec, push_hex, zero_padded};
use crate::render::color::{good_code, painted, warn_code, Palette};
use crate::render::header::join_strings;
use crate::render::sections::{label_of, Section};
use crate::straps::opt_row;
use crate::textutil::{
    contains_text, joined, lemma_contains_around, lemma_contains_self, push_str_chars, string_of,
    views,
};

verus! {

/// A line of a comparison table: a row of two values, or a note.
pub enum Entry {
    Row(String, String, String),
    Note(String),
}

/// An entry as text.
pub enum EntryV {
    Row(Seq<char>, Seq<char>, Seq<char>),
    Note(Seq<char>),
}

pub open spec fn entry_view(e: Entry) -> EntryV {
    match e {
        Entry::Row(l, a, b) => EntryV::Row(l@, a@, b@),
        Entry::Note(s) => EntryV::Note(s@),
    }
}

pub open spec fn entries_view(es: Seq<Entry>) -> Seq<EntryV> {
    es.map_values(|e: Entry| entry_view(e))
}

/// The lines of the entries: each note, and each row unless `diff_only`
/// leaves out a row whose values agree.
pub open spec fn entries_text(on: bool, diff_only: bool, es: Seq<EntryV>) -> Seq<char>
    decreases es.len(),
{
    if es.len() == 0 {
        seq![]
    } else {
        entries_text(on, diff_only, es.drop_last()) + match es.last() {
            EntryV::Row(l, a, b) => opt_row(on, diff_only, l, a, b),
            EntryV::Note(s) => s + "\n"@,
        }
    }
}

/// Some entry is shown: a note, or a row that `diff_only` keeps.
pub open spec fn any_entry_shown(diff_only: bool, es: Seq<EntryV>) -> bool
    decreases es.len(),
{
    es.len() > 0 && (any_entry_shown(diff_only, es.drop_last()) || match es.last() {
        EntryV::Row(_, a, b) => !(diff_only && a == b),
        EntryV::Note(_) => true,
    })
}

/// A two-ROM comparison section of rows and notes.
pub open spec fn entry_section_text(
    on: bool,
    title: Seq<char>,
    name_a: Seq<char>,
    name_b: Seq<char>,
    es: Seq<EntryV>,
    diff_only: bool,
) -> Seq<char> {
    title_text(on, title) + "\n"@ + finished(
        header_row_text(on, name_a, name_b) + "\n"@ + entries_text(on, diff_only, es),
        any_entry_shown(diff_only, es),
        "(nothing differs in this section)"@,
    )
}

/// Renders a two-ROM comparison section from its rows and notes.
pub fn entry_section(
    pal: &Palette,
    title_s: &str,
    name_a: &str,
    name_b: &str,
    es: &Vec<Entry>,
    diff_only: bool,
) -> (r: String)
    ensures
        r@ == entry_section_text(pal.on, title_s@, name_a@, name_b@, entries_view(es@), diff_only),
{
    let ghost ev = entries_view(es@);
    let mut t = Table::new(pal, diff_only);
    t.header(name_a, name_b);
    let ghost start = t.buf@;
    let mut k: usize = 0;
    while k < es.len()
        invariant
            k <= es@.len(),
            ev == entries_view(es@),
            t.pal == pal,
            t.diff_only == diff_only,
            t.buf@ == start + entries_text(pal.on, diff_only, ev.take(k as int)),
            t.any_row == any_entry_shown(diff_only, ev.take(k as int)),
        decreases es@.len() - k,
    {
        match &es[k] {
            Entry::Row(l, a, b) => {
                t.row(l.as_str(), a.as_str(), b.as_str());
            },
            Entry::Note(s) => {
                t.note(s.as_str());
            },
        }
        proof {
            let p = ev.take(k + 1);
            assert(p.drop_last() == ev.take(k as int));
            assert(p.last() == ev[k as int]);
        }
        k = k + 1;
    }
    assert(ev.take(es@.len() as int) == ev);
    let mut out: Vec<char> = Vec::new();
    push_str_chars(&mut out, title(pal, title_s).as_str());
    push_str_chars(&mut out, "\n");
    push_str_chars(&mut out, t.finish("(nothing differs in this section)").as_str());
    string_of(&out)
}

fn text(s: &str) -> (r: String)
    ensures
        r@ == s@,
{
    let mut v: Vec<char> = Vec::new();
    push_str_chars(&mut v, s);
    string_of(&v)
}

fn dec_string(n: u64) -> (r: String)
    ensures
        r@ == dec(n as nat),
{
    let mut v: Vec<char> = Vec::new();
    push_dec(&mut v, n);
    string_of(&v)
}

fn row(l: &str, a: String, b: String) -> (r: Entry)
    ensures
        entry_view(r) == EntryV::Row(l@, a@, b@),
{
    Entry::Row(text(l), a, b)
}

/// The note that a table is in only one ROM, or in neither.
pub open spec fn presence_note(table: Seq<char>, a: bool, name_a: Seq<char>, name_b: Seq<char>) -> Seq<
    char,
> {
    if a {
        "  "@ + table + " table present only in "@ + name_a
    } else {
        "  "@ + table + " table present only in "@ + name_b
    }
}

/// The note that neither ROM has the table.
pub open spec fn absence_note(table: Seq<char>) -> Seq<char> {
    "  "@ + table + " table not present in either ROM"@
}

fn presence_string(table: &str, only_a: bool, name_a: &str, name_b: &str) -> (r: String)
    ensures
        r@ == presence_note(table@, only_a, name_a@, name_b@),
{
    let mut v: Vec<char> = Vec::new();
    push_str_chars(&mut v, "  ");
    push_str_chars(&mut v, table);
    push_str_chars(&mut v, " table present only in ");
    if only_a {
        push_str_chars(&mut v, name_a);
    } else {
        push_str_chars(&mut v, name_b);
    }
    string_of(&v)
}

fn absence_string(table: &str) -> (r: String)
    ensures
        r@ == absence_note(table@),
{
    let mut v: Vec<char> = Vec::new();
    push_str_chars(&mut v, "  ");
    push_str_chars(&mut v, table);
    push_str_chars(&mut v, " table not present in either ROM");
    string_of(&v)
}

/// The GFX configuration of a ROM (`GFX_Info`).
#[derive(Clone, Copy)]
pub struct AsicInfo {
    pub gfx_ip_maj_ver: u8,
    pub gfx_ip_min_ver: u8,
    pub max_shader_engines: u8,
    pub max_sh_per_se: u8,
    pub max_cu_per_sh: u8,
    pub max_backends_per_se: u8,
    pub max_tile_pipes: u8,
    pub max_texture_channel_caches: u8,
    /// The high/low leakage threshold, where the table revision has one.
    pub hi_lo_leakage_threshold: Option<u32>,
}

/// The GFX IP version as `major.minor`.
pub open spec fn ip_text(x: AsicInfo) -> Seq<char> {
    dec(x.gfx_ip_maj_ver as nat) + "."@ + dec(x.gfx_ip_min_ver as nat)
}

/// The most compute units: engines times arrays times units per array.
pub open spec fn total_cus(x: AsicInfo) -> nat {
    (x.max_shader_engines * x.max_sh_per_se * x.max_cu_per_sh) as nat
}

/// The entries of the GFX section of two ROMs.
pub open spec fn asic_entries(
    a: Option<AsicInfo>,
    b: Option<AsicInfo>,
    name_a: Seq<char>,
    name_b: Seq<char>,
) -> Seq<EntryV> {
    match (a, b) {
        (Some(x), Some(y)) => seq![
            EntryV::Row("GFX IP version"@, ip_text(x), ip_text(y)),
            EntryV::Row("Shader engines (SE)"@, dec(x.max_shader_engines as nat), dec(y.max_shader_engines as nat)),
            EntryV::Row("Shader arrays per SE"@, dec(x.max_sh_per_se as nat), dec(y.max_sh_per_se as nat)),
            EntryV::Row("Compute units per SH"@, dec(x.max_cu_per_sh as nat), dec(y.max_cu_per_sh as nat)),
            EntryV::Row("Total CUs (max)"@, dec(total_cus(x)), dec(total_cus(y))),
            EntryV::Row("Render backends per SE"@, dec(x.max_backends_per_se as nat), dec(y.max_backends_per_se as nat)),
            EntryV::Row("Tile pipes"@, dec(x.max_tile_pipes as nat), dec(y.max_tile_pipes as nat)),
            EntryV::Row(
                "Texture channel caches"@,
                dec(x.max_texture_channel_caches as nat),
                dec(y.max_texture_channel_caches as nat),
            ),
        ],
        (Some(_), None) => seq![EntryV::Note(presence_note("GFX_Info"@, true, name_a, name_b))],
        (None, Some(_)) => seq![EntryV::Note(presence_note("GFX_Info"@, false, name_a, name_b))],
        (None, None) => seq![EntryV::Note(absence_note("GFX_Info"@))],
    }
}

pub(crate) fn ip_string(x: &AsicInfo) -> (r: String)
    ensures
        r@ == ip_text(*x),
{
    let mut v: Vec<char> = Vec::new();
    push_dec(&mut v, x.gfx_ip_maj_ver as u64);
    push_str_chars(&mut v, ".");
    push_dec(&mut v, x.gfx_ip_min_ver as u64);
    string_of(&v)
}

pub(crate) fn cus(x: &AsicInfo) -> (r: u64)
    ensures
        r == total_cus(*x),
{
    let se = x.max_shader_engines as u64;
    let sh = x.max_sh_per_se as u64;
    let cu = x.max_cu_per_sh as u64;
    assert(se * sh <= 255 * 255) by (nonlinear_arith)
        requires
            se <= 255,
            sh <= 255,
    ;
    assert(se * sh * cu <= 255 * 255 * 255) by (nonlinear_arith)
        requires
            se * sh <= 255 * 255,
            cu <= 255,
            se * sh >= 0,
    ;
    se * sh * cu
}

/// Compares the GFX configuration of two ROMs: IP version, shader
/// engines, arrays and units, their product, render backends, tile
/// pipes and texture channel caches; a note where a ROM lacks the table.
pub fn compare_asic(
    a: Option<&AsicInfo>,
    b: Option<&AsicInfo>,
    name_a: &str,
    name_b: &str,
    pal: &Palette,
    diff_only: bool,
) -> (r: String)
    ensures
        r@ == entry_section_text(
            pal.on,
            label_of(Section::Asic),
            name_a@,
            name_b@,
            asic_entries(
                match a {
                    Some(x) => Some(*x),
                    None => None,
                },
                match b {
                    Some(y) => Some(*y),
                    None => None,
                },
                name_a@,
                name_b@,
            ),
            diff_only,
        ),
{
    let es: Vec<Entry> = match (a, b) {
        (Some(x), Some(y)) => vec![
            row("GFX IP version", ip_string(x), ip_string(y)),
            row(
                "Shader engines (SE)",
                dec_string(x.max_shader_engines as u64),
                dec_string(y.max_shader_engines as u64),
            ),
            row("Shader arrays per SE", dec_string(x.max_sh_per_se as u64), dec_string(y.max_sh_per_se as u64)),
            row("Compute units per SH", dec_string(x.max_cu_per_sh as u64), dec_string(y.max_cu_per_sh as u64)),
            row("Total CUs (max)", dec_string(cus(x)), dec_string(cus(y))),
            row(
                "Render backends per SE",
                dec_string(x.max_backends_per_se as u64),
                dec_string(y.max_backends_per_se as u64),
            ),
            row("Tile pipes", dec_string(x.max_tile_pipes as u64), dec_string(y.max_tile_pipes as u64)),
            row(
                "Texture channel caches",
                dec_string(x.max_texture_channel_caches as u64),
                dec_string(y.max_texture_channel_caches as u64),
            ),
        ],
        (Some(_), None) => vec![Entry::Note(presence_string("GFX_Info", true, name_a, name_b))],
        (None, Some(_)) => vec![Entry::Note(presence_string("GFX_Info", false, name_a, name_b))],
        (None, None) => vec![Entry::Note(absence_string("GFX_Info"))],
    };
    assert(entries_view(es@) =~= asic_entries(
        match a {
            Some(x) => Some(*x),
            None => None,
        },
        match b {
            Some(y) => Some(*y),
            None => None,
        },
        name_a@,
        name_b@,
    ));
    entry_section(pal, Section::Asic.label(), name_a, name_b, &es, diff_only)
}

/// One I2C line of the GPIO I2C table: its ID and the clock and data
/// pin registers with their bit shifts.
#[derive(Clone, Copy)]
pub struct I2cLine {
    pub i2c_id: u8,
    pub clk_mask_reg: u16,
    pub clk_mask_shift: u8,
    pub clk_en_shift: u8,
    pub clk_y_shift: u8,
    pub clk_a_shift: u8,
    pub data_mask_reg: u16,
    pub data_mask_shift: u8,
    pub data_en_shift: u8,
    pub data_y_shift: u8,
    pub data_a_shift: u8,
}

/// `n` in hexadecimal as `0x` and `w` digits at least.
pub open spec fn hex_text(n: nat, w: nat) -> Seq<char> {
    "0x"@ + zero_padded(hex(n), w)
}

/// A pin register and its four shifts: `0xRRRR mask/en/y/a 0xMM/0xEE/0xYY/0xAA`.
pub open spec fn pins_text(reg: u16, m: u8, e: u8, y: u8, a: u8) -> Seq<char> {
    hex_text(reg as nat, 4) + " mask/en/y/a "@ + hex_text(m as nat, 2) + "/"@ + hex_text(e as nat, 2)
        + "/"@ + hex_text(y as nat, 2) + "/"@ + hex_text(a as nat, 2)
}

pub open spec fn clk_text(l: I2cLine) -> Seq<char> {
    pins_text(l.clk_mask_reg, l.clk_mask_shift, l.clk_en_shift, l.clk_y_shift, l.clk_a_shift)
}

pub open spec fn data_text(l: I2cLine) -> Seq<char> {
    pins_text(l.data_mask_reg, l.data_mask_shift, l.data_en_shift, l.data_y_shift, l.data_a_shift)
}

/// The line IDs as a bracketed list of two-digit hex numbers (`{:02X?}`).
pub open spec fn ids_text(ls: Seq<I2cLine>) -> Seq<char> {
    "["@ + joined(ls.map_values(|l: I2cLine| zero_padded(hex(l.i2c_id as nat), 2)), ", "@) + "]"@
}

/// The entries of line position `k`: both lines' clock and data pins
/// where both ROMs have the line, else a note naming the ROM that has it.
pub open spec fn line_step(
    a: Seq<I2cLine>,
    b: Seq<I2cLine>,
    name_a: Seq<char>,
    name_b: Seq<char>,
    k: int,
) -> Seq<EntryV> {
    if k < a.len() && k < b.len() {
        seq![
            EntryV::Row("line "@ + dec(k as nat) + " clk"@, clk_text(a[k]), clk_text(b[k])),
            EntryV::Row("  "@ + dec(k as nat) + " data"@, data_text(a[k]), data_text(b[k])),
        ]
    } else if k < a.len() {
        seq![EntryV::Note("  I2C line "@ + dec(k as nat) + " present only in "@ + name_a)]
    } else {
        seq![EntryV::Note("  line "@ + dec(k as nat) + " present only in "@ + name_b)]
    }
}

/// The entries of the first `n` line positions.
pub open spec fn line_entries(
    a: Seq<I2cLine>,
    b: Seq<I2cLine>,
    name_a: Seq<char>,
    name_b: Seq<char>,
    n: int,
) -> Seq<EntryV>
    decreases n,
{
    if n <= 0 {
        seq![]
    } else {
        line_entries(a, b, name_a, name_b, n - 1) + line_step(a, b, name_a, name_b, n - 1)
    }
}

/// The entries of the I2C section of two ROMs.
pub open spec fn i2c_entries(
    a: Option<Seq<I2cLine>>,
    b: Option<Seq<I2cLine>>,
    name_a: Seq<char>,
    name_b: Seq<char>,
) -> Seq<EntryV> {
    match (a, b) {
        (Some(x), Some(y)) => seq![
            EntryV::Row("I2C lines (count)"@, dec(x.len()), dec(y.len())),
            EntryV::Row("Line ids"@, ids_text(x), ids_text(y)),
        ] + line_entries(x, y, name_a, name_b, if x.len() >= y.len() {
            x.len() as int
        } else {
            y.len() as int
        }),
        (Some(_), None) => seq![EntryV::Note(presence_note("GPIO_I2C_Info"@, true, name_a, name_b))],
        (None, Some(_)) => seq![EntryV::Note(presence_note("GPIO_I2C_Info"@, false, name_a, name_b))],
        (None, None) => seq![EntryV::Note(absence_note("GPIO_I2C_Info"@))],
    }
}

fn push_hex_text(v: &mut Vec<char>, n: u64, w: usize)
    ensures
        final(v)@ == old(v)@ + hex_text(n as nat, w as nat),
{
    push_str_chars(v, "0x");
    push_hex(v, n, w);
    proof {
        assert(final(v)@ =~= old(v)@ + hex_text(n as nat, w as nat));
    }
}

fn pins_string(reg: u16, m: u8, e: u8, y: u8, a: u8) -> (r: String)
    ensures
        r@ == pins_text(reg, m, e, y, a),
{
    let mut v: Vec<char> = Vec::new();
    push_hex_text(&mut v, reg as u64, 4);
    push_str_chars(&mut v, " mask/en/y/a ");
    push_hex_text(&mut v, m as u64, 2);
    push_str_chars(&mut v, "/");
    push_hex_text(&mut v, e as u64, 2);
    push_str_chars(&mut v, "/");
    push_hex_text(&mut v, y as u64, 2);
    push_str_chars(&mut v, "/");
    push_hex_text(&mut v, a as u64, 2);
    assert(v@ =~= pins_text(reg, m, e, y, a));
    string_of(&v)
}

fn ids_string(ls: &Vec<I2cLine>) -> (r: String)
    ensures
        r@ == ids_text(ls@),
{
    let mut parts: Vec<String> = Vec::new();
    let mut i: usize = 0;
    while i < ls.len()
        invariant
            i <= ls@.len(),
            parts@.len() == i,
            forall|k: int| 0 <= k < i ==> #[trigger] parts@[k]@ == zero_padded(hex(ls@[k].i2c_id as nat), 2),
        decreases ls@.len() - i,
    {
        let mut v: Vec<char> = Vec::new();
        push_hex(&mut v, ls[i].i2c_id as u64, 2);
        parts.push(string_of(&v));
        i = i + 1;
    }
    assert(views(parts@) =~= ls@.map_values(|l: I2cLine| zero_padded(hex(l.i2c_id as nat), 2)));
    let mut v: Vec<char> = Vec::new();
    push_str_chars(&mut v, "[");
    push_str_chars(&mut v, join_strings(&parts, ", ").as_str());
    push_str_chars(&mut v, "]");
    string_of(&v)
}

fn line_note(prefix: &str, i: usize, name: &str) -> (r: String)
    ensures
        r@ == prefix@ + dec(i as nat) + " present only in "@ + name@,
{
    let mut v: Vec<char> = Vec::new();
    push_str_chars(&mut v, prefix);
    push_dec(&mut v, i as u64);
    push_str_chars(&mut v, " present only in ");
    push_str_chars(&mut v, name);
    string_of(&v)
}

fn numbered(prefix: &str, i: usize, suffix: &str) -> (r: String)
    ensures
        r@ == prefix@ + dec(i as nat) + suffix@,
{
    let mut v: Vec<char> = Vec::new();
    push_str_chars(&mut v, prefix);
    push_dec(&mut v, i as u64);
    push_str_chars(&mut v, suffix);
    string_of(&v)
}

fn push_line_step(
    es: &mut Vec<Entry>,
    x: &Vec<I2cLine>,
    y: &Vec<I2cLine>,
    name_a: &str,
    name_b: &str,
    i: usize,
)
    requires
        i < x@.len() || i < y@.len(),
    ensures
        entries_view(final(es)@) == entries_view(old(es)@) + line_step(x@, y@, name_a@, name_b@, i as int),
{
    let ghost before = entries_view(es@);
    if i < x.len() && i < y.len() {
        let lx = x[i];
        let ly = y[i];
        es.push(
            Entry::Row(
                numbered("line ", i, " clk"),
                pins_string(lx.clk_mask_reg, lx.clk_mask_shift, lx.clk_en_shift, lx.clk_y_shift, lx.clk_a_shift),
                pins_string(ly.clk_mask_reg, ly.clk_mask_shift, ly.clk_en_shift, ly.clk_y_shift, ly.clk_a_shift),
            ),
        );
        es.push(
            Entry::Row(
                numbered("  ", i, " data"),
                pins_string(lx.data_mask_reg, lx.data_mask_shift, lx.data_en_shift, lx.data_y_shift, lx.data_a_shift),
                pins_string(ly.data_mask_reg, ly.data_mask_shift, ly.data_en_shift, ly.data_y_shift, ly.data_a_shift),
            ),
        );
        assert(entries_view(es@) =~= before + line_step(x@, y@, name_a@, name_b@, i as int));
    } else if i < x.len() {
        es.push(Entry::Note(line_note("  I2C line ", i, name_a)));
        assert(entries_view(es@) =~= before + line_step(x@, y@, name_a@, name_b@, i as int));
    } else {
        es.push(Entry::Note(line_note("  line ", i, name_b)));
        assert(entries_view(es@) =~= before + line_step(x@, y@, name_a@, name_b@, i as int));
    }
}

/// Compares the I2C lines of two ROMs: their number, their IDs, and the
/// clock and data pins of each line by position; notes where a line or
/// the whole table is in one ROM only.
pub fn compare_i2c(
    a: Option<&Vec<I2cLine>>,
    b: Option<&Vec<I2cLine>>,
    name_a: &str,
    name_b: &str,
    pal: &Palette,
    diff_only: bool,
) -> (r: String)
    ensures
        r@ == entry_section_text(
            pal.on,
            label_of(Section::I2c),
            name_a@,
            name_b@,
            i2c_entries(
                match a {
                    Some(x) => Some(x@),
                    None => None,
                },
                match b {
                    Some(y) => Some(y@),
                    None => None,
                },
                name_a@,
                name_b@,
            ),
            diff_only,
        ),
{
    let ghost av = match a {
        Some(x) => Some(x@),
        None => None,
    };
    let ghost bv = match b {
        Some(y) => Some(y@),
        None => None,
    };
    let es: Vec<Entry> = match (a, b) {
        (Some(x), Some(y)) => {
            let mut es = vec![
                row("I2C lines (count)", dec_string(x.len() as u64), dec_string(y.len() as u64)),
                row("Line ids", ids_string(x), ids_string(y)),
            ];
            let ghost start = entries_view(es@);
            let n = if x.len() >= y.len() {
                x.len()
            } else {
                y.len()
            };
            let mut i: usize = 0;
            while i < n
                invariant
                    i <= n,
                    n == if x@.len() >= y@.len() {
                        x@.len()
                    } else {
                        y@.len()
                    },
                    entries_view(es@) == start + line_entries(x@, y@, name_a@, name_b@, i as int),
                decreases n - i,
            {
                let ghost before = entries_view(es@);
                push_line_step(&mut es, x, y, name_a, name_b, i);
                assert(start + line_entries(x@, y@, name_a@, name_b@, i + 1) =~= before + line_step(
                    x@,
                    y@,
                    name_a@,
                    name_b@,
                    i as int,
                ));
                i = i + 1;
            }
            assert(start =~= seq![
                EntryV::Row("I2C lines (count)"@, dec(x@.len()), dec(y@.len())),
                EntryV::Row("Line ids"@, ids_text(x@), ids_text(y@)),
            ]);
            es
        },
        (Some(_), None) => vec![Entry::Note(presence_string("GPIO_I2C_Info", true, name_a, name_b))],
        (None, Some(_)) => vec![Entry::Note(presence_string("GPIO_I2C_Info", false, name_a, name_b))],
        (None, None) => vec![Entry::Note(absence_string("GPIO_I2C_Info"))],
    };
    assert(entries_view(es@) =~= i2c_entries(av, bv, name_a@, name_b@));
    entry_section(pal, Section::I2c.label(), name_a, name_b, &es, diff_only)
}

/// A value of a table that some ROMs lack: the value, or `-`.
pub open spec fn or_dash(o: Option<Seq<char>>) -> Seq<char> {
    match o {
        Some(t) => t,
        None => "-"@,
    }
}

/// The cells of the GFX matrix row `k` (0: IP version, 1: shader
/// engines, 2: units per array, 3: total units, 4: render backends).
pub open spec fn asic_cell(o: Option<AsicInfo>, k: int) -> Seq<char> {
    or_dash(
        match o {
            Some(x) => Some(
                if k == 0 {
                    ip_text(x)
                } else if k == 1 {
                    dec(x.max_shader_engines as nat)
                } else if k == 2 {
                    dec(x.max_cu_per_sh as nat)
                } else if k == 3 {
                    dec(total_cus(x))
                } else {
                    dec(x.max_backends_per_se as nat)
                },
            ),
            None => None,
        },
    )
}

/// The labels of the GFX matrix rows.
pub open spec fn asic_labels() -> Seq<Seq<char>> {
    seq![
        "GFX IP version"@,
        "Shader engines (SE)"@,
        "Compute units per SH"@,
        "Total CUs (max)"@,
        "Render backends per SE"@,
    ]
}

fn asic_cell_string(o: Option<AsicInfo>, k: usize) -> (r: String)
    requires
        k < 5,
    ensures
        r@ == asic_cell(o, k as int),
{
    match o {
        Some(x) => {
            if k == 0 {
                ip_string(&x)
            } else if k == 1 {
                dec_string(x.max_shader_engines as u64)
            } else if k == 2 {
                dec_string(x.max_cu_per_sh as u64)
            } else if k == 3 {
                dec_string(cus(&x))
            } else {
                dec_string(x.max_backends_per_se as u64)
            }
        },
        None => text("-"),
    }
}

/// Compares the GFX configuration of several ROMs: IP version, shader
/// engines, units per array, total units and render backends, `-` for a
/// ROM without the table.
pub fn asic_section(asics: &[Option<AsicInfo>], names: &[String], pal: &Palette, diff_only: bool) -> (r:
    String)
    requires
        names@.len() * 27 + 26 <= usize::MAX,
    ensures
        r@ == matrix_section_text(
            pal.on,
            label_of(Section::Asic),
            views(names@),
            asics@.len(),
            Seq::new(
                5,
                |k: int| (asic_labels()[k], asics@.map_values(|o: Option<AsicInfo>| asic_cell(o, k))),
            ),
            diff_only,
        ),
{
    let labels = vec![
        text("GFX IP version"),
        text("Shader engines (SE)"),
        text("Compute units per SH"),
        text("Total CUs (max)"),
        text("Render backends per SE"),
    ];
    let mut values: Vec<Vec<String>> = Vec::new();
    let mut k: usize = 0;
    while k < 5
        invariant
            k <= 5,
            values@.len() == k,
            forall|j: int| 0 <= j < k ==> #[trigger] views(values@[j]@) == asics@.map_values(
                |o: Option<AsicInfo>| asic_cell(o, j),
            ),
        decreases 5 - k,
    {
        let mut cells: Vec<String> = Vec::new();
        let mut i: usize = 0;
        while i < asics.len()
            invariant
                i <= asics@.len(),
                k < 5,
                cells@.len() == i,
                forall|m: int| 0 <= m < i ==> #[trigger] cells@[m]@ == asic_cell(asics@[m], k as int),
            decreases asics@.len() - i,
        {
            cells.push(asic_cell_string(asics[i], k));
            i = i + 1;
        }
        assert(views(cells@) =~= asics@.map_values(|o: Option<AsicInfo>| asic_cell(o, k as int)));
        values.push(cells);
        k = k + 1;
    }
    assert(Seq::new(labels@.len(), |j: int| (labels@[j]@, views(values@[j]@))) =~= Seq::new(
        5,
        |j: int| (asic_labels()[j], asics@.map_values(|o: Option<AsicInfo>| asic_cell(o, j))),
    ));
    matrix_section(pal, Section::Asic.label(), names, asics.len(), &labels, &values, diff_only)
}

/// The line IDs of a ROM's I2C table as comma-separated two-digit hex.
pub open spec fn id_list(ls: Seq<I2cLine>) -> Seq<char> {
    joined(ls.map_values(|l: I2cLine| zero_padded(hex(l.i2c_id as nat), 2)), ","@)
}

/// The I2C count cell of a ROM.
pub open spec fn i2c_count_cell(o: Option<Seq<I2cLine>>) -> Seq<char> {
    or_dash(
        match o {
            Some(ls) => Some(dec(ls.len())),
            None => None,
        },
    )
}

/// The I2C line-ID cell of a ROM.
pub open spec fn i2c_ids_cell(o: Option<Seq<I2cLine>>) -> Seq<char> {
    or_dash(
        match o {
            Some(ls) => Some(id_list(ls)),
            None => None,
        },
    )
}

fn id_list_string(ls: &Vec<I2cLine>) -> (r: String)
    ensures
        r@ == id_list(ls@),
{
    let mut parts: Vec<String> = Vec::new();
    let mut i: usize = 0;
    while i < ls.len()
        invariant
            i <= ls@.len(),
            parts@.len() == i,
            forall|k: int| 0 <= k < i ==> #[trigger] parts@[k]@ == zero_padded(hex(ls@[k].i2c_id as nat), 2),
        decreases ls@.len() - i,
    {
        let mut v: Vec<char> = Vec::new();
        push_hex(&mut v, ls[i].i2c_id as u64, 2);
        parts.push(string_of(&v));
        i = i + 1;
    }
    assert(views(parts@) =~= ls@.map_values(|l: I2cLine| zero_padded(hex(l.i2c_id as nat), 2)));
    join_strings(&parts, ",")
}

/// The I2C line views of the ROMs that have the table.
pub open spec fn i2c_views(i2cs: Seq<Option<Vec<I2cLine>>>) -> Seq<Option<Seq<I2cLine>>> {
    i2cs.map_values(
        |o: Option<Vec<I2cLine>>|
            match o {
                Some(v) => Some(v@),
                None => None,
            },
    )
}

/// Compares the I2C tables of several ROMs: their numbers of lines and
/// the line IDs, `-` for a ROM without the table.
pub fn i2c_section(i2cs: &[Option<Vec<I2cLine>>], names: &[String], pal: &Palette, diff_only: bool) -> (r:
    String)
    requires
        names@.len() * 27 + 26 <= usize::MAX,
    ensures
        r@ == matrix_section_text(
            pal.on,
            label_of(Section::I2c),
            views(names@),
            i2cs@.len(),
            seq![
                ("I2C lines (count)"@, i2c_views(i2cs@).map_values(|o: Option<Seq<I2cLine>>| i2c_count_cell(o))),
                ("Line ids (0x..)"@, i2c_views(i2cs@).map_values(|o: Option<Seq<I2cLine>>| i2c_ids_cell(o))),
            ],
            diff_only,
        ),
{
    let ghost iv = i2c_views(i2cs@);
    let mut counts: Vec<String> = Vec::new();
    let mut ids: Vec<String> = Vec::new();
    let mut i: usize = 0;
    while i < i2cs.len()
        invariant
            i <= i2cs@.len(),
            iv == i2c_views(i2cs@),
            counts@.len() == i,
            ids@.len() == i,
            forall|m: int| 0 <= m < i ==> #[trigger] counts@[m]@ == i2c_count_cell(iv[m]),
            forall|m: int| 0 <= m < i ==> #[trigger] ids@[m]@ == i2c_ids_cell(iv[m]),
        decreases i2cs@.len() - i,
    {
        match &i2cs[i] {
            Some(ls) => {
                counts.push(dec_string(ls.len() as u64));
                ids.push(id_list_string(ls));
            },
            None => {
                counts.push(text("-"));
                ids.push(text("-"));
            },
        }
        i = i + 1;
    }
    let labels = vec![text("I2C lines (count)"), text("Line ids (0x..)")];
    let ghost cv = views(counts@);
    let ghost dv = views(ids@);
    assert(cv =~= iv.map_values(|o: Option<Seq<I2cLine>>| i2c_count_cell(o)));
    assert(dv =~= iv.map_values(|o: Option<Seq<I2cLine>>| i2c_ids_cell(o)));
    let values = vec![counts, ids];
    assert(Seq::new(labels@.len(), |j: int| (labels@[j]@, views(values@[j]@))) =~= seq![
        ("I2C lines (count)"@, cv),
        ("Line ids (0x..)"@, dv),
    ]);
    matrix_section(pal, Section::I2c.label(), names, i2cs.len(), &labels, &values, diff_only)
}

/// The distinct IDs below `n` that `a` holds and `b` does not, in
/// increasing order.
pub open spec fn ids_only_below(a: Seq<u8>, b: Seq<u8>, n: int) -> Seq<u8>
    decreases n,
{
    if n <= 0 {
        seq![]
    } else {
        let v = (n - 1) as u8;
        ids_only_below(a, b, n - 1) + if a.contains(v) && !b.contains(v) {
            seq![v]
        } else {
            seq![]
        }
    }
}

/// The distinct IDs that `a` holds and `b` does not, in increasing
/// order (a set difference).
pub open spec fn ids_only(a: Seq<u8>, b: Seq<u8>) -> Seq<u8> {
    ids_only_below(a, b, 256)
}

/// A list of IDs as `[1, 2, 3]`.
pub open spec fn id_set_text(ids: Seq<u8>) -> Seq<char> {
    "["@ + joined(ids.map_values(|v: u8| dec(v as nat)), ", "@) + "]"@
}

/// The entries of the GPIO section of two ROMs with pin tables of the
/// IDs `a` and `b`.
pub open spec fn gpio_pin_entries(
    on: bool,
    a: Seq<u8>,
    b: Seq<u8>,
    name_a: Seq<char>,
    name_b: Seq<char>,
    diff_only: bool,
) -> Seq<EntryV> {
    let oa = ids_only(a, b);
    let ob = ids_only(b, a);
    let arrow = painted(on, warn_code(), "→"@);
    seq![EntryV::Row("GPIO pins (count)"@, dec(a.len()), dec(b.len()))] + (if oa.len() > 0 {
        seq![EntryV::Note("  "@ + arrow + " GPIO ids only in "@ + name_a + ": "@ + id_set_text(oa))]
    } else {
        seq![]
    }) + (if ob.len() > 0 {
        seq![EntryV::Note("  "@ + arrow + " GPIO ids only in "@ + name_b + ": "@ + id_set_text(ob))]
    } else {
        seq![]
    }) + (if oa.len() == 0 && ob.len() == 0 && !diff_only {
        seq![EntryV::Note("  "@ + painted(on, good_code(), "same GPIO ids in both ROMs"@))]
    } else {
        seq![]
    })
}

/// The entries of the GPIO section of two ROMs.
pub open spec fn gpio_entries(
    on: bool,
    a: Option<Seq<u8>>,
    b: Option<Seq<u8>>,
    name_a: Seq<char>,
    name_b: Seq<char>,
    diff_only: bool,
) -> Seq<EntryV> {
    match (a, b) {
        (Some(x), Some(y)) => gpio_pin_entries(on, x, y, name_a, name_b, diff_only),
        (Some(_), None) => seq![EntryV::Note(presence_note("GPIO_Pin_LUT"@, true, name_a, name_b))],
        (None, Some(_)) => seq![EntryV::Note(presence_note("GPIO_Pin_LUT"@, false, name_a, name_b))],
        (None, None) => seq![EntryV::Note(absence_note("GPIO_Pin_LUT"@))],
    }
}

fn holds(ids: &Vec<u8>, v: u8) -> (r: bool)
    ensures
        r == ids@.contains(v),
{
    let mut i: usize = 0;
    while i < ids.len()
        invariant
            i <= ids@.len(),
            forall|k: int| 0 <= k < i ==> ids@[k] != v,
        decreases ids@.len() - i,
    {
        if ids[i] == v {
            assert(ids@[i as int] == v);
            return true;
        }
        i = i + 1;
    }
    false
}

fn only_ids(a: &Vec<u8>, b: &Vec<u8>) -> (r: Vec<u8>)
    ensures
        r@ == ids_only(a@, b@),
{
    let mut out: Vec<u8> = Vec::new();
    let mut n: u32 = 0;
    while n < 256
        invariant
            n <= 256,
            out@ == ids_only_below(a@, b@, n as int),
        decreases 256 - n,
    {
        let v = n as u8;
        assert(v == ((n + 1) - 1) as u8);
        if holds(a, v) && !holds(b, v) {
            out.push(v);
        }
        assert(out@ =~= ids_only_below(a@, b@, n + 1));
        n = n + 1;
    }
    out
}

fn id_set_string(ids: &Vec<u8>) -> (r: String)
    ensures
        r@ == id_set_text(ids@),
{
    let mut parts: Vec<String> = Vec::new();
    let mut i: usize = 0;
    while i < ids.len()
        invariant
            i <= ids@.len(),
            parts@.len() == i,
            forall|k: int| 0 <= k < i ==> #[trigger] parts@[k]@ == dec(ids@[k] as nat),
        decreases ids@.len() - i,
    {
        parts.push(dec_string(ids[i] as u64));
        i = i + 1;
    }
    assert(views(parts@) =~= ids@.map_values(|v: u8| dec(v as nat)));
    let mut v: Vec<char> = Vec::new();
    push_str_chars(&mut v, "[");
    push_str_chars(&mut v, join_strings(&parts, ", ").as_str());
    push_str_chars(&mut v, "]");
    string_of(&v)
}

fn only_note(pal: &Palette, name: &str, ids: &Vec<u8>) -> (r: String)
    ensures
        r@ == "  "@ + painted(pal.on, warn_code(), "→"@) + " GPIO ids only in "@ + name@ + ": "@
            + id_set_text(ids@),
{
    let mut v: Vec<char> = Vec::new();
    push_str_chars(&mut v, "  ");
    push_str_chars(&mut v, pal.warn("→").as_str());
    push_str_chars(&mut v, " GPIO ids only in ");
    push_str_chars(&mut v, name);
    push_str_chars(&mut v, ": ");
    push_str_chars(&mut v, id_set_string(ids).as_str());
    string_of(&v)
}

/// Compares the GPIO pin tables of two ROMs: their numbers of pins and
/// the pin IDs that only one of them assigns, or that they assign the
/// same IDs; notes where a ROM lacks the table. `a` and `b` hold the IDs
/// of the pins.
pub fn compare_gpio(
    a: Option<&Vec<u8>>,
    b: Option<&Vec<u8>>,
    name_a: &str,
    name_b: &str,
    pal: &Palette,
    diff_only: bool,
) -> (r: String)
    ensures
        r@ == entry_section_text(
            pal.on,
            label_of(Section::Gpio),
            name_a@,
            name_b@,
            gpio_entries(
                pal.on,
                match a {
                    Some(x) => Some(x@),
                    None => None,
                },
                match b {
                    Some(y) => Some(y@),
                    None => None,
                },
                name_a@,
                name_b@,
                diff_only,
            ),
            diff_only,
        ),
{
    let ghost av = match a {
        Some(x) => Some(x@),
        None => None,
    };
    let ghost bv = match b {
        Some(y) => Some(y@),
        None => None,
    };
    let es: Vec<Entry> = match (a, b) {
        (Some(x), Some(y)) => {
            let oa = only_ids(x, y);
            let ob = only_ids(y, x);
            let mut es = vec![row("GPIO pins (count)", dec_string(x.len() as u64), dec_string(y.len() as u64))];
            let ghost e0 = entries_view(es@);
            if oa.len() > 0 {
                es.push(Entry::Note(only_note(pal, name_a, &oa)));
            }
            let ghost e1 = entries_view(es@);
            if ob.len() > 0 {
                es.push(Entry::Note(only_note(pal, name_b, &ob)));
            }
            let ghost e2 = entries_view(es@);
            if oa.len() == 0 && ob.len() == 0 && !diff_only {
                let mut v: Vec<char> = Vec::new();
                push_str_chars(&mut v, "  ");
                push_str_chars(&mut v, pal.good("same GPIO ids in both ROMs").as_str());
                es.push(Entry::Note(string_of(&v)));
            }
            let ghost arrow = painted(pal.on, warn_code(), "→"@);
            assert(e0 =~= seq![EntryV::Row("GPIO pins (count)"@, dec(x@.len()), dec(y@.len()))]);
            assert(e1 =~= e0 + (if oa@.len() > 0 {
                seq![EntryV::Note("  "@ + arrow + " GPIO ids only in "@ + name_a@ + ": "@ + id_set_text(oa@))]
            } else {
                seq![]
            }));
            assert(e2 =~= e1 + (if ob@.len() > 0 {
                seq![EntryV::Note("  "@ + arrow + " GPIO ids only in "@ + name_b@ + ": "@ + id_set_text(ob@))]
            } else {
                seq![]
            }));
            assert(entries_view(es@) =~= e2 + (if oa@.len() == 0 && ob@.len() == 0 && !diff_only {
                seq![EntryV::Note("  "@ + painted(pal.on, good_code(), "same GPIO ids in both ROMs"@))]
            } else {
                seq![]
            }));
            es
        },
        (Some(_), None) => vec![Entry::Note(presence_string("GPIO_Pin_LUT", true, name_a, name_b))],
        (None, Some(_)) => vec![Entry::Note(presence_string("GPIO_Pin_LUT", false, name_a, name_b))],
        (None, None) => vec![Entry::Note(absence_string("GPIO_Pin_LUT"))],
    };
    assert(entries_view(es@) =~= gpio_entries(pal.on, av, bv, name_a@, name_b@, diff_only));
    entry_section(pal, Section::Gpio.label(), name_a, name_b, &es, diff_only)
}

/// The line of a shown entry: a row's line, or a note and its line break.
pub open spec fn entry_line(on: bool, e: EntryV) -> Seq<char> {
    match e {
        EntryV::Row(l, a, b) => row_text(on, l, a, b),
        EntryV::Note(s) => s + "\n"@,
    }
}

/// The entry is shown: a note always, a row unless `diff_only` leaves
/// out its agreeing values.
pub open spec fn entry_shown(diff_only: bool, e: EntryV) -> bool {
    match e {
        EntryV::Row(_, a, b) => !(diff_only && a == b),
        EntryV::Note(_) => true,
    }
}

/// A shown entry's line occurs among the lines of the entries.
pub proof fn lemma_entries_contain(on: bool, diff_only: bool, es: Seq<EntryV>, k: int)
    requires
        0 <= k < es.len(),
        entry_shown(diff_only, es[k]),
    ensures
        contains_text(entries_text(on, diff_only, es), entry_line(on, es[k])),
    decreases es.len(),
{
    let init = es.drop_last();
    let line = entry_line(on, es[k]);
    let tail = match es.last() {
        EntryV::Row(l, a, b) => opt_row(on, diff_only, l, a, b),
        EntryV::Note(s) => s + "\n"@,
    };
    assert(entries_text(on, diff_only, es) == entries_text(on, diff_only, init) + tail);
    if k == es.len() - 1 {
        assert(tail == line);
        lemma_contains_self(line);
        lemma_contains_around(entries_text(on, diff_only, init), line, seq![], line);
        assert(entries_text(on, diff_only, init) + line + seq![] =~= entries_text(on, diff_only, es));
    } else {
        assert(init[k] == es[k]);
        lemma_entries_contain(on, diff_only, init, k);
        lemma_contains_around(seq![], entries_text(on, diff_only, init), tail, line);
        assert(seq![] + entries_text(on, diff_only, init) + tail =~= entries_text(on, diff_only, es));
    }
}

/// A shown entry's line occurs in the section.
pub proof fn lemma_entry_section_contains(
    on: bool,
    title: Seq<char>,
    name_a: Seq<char>,
    name_b: Seq<char>,
    es: Seq<EntryV>,
    diff_only: bool,
    k: int,
)
    requires
        0 <= k < es.len(),
        entry_shown(diff_only, es[k]),
    ensures
        contains_text(entry_section_text(on, title, name_a, name_b, es, diff_only), entry_line(on, es[k])),
{
    let s = entry_line(on, es[k]);
    lemma_entries_contain(on, diff_only, es, k);
    let head = header_row_text(on, name_a, name_b) + "\n"@;
    let body = entries_text(on, diff_only, es);
    let buf = head + body;
    lemma_contains_around(head, body, seq![], s);
    assert(head + body + seq![] =~= buf);
    let msg = "(nothing differs in this section)"@;
    let tail: Seq<char> = if any_entry_shown(diff_only, es) {
        seq![]
    } else {
        "  "@ + msg + "\n"@
    };
    assert(finished(buf, any_entry_shown(diff_only, es), msg) =~= buf + tail);
    lemma_contains_around(title_text(on, title) + "\n"@, buf, tail, s);
    assert(entry_section_text(on, title, name_a, name_b, es, diff_only) =~= title_text(on, title)
        + "\n"@ + buf + tail);
}

/// The GFX comparison shows, for two ROMs that both have the table,
/// each quantity of ROM A under A and of ROM B under B, in the row named
/// for it: IP version, shader engines, shader arrays per engine, units
/// per array, their product, render backends, tile pipes and texture
/// channel caches (each row whenever shown: always, or under `diff_only`
/// when its values differ).
pub proof fn law_asic_columns(
    x: AsicInfo,
    y: AsicInfo,
    on: bool,
    name_a: Seq<char>,
    name_b: Seq<char>,
    diff_only: bool,
)
    ensures
        ({
            let t = entry_section_text(
                on,
                label_of(Section::Asic),
                name_a,
                name_b,
                asic_entries(Some(x), Some(y), name_a, name_b),
                diff_only,
            );
            let ip_a = dec(x.gfx_ip_maj_ver as nat) + "."@ + dec(x.gfx_ip_min_ver as nat);
            let ip_b = dec(y.gfx_ip_maj_ver as nat) + "."@ + dec(y.gfx_ip_min_ver as nat);
            let cu_a = dec((x.max_shader_engines * x.max_sh_per_se * x.max_cu_per_sh) as nat);
            let cu_b = dec((y.max_shader_engines * y.max_sh_per_se * y.max_cu_per_sh) as nat);
            &&& (!diff_only || ip_a != ip_b) ==> contains_text(t, row_text(on, "GFX IP version"@, ip_a, ip_b))
            &&& (!diff_only || dec(x.max_shader_engines as nat) != dec(y.max_shader_engines as nat))
                ==> contains_text(
                t,
                row_text(
                    on,
                    "Shader engines (SE)"@,
                    dec(x.max_shader_engines as nat),
                    dec(y.max_shader_engines as nat),
                ),
            )
            &&& (!diff_only || dec(x.max_sh_per_se as nat) != dec(y.max_sh_per_se as nat)) ==> contains_text(
                t,
                row_text(on, "Shader arrays per SE"@, dec(x.max_sh_per_se as nat), dec(y.max_sh_per_se as nat)),
            )
            &&& (!diff_only || dec(x.max_cu_per_sh as nat) != dec(y.max_cu_per_sh as nat)) ==> contains_text(
                t,
                row_text(on, "Compute units per SH"@, dec(x.max_cu_per_sh as nat), dec(y.max_cu_per_sh as nat)),
            )
            &&& (!diff_only || cu_a != cu_b) ==> contains_text(t, row_text(on, "Total CUs (max)"@, cu_a, cu_b))
            &&& (!diff_only || dec(x.max_backends_per_se as nat) != dec(y.max_backends_per_se as nat))
                ==> contains_text(
                t,
                row_text(
                    on,
                    "Render backends per SE"@,
                    dec(x.max_backends_per_se as nat),
                    dec(y.max_backends_per_se as nat),
                ),
            )
            &&& (!diff_only || dec(x.max_tile_pipes as nat) != dec(y.max_tile_pipes as nat)) ==> contains_text(
                t,
                row_text(on, "Tile pipes"@, dec(x.max_tile_pipes as nat), dec(y.max_tile_pipes as nat)),
            )
            &&& (!diff_only || dec(x.max_texture_channel_caches as nat) != dec(
                y.max_texture_channel_caches as nat,
            )) ==> contains_text(
                t,
                row_text(
                    on,
                    "Texture channel caches"@,
                    dec(x.max_texture_channel_caches as nat),
                    dec(y.max_texture_channel_caches as nat),
                ),
            )
        }),
{
    let es = asic_entries(Some(x), Some(y), name_a, name_b);
    let t = label_of(Section::Asic);
    assert(es.len() == 8);
    if entry_shown(diff_only, es[0]) {
        lemma_entry_section_contains(on, t, name_a, name_b, es, diff_only, 0);
    }
    if entry_shown(diff_only, es[1]) {
        lemma_entry_section_contains(on, t, name_a, name_b, es, diff_only, 1);
    }
    if entry_shown(diff_only, es[2]) {
        lemma_entry_section_contains(on, t, name_a, name_b, es, diff_only, 2);
    }
    if entry_shown(diff_only, es[3]) {
        lemma_entry_section_contains(on, t, name_a, name_b, es, diff_only, 3);
    }
    if entry_shown(diff_only, es[4]) {
        lemma_entry_section_contains(on, t, name_a, name_b, es, diff_only, 4);
    }
    if entry_shown(diff_only, es[5]) {
        lemma_entry_section_contains(on, t, name_a, name_b, es, diff_only, 5);
    }
    if entry_shown(diff_only, es[6]) {
        lemma_entry_section_contains(on, t, name_a, name_b, es, diff_only, 6);
    }
    if entry_shown(diff_only, es[7]) {
        lemma_entry_section_contains(on, t, name_a, name_b, es, diff_only, 7);
    }
}

/// Where only one ROM has the GFX table, the comparison says which one;
/// where neither has it, it says so.
pub proof fn law_asic_presence(
    a: Option<AsicInfo>,
    b: Option<AsicInfo>,
    on: bool,
    name_a: Seq<char>,
    name_b: Seq<char>,
    diff_only: bool,
)
    ensures
        ({
            let t = entry_section_text(on, label_of(Section::Asic), name_a, name_b, asic_entries(a, b, name_a, name_b), diff_only);
            &&& (a is Some && b is None) ==> contains_text(t, "  GFX_Info table present only in "@ + name_a + "\n"@)
            &&& (a is None && b is Some) ==> contains_text(t, "  GFX_Info table present only in "@ + name_b + "\n"@)
            &&& (a is None && b is None) ==> contains_text(t, "  GFX_Info table not present in either ROM\n"@)
        }),
{
    if a is None || b is None {
        let es = asic_entries(a, b, name_a, name_b);
        lemma_entry_section_contains(on, label_of(Section::Asic), name_a, name_b, es, diff_only, 0);
        let line = entry_line(on, es[0]);
        reveal_strlit("  ");
        reveal_strlit("GFX_Info");
        reveal_strlit(" table present only in ");
        reveal_strlit(" table not present in either ROM");
        reveal_strlit("\n");
        reveal_strlit("  GFX_Info table present only in ");
        reveal_strlit("  GFX_Info table not present in either ROM\n");
        if a is Some {
            assert(line =~= "  GFX_Info table present only in "@ + name_a + "\n"@);
        } else if b is Some {
            assert(line =~= "  GFX_Info table present only in "@ + name_b + "\n"@);
        } else {
            assert(line =~= "  GFX_Info table not present in either ROM\n"@);
        }
    }
}

/// The cells of one GFX quantity across ROMs: the quantity of each ROM
/// that has the table, `-` for one that lacks it.
pub open spec fn gfx_cells(asics: Seq<Option<AsicInfo>>, f: spec_fn(AsicInfo) -> Seq<char>) -> Seq<Seq<char>> {
    asics.map_values(
        |o: Option<AsicInfo>|
            match o {
                Some(x) => f(x),
                None => "-"@,
            },
    )
}

/// In the GFX matrix of several ROMs, the cell of each ROM in the row of
/// a quantity is that ROM's value of the quantity (`-` without the
/// table): IP version, shader engines, units per array, their product
/// with the arrays per engine, and render backends (each row whenever
/// shown: always, or under `diff_only` when its cells are not all equal).
pub proof fn law_asic_matrix_cells(
    asics: Seq<Option<AsicInfo>>,
    names: Seq<Seq<char>>,
    on: bool,
    diff_only: bool,
)
    ensures
        ({
            let t = matrix_section_text(
                on,
                label_of(Section::Asic),
                names,
                asics.len(),
                Seq::new(
                    5,
                    |k: int| (asic_labels()[k], asics.map_values(|o: Option<AsicInfo>| asic_cell(o, k))),
                ),
                diff_only,
            );
            let cw = col_width_for(asics.len());
            let ip = gfx_cells(asics, |x: AsicInfo| dec(x.gfx_ip_maj_ver as nat) + "."@ + dec(x.gfx_ip_min_ver as nat));
            let se = gfx_cells(asics, |x: AsicInfo| dec(x.max_shader_engines as nat));
            let cu = gfx_cells(asics, |x: AsicInfo| dec(x.max_cu_per_sh as nat));
            let tot = gfx_cells(
                asics,
                |x: AsicInfo| dec((x.max_shader_engines * x.max_sh_per_se * x.max_cu_per_sh) as nat),
            );
            let rb = gfx_cells(asics, |x: AsicInfo| dec(x.max_backends_per_se as nat));
            &&& (!diff_only || !all_same(ip)) ==> contains_text(t, all_matrix_row_text(on, 24, cw, "GFX IP version"@, ip))
            &&& (!diff_only || !all_same(se)) ==> contains_text(t, all_matrix_row_text(on, 24, cw, "Shader engines (SE)"@, se))
            &&& (!diff_only || !all_same(cu)) ==> contains_text(t, all_matrix_row_text(on, 24, cw, "Compute units per SH"@, cu))
            &&& (!diff_only || !all_same(tot)) ==> contains_text(t, all_matrix_row_text(on, 24, cw, "Total CUs (max)"@, tot))
            &&& (!diff_only || !all_same(rb)) ==> contains_text(t, all_matrix_row_text(on, 24, cw, "Render backends per SE"@, rb))
        }),
{
    let rows = Seq::new(
        5,
        |k: int| (asic_labels()[k], asics.map_values(|o: Option<AsicInfo>| asic_cell(o, k))),
    );
    let cw = col_width_for(asics.len());
    let ip = gfx_cells(asics, |x: AsicInfo| dec(x.gfx_ip_maj_ver as nat) + "."@ + dec(x.gfx_ip_min_ver as nat));
    let se = gfx_cells(asics, |x: AsicInfo| dec(x.max_shader_engines as nat));
    let cu = gfx_cells(asics, |x: AsicInfo| dec(x.max_cu_per_sh as nat));
    let tot = gfx_cells(
        asics,
        |x: AsicInfo| dec((x.max_shader_engines * x.max_sh_per_se * x.max_cu_per_sh) as nat),
    );
    let rb = gfx_cells(asics, |x: AsicInfo| dec(x.max_backends_per_se as nat));
    assert(rows[0].1 =~= ip);
    assert(rows[1].1 =~= se);
    assert(rows[2].1 =~= cu);
    assert(rows[3].1 =~= tot);
    assert(rows[4].1 =~= rb);
    if !(diff_only && all_same(rows[0].1)) {
        lemma_matrix_rows_contain(on, cw, diff_only, rows, 0);
        lemma_matrix_contains(
            on,
            label_of(Section::Asic),
            names,
            asics.len(),
            rows,
            diff_only,
            all_matrix_row_text(on, 24, cw, rows[0].0, rows[0].1),
        );
    }
    if !(diff_only && all_same(rows[1].1)) {
        lemma_matrix_rows_contain(on, cw, diff_only, rows, 1);
        lemma_matrix_contains(
            on,
            label_of(Section::Asic),
            names,
            asics.len(),
            rows,
            diff_only,
            all_matrix_row_text(on, 24, cw, rows[1].0, rows[1].1),
        );
    }
    if !(diff_only && all_same(rows[2].1)) {
        lemma_matrix_rows_contain(on, cw, diff_only, rows, 2);
        lemma_matrix_contains(
            on,
            label_of(Section::Asic),
            names,
            asics.len(),
            rows,
            diff_only,
            all_matrix_row_text(on, 24, cw, rows[2].0, rows[2].1),
        );
    }
    if !(diff_only && all_same(rows[3].1)) {
        lemma_matrix_rows_contain(on, cw, diff_only, rows, 3);
        lemma_matrix_contains(
            on,
            label_of(Section::Asic),
            names,
            asics.len(),
            rows,
            diff_only,
            all_matrix_row_text(on, 24, cw, rows[3].0, rows[3].1),
        );
    }
    if !(diff_only && all_same(rows[4].1)) {
        lemma_matrix_rows_contain(on, cw, diff_only, rows, 4);
        lemma_matrix_contains(
            on,
            label_of(Section::Asic),
            names,
            asics.len(),
            rows,
            diff_only,
            all_matrix_row_text(on, 24, cw, rows[4].0, rows[4].1),
        );
    }
}

/// An entry of a two-ROM section, whenever shown, occurs in the section.
proof fn lemma_entry_shows(
    on: bool,
    title: Seq<char>,
    name_a: Seq<char>,
    name_b: Seq<char>,
    es: Seq<EntryV>,
    diff_only: bool,
    e: EntryV,
)
    requires
        es.contains(e),
    ensures
        entry_shown(diff_only, e) ==> contains_text(
            entry_section_text(on, title, name_a, name_b, es, diff_only),
            entry_line(on, e),
        ),
{
    let k = choose|k: int| 0 <= k < es.len() && es[k] == e;
    if entry_shown(diff_only, e) {
        lemma_entry_section_contains(on, title, name_a, name_b, es, diff_only, k);
    }
}

proof fn lemma_line_entries_has(
    a: Seq<I2cLine>,
    b: Seq<I2cLine>,
    name_a: Seq<char>,
    name_b: Seq<char>,
    n: int,
    i: int,
    e: EntryV,
)
    requires
        0 <= i < n,
        line_step(a, b, name_a, name_b, i).contains(e),
    ensures
        line_entries(a, b, name_a, name_b, n).contains(e),
    decreases n,
{
    let init = line_entries(a, b, name_a, name_b, n - 1);
    let st = line_step(a, b, name_a, name_b, n - 1);
    assert(line_entries(a, b, name_a, name_b, n) == init + st);
    if i == n - 1 {
        let k = choose|k: int| 0 <= k < st.len() && st[k] == e;
        assert((init + st)[init.len() + k] == e);
    } else {
        lemma_line_entries_has(a, b, name_a, name_b, n - 1, i, e);
        let k = choose|k: int| 0 <= k < init.len() && init[k] == e;
        assert((init + st)[k] == e);
    }
}

/// A register in hex as `0x` and `w` digits.
pub open spec fn reg_hex(n: nat, w: nat) -> Seq<char> {
    "0x"@ + zero_padded(hex(n), w)
}

/// The clock pins of an I2C line as the comparison shows them: the mask
/// register, then the mask, enable, Y and A shifts.
pub open spec fn i2c_clk_cell(l: I2cLine) -> Seq<char> {
    reg_hex(l.clk_mask_reg as nat, 4) + " mask/en/y/a "@ + reg_hex(l.clk_mask_shift as nat, 2) + "/"@
        + reg_hex(l.clk_en_shift as nat, 2) + "/"@ + reg_hex(l.clk_y_shift as nat, 2) + "/"@ + reg_hex(
        l.clk_a_shift as nat,
        2,
    )
}

/// The data pins of an I2C line, as for the clock pins.
pub open spec fn i2c_data_cell(l: I2cLine) -> Seq<char> {
    reg_hex(l.data_mask_reg as nat, 4) + " mask/en/y/a "@ + reg_hex(l.data_mask_shift as nat, 2) + "/"@
        + reg_hex(l.data_en_shift as nat, 2) + "/"@ + reg_hex(l.data_y_shift as nat, 2) + "/"@ + reg_hex(
        l.data_a_shift as nat,
        2,
    )
}

/// The line IDs of an I2C table as `[0A, 90]`.
pub open spec fn i2c_ids_cell_text(ls: Seq<I2cLine>) -> Seq<char> {
    "["@ + joined(ls.map_values(|l: I2cLine| zero_padded(hex(l.i2c_id as nat), 2)), ", "@) + "]"@
}

/// The I2C comparison of two ROMs that both have the table shows ROM A's
/// number of lines and line IDs under A and ROM B's under B (whenever
/// the row is shown).
pub proof fn law_i2c_columns(
    x: Seq<I2cLine>,
    y: Seq<I2cLine>,
    on: bool,
    name_a: Seq<char>,
    name_b: Seq<char>,
    diff_only: bool,
)
    ensures
        ({
            let t = entry_section_text(on, label_of(Section::I2c), name_a, name_b, i2c_entries(Some(x), Some(y), name_a, name_b), diff_only);
            &&& (!diff_only || dec(x.len()) != dec(y.len())) ==> contains_text(
                t,
                row_text(on, "I2C lines (count)"@, dec(x.len()), dec(y.len())),
            )
            &&& (!diff_only || i2c_ids_cell_text(x) != i2c_ids_cell_text(y)) ==> contains_text(
                t,
                row_text(on, "Line ids"@, i2c_ids_cell_text(x), i2c_ids_cell_text(y)),
            )
        }),
{
    let es = i2c_entries(Some(x), Some(y), name_a, name_b);
    let tl = label_of(Section::I2c);
    if entry_shown(diff_only, es[0]) {
        lemma_entry_section_contains(on, tl, name_a, name_b, es, diff_only, 0);
    }
    if entry_shown(diff_only, es[1]) {
        lemma_entry_section_contains(on, tl, name_a, name_b, es, diff_only, 1);
    }
}

/// For every position `i` of the I2C tables of two ROMs: where both
/// have a line there, the clock and the data pins of ROM A's line show
/// under A and ROM B's under B (whenever the row is shown); where only
/// one has a line there, a note names that ROM.
#[verifier::rlimit(40)]
pub proof fn law_i2c_line(
    x: Seq<I2cLine>,
    y: Seq<I2cLine>,
    on: bool,
    name_a: Seq<char>,
    name_b: Seq<char>,
    diff_only: bool,
    i: int,
)
    requires
        0 <= i,
    ensures
        ({
            let t = entry_section_text(on, label_of(Section::I2c), name_a, name_b, i2c_entries(Some(x), Some(y), name_a, name_b), diff_only);
            &&& (i < x.len() && i < y.len() && (!diff_only || i2c_clk_cell(x[i]) != i2c_clk_cell(y[i])))
                ==> contains_text(
                t,
                row_text(on, "line "@ + dec(i as nat) + " clk"@, i2c_clk_cell(x[i]), i2c_clk_cell(y[i])),
            )
            &&& (i < x.len() && i < y.len() && (!diff_only || i2c_data_cell(x[i]) != i2c_data_cell(y[i])))
                ==> contains_text(
                t,
                row_text(on, "  "@ + dec(i as nat) + " data"@, i2c_data_cell(x[i]), i2c_data_cell(y[i])),
            )
            &&& (y.len() <= i < x.len()) ==> contains_text(
                t,
                "  I2C line "@ + dec(i as nat) + " present only in "@ + name_a + "\n"@,
            )
            &&& (x.len() <= i < y.len()) ==> contains_text(
                t,
                "  line "@ + dec(i as nat) + " present only in "@ + name_b + "\n"@,
            )
        }),
{
    let es = i2c_entries(Some(x), Some(y), name_a, name_b);
    let tl = label_of(Section::I2c);
    let n: int = if x.len() >= y.len() {
        x.len() as int
    } else {
        y.len() as int
    };
    let le = line_entries(x, y, name_a, name_b, n);
    if i < n {
        let st = line_step(x, y, name_a, name_b, i);
        if i < x.len() && i < y.len() {
            assert(clk_text(x[i]) == i2c_clk_cell(x[i]));
            assert(clk_text(y[i]) == i2c_clk_cell(y[i]));
            assert(data_text(x[i]) == i2c_data_cell(x[i]));
            assert(data_text(y[i]) == i2c_data_cell(y[i]));
        }
        assert(st.contains(st[0]));
        lemma_line_entries_has(x, y, name_a, name_b, n, i, st[0]);
        let k = choose|k: int| 0 <= k < le.len() && le[k] == st[0];
        assert(es[k + 2] == st[0]);
        lemma_entry_shows(on, tl, name_a, name_b, es, diff_only, st[0]);
        if st.len() >= 2 {
            assert(st.contains(st[1]));
            lemma_line_entries_has(x, y, name_a, name_b, n, i, st[1]);
            let k2 = choose|k: int| 0 <= k < le.len() && le[k] == st[1];
            assert(es[k2 + 2] == st[1]);
            lemma_entry_shows(on, tl, name_a, name_b, es, diff_only, st[1]);
        }
        reveal_strlit("\n");
    }
}

/// The IDs that one ROM's GPIO note lists are exactly the IDs that ROM
/// assigns and the other does not, each once, in increasing order.
pub proof fn law_gpio_ids_only(a: Seq<u8>, b: Seq<u8>)
    ensures
        forall|v: u8| ids_only(a, b).contains(v) <==> (a.contains(v) && !b.contains(v)),
        forall|i: int, j: int| 0 <= i < j < ids_only(a, b).len() ==> ids_only(a, b)[i] < ids_only(a, b)[j],
{
    lemma_ids_only_below(a, b, 256);
    assert forall|v: u8| ids_only(a, b).contains(v) <==> (a.contains(v) && !b.contains(v)) by {
        assert((v as int) < 256);
    }
}

proof fn lemma_ids_only_below(a: Seq<u8>, b: Seq<u8>, n: int)
    requires
        0 <= n <= 256,
    ensures
        forall|v: u8| ids_only_below(a, b, n).contains(v) <==> ((v as int) < n && a.contains(v) && !b.contains(v)),
        forall|i: int, j: int|
            0 <= i < j < ids_only_below(a, b, n).len() ==> ids_only_below(a, b, n)[i] < ids_only_below(a, b, n)[j],
        forall|i: int| 0 <= i < ids_only_below(a, b, n).len() ==> (ids_only_below(a, b, n)[i] as int) < n,
    decreases n,
{
    if n > 0 {
        lemma_ids_only_below(a, b, n - 1);
        let init = ids_only_below(a, b, n - 1);
        let v0 = (n - 1) as u8;
        assert(v0 as int == n - 1);
        let tail: Seq<u8> = if a.contains(v0) && !b.contains(v0) {
            seq![v0]
        } else {
            seq![]
        };
        let all = init + tail;
        assert(ids_only_below(a, b, n) == all);
        assert forall|v: u8| all.contains(v) <==> ((v as int) < n && a.contains(v) && !b.contains(v)) by {
            if all.contains(v) {
                let k = choose|k: int| 0 <= k < all.len() && all[k] == v;
                if k < init.len() {
                    assert(init[k] == v);
                    assert(init.contains(v));
                } else {
                    assert(tail[k - init.len()] == v);
                }
            }
            if (v as int) < n && a.contains(v) && !b.contains(v) {
                if (v as int) < n - 1 {
                    let k = choose|k: int| 0 <= k < init.len() && init[k] == v;
                    assert(all[k] == v);
                } else {
                    assert(v == v0);
                    assert(all[init.len() as int] == v);
                }
            }
        }
    }
}

/// A list of IDs in decimal, as `[3, 9]`.
pub open spec fn dec_list(ids: Seq<u8>) -> Seq<char> {
    "["@ + joined(ids.map_values(|v: u8| dec(v as nat)), ", "@) + "]"@
}

/// The GPIO comparison of two ROMs that both have the pin table shows
/// ROM A's pin count under A and ROM B's under B (whenever shown), and a
/// note for each ROM that assigns IDs the other does not, listing them
/// (the list of `law_gpio_ids_only`); when neither does, and not under
/// `diff_only`, a note that the IDs are the same.
pub proof fn law_gpio_notes(a: Seq<u8>, b: Seq<u8>, on: bool, name_a: Seq<char>, name_b: Seq<char>, diff_only: bool)
    ensures
        ({
            let t = entry_section_text(
                on,
                label_of(Section::Gpio),
                name_a,
                name_b,
                gpio_entries(on, Some(a), Some(b), name_a, name_b, diff_only),
                diff_only,
            );
            let arrow = painted(on, warn_code(), "→"@);
            let oa = ids_only(a, b);
            let ob = ids_only(b, a);
            &&& (!diff_only || dec(a.len()) != dec(b.len())) ==> contains_text(
                t,
                row_text(on, "GPIO pins (count)"@, dec(a.len()), dec(b.len())),
            )
            &&& oa.len() > 0 ==> contains_text(
                t,
                "  "@ + arrow + " GPIO ids only in "@ + name_a + ": "@ + dec_list(oa) + "\n"@,
            )
            &&& ob.len() > 0 ==> contains_text(
                t,
                "  "@ + arrow + " GPIO ids only in "@ + name_b + ": "@ + dec_list(ob) + "\n"@,
            )
            &&& (oa.len() == 0 && ob.len() == 0 && !diff_only) ==> contains_text(
                t,
                "  "@ + painted(on, good_code(), "same GPIO ids in both ROMs"@) + "\n"@,
            )
        }),
{
    let es = gpio_entries(on, Some(a), Some(b), name_a, name_b, diff_only);
    let tl = label_of(Section::Gpio);
    let oa = ids_only(a, b);
    let ob = ids_only(b, a);
    let arrow = painted(on, warn_code(), "→"@);
    let na = EntryV::Note("  "@ + arrow + " GPIO ids only in "@ + name_a + ": "@ + id_set_text(oa));
    let nb = EntryV::Note("  "@ + arrow + " GPIO ids only in "@ + name_b + ": "@ + id_set_text(ob));
    let same = EntryV::Note("  "@ + painted(on, good_code(), "same GPIO ids in both ROMs"@));
    if entry_shown(diff_only, es[0]) {
        lemma_entry_section_contains(on, tl, name_a, name_b, es, diff_only, 0);
    }
    assert(id_set_text(oa) == dec_list(oa));
    assert(id_set_text(ob) == dec_list(ob));
    if oa.len() > 0 {
        assert(es[1] == na);
        lemma_entry_section_contains(on, tl, name_a, name_b, es, diff_only, 1);
    }
    if ob.len() > 0 {
        let k: int = if oa.len() > 0 { 2 } else { 1 };
        assert(es[k] == nb);
        lemma_entry_section_contains(on, tl, name_a, name_b, es, diff_only, k);
    }
    if oa.len() == 0 && ob.len() == 0 && !diff_only {
        assert(es[1] == same);
        lemma_entry_section_contains(on, tl, name_a, name_b, es, diff_only, 1);
    }
}

} // verus!
