//! Comparison sections built from rows: the identification and VRM
//! sections, side by side for two ROMs and as a matrix for several.

use vstd::prelude::*;

use crate::compare::{header_row_text, row_text, title, title_text, Table};
use crate::compare_all::{
    all_same, col_width_for, matrix_header_text as all_matrix_header_text,
    matrix_row_text as all_matrix_row_text, Matrix,
};
use crate::compare_util::finished;
use crate::num::{dec, hex, push_dec, push_hex, zero_padded};
use crate::render::color::Palette;
use crate::render::header::{join_strings, HeaderInfo};
use crate::render::profiling::ProfilingInfo;
use crate::render::text::div_round_even;
use crate::render::sections::{label_of, Section};
use crate::render::vrm::{VoltageObject, VoltageObjectDetail, VrmInfo};
use crate::straps::opt_row;
use crate::textutil::{
    contains_text, joined, lemma_contains_around, lemma_contains_self, push_str_chars, string_of,
    views,
};

verus! {

/// A comparison row as text: label, value of A, value of B.
pub type RowV = (Seq<char>, Seq<char>, Seq<char>);

/// The rows as text.
pub open spec fn rows_view(rows: Seq<(String, String, String)>) -> Seq<RowV> {
    rows.map_values(|r: (String, String, String)| (r.0@, r.1@, r.2@))
}

/// The lines of the rows; under `diff_only` the rows whose values agree
/// are left out.
pub open spec fn rows_text(on: bool, diff_only: bool, rows: Seq<RowV>) -> Seq<char>
    decreases rows.len(),
{
    if rows.len() == 0 {
        seq![]
    } else {
        let r = rows.last();
        rows_text(on, diff_only, rows.drop_last()) + opt_row(on, diff_only, r.0, r.1, r.2)
    }
}

/// Some row is shown.
pub open spec fn any_shown(diff_only: bool, rows: Seq<RowV>) -> bool
    decreases rows.len(),
{
    rows.len() > 0 && (any_shown(diff_only, rows.drop_last()) || !(diff_only && rows.last().1
        == rows.last().2))
}

/// Some matrix row is shown.
pub open spec fn any_matrix_shown(diff_only: bool, rows: Seq<MatrixRowV>) -> bool
    decreases rows.len(),
{
    rows.len() > 0 && (any_matrix_shown(diff_only, rows.drop_last()) || !(diff_only && all_same(
        rows.last().1,
    )))
}

/// A two-ROM comparison section: its title, the table heading, the rows,
/// or a note when `diff_only` left none.
pub open spec fn pair_section_text(
    on: bool,
    title: Seq<char>,
    name_a: Seq<char>,
    name_b: Seq<char>,
    rows: Seq<RowV>,
    diff_only: bool,
) -> Seq<char> {
    title_text(on, title) + "\n"@ + finished(
        header_row_text(on, name_a, name_b) + "\n"@ + rows_text(on, diff_only, rows),
        any_shown(diff_only, rows),
        "(nothing differs in this section)"@,
    )
}

/// Renders a two-ROM comparison section from its rows.
pub fn pair_section(
    pal: &Palette,
    title_s: &str,
    name_a: &str,
    name_b: &str,
    rows: &Vec<(String, String, String)>,
    diff_only: bool,
) -> (r: String)
    ensures
        r@ == pair_section_text(pal.on, title_s@, name_a@, name_b@, rows_view(rows@), diff_only),
{
    let ghost rv = rows_view(rows@);
    let mut t = Table::new(pal, diff_only);
    t.header(name_a, name_b);
    let ghost start = t.buf@;
    let mut k: usize = 0;
    while k < rows.len()
        invariant
            k <= rows@.len(),
            rv == rows_view(rows@),
            t.pal == pal,
            t.diff_only == diff_only,
            t.buf@ == start + rows_text(pal.on, diff_only, rv.take(k as int)),
            t.any_row == any_shown(diff_only, rv.take(k as int)),
        decreases rows@.len() - k,
    {
        t.row(rows[k].0.as_str(), rows[k].1.as_str(), rows[k].2.as_str());
        proof {
            let p = rv.take(k + 1);
            assert(p.drop_last() == rv.take(k as int));
            assert(p.last() == rv[k as int]);
        }
        k = k + 1;
    }
    assert(rv.take(rows@.len() as int) == rv);
    let mut out: Vec<char> = Vec::new();
    push_str_chars(&mut out, title(pal, title_s).as_str());
    push_str_chars(&mut out, "\n");
    push_str_chars(&mut out, t.finish("(nothing differs in this section)").as_str());
    string_of(&out)
}

/// A matrix row as text: label and the value of each ROM.
pub type MatrixRowV = (Seq<char>, Seq<Seq<char>>);

/// The lines of the matrix rows; under `diff_only` the rows whose
/// values all agree are left out.
pub open spec fn matrix_rows_text(
    on: bool,
    col_w: nat,
    diff_only: bool,
    rows: Seq<MatrixRowV>,
) -> Seq<char>
    decreases rows.len(),
{
    if rows.len() == 0 {
        seq![]
    } else {
        let r = rows.last();
        matrix_rows_text(on, col_w, diff_only, rows.drop_last()) + if diff_only && all_same(r.1) {
            seq![]
        } else {
            all_matrix_row_text(on, 24, col_w, r.0, r.1)
        }
    }
}

/// A matrix comparison section of `n` ROMs with one row per
/// `(label, values)` entry.
pub open spec fn matrix_section_text(
    on: bool,
    title: Seq<char>,
    names: Seq<Seq<char>>,
    n: nat,
    rows: Seq<MatrixRowV>,
    diff_only: bool,
) -> Seq<char> {
    title_text(on, title) + "\n"@ + finished(
        all_matrix_header_text(on, 24, col_width_for(n), names) + matrix_rows_text(
            on,
            col_width_for(n),
            diff_only,
            rows,
        ),
        any_matrix_shown(diff_only, rows),
        "(nothing differs in this section)"@,
    )
}

/// Renders a matrix comparison section of `n` ROMs from its rows.
pub fn matrix_section(
    pal: &Palette,
    title_s: &str,
    names: &[String],
    n: usize,
    labels: &Vec<String>,
    values: &Vec<Vec<String>>,
    diff_only: bool,
) -> (r: String)
    requires
        names@.len() * 27 + 26 <= usize::MAX,
        labels@.len() == values@.len(),
    ensures
        r@ == matrix_section_text(
            pal.on,
            title_s@,
            views(names@),
            n as nat,
            Seq::new(labels@.len(), |i: int| (labels@[i]@, views(values@[i]@))),
            diff_only,
        ),
{
    let ghost rows = Seq::new(labels@.len(), |i: int| (labels@[i]@, views(values@[i]@)));
    let mut m = Matrix::new(pal, n, diff_only);
    let ghost cw = m.col_w as int;
    let ghost nn = names@.len() as int;
    assert(nn * (cw + 1) <= nn * 27) by (nonlinear_arith)
        requires
            0 <= cw <= 26,
            0 <= nn,
    ;
    m.header(names);
    let ghost start = m.buf@;
    let mut k: usize = 0;
    while k < labels.len()
        invariant
            k <= labels@.len(),
            labels@.len() == values@.len(),
            rows == Seq::new(labels@.len(), |i: int| (labels@[i]@, views(values@[i]@))),
            m.pal == pal,
            m.diff_only == diff_only,
            m.col_w == col_width_for(n as nat),
            m.name_w == 24,
            m.buf@ == start + matrix_rows_text(
                pal.on,
                col_width_for(n as nat),
                diff_only,
                rows.take(k as int),
            ),
            m.any_row == any_matrix_shown(diff_only, rows.take(k as int)),
        decreases labels@.len() - k,
    {
        m.row(labels[k].as_str(), values[k].as_slice());
        proof {
            let p = rows.take(k + 1);
            assert(p.drop_last() == rows.take(k as int));
            assert(p.last() == rows[k as int]);
            assert(views(values@[k as int]@) == rows[k as int].1);
        }
        k = k + 1;
    }
    assert(rows.take(labels@.len() as int) == rows);
    let mut out: Vec<char> = Vec::new();
    push_str_chars(&mut out, title(pal, title_s).as_str());
    push_str_chars(&mut out, "\n");
    push_str_chars(&mut out, m.finish("(nothing differs in this section)").as_str());
    string_of(&out)
}

/// `true` or `false`.
pub open spec fn bool_text(b: bool) -> Seq<char> {
    if b {
        "true"@
    } else {
        "false"@
    }
}

/// The subsystem vendor: its catalogued name, else its ID in hex.
pub open spec fn vendor_text(h: HeaderInfo) -> Seq<char> {
    match h.subsystem_vendor_name {
        Some(n) => n@,
        None => "0x"@ + zero_padded(hex(h.subsystem_vendor_id as nat), 4),
    }
}

/// `major.minor`.
pub open spec fn pp_rev_text(h: HeaderInfo) -> Seq<char> {
    dec(h.pp_fmt_rev as nat) + "."@ + dec(h.pp_cont_rev as nat)
}

/// The rows of the identification section of two ROMs.
pub open spec fn header_rows(a: HeaderInfo, b: HeaderInfo) -> Seq<RowV> {
    seq![
        ("File size (bytes)"@, dec(a.file_size as nat), dec(b.file_size as nat)),
        ("PowerPlay format/revision"@, pp_rev_text(a), pp_rev_text(b)),
        ("PowerPlay table revision"@, dec(a.pp_table_revision as nat), dec(b.pp_table_revision as nat)),
        ("Subsystem vendor"@, vendor_text(a), vendor_text(b)),
        ("Checksum valid"@, bool_text(a.checksum_valid), bool_text(b.checksum_valid)),
        (
            "Build date (heuristic)"@,
            joined(views(a.build_date_candidates@), " · "@),
            joined(views(b.build_date_candidates@), " · "@),
        ),
    ]
}

fn dec_string(n: u64) -> (r: String)
    ensures
        r@ == dec(n as nat),
{
    let mut v: Vec<char> = Vec::new();
    push_dec(&mut v, n);
    string_of(&v)
}

fn text_string(s: &str) -> (r: String)
    ensures
        r@ == s@,
{
    let mut v: Vec<char> = Vec::new();
    push_str_chars(&mut v, s);
    string_of(&v)
}

fn bool_string(b: bool) -> (r: String)
    ensures
        r@ == bool_text(b),
{
    if b {
        text_string("true")
    } else {
        text_string("false")
    }
}

fn vendor_string(h: &HeaderInfo) -> (r: String)
    ensures
        r@ == vendor_text(*h),
{
    match &h.subsystem_vendor_name {
        Some(n) => n.clone(),
        None => {
            let mut v: Vec<char> = Vec::new();
            push_str_chars(&mut v, "0x");
            push_hex(&mut v, h.subsystem_vendor_id as u64, 4);
            string_of(&v)
        },
    }
}

fn pp_rev_string(h: &HeaderInfo) -> (r: String)
    ensures
        r@ == pp_rev_text(*h),
{
    let mut v: Vec<char> = Vec::new();
    push_dec(&mut v, h.pp_fmt_rev as u64);
    push_str_chars(&mut v, ".");
    push_dec(&mut v, h.pp_cont_rev as u64);
    string_of(&v)
}

/// Compares the identification sections of two ROMs: file size,
/// PowerPlay format and revision, subsystem vendor, checksum validity
/// and build date candidates.
pub fn compare_header(
    a: &HeaderInfo,
    b: &HeaderInfo,
    name_a: &str,
    name_b: &str,
    pal: &Palette,
    diff_only: bool,
) -> (r: String)
    ensures
        r@ == pair_section_text(
            pal.on,
            label_of(Section::Header),
            name_a@,
            name_b@,
            header_rows(*a, *b),
            diff_only,
        ),
{
    let rows: Vec<(String, String, String)> = vec![
        (text_string("File size (bytes)"), dec_string(a.file_size as u64), dec_string(b.file_size as u64)),
        (text_string("PowerPlay format/revision"), pp_rev_string(a), pp_rev_string(b)),
        (
            text_string("PowerPlay table revision"),
            dec_string(a.pp_table_revision),
            dec_string(b.pp_table_revision),
        ),
        (text_string("Subsystem vendor"), vendor_string(a), vendor_string(b)),
        (text_string("Checksum valid"), bool_string(a.checksum_valid), bool_string(b.checksum_valid)),
        (
            text_string("Build date (heuristic)"),
            join_strings(&a.build_date_candidates, " · "),
            join_strings(&b.build_date_candidates, " · "),
        ),
    ];
    assert(rows_view(rows@) =~= header_rows(*a, *b));
    pair_section(pal, Section::Header.label(), name_a, name_b, &rows, diff_only)
}

/// The rows of the identification section of several ROMs.
pub open spec fn header_matrix_rows(hs: Seq<HeaderInfo>) -> Seq<MatrixRowV> {
    seq![
        ("Size (bytes)"@, hs.map_values(|h: HeaderInfo| dec(h.file_size as nat))),
        ("PowerPlay format"@, hs.map_values(|h: HeaderInfo| pp_rev_text(h))),
        ("Subsystem vendor"@, hs.map_values(|h: HeaderInfo| vendor_text(h))),
        ("Checksum valid"@, hs.map_values(|h: HeaderInfo| bool_text(h.checksum_valid))),
    ]
}

/// The values of one row of the multi-ROM identification section.
pub open spec fn header_cell(h: HeaderInfo, row: nat) -> Seq<char> {
    if row == 0 {
        dec(h.file_size as nat)
    } else if row == 1 {
        pp_rev_text(h)
    } else if row == 2 {
        vendor_text(h)
    } else {
        bool_text(h.checksum_valid)
    }
}

fn header_column(heads: &[HeaderInfo], row: usize) -> (r: Vec<String>)
    requires
        row < 4,
    ensures
        views(r@) == header_matrix_rows(heads@)[row as int].1,
{
    let mut v: Vec<String> = Vec::new();
    let mut i: usize = 0;
    while i < heads.len()
        invariant
            i <= heads@.len(),
            row < 4,
            forall|k: int| 0 <= k < v@.len() ==> #[trigger] v@[k]@ == header_cell(heads@[k], row as nat),
            v@.len() == i,
        decreases heads@.len() - i,
    {
        let h = &heads[i];
        let c = if row == 0 {
            dec_string(h.file_size as u64)
        } else if row == 1 {
            pp_rev_string(h)
        } else if row == 2 {
            vendor_string(h)
        } else {
            bool_string(h.checksum_valid)
        };
        v.push(c);
        i = i + 1;
    }
    assert(views(v@) =~= header_matrix_rows(heads@)[row as int].1);
    v
}

/// Compares the identification sections of several ROMs, one column
/// per ROM.
pub fn header_section(heads: &[HeaderInfo], names: &[String], pal: &Palette, diff_only: bool) -> (r:
    String)
    requires
        names@.len() * 27 + 26 <= usize::MAX,
    ensures
        r@ == matrix_section_text(
            pal.on,
            label_of(Section::Header),
            views(names@),
            heads@.len(),
            header_matrix_rows(heads@),
            diff_only,
        ),
{
    let ghost rows = header_matrix_rows(heads@);
    let sizes = header_column(heads, 0);
    let fmts = header_column(heads, 1);
    let vendors = header_column(heads, 2);
    let sums = header_column(heads, 3);
    let labels = vec![
        text_string("Size (bytes)"),
        text_string("PowerPlay format"),
        text_string("Subsystem vendor"),
        text_string("Checksum valid"),
    ];
    let values = vec![sizes, fmts, vendors, sums];
    assert(Seq::new(labels@.len(), |k: int| (labels@[k]@, views(values@[k]@))) =~= rows);
    matrix_section(pal, Section::Header.label(), names, heads.len(), &labels, &values, diff_only)
}

/// How object `i` of a list reads in the comparison: `type via mode`, or
/// `-` past the end of the list.
pub open spec fn object_cell(os: Seq<VoltageObject>, i: int) -> Seq<char> {
    if 0 <= i < os.len() {
        os[i].voltage_type_name@ + " via "@ + os[i].mode_name@
    } else {
        "-"@
    }
}

/// The regulator name of an I2C-controlled object, if the object is one.
pub open spec fn regulator_of(o: VoltageObject) -> Option<Seq<char>> {
    match o.detail {
        VoltageObjectDetail::I2cInitSeq { regulator_name, .. } => Some(
            match regulator_name {
                Some(n) => n@,
                None => "uncatalogued"@,
            },
        ),
        _ => None,
    }
}

/// The rows of object `i`: the object itself and, when both ROMs
/// control it over I2C, the two regulators.
pub open spec fn object_rows(a: Seq<VoltageObject>, b: Seq<VoltageObject>, i: int) -> Seq<RowV> {
    let head: RowV = ("object "@ + dec(i as nat), object_cell(a, i), object_cell(b, i));
    if 0 <= i < a.len() && 0 <= i < b.len() && regulator_of(a[i]) is Some && regulator_of(b[i]) is Some {
        seq![
            head,
            (
                "  regulator (obj. "@ + dec(i as nat) + ")"@,
                regulator_of(a[i])->0,
                regulator_of(b[i])->0,
            ),
        ]
    } else {
        seq![head]
    }
}

/// The rows of the objects below `n`.
pub open spec fn objects_rows(a: Seq<VoltageObject>, b: Seq<VoltageObject>, n: nat) -> Seq<RowV>
    decreases n,
{
    if n == 0 {
        seq![]
    } else {
        objects_rows(a, b, (n - 1) as nat) + object_rows(a, b, n - 1)
    }
}

/// The rows of the VRM section of two ROMs.
pub open spec fn vrm_rows(a: VrmInfo, b: VrmInfo) -> Seq<RowV> {
    let n = if a.objects@.len() >= b.objects@.len() {
        a.objects@.len()
    } else {
        b.objects@.len()
    };
    seq![("Voltage objects (count)"@, dec(a.objects@.len()), dec(b.objects@.len()))] + objects_rows(
        a.objects@,
        b.objects@,
        n,
    )
}

fn object_string(os: &Vec<VoltageObject>, i: usize) -> (r: String)
    ensures
        r@ == object_cell(os@, i as int),
{
    if i < os.len() {
        let mut v: Vec<char> = Vec::new();
        push_str_chars(&mut v, os[i].voltage_type_name.as_str());
        push_str_chars(&mut v, " via ");
        push_str_chars(&mut v, os[i].mode_name.as_str());
        string_of(&v)
    } else {
        text_string("-")
    }
}

fn regulator_string(o: &VoltageObject) -> (r: Option<String>)
    ensures
        match r {
            Some(s) => regulator_of(*o) == Some(s@),
            None => regulator_of(*o) is None,
        },
{
    match &o.detail {
        VoltageObjectDetail::I2cInitSeq { regulator_name, .. } => match regulator_name {
            Some(n) => Some(n.clone()),
            None => Some(text_string("uncatalogued")),
        },
        _ => None,
    }
}

fn push_object_rows(
    rows: &mut Vec<(String, String, String)>,
    a: &Vec<VoltageObject>,
    b: &Vec<VoltageObject>,
    i: usize,
)
    ensures
        rows_view(final(rows)@) == rows_view(old(rows)@) + object_rows(a@, b@, i as int),
{
    let ghost start = rows_view(rows@);
    let mut label: Vec<char> = Vec::new();
    push_str_chars(&mut label, "object ");
    push_dec(&mut label, i as u64);
    rows.push((string_of(&label), object_string(a, i), object_string(b, i)));
    let ghost mid = rows_view(rows@);
    assert(mid =~= start.push(object_rows(a@, b@, i as int)[0]));
    if i < a.len() && i < b.len() {
        if let (Some(ra), Some(rb)) = (regulator_string(&a[i]), regulator_string(&b[i])) {
            let mut l2: Vec<char> = Vec::new();
            push_str_chars(&mut l2, "  regulator (obj. ");
            push_dec(&mut l2, i as u64);
            push_str_chars(&mut l2, ")");
            rows.push((string_of(&l2), ra, rb));
            assert(rows_view(rows@) =~= start + object_rows(a@, b@, i as int));
            return ;
        }
    }
    assert(rows_view(rows@) =~= start + object_rows(a@, b@, i as int));
}

/// Compares the VRM sections of two ROMs: the number of voltage objects,
/// each object by position, and the regulators of objects that both ROMs
/// control over I2C.
pub fn compare_vrm(
    a: &VrmInfo,
    b: &VrmInfo,
    name_a: &str,
    name_b: &str,
    pal: &Palette,
    diff_only: bool,
) -> (r: String)
    ensures
        r@ == pair_section_text(
            pal.on,
            label_of(Section::Vrm),
            name_a@,
            name_b@,
            vrm_rows(*a, *b),
            diff_only,
        ),
{
    let mut rows: Vec<(String, String, String)> = Vec::new();
    rows.push(
        (
            text_string("Voltage objects (count)"),
            dec_string(a.objects.len() as u64),
            dec_string(b.objects.len() as u64),
        ),
    );
    let ghost head = rows_view(rows@);
    let n = if a.objects.len() >= b.objects.len() {
        a.objects.len()
    } else {
        b.objects.len()
    };
    let mut i: usize = 0;
    while i < n
        invariant
            i <= n,
            rows_view(rows@) == head + objects_rows(a.objects@, b.objects@, i as nat),
        decreases n - i,
    {
        push_object_rows(&mut rows, &a.objects, &b.objects, i);
        i = i + 1;
    }
    assert(rows_view(rows@) =~= vrm_rows(*a, *b));
    pair_section(pal, Section::Vrm.label(), name_a, name_b, &rows, diff_only)
}

/// Compares the VRM sections of several ROMs: the number of voltage
/// objects of each.
pub fn vrm_section(vrms: &[VrmInfo], names: &[String], pal: &Palette, diff_only: bool) -> (r: String)
    requires
        names@.len() * 27 + 26 <= usize::MAX,
    ensures
        r@ == matrix_section_text(
            pal.on,
            label_of(Section::Vrm),
            views(names@),
            vrms@.len(),
            seq![
                (
                    "Voltage objects (count)"@,
                    vrms@.map_values(|v: VrmInfo| dec(v.objects@.len())),
                ),
            ],
            diff_only,
        ),
{
    let mut counts: Vec<String> = Vec::new();
    let mut i: usize = 0;
    while i < vrms.len()
        invariant
            i <= vrms@.len(),
            counts@.len() == i,
            forall|k: int| 0 <= k < i ==> #[trigger] counts@[k]@ == dec(vrms@[k].objects@.len()),
        decreases vrms@.len() - i,
    {
        counts.push(dec_string(vrms[i].objects.len() as u64));
        i = i + 1;
    }
    assert(views(counts@) =~= vrms@.map_values(|v: VrmInfo| dec(v.objects@.len())));
    let labels = vec![text_string("Voltage objects (count)")];
    let values = vec![counts];
    assert(Seq::new(labels@.len(), |k: int| (labels@[k]@, views(values@[k]@))) =~= seq![
        ("Voltage objects (count)"@, vrms@.map_values(|v: VrmInfo| dec(v.objects@.len()))),
    ]);
    matrix_section(pal, Section::Vrm.label(), names, vrms.len(), &labels, &values, diff_only)
}

/// A die voltage limit in 0.01 mV units, as whole mV rounded to the
/// nearest (ties to even), or `-` for a ROM without the table.
pub open spec fn mv_cell(p: Option<ProfilingInfo>, max: bool) -> Seq<char> {
    match p {
        Some(q) => dec(
            div_round_even(
                (if max {
                    q.max_vddc_mv
                } else {
                    q.min_vddc_mv
                }) as nat,
                100,
            ),
        ),
        None => "-"@,
    }
}

/// A profiling value of a ROM, or `-` for a ROM without the table:
/// the load line slope (`which == 0`) or the maximum voltage.
pub open spec fn prof_cell(p: Option<ProfilingInfo>, which: nat) -> Seq<char> {
    match p {
        Some(q) => if which == 0 {
            dec(q.load_line_slop as nat)
        } else {
            dec(q.max_voltage_0_25mv as nat)
        },
        None => "-"@,
    }
}

/// The TDC limit of DPM level `i` in whole amperes, or `-`.
pub open spec fn tdc_cell(p: Option<ProfilingInfo>, i: int) -> Seq<char> {
    match p {
        Some(q) => if 0 <= i < q.tdc_limit_per_dpm_a10@.len() {
            dec(q.tdc_limit_per_dpm_a10@[i] as nat / 10)
        } else {
            "-"@
        },
        None => "-"@,
    }
}

/// The largest number of TDC levels of any ROM that has the table.
pub open spec fn max_tdc(ps: Seq<Option<ProfilingInfo>>) -> nat
    decreases ps.len(),
{
    if ps.len() == 0 {
        0
    } else {
        let m = max_tdc(ps.drop_last());
        let l = match ps.last() {
            Some(q) => q.tdc_limit_per_dpm_a10@.len(),
            None => 0,
        };
        if m >= l {
            m
        } else {
            l
        }
    }
}

/// The rows of the profiling section of several ROMs.
pub open spec fn profiling_matrix_rows(ps: Seq<Option<ProfilingInfo>>) -> Seq<MatrixRowV> {
    seq![
        ("Max VDDC (mV)"@, ps.map_values(|p: Option<ProfilingInfo>| mv_cell(p, true))),
        ("Min VDDC (mV)"@, ps.map_values(|p: Option<ProfilingInfo>| mv_cell(p, false))),
        ("Load line slope"@, ps.map_values(|p: Option<ProfilingInfo>| prof_cell(p, 0))),
        ("Max voltage (0.25mV)"@, ps.map_values(|p: Option<ProfilingInfo>| prof_cell(p, 1))),
    ] + Seq::new(
        max_tdc(ps),
        |i: int|
            (
                "TDC DPM"@ + dec(i as nat) + " (A)"@,
                ps.map_values(|p: Option<ProfilingInfo>| tdc_cell(p, i)),
            ),
    )
}

/// One cell of the fixed rows of the multi-ROM profiling section.
pub open spec fn profiling_cell(p: Option<ProfilingInfo>, row: int) -> Seq<char> {
    if row == 0 {
        mv_cell(p, true)
    } else if row == 1 {
        mv_cell(p, false)
    } else if row == 2 {
        prof_cell(p, 0)
    } else {
        prof_cell(p, 1)
    }
}

fn round_hundredths(x: u32) -> (r: u32)
    ensures
        r == div_round_even(x as nat, 100),
{
    let q = x / 100;
    let rem = x % 100;
    if 2 * rem > 100 {
        q + 1
    } else if 2 * rem < 100 {
        q
    } else if q % 2 == 0 {
        q
    } else {
        q + 1
    }
}

fn profiling_column(ps: &[Option<ProfilingInfo>], row: usize) -> (r: Vec<String>)
    requires
        row < 4,
    ensures
        r@.len() == ps@.len(),
        forall|k: int| 0 <= k < ps@.len() ==> #[trigger] r@[k]@ == profiling_cell(ps@[k], row as int),
{
    let mut v: Vec<String> = Vec::new();
    let mut i: usize = 0;
    while i < ps.len()
        invariant
            i <= ps@.len(),
            row < 4,
            v@.len() == i,
            forall|k: int| 0 <= k < i ==> #[trigger] v@[k]@ == profiling_cell(ps@[k], row as int),
        decreases ps@.len() - i,
    {
        let c = match &ps[i] {
            None => text_string("-"),
            Some(q) => {
                if row == 0 {
                    dec_string(round_hundredths(q.max_vddc_mv) as u64)
                } else if row == 1 {
                    dec_string(round_hundredths(q.min_vddc_mv) as u64)
                } else if row == 2 {
                    dec_string(q.load_line_slop as u64)
                } else {
                    dec_string(q.max_voltage_0_25mv as u64)
                }
            },
        };
        v.push(c);
        i = i + 1;
    }
    v
}

fn tdc_column(ps: &[Option<ProfilingInfo>], level: usize) -> (r: Vec<String>)
    ensures
        r@.len() == ps@.len(),
        forall|k: int| 0 <= k < ps@.len() ==> #[trigger] r@[k]@ == tdc_cell(ps@[k], level as int),
{
    let mut v: Vec<String> = Vec::new();
    let mut i: usize = 0;
    while i < ps.len()
        invariant
            i <= ps@.len(),
            v@.len() == i,
            forall|k: int| 0 <= k < i ==> #[trigger] v@[k]@ == tdc_cell(ps@[k], level as int),
        decreases ps@.len() - i,
    {
        let c = match &ps[i] {
            Some(q) => if level < q.tdc_limit_per_dpm_a10.len() {
                dec_string((q.tdc_limit_per_dpm_a10[level] / 10) as u64)
            } else {
                text_string("-")
            },
            None => text_string("-"),
        };
        v.push(c);
        i = i + 1;
    }
    v
}

fn max_tdc_of(ps: &[Option<ProfilingInfo>]) -> (r: usize)
    ensures
        r == max_tdc(ps@),
{
    let mut m: usize = 0;
    let mut i: usize = 0;
    while i < ps.len()
        invariant
            i <= ps@.len(),
            m == max_tdc(ps@.take(i as int)),
        decreases ps@.len() - i,
    {
        proof {
            let t = ps@.take(i + 1);
            assert(t.drop_last() == ps@.take(i as int));
            assert(t.last() == ps@[i as int]);
        }
        if let Some(q) = &ps[i] {
            if q.tdc_limit_per_dpm_a10.len() > m {
                m = q.tdc_limit_per_dpm_a10.len();
            }
        }
        i = i + 1;
    }
    assert(ps@.take(ps@.len() as int) == ps@);
    m
}

/// Compares the ASIC profiling tables of several ROMs: die voltage
/// limits, load line, maximum voltage and the TDC limit of each DPM
/// level (`-` where a ROM lacks the table or the level).
pub fn profiling_section(
    profs: &[Option<ProfilingInfo>],
    names: &[String],
    pal: &Palette,
    diff_only: bool,
) -> (r: String)
    requires
        names@.len() * 27 + 26 <= usize::MAX,
    ensures
        r@ == matrix_section_text(
            pal.on,
            label_of(Section::Profiling),
            views(names@),
            profs@.len(),
            profiling_matrix_rows(profs@),
            diff_only,
        ),
{
    let ghost rows = profiling_matrix_rows(profs@);
    let n = max_tdc_of(profs);
    let mut labels: Vec<String> = vec![
        text_string("Max VDDC (mV)"),
        text_string("Min VDDC (mV)"),
        text_string("Load line slope"),
        text_string("Max voltage (0.25mV)"),
    ];
    let mut values: Vec<Vec<String>> = Vec::new();
    let mut row: usize = 0;
    while row < 4
        invariant
            row <= 4,
            values@.len() == row,
            rows == profiling_matrix_rows(profs@),
            forall|k: int| 0 <= k < row ==> #[trigger] views(values@[k]@) == rows[k].1,
        decreases 4 - row,
    {
        let col = profiling_column(profs, row);
        assert(views(col@) =~= rows[row as int].1);
        values.push(col);
        row = row + 1;
    }
    let mut i: usize = 0;
    while i < n
        invariant
            n == max_tdc(profs@),
            i <= n,
            labels@.len() == 4 + i,
            values@.len() == 4 + i,
            rows == profiling_matrix_rows(profs@),
            rows.len() == 4 + n,
            forall|k: int| 0 <= k < labels@.len() ==> #[trigger] labels@[k]@ == rows[k].0,
            forall|k: int| 0 <= k < values@.len() ==> #[trigger] views(values@[k]@) == rows[k].1,
        decreases n - i,
    {
        let col = tdc_column(profs, i);
        assert(views(col@) =~= rows[4 + i].1);
        values.push(col);
        let mut l: Vec<char> = Vec::new();
        push_str_chars(&mut l, "TDC DPM");
        push_dec(&mut l, i as u64);
        push_str_chars(&mut l, " (A)");
        labels.push(string_of(&l));
        i = i + 1;
    }
    assert(Seq::new(labels@.len(), |k: int| (labels@[k]@, views(values@[k]@))) =~= rows);
    matrix_section(pal, Section::Profiling.label(), names, profs.len(), &labels, &values, diff_only)
}

/// Compares the platform capability flags of several ROMs.
pub fn caps_section(caps: &[u32], names: &[String], pal: &Palette, diff_only: bool) -> (r: String)
    requires
        names@.len() * 27 + 26 <= usize::MAX,
    ensures
        r@ == matrix_section_text(
            pal.on,
            label_of(Section::Caps),
            views(names@),
            caps@.len(),
            seq![("platform_caps (hex)"@, caps@.map_values(|c: u32| "0x"@ + hex(c as nat)))],
            diff_only,
        ),
{
    let mut col: Vec<String> = Vec::new();
    let mut i: usize = 0;
    while i < caps.len()
        invariant
            i <= caps@.len(),
            col@.len() == i,
            forall|k: int| 0 <= k < i ==> #[trigger] col@[k]@ == "0x"@ + hex(caps@[k] as nat),
        decreases caps@.len() - i,
    {
        let mut v: Vec<char> = Vec::new();
        push_str_chars(&mut v, "0x");
        push_hex(&mut v, caps[i] as u64, 0);
        assert(zero_padded(hex(caps@[i as int] as nat), 0) == hex(caps@[i as int] as nat));
        col.push(string_of(&v));
        i = i + 1;
    }
    assert(views(col@) =~= caps@.map_values(|c: u32| "0x"@ + hex(c as nat)));
    let labels = vec![text_string("platform_caps (hex)")];
    let values = vec![col];
    assert(Seq::new(labels@.len(), |k: int| (labels@[k]@, views(values@[k]@))) =~= seq![
        ("platform_caps (hex)"@, caps@.map_values(|c: u32| "0x"@ + hex(c as nat))),
    ]);
    matrix_section(pal, Section::Caps.label(), names, caps.len(), &labels, &values, diff_only)
}

/// What the VRAM comparison reads of a ROM.
pub struct VramInfo {
    /// The number of modules the VRAM table declares.
    pub num_modules: u64,
    pub modules: Vec<crate::csv_table::VramRow>,
    /// The memory controller microcode version, where the table has one,
    /// with the microcode's start in the ROM and its length in bytes.
    pub mcu_code_version: Option<u32>,
    pub mcu_code_rom_start_addr: Option<u32>,
    pub mcu_code_length: Option<u32>,
}

/// The non-empty part numbers of the modules.
pub open spec fn part_number_list(ms: Seq<crate::csv_table::VramRow>) -> Seq<Seq<char>>
    decreases ms.len(),
{
    if ms.len() == 0 {
        seq![]
    } else {
        let init = part_number_list(ms.drop_last());
        if ms.last().part_number@.len() == 0 {
            init
        } else {
            init.push(ms.last().part_number@)
        }
    }
}

/// `index:value` of every module, with the memory size (`vendor`
/// false) or the raw vendor ID as the value.
pub open spec fn per_module(ms: Seq<crate::csv_table::VramRow>, vendor: bool) -> Seq<Seq<char>> {
    ms.map_values(
        |m: crate::csv_table::VramRow|
            dec(m.index as nat) + ":"@ + dec(
                (if vendor {
                    m.vendor_id_raw
                } else {
                    m.memory_size_mb
                }) as nat,
            ),
    )
}

/// The rows of the VRAM section of two ROMs.
pub open spec fn vram_rows(a: VramInfo, b: VramInfo) -> Seq<RowV> {
    seq![
        ("Declared modules"@, dec(a.num_modules as nat), dec(b.num_modules as nat)),
        (
            "Part numbers in ROM"@,
            joined(part_number_list(a.modules@), ", "@),
            joined(part_number_list(b.modules@), ", "@),
        ),
        (
            "Memory size (MB) per module"@,
            joined(per_module(a.modules@, false), ", "@),
            joined(per_module(b.modules@, false), ", "@),
        ),
        (
            "Memory vendor (raw) per module"@,
            joined(per_module(a.modules@, true), ", "@),
            joined(per_module(b.modules@, true), ", "@),
        ),
    ]
}

fn part_number_string(ms: &Vec<crate::csv_table::VramRow>) -> (r: String)
    ensures
        r@ == joined(part_number_list(ms@), ", "@),
{
    let mut parts: Vec<String> = Vec::new();
    let mut i: usize = 0;
    while i < ms.len()
        invariant
            i <= ms@.len(),
            views(parts@) == part_number_list(ms@.take(i as int)),
        decreases ms@.len() - i,
    {
        proof {
            let t = ms@.take(i + 1);
            assert(t.drop_last() == ms@.take(i as int));
            assert(t.last() == ms@[i as int]);
        }
        if ms[i].part_number.as_str().unicode_len() > 0 {
            let ghost before = views(parts@);
            parts.push(ms[i].part_number.clone());
            assert(views(parts@) =~= before.push(ms@[i as int].part_number@));
        }
        i = i + 1;
    }
    assert(ms@.take(ms@.len() as int) == ms@);
    join_strings(&parts, ", ")
}

fn per_module_string(ms: &Vec<crate::csv_table::VramRow>, vendor: bool) -> (r: String)
    ensures
        r@ == joined(per_module(ms@, vendor), ", "@),
{
    let mut parts: Vec<String> = Vec::new();
    let mut i: usize = 0;
    while i < ms.len()
        invariant
            i <= ms@.len(),
            parts@.len() == i,
            forall|k: int| 0 <= k < i ==> #[trigger] parts@[k]@ == per_module(ms@, vendor)[k],
        decreases ms@.len() - i,
    {
        let mut v: Vec<char> = Vec::new();
        push_dec(&mut v, ms[i].index);
        push_str_chars(&mut v, ":");
        if vendor {
            push_dec(&mut v, ms[i].vendor_id_raw);
        } else {
            push_dec(&mut v, ms[i].memory_size_mb);
        }
        parts.push(string_of(&v));
        i = i + 1;
    }
    assert(views(parts@) =~= per_module(ms@, vendor));
    join_strings(&parts, ", ")
}

/// Compares the VRAM tables of two ROMs: declared modules, the part
/// numbers, and each module's size and raw vendor ID.
pub fn compare_vram(
    a: &VramInfo,
    b: &VramInfo,
    name_a: &str,
    name_b: &str,
    pal: &Palette,
    diff_only: bool,
) -> (r: String)
    ensures
        r@ == pair_section_text(
            pal.on,
            label_of(Section::Vram),
            name_a@,
            name_b@,
            vram_rows(*a, *b),
            diff_only,
        ),
{
    let rows = vec![
        (text_string("Declared modules"), dec_string(a.num_modules), dec_string(b.num_modules)),
        (
            text_string("Part numbers in ROM"),
            part_number_string(&a.modules),
            part_number_string(&b.modules),
        ),
        (
            text_string("Memory size (MB) per module"),
            per_module_string(&a.modules, false),
            per_module_string(&b.modules, false),
        ),
        (
            text_string("Memory vendor (raw) per module"),
            per_module_string(&a.modules, true),
            per_module_string(&b.modules, true),
        ),
    ];
    assert(rows_view(rows@) =~= vram_rows(*a, *b));
    pair_section(pal, Section::Vram.label(), name_a, name_b, &rows, diff_only)
}

/// The rows of the VRAM section of several ROMs.
pub open spec fn vram_matrix_rows(vs: Seq<VramInfo>) -> Seq<MatrixRowV> {
    seq![
        ("Modules (count)"@, vs.map_values(|v: VramInfo| dec(v.num_modules as nat))),
        ("Part numbers"@, vs.map_values(|v: VramInfo| joined(part_number_list(v.modules@), ", "@))),
        (
            "Memory size (MB) per module"@,
            vs.map_values(|v: VramInfo| joined(per_module(v.modules@, false), ", "@)),
        ),
    ]
}

/// One value of the multi-ROM VRAM section.
pub open spec fn vram_cell(v: VramInfo, row: int) -> Seq<char> {
    if row == 0 {
        dec(v.num_modules as nat)
    } else if row == 1 {
        joined(part_number_list(v.modules@), ", "@)
    } else {
        joined(per_module(v.modules@, false), ", "@)
    }
}

fn vram_column(vs: &[VramInfo], row: usize) -> (r: Vec<String>)
    requires
        row < 3,
    ensures
        views(r@) == vram_matrix_rows(vs@)[row as int].1,
{
    let mut v: Vec<String> = Vec::new();
    let mut i: usize = 0;
    while i < vs.len()
        invariant
            i <= vs@.len(),
            row < 3,
            v@.len() == i,
            forall|k: int| 0 <= k < i ==> #[trigger] v@[k]@ == vram_cell(vs@[k], row as int),
        decreases vs@.len() - i,
    {
        let c = if row == 0 {
            dec_string(vs[i].num_modules)
        } else if row == 1 {
            part_number_string(&vs[i].modules)
        } else {
            per_module_string(&vs[i].modules, false)
        };
        v.push(c);
        i = i + 1;
    }
    assert(views(v@) =~= vram_matrix_rows(vs@)[row as int].1);
    v
}

/// Compares the VRAM tables of several ROMs: module counts, part numbers
/// and each module's size.
pub fn vram_section(vs: &[VramInfo], names: &[String], pal: &Palette, diff_only: bool) -> (r: String)
    requires
        names@.len() * 27 + 26 <= usize::MAX,
    ensures
        r@ == matrix_section_text(
            pal.on,
            label_of(Section::Vram),
            views(names@),
            vs@.len(),
            vram_matrix_rows(vs@),
            diff_only,
        ),
{
    let labels = vec![
        text_string("Modules (count)"),
        text_string("Part numbers"),
        text_string("Memory size (MB) per module"),
    ];
    let values = vec![vram_column(vs, 0), vram_column(vs, 1), vram_column(vs, 2)];
    assert(Seq::new(labels@.len(), |k: int| (labels@[k]@, views(values@[k]@))) =~= vram_matrix_rows(
        vs@,
    ));
    matrix_section(pal, Section::Vram.label(), names, vs.len(), &labels, &values, diff_only)
}

/// Every comparison section built from rows opens with its title line,
/// side by side for two ROMs and as a matrix for several.
pub proof fn law_sections_open_with_title(
    on: bool,
    title: Seq<char>,
    name_a: Seq<char>,
    name_b: Seq<char>,
    rows: Seq<RowV>,
    names: Seq<Seq<char>>,
    n: nat,
    mrows: Seq<MatrixRowV>,
    diff_only: bool,
)
    ensures
        ({
            let head = title_text(on, title) + "\n"@;
            pair_section_text(on, title, name_a, name_b, rows, diff_only).take(head.len() as int)
                == head
        }),
        ({
            let head = title_text(on, title) + "\n"@;
            matrix_section_text(on, title, names, n, mrows, diff_only).take(head.len() as int) == head
        }),
{
    let head = title_text(on, title) + "\n"@;
    let p = pair_section_text(on, title, name_a, name_b, rows, diff_only);
    assert(p =~= head + p.skip(head.len() as int));
    lemma_opens_with(head, p.skip(head.len() as int));
    let m = matrix_section_text(on, title, names, n, mrows, diff_only);
    assert(m =~= head + m.skip(head.len() as int));
    lemma_opens_with(head, m.skip(head.len() as int));
}

proof fn lemma_opens_with(head: Seq<char>, rest: Seq<char>)
    ensures
        (head + rest).take(head.len() as int) == head,
{
    assert((head + rest).take(head.len() as int) =~= head);
}

/// A shown row's line occurs among the lines of the rows.
pub proof fn lemma_rows_contain(on: bool, diff_only: bool, rows: Seq<RowV>, k: int)
    requires
        0 <= k < rows.len(),
        !(diff_only && rows[k].1 == rows[k].2),
    ensures
        contains_text(rows_text(on, diff_only, rows), row_text(on, rows[k].0, rows[k].1, rows[k].2)),
    decreases rows.len(),
{
    let init = rows.drop_last();
    let line = row_text(on, rows[k].0, rows[k].1, rows[k].2);
    if k == rows.len() - 1 {
        lemma_contains_self(line);
        lemma_contains_around(rows_text(on, diff_only, init), line, seq![], line);
        assert(rows_text(on, diff_only, init) + line + seq![] =~= rows_text(on, diff_only, rows));
    } else {
        assert(init[k] == rows[k]);
        lemma_rows_contain(on, diff_only, init, k);
        let r = rows.last();
        let tail = opt_row(on, diff_only, r.0, r.1, r.2);
        lemma_contains_around(seq![], rows_text(on, diff_only, init), tail, line);
        assert(seq![] + rows_text(on, diff_only, init) + tail =~= rows_text(on, diff_only, rows));
    }
}

/// What occurs among the rows occurs in the section.
pub proof fn lemma_pair_contains(
    on: bool,
    title: Seq<char>,
    name_a: Seq<char>,
    name_b: Seq<char>,
    rows: Seq<RowV>,
    diff_only: bool,
    s: Seq<char>,
)
    requires
        contains_text(rows_text(on, diff_only, rows), s),
    ensures
        contains_text(pair_section_text(on, title, name_a, name_b, rows, diff_only), s),
{
    let head = header_row_text(on, name_a, name_b) + "\n"@;
    let body = rows_text(on, diff_only, rows);
    let buf = head + body;
    lemma_contains_around(head, body, seq![], s);
    assert(head + body + seq![] =~= buf);
    let msg = "(nothing differs in this section)"@;
    let fin = finished(buf, any_shown(diff_only, rows), msg);
    let tail: Seq<char> = if any_shown(diff_only, rows) {
        seq![]
    } else {
        "  "@ + msg + "\n"@
    };
    assert(fin =~= buf + tail);
    lemma_contains_around(title_text(on, title) + "\n"@, buf, tail, s);
    assert(pair_section_text(on, title, name_a, name_b, rows, diff_only) =~= title_text(on, title)
        + "\n"@ + buf + tail);
}

/// A shown matrix row's line occurs among the lines of the rows.
pub proof fn lemma_matrix_rows_contain(on: bool, col_w: nat, diff_only: bool, rows: Seq<MatrixRowV>, k: int)
    requires
        0 <= k < rows.len(),
        !(diff_only && all_same(rows[k].1)),
    ensures
        contains_text(
            matrix_rows_text(on, col_w, diff_only, rows),
            all_matrix_row_text(on, 24, col_w, rows[k].0, rows[k].1),
        ),
    decreases rows.len(),
{
    let init = rows.drop_last();
    let line = all_matrix_row_text(on, 24, col_w, rows[k].0, rows[k].1);
    if k == rows.len() - 1 {
        lemma_contains_self(line);
        lemma_contains_around(matrix_rows_text(on, col_w, diff_only, init), line, seq![], line);
        assert(matrix_rows_text(on, col_w, diff_only, init) + line + seq![] =~= matrix_rows_text(
            on,
            col_w,
            diff_only,
            rows,
        ));
    } else {
        assert(init[k] == rows[k]);
        lemma_matrix_rows_contain(on, col_w, diff_only, init, k);
        let r = rows.last();
        let tail = if diff_only && all_same(r.1) {
            seq![]
        } else {
            all_matrix_row_text(on, 24, col_w, r.0, r.1)
        };
        lemma_contains_around(seq![], matrix_rows_text(on, col_w, diff_only, init), tail, line);
        assert(seq![] + matrix_rows_text(on, col_w, diff_only, init) + tail =~= matrix_rows_text(
            on,
            col_w,
            diff_only,
            rows,
        ));
    }
}

/// What occurs among the matrix rows occurs in the section.
pub proof fn lemma_matrix_contains(
    on: bool,
    title: Seq<char>,
    names: Seq<Seq<char>>,
    n: nat,
    rows: Seq<MatrixRowV>,
    diff_only: bool,
    s: Seq<char>,
)
    requires
        contains_text(matrix_rows_text(on, col_width_for(n), diff_only, rows), s),
    ensures
        contains_text(matrix_section_text(on, title, names, n, rows, diff_only), s),
{
    let head = all_matrix_header_text(on, 24, col_width_for(n), names);
    let body = matrix_rows_text(on, col_width_for(n), diff_only, rows);
    let buf = head + body;
    lemma_contains_around(head, body, seq![], s);
    assert(head + body + seq![] =~= buf);
    let msg = "(nothing differs in this section)"@;
    let fin = finished(buf, any_matrix_shown(diff_only, rows), msg);
    let tail: Seq<char> = if any_matrix_shown(diff_only, rows) {
        seq![]
    } else {
        "  "@ + msg + "\n"@
    };
    assert(fin =~= buf + tail);
    lemma_contains_around(title_text(on, title) + "\n"@, buf, tail, s);
    assert(matrix_section_text(on, title, names, n, rows, diff_only) =~= title_text(on, title) + "\n"@
        + buf + tail);
}

/// Row `k` of a two-ROM section, whenever shown, occurs in the section.
pub proof fn lemma_pair_shows(
    on: bool,
    title: Seq<char>,
    name_a: Seq<char>,
    name_b: Seq<char>,
    rows: Seq<RowV>,
    diff_only: bool,
    k: int,
)
    requires
        0 <= k < rows.len(),
    ensures
        (!diff_only || rows[k].1 != rows[k].2) ==> contains_text(
            pair_section_text(on, title, name_a, name_b, rows, diff_only),
            row_text(on, rows[k].0, rows[k].1, rows[k].2),
        ),
{
    if !diff_only || rows[k].1 != rows[k].2 {
        lemma_rows_contain(on, diff_only, rows, k);
        lemma_pair_contains(on, title, name_a, name_b, rows, diff_only, row_text(on, rows[k].0, rows[k].1, rows[k].2));
    }
}

/// The identification comparison shows each quantity of ROM A under A
/// and of ROM B under B, in the row named for it (whenever the row is
/// shown): file size, PowerPlay format and revision, PowerPlay table
/// revision, subsystem vendor (its name, else its ID in hex), checksum
/// validity and the build date candidates.
pub proof fn law_header_columns(
    a: HeaderInfo,
    b: HeaderInfo,
    on: bool,
    name_a: Seq<char>,
    name_b: Seq<char>,
    diff_only: bool,
)
    ensures
        ({
            let t = pair_section_text(on, label_of(Section::Header), name_a, name_b, header_rows(a, b), diff_only);
            let shown = |x: Seq<char>, y: Seq<char>| !diff_only || x != y;
            let size_a = dec(a.file_size as nat);
            let size_b = dec(b.file_size as nat);
            let pp_a = dec(a.pp_fmt_rev as nat) + "."@ + dec(a.pp_cont_rev as nat);
            let pp_b = dec(b.pp_fmt_rev as nat) + "."@ + dec(b.pp_cont_rev as nat);
            let tr_a = dec(a.pp_table_revision as nat);
            let tr_b = dec(b.pp_table_revision as nat);
            let v_a = match a.subsystem_vendor_name {
                Some(n) => n@,
                None => "0x"@ + zero_padded(hex(a.subsystem_vendor_id as nat), 4),
            };
            let v_b = match b.subsystem_vendor_name {
                Some(n) => n@,
                None => "0x"@ + zero_padded(hex(b.subsystem_vendor_id as nat), 4),
            };
            let c_a: Seq<char> = if a.checksum_valid { "true"@ } else { "false"@ };
            let c_b: Seq<char> = if b.checksum_valid { "true"@ } else { "false"@ };
            let d_a = joined(views(a.build_date_candidates@), " · "@);
            let d_b = joined(views(b.build_date_candidates@), " · "@);
            &&& shown(size_a, size_b) ==> contains_text(t, row_text(on, "File size (bytes)"@, size_a, size_b))
            &&& shown(pp_a, pp_b) ==> contains_text(t, row_text(on, "PowerPlay format/revision"@, pp_a, pp_b))
            &&& shown(tr_a, tr_b) ==> contains_text(t, row_text(on, "PowerPlay table revision"@, tr_a, tr_b))
            &&& shown(v_a, v_b) ==> contains_text(t, row_text(on, "Subsystem vendor"@, v_a, v_b))
            &&& shown(c_a, c_b) ==> contains_text(t, row_text(on, "Checksum valid"@, c_a, c_b))
            &&& shown(d_a, d_b) ==> contains_text(t, row_text(on, "Build date (heuristic)"@, d_a, d_b))
        }),
{
    let rows = header_rows(a, b);
    let t = label_of(Section::Header);
    lemma_pair_shows(on, t, name_a, name_b, rows, diff_only, 0);
    lemma_pair_shows(on, t, name_a, name_b, rows, diff_only, 1);
    lemma_pair_shows(on, t, name_a, name_b, rows, diff_only, 2);
    lemma_pair_shows(on, t, name_a, name_b, rows, diff_only, 3);
    lemma_pair_shows(on, t, name_a, name_b, rows, diff_only, 4);
    lemma_pair_shows(on, t, name_a, name_b, rows, diff_only, 5);
}

/// The VRAM comparison shows each quantity of ROM A under A and of ROM B
/// under B (whenever the row is shown): the declared module count, the
/// non-empty part numbers, and each module's size and raw vendor ID as
/// `index:value`.
pub proof fn law_vram_columns(
    a: VramInfo,
    b: VramInfo,
    on: bool,
    name_a: Seq<char>,
    name_b: Seq<char>,
    diff_only: bool,
)
    ensures
        ({
            let t = pair_section_text(on, label_of(Section::Vram), name_a, name_b, vram_rows(a, b), diff_only);
            let shown = |x: Seq<char>, y: Seq<char>| !diff_only || x != y;
            let n_a = dec(a.num_modules as nat);
            let n_b = dec(b.num_modules as nat);
            let size = |v: VramInfo| joined(
                v.modules@.map_values(
                    |m: crate::csv_table::VramRow| dec(m.index as nat) + ":"@ + dec(m.memory_size_mb as nat),
                ),
                ", "@,
            );
            let vend = |v: VramInfo| joined(
                v.modules@.map_values(
                    |m: crate::csv_table::VramRow| dec(m.index as nat) + ":"@ + dec(m.vendor_id_raw as nat),
                ),
                ", "@,
            );
            &&& shown(n_a, n_b) ==> contains_text(t, row_text(on, "Declared modules"@, n_a, n_b))
            &&& shown(size(a), size(b)) ==> contains_text(
                t,
                row_text(on, "Memory size (MB) per module"@, size(a), size(b)),
            )
            &&& shown(vend(a), vend(b)) ==> contains_text(
                t,
                row_text(on, "Memory vendor (raw) per module"@, vend(a), vend(b)),
            )
        }),
{
    let rows = vram_rows(a, b);
    let t = label_of(Section::Vram);
    let size = |v: VramInfo| joined(
        v.modules@.map_values(
            |m: crate::csv_table::VramRow| dec(m.index as nat) + ":"@ + dec(m.memory_size_mb as nat),
        ),
        ", "@,
    );
    let vend = |v: VramInfo| joined(
        v.modules@.map_values(
            |m: crate::csv_table::VramRow| dec(m.index as nat) + ":"@ + dec(m.vendor_id_raw as nat),
        ),
        ", "@,
    );
    assert(per_module(a.modules@, false) =~= a.modules@.map_values(
        |m: crate::csv_table::VramRow| dec(m.index as nat) + ":"@ + dec(m.memory_size_mb as nat),
    ));
    assert(per_module(b.modules@, false) =~= b.modules@.map_values(
        |m: crate::csv_table::VramRow| dec(m.index as nat) + ":"@ + dec(m.memory_size_mb as nat),
    ));
    assert(per_module(a.modules@, true) =~= a.modules@.map_values(
        |m: crate::csv_table::VramRow| dec(m.index as nat) + ":"@ + dec(m.vendor_id_raw as nat),
    ));
    assert(per_module(b.modules@, true) =~= b.modules@.map_values(
        |m: crate::csv_table::VramRow| dec(m.index as nat) + ":"@ + dec(m.vendor_id_raw as nat),
    ));
    assert(rows[2].1 == size(a) && rows[2].2 == size(b));
    assert(rows[3].1 == vend(a) && rows[3].2 == vend(b));
    lemma_pair_shows(on, t, name_a, name_b, rows, diff_only, 0);
    lemma_pair_shows(on, t, name_a, name_b, rows, diff_only, 2);
    lemma_pair_shows(on, t, name_a, name_b, rows, diff_only, 3);
}

/// A row of a two-ROM section, whenever shown, occurs in the section.
pub proof fn lemma_pair_shows_row(
    on: bool,
    title: Seq<char>,
    name_a: Seq<char>,
    name_b: Seq<char>,
    rows: Seq<RowV>,
    diff_only: bool,
    r: RowV,
)
    requires
        rows.contains(r),
    ensures
        (!diff_only || r.1 != r.2) ==> contains_text(
            pair_section_text(on, title, name_a, name_b, rows, diff_only),
            row_text(on, r.0, r.1, r.2),
        ),
{
    let k = choose|k: int| 0 <= k < rows.len() && rows[k] == r;
    lemma_pair_shows(on, title, name_a, name_b, rows, diff_only, k);
}

proof fn lemma_objects_rows_has(a: Seq<VoltageObject>, b: Seq<VoltageObject>, n: nat, i: int)
    requires
        0 <= i < n,
    ensures
        objects_rows(a, b, n).contains(("object "@ + dec(i as nat), object_cell(a, i), object_cell(b, i))),
    decreases n,
{
    let r = ("object "@ + dec(i as nat), object_cell(a, i), object_cell(b, i));
    let init = objects_rows(a, b, (n - 1) as nat);
    let last = object_rows(a, b, n - 1);
    if i == n - 1 {
        assert(last[0] == r);
        assert((init + last)[init.len() as int] == r);
    } else {
        lemma_objects_rows_has(a, b, (n - 1) as nat, i);
        let k = choose|k: int| 0 <= k < init.len() && init[k] == r;
        assert((init + last)[k] == r);
    }
}

/// The VRM comparison shows ROM A's number of voltage objects under A and
/// ROM B's under B, and for every position below the larger count the
/// object of each ROM at that position (`type via mode`, `-` past the
/// end of its list) in its own column (whenever the row is shown).
pub proof fn law_vrm_columns(
    a: VrmInfo,
    b: VrmInfo,
    on: bool,
    name_a: Seq<char>,
    name_b: Seq<char>,
    diff_only: bool,
    i: int,
)
    ensures
        ({
            let t = pair_section_text(on, label_of(Section::Vrm), name_a, name_b, vrm_rows(a, b), diff_only);
            let oa = a.objects@;
            let ob = b.objects@;
            let cell = |os: Seq<VoltageObject>, j: int| if 0 <= j < os.len() {
                os[j].voltage_type_name@ + " via "@ + os[j].mode_name@
            } else {
                "-"@
            };
            &&& (!diff_only || dec(oa.len()) != dec(ob.len())) ==> contains_text(
                t,
                row_text(on, "Voltage objects (count)"@, dec(oa.len()), dec(ob.len())),
            )
            &&& (0 <= i < oa.len() || 0 <= i < ob.len()) && (!diff_only || cell(oa, i) != cell(ob, i))
                ==> contains_text(t, row_text(on, "object "@ + dec(i as nat), cell(oa, i), cell(ob, i)))
        }),
{
    let rows = vrm_rows(a, b);
    let t = label_of(Section::Vrm);
    lemma_pair_shows(on, t, name_a, name_b, rows, diff_only, 0);
    let n = if a.objects@.len() >= b.objects@.len() {
        a.objects@.len()
    } else {
        b.objects@.len()
    };
    if 0 <= i < n {
        lemma_objects_rows_has(a.objects@, b.objects@, n, i);
        let r = ("object "@ + dec(i as nat), object_cell(a.objects@, i), object_cell(b.objects@, i));
        let orows = objects_rows(a.objects@, b.objects@, n);
        let k = choose|k: int| 0 <= k < orows.len() && orows[k] == r;
        assert(rows[k + 1] == r);
        lemma_pair_shows(on, t, name_a, name_b, rows, diff_only, k + 1);
    }
}

/// Row `k` of a matrix section, whenever shown, occurs in the section.
pub proof fn lemma_matrix_shows(
    on: bool,
    title: Seq<char>,
    names: Seq<Seq<char>>,
    n: nat,
    rows: Seq<MatrixRowV>,
    diff_only: bool,
    k: int,
)
    requires
        0 <= k < rows.len(),
    ensures
        (!diff_only || !all_same(rows[k].1)) ==> contains_text(
            matrix_section_text(on, title, names, n, rows, diff_only),
            all_matrix_row_text(on, 24, col_width_for(n), rows[k].0, rows[k].1),
        ),
{
    if !diff_only || !all_same(rows[k].1) {
        lemma_matrix_rows_contain(on, col_width_for(n), diff_only, rows, k);
        lemma_matrix_contains(
            on,
            title,
            names,
            n,
            rows,
            diff_only,
            all_matrix_row_text(on, 24, col_width_for(n), rows[k].0, rows[k].1),
        );
    }
}

/// In the identification matrix of several ROMs the cell of each ROM in
/// a row is that ROM's own value: file size, PowerPlay format and
/// revision, subsystem vendor (its name, else its ID in hex) and checksum
/// validity (each row whenever shown).
pub proof fn law_header_matrix_cells(hs: Seq<HeaderInfo>, names: Seq<Seq<char>>, on: bool, diff_only: bool)
    ensures
        ({
            let t = matrix_section_text(on, label_of(Section::Header), names, hs.len(), header_matrix_rows(hs), diff_only);
            let cw = col_width_for(hs.len());
            let size = hs.map_values(|h: HeaderInfo| dec(h.file_size as nat));
            let pp = hs.map_values(|h: HeaderInfo| dec(h.pp_fmt_rev as nat) + "."@ + dec(h.pp_cont_rev as nat));
            let vend = hs.map_values(
                |h: HeaderInfo|
                    match h.subsystem_vendor_name {
                        Some(n) => n@,
                        None => "0x"@ + zero_padded(hex(h.subsystem_vendor_id as nat), 4),
                    },
            );
            let ck = hs.map_values(|h: HeaderInfo| if h.checksum_valid { "true"@ } else { "false"@ });
            &&& (!diff_only || !all_same(size)) ==> contains_text(t, all_matrix_row_text(on, 24, cw, "Size (bytes)"@, size))
            &&& (!diff_only || !all_same(pp)) ==> contains_text(t, all_matrix_row_text(on, 24, cw, "PowerPlay format"@, pp))
            &&& (!diff_only || !all_same(vend)) ==> contains_text(t, all_matrix_row_text(on, 24, cw, "Subsystem vendor"@, vend))
            &&& (!diff_only || !all_same(ck)) ==> contains_text(t, all_matrix_row_text(on, 24, cw, "Checksum valid"@, ck))
        }),
{
    let rows = header_matrix_rows(hs);
    let t = label_of(Section::Header);
    assert(rows[1].1 =~= hs.map_values(|h: HeaderInfo| dec(h.pp_fmt_rev as nat) + "."@ + dec(h.pp_cont_rev as nat)));
    assert(rows[2].1 =~= hs.map_values(
        |h: HeaderInfo|
            match h.subsystem_vendor_name {
                Some(n) => n@,
                None => "0x"@ + zero_padded(hex(h.subsystem_vendor_id as nat), 4),
            },
    ));
    assert(rows[3].1 =~= hs.map_values(|h: HeaderInfo| if h.checksum_valid { "true"@ } else { "false"@ }));
    lemma_matrix_shows(on, t, names, hs.len(), rows, diff_only, 0);
    lemma_matrix_shows(on, t, names, hs.len(), rows, diff_only, 1);
    lemma_matrix_shows(on, t, names, hs.len(), rows, diff_only, 2);
    lemma_matrix_shows(on, t, names, hs.len(), rows, diff_only, 3);
}

/// In the VRAM matrix of several ROMs the cell of each ROM in a row is
/// that ROM's own value: the declared module count, and each module's
/// size as `index:MB` (each row whenever shown).
pub proof fn law_vram_matrix_cells(vs: Seq<VramInfo>, names: Seq<Seq<char>>, on: bool, diff_only: bool)
    ensures
        ({
            let t = matrix_section_text(on, label_of(Section::Vram), names, vs.len(), vram_matrix_rows(vs), diff_only);
            let cw = col_width_for(vs.len());
            let count = vs.map_values(|v: VramInfo| dec(v.num_modules as nat));
            let size = vs.map_values(
                |v: VramInfo|
                    joined(
                        v.modules@.map_values(
                            |m: crate::csv_table::VramRow| dec(m.index as nat) + ":"@ + dec(m.memory_size_mb as nat),
                        ),
                        ", "@,
                    ),
            );
            &&& (!diff_only || !all_same(count)) ==> contains_text(t, all_matrix_row_text(on, 24, cw, "Modules (count)"@, count))
            &&& (!diff_only || !all_same(size)) ==> contains_text(
                t,
                all_matrix_row_text(on, 24, cw, "Memory size (MB) per module"@, size),
            )
        }),
{
    let rows = vram_matrix_rows(vs);
    let t = label_of(Section::Vram);
    assert forall|j: int| 0 <= j < vs.len() implies #[trigger] per_module(vs[j].modules@, false)
        =~= vs[j].modules@.map_values(
        |m: crate::csv_table::VramRow| dec(m.index as nat) + ":"@ + dec(m.memory_size_mb as nat),
    ) by {}
    assert(rows[2].1 =~= vs.map_values(
        |v: VramInfo|
            joined(
                v.modules@.map_values(
                    |m: crate::csv_table::VramRow| dec(m.index as nat) + ":"@ + dec(m.memory_size_mb as nat),
                ),
                ", "@,
            ),
    )) by {
        assert forall|j: int| 0 <= j < vs.len() implies rows[2].1[j] == joined(
            vs[j].modules@.map_values(
                |m: crate::csv_table::VramRow| dec(m.index as nat) + ":"@ + dec(m.memory_size_mb as nat),
            ),
            ", "@,
        ) by {
            assert(per_module(vs[j].modules@, false) =~= vs[j].modules@.map_values(
                |m: crate::csv_table::VramRow| dec(m.index as nat) + ":"@ + dec(m.memory_size_mb as nat),
            ));
        }
    }
    lemma_matrix_shows(on, t, names, vs.len(), rows, diff_only, 0);
    lemma_matrix_shows(on, t, names, vs.len(), rows, diff_only, 2);
}

/// In the profiling matrix of several ROMs the cell of each ROM in a row
/// is that ROM's own value (`-` without the table): the highest and the
/// lowest die voltage in mV (the table's hundredths rounded half to
/// even), the load line slope and the maximum voltage in 0.25 mV units
/// (each row whenever shown).
pub proof fn law_profiling_matrix_cells(
    ps: Seq<Option<ProfilingInfo>>,
    names: Seq<Seq<char>>,
    on: bool,
    diff_only: bool,
)
    ensures
        ({
            let t = matrix_section_text(
                on,
                label_of(Section::Profiling),
                names,
                ps.len(),
                profiling_matrix_rows(ps),
                diff_only,
            );
            let cw = col_width_for(ps.len());
            let cell = |f: spec_fn(ProfilingInfo) -> Seq<char>| ps.map_values(
                |p: Option<ProfilingInfo>|
                    match p {
                        Some(q) => f(q),
                        None => "-"@,
                    },
            );
            let mx = cell(|q: ProfilingInfo| dec(div_round_even(q.max_vddc_mv as nat, 100)));
            let mn = cell(|q: ProfilingInfo| dec(div_round_even(q.min_vddc_mv as nat, 100)));
            let ll = cell(|q: ProfilingInfo| dec(q.load_line_slop as nat));
            let mv = cell(|q: ProfilingInfo| dec(q.max_voltage_0_25mv as nat));
            &&& (!diff_only || !all_same(mx)) ==> contains_text(t, all_matrix_row_text(on, 24, cw, "Max VDDC (mV)"@, mx))
            &&& (!diff_only || !all_same(mn)) ==> contains_text(t, all_matrix_row_text(on, 24, cw, "Min VDDC (mV)"@, mn))
            &&& (!diff_only || !all_same(ll)) ==> contains_text(t, all_matrix_row_text(on, 24, cw, "Load line slope"@, ll))
            &&& (!diff_only || !all_same(mv)) ==> contains_text(
                t,
                all_matrix_row_text(on, 24, cw, "Max voltage (0.25mV)"@, mv),
            )
        }),
{
    let rows = profiling_matrix_rows(ps);
    let t = label_of(Section::Profiling);
    let cell = |f: spec_fn(ProfilingInfo) -> Seq<char>| ps.map_values(
        |p: Option<ProfilingInfo>|
            match p {
                Some(q) => f(q),
                None => "-"@,
            },
    );
    assert(rows[0].1 =~= cell(|q: ProfilingInfo| dec(div_round_even(q.max_vddc_mv as nat, 100))));
    assert(rows[1].1 =~= cell(|q: ProfilingInfo| dec(div_round_even(q.min_vddc_mv as nat, 100))));
    assert(rows[2].1 =~= cell(|q: ProfilingInfo| dec(q.load_line_slop as nat)));
    assert(rows[3].1 =~= cell(|q: ProfilingInfo| dec(q.max_voltage_0_25mv as nat)));
    lemma_matrix_shows(on, t, names, ps.len(), rows, diff_only, 0);
    lemma_matrix_shows(on, t, names, ps.len(), rows, diff_only, 1);
    lemma_matrix_shows(on, t, names, ps.len(), rows, diff_only, 2);
    lemma_matrix_shows(on, t, names, ps.len(), rows, diff_only, 3);
}

} // verus!
