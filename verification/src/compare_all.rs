//! Matrix comparison of three or more ROMs: one column per ROM.

use vstd::prelude::*;

use crate::compare::{
    has_marker, lemma_fitted_single_line, lemma_split_single_line, ne_mark, push_rule, rule,
    single_line, title_text,
};
use crate::compare_util::{finish_buf, finished, note_push};
use crate::render::color::{
    accent_code, fit, fitted, good_code, label_code, painted, warn_code, Palette,
};
use crate::render::text::{push_sections, sections_tail};
use crate::textutil::{
    chars_of, joined, push_str_chars, range_eq, split_on, string_of, trim_end, views, Sep,
};

verus! {

/// Column width per ROM: shrinks as the number of ROMs grows, but never
/// below 10 nor above 26 columns.
pub open spec fn col_width_for(n: nat) -> nat {
    let q: nat = if n == 0 {
        90
    } else {
        90nat / n
    };
    if q < 10 {
        10
    } else if q > 26 {
        26
    } else {
        q
    }
}

/// Column width per ROM: shrinks as the number of ROMs grows,
/// but never becomes illegible or too huge.
pub fn col_width(n: usize) -> (w: usize)
    ensures
        w == col_width_for(n as nat),
        10 <= w <= 26,
{
    let m = if n == 0 {
        1
    } else {
        n
    };
    let q = 90 / m;
    if q < 10 {
        10
    } else if q > 26 {
        26
    } else {
        q
    }
}

/// The cells `" " + fitted(v, w)` of all values, in order.
pub open spec fn cells(values: Seq<Seq<char>>, w: nat) -> Seq<char>
    decreases values.len(),
{
    if values.len() == 0 {
        seq![]
    } else {
        cells(values.drop_last(), w) + " "@ + fitted(values.last(), w)
    }
}

/// All values are equal (vacuously so for fewer than two).
pub open spec fn all_same(values: Seq<Seq<char>>) -> bool {
    forall|i: int| 0 <= i < values.len() ==> #[trigger] values[i] == values[0]
}

/// The header lines of a matrix of `names.len()` ROM columns.
pub open spec fn matrix_header_text(
    on: bool,
    name_w: nat,
    col_w: nat,
    names: Seq<Seq<char>>,
) -> Seq<char> {
    let line = "  "@ + fitted("field"@, name_w) + cells(names, col_w);
    let rule_len = name_w + names.len() * (col_w + 1);
    painted(on, label_code(), line) + "\n"@ + painted(on, label_code(), "  "@ + rule(rule_len))
        + "\n"@
}

/// The text of one matrix row.
pub open spec fn matrix_row_text(
    on: bool,
    name_w: nat,
    col_w: nat,
    label: Seq<char>,
    values: Seq<Seq<char>>,
) -> Seq<char> {
    let marker = if all_same(values) {
        painted(on, good_code(), "="@)
    } else {
        painted(on, warn_code(), "≠"@)
    };
    "  "@ + fitted(label, name_w) + cells(values, col_w) + " "@ + marker + "\n"@
}

/// Appends the cells of `values` to `out`.
fn push_cells(out: &mut Vec<char>, values: &[String], w: usize)
    ensures
        final(out)@ == old(out)@ + cells(views(values@), w as nat),
{
    let ghost start = out@;
    let mut i: usize = 0;
    assert(views(values@).take(0) =~= seq![]);
    while i < values.len()
        invariant
            i <= values@.len(),
            out@ == start + cells(views(values@).take(i as int), w as nat),
        decreases values@.len() - i,
    {
        push_str_chars(out, " ");
        push_str_chars(out, fit(values[i].as_str(), w).as_str());
        i = i + 1;
        proof {
            let p = views(values@).take(i as int);
            assert(p.drop_last() == views(values@).take(i - 1));
            assert(p.last() == values@[i - 1]@);
        }
    }
    assert(views(values@).take(values@.len() as int) == views(values@));
}

/// Whether all values are equal.
fn values_all_equal(values: &[String]) -> (b: bool)
    ensures
        b == all_same(views(values@)),
{
    let n = values.len();
    if n == 0 {
        return true;
    }
    let first = chars_of(values[0].as_str());
    let mut i: usize = 1;
    while i < n
        invariant
            n == values@.len(),
            1 <= i <= n,
            first@ == values@[0]@,
            forall|k: int| 0 <= k < i ==> #[trigger] views(values@)[k] == views(values@)[0],
        decreases n - i,
    {
        let c = chars_of(values[i].as_str());
        let same = range_eq(&c, 0, c.len(), &first);
        assert(c@.subrange(0, c@.len() as int) == c@);
        if !same {
            assert(views(values@)[i as int] != views(values@)[0]);
            return false;
        }
        i = i + 1;
    }
    true
}

pub struct Matrix<'a> {
    pub pal: &'a Palette,
    pub diff_only: bool,
    pub col_w: usize,
    pub name_w: usize,
    pub buf: String,
    pub any_row: bool,
}

impl<'a> Matrix<'a> {
    pub fn new(pal: &'a Palette, n: usize, diff_only: bool) -> (m: Self)
        ensures
            m.pal == pal,
            m.diff_only == diff_only,
            m.col_w == col_width_for(n as nat),
            m.name_w == 24,
            m.buf@ == Seq::<char>::empty(),
            !m.any_row,
    {
        Matrix {
            pal,
            diff_only,
            col_w: col_width(n),
            name_w: 24,
            buf: String::new(),
            any_row: false,
        }
    }

    pub fn header(&mut self, names: &[String]) -> (r: &mut Self)
        requires
            old(self).col_w < usize::MAX,
            old(self).name_w + names@.len() * (old(self).col_w + 1) + 2 <= usize::MAX,
        ensures
            r.pal == old(self).pal,
            r.diff_only == old(self).diff_only,
            r.col_w == old(self).col_w,
            r.name_w == old(self).name_w,
            r.any_row == old(self).any_row,
            r.buf@ == old(self).buf@ + matrix_header_text(
                old(self).pal.on,
                old(self).name_w as nat,
                old(self).col_w as nat,
                views(names@),
            ),
            *final(self) == *final(r),
    {
        let mut line: Vec<char> = Vec::new();
        push_str_chars(&mut line, "  ");
        push_str_chars(&mut line, fit("field", self.name_w).as_str());
        push_cells(&mut line, names, self.col_w);
        let rule_len = self.name_w + names.len() * (self.col_w + 1) + 2;
        let mut rl: Vec<char> = Vec::new();
        push_str_chars(&mut rl, "  ");
        push_rule(&mut rl, rule_len - 2);
        let mut out: Vec<char> = Vec::new();
        push_str_chars(&mut out, self.pal.label(string_of(&line).as_str()).as_str());
        push_str_chars(&mut out, "\n");
        push_str_chars(&mut out, self.pal.label(string_of(&rl).as_str()).as_str());
        push_str_chars(&mut out, "\n");
        self.buf.push_str(string_of(&out).as_str());
        self
    }

    pub fn row(&mut self, label: &str, values: &[String]) -> (r: &mut Self)
        ensures
            r.pal == old(self).pal,
            r.diff_only == old(self).diff_only,
            r.col_w == old(self).col_w,
            r.name_w == old(self).name_w,
            (old(self).diff_only && all_same(views(values@))) ==> r.buf@ == old(self).buf@
                && r.any_row == old(self).any_row,
            !(old(self).diff_only && all_same(views(values@))) ==> r.buf@ == old(self).buf@
                + matrix_row_text(
                old(self).pal.on,
                old(self).name_w as nat,
                old(self).col_w as nat,
                label@,
                views(values@),
            ) && r.any_row,
            *final(self) == *final(r),
    {
        let all_equal = values_all_equal(values);
        if self.diff_only && all_equal {
            return self;
        }
        self.any_row = true;
        let marker = if all_equal {
            self.pal.good("=")
        } else {
            self.pal.warn("≠")
        };
        let mut line: Vec<char> = Vec::new();
        push_str_chars(&mut line, "  ");
        push_str_chars(&mut line, fit(label, self.name_w).as_str());
        push_cells(&mut line, values, self.col_w);
        push_str_chars(&mut line, " ");
        push_str_chars(&mut line, marker.as_str());
        push_str_chars(&mut line, "\n");
        self.buf.push_str(string_of(&line).as_str());
        self
    }

    pub fn note(&mut self, s: &str) -> (r: &mut Self)
        ensures
            r.pal == old(self).pal,
            r.diff_only == old(self).diff_only,
            r.col_w == old(self).col_w,
            r.name_w == old(self).name_w,
            r.buf@ == old(self).buf@ + s@ + "\n"@,
            r.any_row,
            *final(self) == *final(r),
    {
        note_push(&mut self.buf, &mut self.any_row, s);
        self
    }

    pub fn finish(self, empty_message: &str) -> (r: String)
        ensures
            r@ == finished(self.buf@, self.any_row, empty_message@),
    {
        finish_buf(self.buf, self.any_row, empty_message)
    }
}

pub fn title(pal: &Palette, s: &str) -> (r: String)
    ensures
        r@ == title_text(pal.on, s@),
{
    crate::compare::title(pal, s)
}

/// The matrix comparison report: its title naming every ROM, the
/// diff-only note when identical lines were left out, then each compared
/// section after a blank line.
pub open spec fn compare_all_text(
    on: bool,
    names: Seq<Seq<char>>,
    sections: Seq<Seq<char>>,
    diff_only: bool,
) -> Seq<char> {
    painted(on, accent_code(), "═══ Comparison (matrix): "@ + joined(names, " · "@) + " ═══"@) + (
    if diff_only {
        "\n"@ + painted(
            on,
            label_code(),
            "(--diff-only mode: identical lines across all ROMs were omitted)"@,
        )
    } else {
        seq![]
    }) + sections_tail(sections)
}

/// Assembles the matrix comparison report of the ROMs `names` from the
/// compared sections, already rendered.
pub fn render_compare_all(names: &[String], sections: &[String], pal: &Palette, diff_only: bool) -> (r:
    String)
    ensures
        r@ == compare_all_text(pal.on, views(names@), views(sections@), diff_only),
{
    let mut t: Vec<char> = Vec::new();
    push_str_chars(&mut t, "═══ Comparison (matrix): ");
    let ghost ns = views(names@);
    let ghost start = t@;
    let mut i: usize = 0;
    assert(ns.take(0) =~= seq![]);
    while i < names.len()
        invariant
            i <= names@.len(),
            ns == views(names@),
            t@ == start + joined(ns.take(i as int), " · "@),
        decreases names@.len() - i,
    {
        if i > 0 {
            push_str_chars(&mut t, " · ");
        }
        push_str_chars(&mut t, names[i].as_str());
        i = i + 1;
        proof {
            let p = ns.take(i as int);
            assert(p.drop_last() == ns.take(i - 1));
            assert(p.last() == names@[i - 1]@);
            if i == 1 {
                assert(p[0] == p.last());
            }
        }
    }
    assert(ns.take(names@.len() as int) == ns);
    push_str_chars(&mut t, " ═══");
    let mut out: Vec<char> = Vec::new();
    push_str_chars(&mut out, pal.accent(string_of(&t).as_str()).as_str());
    if diff_only {
        push_str_chars(&mut out, "\n");
        push_str_chars(
            &mut out,
            pal.label("(--diff-only mode: identical lines across all ROMs were omitted)").as_str(),
        );
    }
    push_sections(&mut out, sections);
    string_of(&out)
}

proof fn lemma_cells_first(values: Seq<Seq<char>>, w: nat)
    ensures
        values.len() > 0 ==> cells(values, w).len() > 0 && cells(values, w)[0] == ' ',
    decreases values.len(),
{
    reveal_strlit(" ");
    if values.len() > 0 {
        lemma_cells_first(values.drop_last(), w);
        if values.len() == 1 {
            assert(cells(values.drop_last(), w).len() == 0);
        }
    }
}

proof fn lemma_cells_single_line(values: Seq<Seq<char>>, w: nat)
    requires
        forall|k: int| 0 <= k < values.len() ==> single_line(#[trigger] values[k]),
    ensures
        single_line(cells(values, w)),
    decreases values.len(),
{
    if values.len() > 0 {
        let init = values.drop_last();
        assert forall|k: int| 0 <= k < init.len() implies single_line(#[trigger] init[k]) by {
            assert(init[k] == values[k]);
        }
        lemma_cells_single_line(init, w);
        assert(single_line(values[values.len() - 1]));
        lemma_fitted_single_line(values.last(), w);
        reveal_strlit(" ");
        let c = cells(values, w);
        let a = cells(init, w) + " "@;
        assert forall|i: int| 0 <= i < c.len() implies c[i] != '\n' by {
            if i < cells(init, w).len() {
                assert(c[i] == cells(init, w)[i]);
            } else if i < a.len() {
            } else {
                assert(c[i] == fitted(values.last(), w)[i - a.len()]);
            }
        }
    }
}

/// With colors off, a matrix row carries the difference marker exactly
/// when its values are not all the same - the marker that `differs`
/// reads back as the verdict of `compare-all` (single-line cells
/// assumed).
pub proof fn law_matrix_row_marker(name_w: nat, col_w: nat, label: Seq<char>, values: Seq<Seq<char>>)
    requires
        single_line(label),
        forall|k: int| 0 <= k < values.len() ==> single_line(#[trigger] values[k]),
        !(label.len() > 0 && label[0] == ne_mark()),
    ensures
        has_marker(matrix_row_text(false, name_w, col_w, label, values)) == !all_same(values),
{
    crate::compare::lemma_fitted_first(label, name_w);
    reveal_strlit("=");
    reveal_strlit("≠");
    reveal_strlit("  ");
    reveal_strlit(" ");
    reveal_strlit("\n");
    lemma_fitted_single_line(label, name_w);
    lemma_cells_single_line(values, col_w);
    let marker: Seq<char> = if all_same(values) {
        "="@
    } else {
        "≠"@
    };
    let p1 = "  "@ + fitted(label, name_w);
    let p2 = p1 + cells(values, col_w);
    let p3 = p2 + " "@;
    let line = p3 + marker;
    assert(matrix_row_text(false, name_w, col_w, label, values) == line.push('\n'));
    assert(single_line(line)) by {
        assert forall|i: int| 0 <= i < line.len() implies line[i] != '\n' by {
            if i < 2 {
            } else if i < p1.len() {
                assert(line[i] == fitted(label, name_w)[i - 2]);
            } else if i < p2.len() {
                assert(line[i] == cells(values, col_w)[i - p1.len()]);
            } else if i < p3.len() {
            } else {
                assert(line[i] == marker[i - p3.len()]);
            }
        }
    }
    lemma_split_single_line(line);
    let parts = split_on(line.push('\n'), Sep::Char('\n'));
    assert(line.push('\n').drop_last() == line);
    assert(parts == seq![line, Seq::<char>::empty()]);
    assert(line.last() == marker.last());
    assert(!crate::textutil::is_ws(line.last()));
    assert(trim_end(line) == line);
    if fitted(label, name_w).len() > 0 {
        assert(line[2] == p1[2]);
        assert(p1[2] == fitted(label, name_w)[0]);
    } else {
        lemma_cells_first(values, col_w);
        if values.len() > 0 {
            assert(p1.len() == 2);
            assert(line[2] == cells(values, col_w)[0]);
        } else {
            assert(line[2] == p3[2]);
        }
    }
    if !all_same(values) {
        assert(trim_end(parts[0]).last() == ne_mark());
        assert(crate::compare::marks_difference(parts[0]));
    } else {
        assert forall|k: int| 0 <= k < parts.len() implies !crate::compare::marks_difference(
            #[trigger] parts[k],
        ) by {
            if k == 1 {
                assert(parts[1].len() == 0);
            }
        }
    }
}

} // verus!
