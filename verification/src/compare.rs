//! Side-by-side comparison of two ROMs: the table that every section
//! fills, and the verdict read back from a rendered report.

use vstd::prelude::*;

use crate::compare_util::{finish_buf, finished, note_push};
use crate::render::color::{
    accent_code, fit, fitted, good_code, label_code, painted, title_code, warn_code, Palette,
};
use crate::render::text::{push_sections, sections_tail};
use crate::textutil::{
    chars_of, ends_with, lemma_split_on_nonempty, piece_at, pieces_at, push_str_chars,
    split_bounds, split_on, string_of, trim_bounds, trim_end, Sep,
};

verus! {

/// `strip_ansi_escapes::strip` on the text of `s`, read back as text.
pub uninterp spec fn ansi_stripped(s: Seq<char>) -> Seq<char>;

/// Removes the ANSI escape sequences of `s` (`strip_ansi_escapes::strip`,
/// read back with `String::from_utf8_lossy`). Stated: the result depends
/// on `s` alone, and is no longer than `s` (the crate's `vte` performer
/// only re-emits printed characters and line feeds, never adds one).
/// The escape grammar itself is left unsaid.
#[verifier::external_body]
pub(crate) fn strip_ansi(s: &str) -> (r: String)
    ensures
        r@ == ansi_stripped(s@),
        r@.len() <= s@.len(),
{
    String::from_utf8_lossy(&strip_ansi_escapes::strip(s)).into_owned()
}

pub const NAME_W: usize = 28;

pub const VAL_W: usize = 26;

/// The difference marker.
pub open spec fn ne_mark() -> char {
    '≠'
}

/// A line carries the difference marker: it ends with `≠` (trailing
/// whitespace aside), as the rows of a table do, or it opens with `  ≠`,
/// as the rows of a register or timing matrix do.
pub open spec fn marks_difference(line: Seq<char>) -> bool {
    let t = trim_end(line);
    (t.len() > 0 && t.last() == ne_mark()) || (line.len() >= 3 && line[0] == ' ' && line[1] == ' '
        && line[2] == ne_mark())
}

/// Some line of `plain` carries the difference marker.
pub open spec fn has_marker(plain: Seq<char>) -> bool {
    exists|k: int|
        0 <= k < split_on(plain, Sep::Char('\n')).len() && marks_difference(
            #[trigger] split_on(plain, Sep::Char('\n'))[k],
        )
}

/// Whether some line of the plain text `plain` carries the marker of a
/// differing row.
pub fn has_difference_marker(plain: &str) -> (b: bool)
    ensures
        b == has_marker(plain@),
{
    let cs = chars_of(plain);
    let bounds = split_bounds(&cs, &Sep::Char('\n'));
    let ghost parts = split_on(plain@, Sep::Char('\n'));
    let mut i: usize = 0;
    while i < bounds.len()
        invariant
            cs@ == plain@,
            parts == split_on(plain@, Sep::Char('\n')),
            i <= bounds@.len(),
            pieces_at(cs@, bounds@, parts),
            forall|k: int| 0 <= k < i ==> !marks_difference(#[trigger] parts[k]),
        decreases bounds@.len() - i,
    {
        let (from, to) = bounds[i];
        assert(piece_at(cs@, bounds@[i as int], parts[i as int]));
        let ghost line = parts[i as int];
        assert(line == cs@.subrange(from as int, to as int));
        let (a, b) = trim_bounds(&cs, from, to);
        proof {
            crate::textutil::lemma_trim_end_of_trimmed(cs@.subrange(from as int, to as int));
        }
        let ghost t = trim_end(line);
        assert(cs@.subrange(a as int, b as int) == crate::textutil::trim(line));
        if b > a && cs[b - 1] == '≠' {
            assert(t.len() > 0 && t.last() == ne_mark());
            return true;
        }
        if to - from >= 3 && cs[from] == ' ' && cs[from + 1] == ' ' && cs[from + 2] == '≠' {
            assert(line[0] == cs@[from as int] && line[1] == cs@[from + 1] && line[2] == cs@[from
                + 2]);
            return true;
        }
        proof {
            if line.len() >= 3 {
                assert(line[0] == cs@[from as int] && line[1] == cs@[from + 1] && line[2]
                    == cs@[from + 2]);
            }
        }
        assert(!marks_difference(line));
        i = i + 1;
    }
    false
}

/// Whether a rendered comparison reports at least one differing row.
/// Table rows end with their marker (`≠` for a difference, `=` for an
/// equal row) and matrix rows open with `  ≠` when they differ, while
/// notes and legends do neither - so such a line is the report's own
/// verdict. ANSI codes are stripped first
/// (colors wrap the marker). Used by `compare` to script the exit code.
pub fn differs(content: &str) -> (b: bool)
    ensures
        b == has_marker(ansi_stripped(content@)),
{
    let plain = strip_ansi(content);
    has_difference_marker(plain.as_str())
}

/// `n` copies of the box-drawing rule character.
pub open spec fn rule(n: nat) -> Seq<char> {
    Seq::new(n, |_i: int| '─')
}

/// Appends `n` rule characters to `out`.
pub fn push_rule(out: &mut Vec<char>, n: usize)
    ensures
        final(out)@ == old(out)@ + rule(n as nat),
{
    let ghost start = out@;
    let mut k: usize = 0;
    while k < n
        invariant
            k <= n,
            out@ == start + rule(k as nat),
        decreases n - k,
    {
        out.push('─');
        k = k + 1;
        assert(out@ =~= start + rule(k as nat));
    }
}

/// The two header lines of a comparison table.
pub open spec fn header_row_text(on: bool, name_a: Seq<char>, name_b: Seq<char>) -> Seq<char> {
    let line = "  "@ + fitted("field"@, NAME_W as nat) + " "@ + fitted(name_a, VAL_W as nat) + " "@
        + fitted(name_b, VAL_W as nat);
    let r = "  "@ + rule((NAME_W + VAL_W * 2 + 2) as nat);
    painted(on, label_code(), line) + "\n"@ + painted(on, label_code(), r)
}

pub fn header_row(pal: &Palette, name_a: &str, name_b: &str) -> (r: String)
    ensures
        r@ == header_row_text(pal.on, name_a@, name_b@),
{
    // Build the line fully aligned in plain text first, then apply
    // color once to the final result - so ANSI codes never enter the
    // column width calculation.
    let mut line: Vec<char> = Vec::new();
    push_str_chars(&mut line, "  ");
    push_str_chars(&mut line, fit("field", NAME_W).as_str());
    push_str_chars(&mut line, " ");
    push_str_chars(&mut line, fit(name_a, VAL_W).as_str());
    push_str_chars(&mut line, " ");
    push_str_chars(&mut line, fit(name_b, VAL_W).as_str());
    let mut rl: Vec<char> = Vec::new();
    push_str_chars(&mut rl, "  ");
    push_rule(&mut rl, NAME_W + VAL_W * 2 + 2);
    let mut out: Vec<char> = Vec::new();
    push_str_chars(&mut out, pal.label(string_of(&line).as_str()).as_str());
    push_str_chars(&mut out, "\n");
    push_str_chars(&mut out, pal.label(string_of(&rl).as_str()).as_str());
    string_of(&out)
}

/// The text of one comparison row.
pub open spec fn row_text(on: bool, label: Seq<char>, a: Seq<char>, b: Seq<char>) -> Seq<char> {
    let marker = if a != b {
        painted(on, warn_code(), seq![ne_mark()])
    } else {
        painted(on, good_code(), "="@)
    };
    "  "@ + fitted(label, NAME_W as nat) + " "@ + fitted(a, VAL_W as nat) + " "@ + fitted(
        b,
        VAL_W as nat,
    ) + " "@ + marker + "\n"@
}

/// Accumulates comparison table lines, with support for `--diff-only`
/// (omit rows where both values are equal) - centralized here to avoid
/// repeating the logic in each section.
pub struct Table<'a> {
    pub pal: &'a Palette,
    pub diff_only: bool,
    pub buf: String,
    pub any_row: bool,
}

impl<'a> Table<'a> {
    pub fn new(pal: &'a Palette, diff_only: bool) -> (t: Self)
        ensures
            t.pal == pal,
            t.diff_only == diff_only,
            t.buf@ == Seq::<char>::empty(),
            !t.any_row,
    {
        Table { pal, diff_only, buf: String::new(), any_row: false }
    }

    pub fn header(&mut self, name_a: &str, name_b: &str) -> (r: &mut Self)
        ensures
            r.pal == old(self).pal,
            r.diff_only == old(self).diff_only,
            r.any_row == old(self).any_row,
            r.buf@ == old(self).buf@ + header_row_text(old(self).pal.on, name_a@, name_b@) + "\n"@,
            *final(self) == *final(r),
    {
        let h = header_row(self.pal, name_a, name_b);
        self.buf.push_str(h.as_str());
        self.buf.push('\n');
        proof {
            reveal_strlit("\n");
        }
        self
    }

    /// Generic comparison row (text, or a number already rendered).
    pub fn row(&mut self, label: &str, a: &str, b: &str) -> (r: &mut Self)
        ensures
            r.pal == old(self).pal,
            r.diff_only == old(self).diff_only,
            (old(self).diff_only && a@ == b@) ==> r.buf@ == old(self).buf@ && r.any_row == old(
                self,
            ).any_row,
            !(old(self).diff_only && a@ == b@) ==> r.buf@ == old(self).buf@ + row_text(
                old(self).pal.on,
                label@,
                a@,
                b@,
            ) && r.any_row,
            *final(self) == *final(r),
    {
        let a_c = chars_of(a);
        let b_c = chars_of(b);
        let same = crate::textutil::range_eq(&a_c, 0, a_c.len(), &b_c);
        assert(a_c@.subrange(0, a_c@.len() as int) == a_c@);
        if self.diff_only && same {
            return self;
        }
        self.any_row = true;
        let marker = if !same {
            self.pal.warn("≠")
        } else {
            self.pal.good("=")
        };
        proof {
            reveal_strlit("≠");
        }
        let mut line: Vec<char> = Vec::new();
        push_str_chars(&mut line, "  ");
        push_str_chars(&mut line, fit(label, NAME_W).as_str());
        push_str_chars(&mut line, " ");
        push_str_chars(&mut line, fit(a, VAL_W).as_str());
        push_str_chars(&mut line, " ");
        push_str_chars(&mut line, fit(b, VAL_W).as_str());
        push_str_chars(&mut line, " ");
        push_str_chars(&mut line, marker.as_str());
        push_str_chars(&mut line, "\n");
        self.buf.push_str(string_of(&line).as_str());
        self
    }

    /// Free text (note, warning) - always shown, even in diff-only,
    /// because it is not a comparable data row.
    pub fn note(&mut self, s: &str) -> (r: &mut Self)
        ensures
            r.pal == old(self).pal,
            r.diff_only == old(self).diff_only,
            r.buf@ == old(self).buf@ + s@ + "\n"@,
            r.any_row,
            *final(self) == *final(r),
    {
        note_push(&mut self.buf, &mut self.any_row, s);
        self
    }

    pub fn finish(self, empty_message: &str) -> (r: String)
        ensures
            r@ == finished(self.buf@, self.any_row, empty_message@),
    {
        finish_buf(self.buf, self.any_row, empty_message)
    }
}

/// A section title.
pub open spec fn title_text(on: bool, s: Seq<char>) -> Seq<char> {
    painted(on, title_code(), "── "@ + s + " "@)
}

pub fn title(pal: &Palette, s: &str) -> (r: String)
    ensures
        r@ == title_text(pal.on, s@),
{
    let mut t: Vec<char> = Vec::new();
    push_str_chars(&mut t, "── ");
    push_str_chars(&mut t, s);
    push_str_chars(&mut t, " ");
    pal.title(string_of(&t).as_str())
}


/// `s` holds no line break.
pub open spec fn single_line(s: Seq<char>) -> bool {
    forall|i: int| 0 <= i < s.len() ==> s[i] != '\n'
}

pub proof fn lemma_split_single_line(x: Seq<char>)
    requires
        single_line(x),
    ensures
        split_on(x, Sep::Char('\n')) == seq![x],
    decreases x.len(),
{
    if x.len() > 0 {
        assert(single_line(x.drop_last()));
        lemma_split_single_line(x.drop_last());
        assert(seq![x.drop_last()].update(0, x.drop_last().push(x.last())) == seq![x]) by {
            assert(x.drop_last().push(x.last()) == x);
        }
    } else {
        assert(x == Seq::<char>::empty());
    }
}

/// A fitted text opens with the text's first character, a dot or a
/// blank: never with the difference marker unless the text does.
pub proof fn lemma_fitted_first(s: Seq<char>, w: nat)
    requires
        !(s.len() > 0 && s[0] == ne_mark()),
    ensures
        fitted(s, w).len() > 0 ==> fitted(s, w)[0] != ne_mark(),
{
    let t = crate::render::color::truncated(s, w);
    if s.len() > w {
        if w <= 3 {
            if t.len() > 0 {
                assert(t[0] == crate::render::color::dots()[0]);
            }
        } else {
            assert(t[0] == s[0]);
        }
    }
    if fitted(s, w).len() > 0 {
        if t.len() > 0 {
            assert(fitted(s, w)[0] == t[0]);
        } else {
            assert(fitted(s, w)[0] == ' ');
        }
    }
}

pub proof fn lemma_fitted_single_line(s: Seq<char>, w: nat)
    requires
        single_line(s),
    ensures
        single_line(fitted(s, w)),
{
    let t = crate::render::color::truncated(s, w);
    assert(single_line(t)) by {
        if s.len() > w {
            if w <= 3 {
                assert forall|i: int| 0 <= i < t.len() implies t[i] != '\n' by {
                    assert(t[i] == crate::render::color::dots()[i]);
                }
            } else {
                assert forall|i: int| 0 <= i < t.len() implies t[i] != '\n' by {
                    if i < w - 3 {
                        assert(t[i] == s[i]);
                    } else {
                        assert(t[i] == crate::render::color::dots()[i - (w - 3)]);
                    }
                }
            }
        }
    }
    let p = fitted(s, w);
    assert forall|i: int| 0 <= i < p.len() implies p[i] != '\n' by {
        if i >= t.len() {
            assert(p[i] == ' ');
        } else {
            assert(p[i] == t[i]);
        }
    }
}

/// With colors off, a comparison row carries the difference marker
/// exactly when its two values differ - the marker that `differs` reads
/// back as the verdict of `compare` (single-line cells assumed).
pub proof fn law_row_marker(label: Seq<char>, a: Seq<char>, b: Seq<char>)
    requires
        single_line(label),
        single_line(a),
        single_line(b),
        !(label.len() > 0 && label[0] == ne_mark()),
    ensures
        has_marker(row_text(false, label, a, b)) == (a != b),
{
    lemma_fitted_first(label, NAME_W as nat);
    reveal_strlit("=");
    reveal_strlit("  ");
    reveal_strlit(" ");
    reveal_strlit("\n");
    lemma_fitted_single_line(label, NAME_W as nat);
    lemma_fitted_single_line(a, VAL_W as nat);
    lemma_fitted_single_line(b, VAL_W as nat);
    let marker: Seq<char> = if a != b {
        seq![ne_mark()]
    } else {
        "="@
    };
    let line = "  "@ + fitted(label, NAME_W as nat) + " "@ + fitted(a, VAL_W as nat) + " "@
        + fitted(b, VAL_W as nat) + " "@ + marker;
    assert(row_text(false, label, a, b) == line.push('\n'));
    assert(single_line(line)) by {
        assert forall|i: int| 0 <= i < line.len() implies line[i] != '\n' by {
            let p0 = "  "@;
            let p1 = p0 + fitted(label, NAME_W as nat);
            let p2 = p1 + " "@;
            let p3 = p2 + fitted(a, VAL_W as nat);
            let p4 = p3 + " "@;
            let p5 = p4 + fitted(b, VAL_W as nat);
            let p6 = p5 + " "@;
            if i < p0.len() {
            } else if i < p1.len() {
                assert(line[i] == fitted(label, NAME_W as nat)[i - p0.len()]);
            } else if i < p2.len() {
            } else if i < p3.len() {
                assert(line[i] == fitted(a, VAL_W as nat)[i - p2.len()]);
            } else if i < p4.len() {
            } else if i < p5.len() {
                assert(line[i] == fitted(b, VAL_W as nat)[i - p4.len()]);
            } else if i < p6.len() {
            } else {
                assert(line[i] == marker[i - p6.len()]);
            }
        }
    }
    lemma_split_single_line(line);
    let parts = split_on(line.push('\n'), Sep::Char('\n'));
    assert(line.push('\n').drop_last() == line);
    assert(parts == seq![line, Seq::<char>::empty()]);
    assert(line.last() == marker.last());
    assert(!crate::textutil::is_ws(line.last()));
    assert(trim_end(line) == line);
    assert(line[2] == fitted(label, NAME_W as nat)[0]);
    if a != b {
        assert(trim_end(parts[0]).last() == ne_mark());
        assert(marks_difference(parts[0]));
    } else {
        assert forall|k: int| 0 <= k < parts.len() implies !marks_difference(#[trigger] parts[k]) by {
            if k == 1 {
                assert(parts[1].len() == 0);
            }
        }
    }
}

/// The two-ROM comparison report: its title, the diff-only note when
/// identical lines were left out, then each compared section after a
/// blank line.
pub open spec fn compare_text(
    on: bool,
    name_a: Seq<char>,
    name_b: Seq<char>,
    sections: Seq<Seq<char>>,
    diff_only: bool,
) -> Seq<char> {
    painted(on, accent_code(), "═══ Comparison: "@ + name_a + " vs "@ + name_b + " ═══"@) + (if diff_only {
        "\n"@ + painted(
            on,
            label_code(),
            "(--diff-only mode: identical lines in both ROMs were omitted)"@,
        )
    } else {
        seq![]
    }) + sections_tail(sections)
}

/// Assembles the comparison report of ROMs `name_a` and `name_b` from
/// the compared sections, already rendered.
pub fn render_compare(
    name_a: &str,
    name_b: &str,
    sections: &[String],
    pal: &Palette,
    diff_only: bool,
) -> (r: String)
    ensures
        r@ == compare_text(pal.on, name_a@, name_b@, crate::textutil::views(sections@), diff_only),
{
    let mut t: Vec<char> = Vec::new();
    push_str_chars(&mut t, "═══ Comparison: ");
    push_str_chars(&mut t, name_a);
    push_str_chars(&mut t, " vs ");
    push_str_chars(&mut t, name_b);
    push_str_chars(&mut t, " ═══");
    let mut out: Vec<char> = Vec::new();
    push_str_chars(&mut out, pal.accent(string_of(&t).as_str()).as_str());
    if diff_only {
        push_str_chars(&mut out, "\n");
        push_str_chars(
            &mut out,
            pal.label("(--diff-only mode: identical lines in both ROMs were omitted)").as_str(),
        );
    }
    push_sections(&mut out, sections);
    string_of(&out)
}

/// `x` is empty or ends a line.
pub open spec fn at_line_start(x: Seq<char>) -> bool {
    x.len() == 0 || x.last() == '\n'
}

pub proof fn lemma_split_lines_concat(x: Seq<char>, y: Seq<char>)
    requires
        at_line_start(x),
    ensures
        split_on(x + y, Sep::Char('\n')) == split_on(x, Sep::Char('\n')).drop_last() + split_on(
            y,
            Sep::Char('\n'),
        ),
        split_on(x, Sep::Char('\n')).len() >= 1,
        split_on(x, Sep::Char('\n')).last().len() == 0,
    decreases y.len(),
{
    let sep = Sep::Char('\n');
    lemma_split_on_nonempty(x, sep);
    let sx = split_on(x, sep);
    if x.len() > 0 {
        assert(split_on(x, sep) == split_on(x.drop_last(), sep).push(seq![]));
    } else {
        assert(sx == seq![Seq::<char>::empty()]);
    }
    if y.len() == 0 {
        assert(x + y == x);
        assert(split_on(y, sep) == seq![Seq::<char>::empty()]);
        assert(sx.drop_last() + seq![Seq::<char>::empty()] == sx);
    } else {
        let y0 = y.drop_last();
        lemma_split_lines_concat(x, y0);
        lemma_split_on_nonempty(y0, sep);
        assert((x + y).drop_last() == x + y0);
        assert((x + y).last() == y.last());
        let p = sx.drop_last();
        let s0 = split_on(y0, sep);
        if sep.holds(y.last()) {
            assert((p + s0).push(seq![]) == p + s0.push(seq![]));
        } else {
            assert((p + s0).update((p + s0).len() - 1, (p + s0).last().push(y.last())) == p
                + s0.update(s0.len() - 1, s0.last().push(y.last())));
        }
    }
}


/// Appending text at the start of a line adds the verdict of its lines
/// to the verdict of what came before: a report differs exactly when one
/// of its parts does.
pub proof fn law_marker_concat(x: Seq<char>, y: Seq<char>)
    requires
        at_line_start(x),
    ensures
        has_marker(x + y) == (has_marker(x) || has_marker(y)),
{
    let sep = Sep::Char('\n');
    lemma_split_lines_concat(x, y);
    let sx = split_on(x, sep);
    let sy = split_on(y, sep);
    let p = sx.drop_last();
    let s = split_on(x + y, sep);
    assert(s == p + sy);
    assert(!marks_difference(sx.last())) by {
        assert(trim_end(sx.last()).len() == 0);
    }
    if has_marker(x + y) {
        let k = choose|k: int| 0 <= k < s.len() && marks_difference(#[trigger] s[k]);
        if k < p.len() {
            assert(s[k] == sx[k]);
            assert(has_marker(x));
        } else {
            assert(s[k] == sy[k - p.len()]);
            assert(has_marker(y));
        }
    }
    if has_marker(x) {
        let k = choose|k: int| 0 <= k < sx.len() && marks_difference(#[trigger] sx[k]);
        assert(k < p.len());
        assert(s[k] == sx[k]);
    }
    if has_marker(y) {
        let k = choose|k: int| 0 <= k < sy.len() && marks_difference(#[trigger] sy[k]);
        assert(s[p.len() + k] == sy[k]);
    }
}

} // verus!
