//! Simple ANSI colors, no external dependencies. Each function takes
//! text and returns it decorated, or plain text if `use_color` is
//! false - so all rendering logic is the same in both cases.

use vstd::prelude::*;

use crate::textutil::{
    chars_of, ends_with, ends_with_reset, push_all, push_range, push_reset, push_str_chars,
    reset_seq, string_of, views, ESC,
};

verus! {

/// `n` spaces.
pub open spec fn spaces(n: nat) -> Seq<char> {
    Seq::new(n, |_i: int| ' ')
}

/// `s` left-aligned in a field of `width` characters.
pub open spec fn padded(s: Seq<char>, width: nat) -> Seq<char> {
    if s.len() >= width {
        s
    } else {
        s + spaces((width - s.len()) as nat)
    }
}

/// The ellipsis `...`.
pub open spec fn dots() -> Seq<char> {
    seq!['.', '.', '.']
}

/// `s` cut to at most `max` characters, the cut marked by `...`.
pub open spec fn truncated(s: Seq<char>, max: nat) -> Seq<char> {
    if s.len() <= max {
        s
    } else if max <= 3 {
        dots().take(max as int)
    } else {
        s.take(max - 3) + dots()
    }
}

/// `s` truncated to `width` and then left-aligned in `width` columns.
pub open spec fn fitted(s: Seq<char>, width: nat) -> Seq<char> {
    padded(truncated(s, width), width)
}

/// ASCII letter: the terminator of a CSI escape sequence.
pub open spec fn is_ascii_alpha(c: char) -> bool {
    ('a' <= c && c <= 'z') || ('A' <= c && c <= 'Z')
}

/// Length of the body of a CSI sequence (the part after `ESC [`): up to
/// and including the first ASCII letter, or all of `t` if it has none.
pub open spec fn csi_body_len(t: Seq<char>) -> nat
    decreases t.len(),
{
    if t.len() == 0 {
        0
    } else if is_ascii_alpha(t[0]) {
        1
    } else {
        1 + csi_body_len(t.skip(1))
    }
}

/// Length of the escape token at the start of `s` (which starts with
/// `ESC`): `ESC [ ... letter` for a CSI sequence, else the lone `ESC`.
pub open spec fn esc_token_len(s: Seq<char>) -> nat {
    if s.len() >= 2 && s[1] == '[' {
        2 + csi_body_len(s.skip(2))
    } else {
        1
    }
}

pub proof fn lemma_csi_body_len_bound(t: Seq<char>)
    ensures
        csi_body_len(t) <= t.len(),
        t.len() > 0 ==> csi_body_len(t) >= 1,
    decreases t.len(),
{
    if t.len() > 0 && !is_ascii_alpha(t[0]) {
        lemma_csi_body_len_bound(t.skip(1));
    }
}

pub proof fn lemma_esc_token_len_bound(s: Seq<char>)
    requires
        s.len() > 0,
    ensures
        1 <= esc_token_len(s) <= s.len(),
{
    if s.len() >= 2 && s[1] == '[' {
        lemma_csi_body_len_bound(s.skip(2));
    }
}

/// What `visible_truncate` makes of the rest `s` of its input, having
/// already kept `visible` visible characters: escape tokens are copied
/// whole and do not count; the first visible character found when
/// `limit` are kept is replaced by the ellipsis `mark` and a reset.
pub open spec fn vis_trunc_from(s: Seq<char>, limit: nat, visible: nat, mark: Seq<char>) -> Seq<
    char,
>
    decreases s.len(),
{
    if s.len() == 0 {
        seq![]
    } else if s[0] == ESC {
        let n = esc_token_len(s);
        proof {
            lemma_esc_token_len_bound(s);
        }
        s.take(n as int) + vis_trunc_from(s.skip(n as int), limit, visible, mark)
    } else if visible >= limit {
        mark + reset_seq()
    } else {
        seq![s[0]] + vis_trunc_from(s.skip(1), limit, visible + 1, mark)
    }
}

/// The ellipsis that marks a cut: `...`, or as much of it as fits in a
/// limit below 3.
pub open spec fn ellipsis(max_visible: nat) -> Seq<char> {
    if max_visible >= 3 {
        dots()
    } else {
        dots().take(max_visible as int)
    }
}

/// The limit of kept visible characters: three columns are reserved
/// for the `...`.
pub open spec fn vis_limit(max_visible: nat) -> nat {
    if max_visible >= 3 {
        (max_visible - 3) as nat
    } else {
        0
    }
}

/// Aligns text to `width` columns (via `format!("{:<width$}")`) **without**
/// applying color. Golden rule used throughout the render module:
/// always align plain text first, and only then color it - never the
/// reverse. If already-colored text (with ANSI codes) is passed
/// to an outer `{:<width$}`, `format!` counts the invisible ANSI
/// bytes as visible characters and the padding comes out wrong,
/// misaligning the following column.
pub fn pad(s: &str, width: usize) -> (r: String)
    ensures
        r@ == padded(s@, width as nat),
{
    let cs = chars_of(s);
    let mut out = cs.clone();
    let mut k = cs.len();
    while k < width
        invariant
            cs@ == s@,
            cs@.len() <= k <= width || (k == cs@.len() && k >= width),
            out@ == cs@ + spaces((k - cs@.len()) as nat),
        decreases width - k,
    {
        out.push(' ');
        k = k + 1;
        assert(out@ == cs@ + spaces((k - cs@.len()) as nat));
    }
    proof {
        if s@.len() >= width {
            assert(out@ == s@);
        }
    }
    string_of(&out)
}

/// Truncates (with "...") to fit in `max` visually. Used on
/// any value that may be longer than the column (file names,
/// concatenated lists, etc.) - without this, a long value
/// is simply not clipped by `{:<width$}` and overflows the column,
/// misaligning everything that follows in the same table.
pub fn truncate(s: &str, max: usize) -> (r: String)
    ensures
        r@ == truncated(s@, max as nat),
{
    let cs = chars_of(s);
    let count = cs.len();
    let mut out: Vec<char> = Vec::new();
    if count <= max {
        push_all(&mut out, &cs);
    } else if max <= 3 {
        let mut k: usize = 0;
        while k < max
            invariant
                k <= max <= 3,
                out@ == dots().take(k as int),
            decreases max - k,
        {
            out.push('.');
            k = k + 1;
            assert(out@ == dots().take(k as int));
        }
    } else {
        push_range(&mut out, &cs, 0, max - 3);
        out.push('.');
        out.push('.');
        out.push('.');
        assert(out@ == cs@.take(max - 3) + dots());
    }
    string_of(&out)
}

/// Combines truncation + alignment - the pair used by default in every
/// table cell that may receive text longer than the column.
pub fn fit(s: &str, width: usize) -> (r: String)
    ensures
        r@ == fitted(s@, width as nat),
{
    let t = truncate(s, width);
    pad(t.as_str(), width)
}

/// End index of the escape token that starts at `cs[i]`.
fn esc_end(cs: &Vec<char>, i: usize) -> (j: usize)
    requires
        i < cs@.len(),
        cs@[i as int] == ESC,
    ensures
        j == i + esc_token_len(cs@.skip(i as int)),
        i < j <= cs@.len(),
{
    let ghost s = cs@.skip(i as int);
    proof {
        lemma_esc_token_len_bound(s);
    }
    let n = cs.len();
    let mut j = i + 1;
    if j < n && cs[j] == '[' {
        j = j + 1;
        let ghost start = j;
        let mut done = false;
        while j < n && !done
            invariant
                i + 2 == start <= j <= n == cs@.len(),
                s == cs@.skip(i as int),
                s.len() >= 2 && s[1] == '[',
                done ==> (j - start) == csi_body_len(cs@.skip(start as int)),
                !done ==> (j - start) + csi_body_len(cs@.skip(j as int)) == csi_body_len(
                    cs@.skip(start as int),
                ),
            decreases n - j,
        {
            let b = cs[j];
            assert(cs@.skip(j as int)[0] == b);
            assert(cs@.skip(j as int).skip(1) == cs@.skip(j + 1));
            j = j + 1;
            if ('a' <= b && b <= 'z') || ('A' <= b && b <= 'Z') {
                done = true;
            }
        }
        assert(s.skip(2) == cs@.skip(start as int));
        if !done {
            assert(cs@.skip(j as int).len() == 0);
        }
    }
    j
}

/// Truncates a string that may already contain ANSI codes, respecting a
/// limit of VISIBLE characters (escape codes don't count and are
/// never split in the middle). Below a limit of 3, the cut is marked
/// with as many dots as the limit allows. Used to fit already-colored content
/// into limited screen space (TUI panel) without breaking colors.
pub fn visible_truncate(s: &str, max_visible: usize) -> (r: String)
    ensures
        r@ == vis_trunc_from(s@, vis_limit(max_visible as nat), 0, ellipsis(max_visible as nat)),
{
    let cs = chars_of(s);
    let n = cs.len();
    // Reserve room for the "...". Otherwise appending 3 chars after
    // filling max_visible would push the line past the panel edge.
    let limit = if max_visible >= 3 {
        max_visible - 3
    } else {
        0
    };
    let ghost mark = ellipsis(max_visible as nat);
    let ghost total = vis_trunc_from(cs@, limit as nat, 0, mark);
    let mut out: Vec<char> = Vec::new();
    let mut visible: usize = 0;
    let mut i: usize = 0;
    assert(cs@.skip(0) == cs@);
    assert(out@ + total == total);
    while i < n
        invariant
            n == cs@.len(),
            i <= n,
            visible <= i,
            cs@ == s@,
            limit == vis_limit(max_visible as nat),
            mark == ellipsis(max_visible as nat),
            total == vis_trunc_from(cs@, limit as nat, 0, mark),
            out@ + vis_trunc_from(cs@.skip(i as int), limit as nat, visible as nat, mark) == total,
        decreases n - i,
    {
        let ghost rest = cs@.skip(i as int);
        let c = cs[i];
        if c == ESC {
            let j = esc_end(&cs, i);
            push_range(&mut out, &cs, i, j);
            proof {
                assert(rest.take(j - i) == cs@.subrange(i as int, j as int));
                assert(rest.skip(j - i) == cs@.skip(j as int));
            }
            i = j;
        } else if visible >= limit {
            let ghost before = out@;
            let n_dots: usize = if max_visible >= 3 {
                3
            } else {
                max_visible
            };
            let mut k: usize = 0;
            while k < n_dots
                invariant
                    k <= n_dots <= 3,
                    out@ == before + dots().take(k as int),
                decreases n_dots - k,
            {
                out.push('.');
                k = k + 1;
                assert(out@ =~= before + dots().take(k as int));
            }
            assert(dots().take(3) == dots());
            assert(dots().take(n_dots as int) == mark);
            push_reset(&mut out);
            assert(out@ == total);
            return string_of(&out);
        } else {
            out.push(c);
            visible = visible + 1;
            i = i + 1;
            assert(rest.skip(1) == cs@.skip(i as int));
        }
    }
    assert(cs@.skip(n as int).len() == 0);
    string_of(&out)
}


/// `l` closed with a reset, unless it already ends with one.
pub open spec fn close_line(l: Seq<char>) -> Seq<char> {
    if ends_with(l, reset_seq()) {
        l
    } else {
        l + reset_seq()
    }
}

/// `t` without its trailing `m` characters.
pub open spec fn trim_end_m(t: Seq<char>) -> Seq<char>
    decreases t.len(),
{
    if t.len() > 0 && t.last() == 'm' {
        trim_end_m(t.drop_last())
    } else {
        t
    }
}

/// `t` without its leading `ESC [` pairs.
pub open spec fn trim_start_csi(t: Seq<char>) -> Seq<char>
    decreases t.len(),
{
    if t.len() >= 2 && t[0] == ESC && t[1] == '[' {
        trim_start_csi(t.skip(2))
    } else {
        t
    }
}

/// Whether the escape token `tok` is an SGR sequence that resets all
/// attributes (`ESC [ m` or `ESC [ 0 m`).
pub open spec fn sgr_is_reset(tok: Seq<char>) -> bool {
    let p = trim_start_csi(trim_end_m(tok));
    p.len() == 0 || p == seq!['0']
}

/// The SGR codes still in force after the escape token `tok`: a reset
/// clears them, any other SGR sequence is added, other tokens change
/// nothing.
pub open spec fn next_active(active: Seq<char>, tok: Seq<char>) -> Seq<char> {
    if tok.len() > 0 && tok.last() == 'm' {
        if sgr_is_reset(tok) {
            seq![]
        } else {
            active + tok
        }
    } else {
        active
    }
}

/// The lines that `wrap_ansi` produces from the rest `s` of its input,
/// given the lines finished so far, the open line `cur` with `cur_vis`
/// visible characters, and the SGR codes `active` in force. A visible
/// character that finds the open line full closes it and opens a new
/// line that first re-emits `active`.
pub open spec fn wrap_from(
    s: Seq<char>,
    max: nat,
    lines: Seq<Seq<char>>,
    cur: Seq<char>,
    cur_vis: nat,
    active: Seq<char>,
) -> Seq<Seq<char>>
    decreases s.len(),
{
    if s.len() == 0 {
        if cur.len() == 0 {
            lines
        } else {
            lines.push(close_line(cur))
        }
    } else if s[0] == ESC {
        let n = esc_token_len(s);
        proof {
            lemma_esc_token_len_bound(s);
        }
        let tok = s.take(n as int);
        wrap_from(s.skip(n as int), max, lines, cur + tok, cur_vis, next_active(active, tok))
    } else if cur_vis >= max {
        wrap_from(s.skip(1), max, lines.push(close_line(cur)), active.push(s[0]), 1, active)
    } else {
        wrap_from(s.skip(1), max, lines, cur.push(s[0]), cur_vis + 1, active)
    }
}

/// The lines of `wrap_ansi(s, max)`.
pub open spec fn wrapped(s: Seq<char>, max: nat) -> Seq<Seq<char>> {
    if max == 0 {
        seq![]
    } else {
        wrap_from(s, max, seq![], seq![], 0, seq![])
    }
}

proof fn lemma_trim_end_m_take(t: Seq<char>, end: int)
    requires
        0 < end <= t.len(),
        t[end - 1] == 'm',
    ensures
        trim_end_m(t.take(end)) == trim_end_m(t.take(end - 1)),
{
    assert(t.take(end).drop_last() == t.take(end - 1));
}

/// Whether the escape token `tok` resets all SGR attributes.
fn token_is_reset(tok: &Vec<char>) -> (b: bool)
    ensures
        b == sgr_is_reset(tok@),
{
    let mut end = tok.len();
    assert(tok@.take(end as int) == tok@);
    while end > 0 && tok[end - 1] == 'm'
        invariant
            end <= tok@.len(),
            trim_end_m(tok@.take(end as int)) == trim_end_m(tok@),
        decreases end,
    {
        proof {
            lemma_trim_end_m_take(tok@, end as int);
        }
        end = end - 1;
    }
    proof {
        let t = tok@.take(end as int);
        if t.len() > 0 {
            assert(t.last() == tok@[end - 1]);
        }
        assert(trim_end_m(t) == t);
    }
    let ghost te = tok@.take(end as int);
    let mut start: usize = 0;
    assert(te.subrange(0, end as int) == te);
    while end - start >= 2 && tok[start] == ESC && tok[start + 1] == '['
        invariant
            start <= end <= tok@.len(),
            te == tok@.take(end as int),
            trim_start_csi(tok@.subrange(start as int, end as int)) == trim_start_csi(te),
        decreases end - start,
    {
        let ghost u = tok@.subrange(start as int, end as int);
        assert(u[0] == ESC && u[1] == '[');
        assert(u.skip(2) == tok@.subrange(start + 2, end as int));
        start = start + 2;
    }
    proof {
        let u = tok@.subrange(start as int, end as int);
        if u.len() >= 2 {
            assert(u[0] == tok@[start as int]);
            assert(u[1] == tok@[start + 1]);
        }
        assert(trim_start_csi(u) == u);
    }
    let b = end == start || (end == start + 1 && tok[start] == '0');
    proof {
        let u = tok@.subrange(start as int, end as int);
        if end == start + 1 && tok@[start as int] == '0' {
            assert(u == seq!['0']);
        }
        if u == seq!['0'] {
            assert(u[0] == tok@[start as int]);
        }
    }
    b
}

/// Wraps a possibly-ANSI-colored string into lines of at most
/// `max_visible` visible columns without ever splitting an escape
/// sequence in the middle. Continuation lines re-emit the SGR codes
/// that were active at the wrap point, so colors stay correct across
/// the break. Produces only the visible characters (no trailing reset
/// needed by the caller beyond what is embedded).
pub fn wrap_ansi(s: &str, max_visible: usize) -> (r: Vec<String>)
    ensures
        views(r@) == wrapped(s@, max_visible as nat),
{
    if max_visible == 0 {
        let r: Vec<String> = Vec::new();
        assert(views(r@) =~= seq![]);
        return r;
    }
    let cs = chars_of(s);
    let n = cs.len();
    let ghost total = wrap_from(cs@, max_visible as nat, seq![], seq![], 0, seq![]);
    let mut lines: Vec<String> = Vec::new();
    let mut cur: Vec<char> = Vec::new();
    let mut cur_vis: usize = 0;
    let mut active: Vec<char> = Vec::new();
    let mut i: usize = 0;
    assert(cs@.skip(0) == cs@);
    assert(views(lines@) =~= seq![]);
    while i < n
        invariant
            n == cs@.len(),
            cs@ == s@,
            i <= n,
            cur_vis <= i,
            max_visible > 0,
            total == wrap_from(cs@, max_visible as nat, seq![], seq![], 0, seq![]),
            wrap_from(
                cs@.skip(i as int),
                max_visible as nat,
                views(lines@),
                cur@,
                cur_vis as nat,
                active@,
            ) == total,
        decreases n - i,
    {
        let ghost rest = cs@.skip(i as int);
        let c = cs[i];
        if c == ESC {
            // Copy the whole escape sequence (SGR or otherwise) verbatim.
            let j = esc_end(&cs, i);
            let mut tok: Vec<char> = Vec::new();
            push_range(&mut tok, &cs, i, j);
            proof {
                assert(rest.take(j - i) == tok@);
                assert(rest.skip(j - i) == cs@.skip(j as int));
            }
            let ghost prev_active = active@;
            if tok[tok.len() - 1] == 'm' {
                // SGR: a reset clears the tracked codes, anything
                // else adds to the re-emit prefix.
                if token_is_reset(&tok) {
                    active = Vec::new();
                } else {
                    push_all(&mut active, &tok);
                }
            }
            assert(active@ == next_active(prev_active, tok@)) by {
                assert(tok@.last() == tok@[tok@.len() - 1]);
            }
            push_all(&mut cur, &tok);
            i = j;
        } else {
            // The current line is full: the next visible char starts a fresh
            // line, carrying any active colors. (Each wrapped line is exactly
            // `max_visible` wide; only the last may be shorter.)
            if cur_vis >= max_visible {
                let mut closed = cur.clone();
                if !ends_with_reset(&closed) {
                    push_reset(&mut closed);
                }
                let ghost before = views(lines@);
                lines.push(string_of(&closed));
                assert(views(lines@) =~= before.push(close_line(cur@)));
                cur = active.clone();
                cur_vis = 0;
            }
            cur.push(c);
            cur_vis = cur_vis + 1;
            i = i + 1;
            assert(rest.skip(1) == cs@.skip(i as int));
        }
    }
    assert(cs@.skip(n as int).len() == 0);
    if cur.len() > 0 {
        let mut closed = cur.clone();
        if !ends_with_reset(&closed) {
            push_reset(&mut closed);
        }
        let ghost before = views(lines@);
        lines.push(string_of(&closed));
        assert(views(lines@) =~= before.push(close_line(cur@)));
    }
    lines
}


/// `s` painted with the SGR `code` when colors are on, else `s` itself.
pub open spec fn painted(on: bool, code: Seq<char>, s: Seq<char>) -> Seq<char> {
    if on {
        seq![ESC, '['] + code + seq!['m'] + s + reset_seq()
    } else {
        s
    }
}

/// SGR code of titles: bold cyan.
pub open spec fn title_code() -> Seq<char> {
    seq!['1', ';', '3', '6']
}

/// SGR code of labels: dim.
pub open spec fn label_code() -> Seq<char> {
    seq!['2']
}

/// SGR code of values: bold yellow.
pub open spec fn value_code() -> Seq<char> {
    seq!['1', ';', '3', '3']
}

/// SGR code of good news: green.
pub open spec fn good_code() -> Seq<char> {
    seq!['3', '2']
}

/// SGR code of warnings: yellow.
pub open spec fn warn_code() -> Seq<char> {
    seq!['3', '3']
}

/// SGR code of bad news: red.
pub open spec fn bad_code() -> Seq<char> {
    seq!['3', '1']
}

/// SGR code of accents: bold magenta.
pub open spec fn accent_code() -> Seq<char> {
    seq!['1', ';', '3', '5']
}

#[derive(Clone, Copy)]
pub struct Palette {
    pub on: bool,
}

impl Palette {
    pub fn new(on: bool) -> (p: Self)
        ensures
            p.on == on,
    {
        Palette { on }
    }

    fn wrap(&self, code: &str, s: &str) -> (r: String)
        ensures
            r@ == painted(self.on, code@, s@),
    {
        if self.on {
            let mut out: Vec<char> = Vec::new();
            out.push(ESC);
            out.push('[');
            push_str_chars(&mut out, code);
            out.push('m');
            push_str_chars(&mut out, s);
            push_reset(&mut out);
            assert(out@ == painted(self.on, code@, s@));
            string_of(&out)
        } else {
            s.to_owned()
        }
    }

    pub fn title(&self, s: &str) -> (r: String)
        ensures
            r@ == painted(self.on, title_code(), s@),
    {
        proof {
            reveal_strlit("1;36");
        }
        self.wrap("1;36", s)  // cyan bold

    }

    pub fn label(&self, s: &str) -> (r: String)
        ensures
            r@ == painted(self.on, label_code(), s@),
    {
        proof {
            reveal_strlit("2");
        }
        self.wrap("2", s)  // dim

    }

    pub fn value(&self, s: &str) -> (r: String)
        ensures
            r@ == painted(self.on, value_code(), s@),
    {
        proof {
            reveal_strlit("1;33");
        }
        self.wrap("1;33", s)  // yellow bold

    }

    pub fn good(&self, s: &str) -> (r: String)
        ensures
            r@ == painted(self.on, good_code(), s@),
    {
        proof {
            reveal_strlit("32");
        }
        self.wrap("32", s)  // green

    }

    pub fn warn(&self, s: &str) -> (r: String)
        ensures
            r@ == painted(self.on, warn_code(), s@),
    {
        proof {
            reveal_strlit("33");
        }
        self.wrap("33", s)  // yellow

    }

    pub fn bad(&self, s: &str) -> (r: String)
        ensures
            r@ == painted(self.on, bad_code(), s@),
    {
        proof {
            reveal_strlit("31");
        }
        self.wrap("31", s)  // red - used for validation warnings/errors

    }

    pub fn accent(&self, s: &str) -> (r: String)
        ensures
            r@ == painted(self.on, accent_code(), s@),
    {
        proof {
            reveal_strlit("1;35");
        }
        self.wrap("1;35", s)  // magenta bold

    }
}


/// A truncated string never exceeds the limit, and one that already
/// fits is returned unchanged.
pub proof fn law_truncate_bound(s: Seq<char>, max: nat)
    ensures
        truncated(s, max).len() <= max,
        s.len() <= max ==> truncated(s, max) == s,
        s.len() > max && max > 3 ==> truncated(s, max).take(max - 3) == s.take(max - 3),
{
    if s.len() > max && max > 3 {
        assert((s.take(max - 3) + dots()).take(max - 3) == s.take(max - 3));
    }
}

/// Padding keeps the text as a prefix and yields at least `width`
/// characters, exactly `width` when the text fits.
pub proof fn law_pad_width(s: Seq<char>, width: nat)
    ensures
        padded(s, width).take(s.len() as int) == s,
        padded(s, width).len() == if s.len() >= width { s.len() } else { width },
        forall|i: int| s.len() <= i < padded(s, width).len() ==> #[trigger] padded(s, width)[i] == ' ',
{
    if s.len() < width {
        assert((s + spaces((width - s.len()) as nat)).take(s.len() as int) == s);
    }
}

/// Every fitted cell is exactly `width` characters wide, whatever the
/// text: this is what keeps table columns aligned.
pub proof fn law_fit_width(s: Seq<char>, width: nat)
    ensures
        fitted(s, width).len() == width,
{
    law_truncate_bound(s, width);
    law_pad_width(truncated(s, width), width);
}

/// Every line `close_line` yields ends with the reset sequence.
pub proof fn lemma_close_line_resets(l: Seq<char>)
    ensures
        ends_with(close_line(l), reset_seq()),
{
    if !ends_with(l, reset_seq()) {
        let c = l + reset_seq();
        assert(c.subrange(c.len() - 4, c.len() as int) == reset_seq());
    }
}

proof fn lemma_wrap_from_resets(
    s: Seq<char>,
    max: nat,
    lines: Seq<Seq<char>>,
    cur: Seq<char>,
    cur_vis: nat,
    active: Seq<char>,
)
    requires
        forall|k: int| 0 <= k < lines.len() ==> ends_with(#[trigger] lines[k], reset_seq()),
    ensures
        forall|k: int|
            0 <= k < wrap_from(s, max, lines, cur, cur_vis, active).len() ==> ends_with(
                #[trigger] wrap_from(s, max, lines, cur, cur_vis, active)[k],
                reset_seq(),
            ),
    decreases s.len(),
{
    lemma_close_line_resets(cur);
    if s.len() == 0 {
        if cur.len() > 0 {
            let l2 = lines.push(close_line(cur));
            assert forall|k: int| 0 <= k < l2.len() implies ends_with(#[trigger] l2[k], reset_seq()) by {
                if k < lines.len() {
                    assert(l2[k] == lines[k]);
                }
            }
        }
    } else if s[0] == ESC {
        let n = esc_token_len(s);
        lemma_esc_token_len_bound(s);
        let tok = s.take(n as int);
        lemma_wrap_from_resets(
            s.skip(n as int),
            max,
            lines,
            cur + tok,
            cur_vis,
            next_active(active, tok),
        );
        assert(wrap_from(s, max, lines, cur, cur_vis, active) == wrap_from(
            s.skip(n as int),
            max,
            lines,
            cur + tok,
            cur_vis,
            next_active(active, tok),
        ));
    } else if cur_vis >= max {
        let l2 = lines.push(close_line(cur));
        assert forall|k: int| 0 <= k < l2.len() implies ends_with(#[trigger] l2[k], reset_seq()) by {
            if k < lines.len() {
                assert(l2[k] == lines[k]);
            }
        }
        lemma_wrap_from_resets(s.skip(1), max, l2, active.push(s[0]), 1, active);
        assert(wrap_from(s, max, lines, cur, cur_vis, active) == wrap_from(s.skip(1), max, l2, active.push(s[0]), 1, active));
    } else {
        lemma_wrap_from_resets(s.skip(1), max, lines, cur.push(s[0]), cur_vis + 1, active);
        assert(wrap_from(s, max, lines, cur, cur_vis, active) == wrap_from(s.skip(1), max, lines, cur.push(s[0]), cur_vis + 1, active));
    }
}

/// Every line that `wrap_ansi` produces ends with a reset, so no color
/// leaks from one line into the next; a width of zero yields no lines.
pub proof fn law_wrapped_lines_reset(s: Seq<char>, max: nat)
    ensures
        max == 0 ==> wrapped(s, max).len() == 0,
        forall|k: int|
            0 <= k < wrapped(s, max).len() ==> ends_with(#[trigger] wrapped(s, max)[k], reset_seq()),
{
    if max > 0 {
        lemma_wrap_from_resets(s, max, seq![], seq![], 0, seq![]);
    }
}

} // verus!
