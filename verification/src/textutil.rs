//! Character-level helpers shared by the renderers: text is handled as
//! a sequence of `char`s, the unit in which column widths are counted.

use vstd::prelude::*;

verus! {

/// `String::push` appends one character.
pub assume_specification[ String::push ](s: &mut String, ch: char)
    ensures
        final(s)@ == old(s)@.push(ch),
;

/// `String::push_str` appends the characters of `string`.
pub assume_specification[ String::push_str ](s: &mut String, string: &str)
    ensures
        final(s)@ == old(s)@ + string@,
;

/// The escape character that opens every ANSI sequence.
pub const ESC: char = '\u{1b}';

/// The SGR reset sequence `ESC [ 0 m`.
pub open spec fn reset_seq() -> Seq<char> {
    seq![ESC, '[', '0', 'm']
}

/// `s` ends with `t`.
pub open spec fn ends_with(s: Seq<char>, t: Seq<char>) -> bool {
    t.len() <= s.len() && s.subrange(s.len() - t.len(), s.len() as int) == t
}

/// The views of a list of strings.
pub open spec fn views(v: Seq<String>) -> Seq<Seq<char>> {
    v.map_values(|l: String| l@)
}

/// The characters of `s`, in order.
pub fn chars_of(s: &str) -> (v: Vec<char>)
    ensures
        v@ == s@,
{
    let mut v: Vec<char> = Vec::new();
    for c in it: s.chars()
        invariant
            v@ == it.seq().take(it.index() as int),
            it.seq() == s@,
    {
        v.push(c);
    }
    v
}

/// A `String` holding exactly the characters of `v`.
pub fn string_of(v: &Vec<char>) -> (s: String)
    ensures
        s@ == v@,
{
    let mut s = String::new();
    let mut i: usize = 0;
    while i < v.len()
        invariant
            i <= v@.len(),
            s@ == v@.take(i as int),
        decreases v@.len() - i,
    {
        s.push(v[i]);
        i = i + 1;
        assert(v@.take(i as int) == v@.take(i - 1).push(v@[i - 1]));
    }
    assert(v@.take(v@.len() as int) == v@);
    s
}

/// Appends `v[from..to]` to `out`.
pub fn push_range(out: &mut Vec<char>, v: &Vec<char>, from: usize, to: usize)
    requires
        from <= to <= v@.len(),
    ensures
        final(out)@ == old(out)@ + v@.subrange(from as int, to as int),
{
    let mut i = from;
    while i < to
        invariant
            from <= i <= to <= v@.len(),
            out@ == old(out)@ + v@.subrange(from as int, i as int),
        decreases to - i,
    {
        out.push(v[i]);
        i = i + 1;
        assert(v@.subrange(from as int, i as int) == v@.subrange(from as int, i - 1).push(
            v@[i - 1],
        ));
    }
}

/// Appends all of `v` to `out`.
pub fn push_all(out: &mut Vec<char>, v: &Vec<char>)
    ensures
        final(out)@ == old(out)@ + v@,
{
    push_range(out, v, 0, v.len());
    assert(v@.subrange(0, v@.len() as int) == v@);
}

/// Appends the characters of `s` to `out`.
pub fn push_str_chars(out: &mut Vec<char>, s: &str)
    ensures
        final(out)@ == old(out)@ + s@,
{
    let v = chars_of(s);
    push_all(out, &v);
}

/// Appends the reset sequence to `out`.
pub fn push_reset(out: &mut Vec<char>)
    ensures
        final(out)@ == old(out)@ + reset_seq(),
{
    out.push(ESC);
    out.push('[');
    out.push('0');
    out.push('m');
    assert(old(out)@.push(ESC).push('[').push('0').push('m') == old(out)@ + reset_seq());
}

/// Whether `v` ends with the reset sequence.
pub fn ends_with_reset(v: &Vec<char>) -> (b: bool)
    ensures
        b == ends_with(v@, reset_seq()),
{
    let n = v.len();
    if n < 4 {
        return false;
    }
    let b = v[n - 4] == ESC && v[n - 3] == '[' && v[n - 2] == '0' && v[n - 1] == 'm';
    proof {
        let t = v@.subrange(n - 4, n as int);
        if b {
            assert(t == reset_seq());
        } else {
            assert(t != reset_seq()) by {
                if t == reset_seq() {
                    assert(t[0] == v@[n - 4]);
                    assert(t[1] == v@[n - 3]);
                    assert(t[2] == v@[n - 2]);
                    assert(t[3] == v@[n - 1]);
                }
            }
        }
    }
    b
}


/// Characters with the Unicode `White_Space` property, the set that
/// `char::is_whitespace` (and so `str::trim`) recognizes.
pub open spec fn is_ws(c: char) -> bool {
    ('\u{9}' <= c && c <= '\u{d}') || c == ' ' || c == '\u{85}' || c == '\u{a0}' || c
        == '\u{1680}' || ('\u{2000}' <= c && c <= '\u{200a}') || c == '\u{2028}' || c
        == '\u{2029}' || c == '\u{202f}' || c == '\u{205f}' || c == '\u{3000}'
}

/// `char::is_whitespace`.
pub fn is_whitespace(c: char) -> (b: bool)
    ensures
        b == is_ws(c),
{
    ('\u{9}' <= c && c <= '\u{d}') || c == ' ' || c == '\u{85}' || c == '\u{a0}' || c
        == '\u{1680}' || ('\u{2000}' <= c && c <= '\u{200a}') || c == '\u{2028}' || c
        == '\u{2029}' || c == '\u{202f}' || c == '\u{205f}' || c == '\u{3000}'
}

/// `s` without its leading whitespace.
pub open spec fn trim_start(s: Seq<char>) -> Seq<char>
    decreases s.len(),
{
    if s.len() > 0 && is_ws(s[0]) {
        trim_start(s.skip(1))
    } else {
        s
    }
}

/// `s` without its trailing whitespace.
pub open spec fn trim_end(s: Seq<char>) -> Seq<char>
    decreases s.len(),
{
    if s.len() > 0 && is_ws(s.last()) {
        trim_end(s.drop_last())
    } else {
        s
    }
}

/// `str::trim`: `s` without leading and trailing whitespace.
pub open spec fn trim(s: Seq<char>) -> Seq<char> {
    trim_end(trim_start(s))
}

/// The bounds `(a, b)` of `trim(v[from..to])` inside `v`.
pub fn trim_bounds(v: &Vec<char>, from: usize, to: usize) -> (r: (usize, usize))
    requires
        from <= to <= v@.len(),
    ensures
        from <= r.0 <= r.1 <= to,
        v@.subrange(r.0 as int, r.1 as int) == trim(v@.subrange(from as int, to as int)),
{
    let ghost whole = v@.subrange(from as int, to as int);
    let mut a = from;
    while a < to && is_whitespace(v[a])
        invariant
            from <= a <= to <= v@.len(),
            whole == v@.subrange(from as int, to as int),
            trim_start(v@.subrange(a as int, to as int)) == trim_start(whole),
        decreases to - a,
    {
        let ghost u = v@.subrange(a as int, to as int);
        assert(u[0] == v@[a as int]);
        assert(u.skip(1) == v@.subrange(a + 1, to as int));
        a = a + 1;
    }
    proof {
        let u = v@.subrange(a as int, to as int);
        if u.len() > 0 {
            assert(u[0] == v@[a as int]);
        }
    }
    let ghost ts = v@.subrange(a as int, to as int);
    let mut b = to;
    while b > a && is_whitespace(v[b - 1])
        invariant
            from <= a <= b <= to <= v@.len(),
            ts == v@.subrange(a as int, to as int),
            trim_end(v@.subrange(a as int, b as int)) == trim_end(ts),
        decreases b - a,
    {
        let ghost u = v@.subrange(a as int, b as int);
        assert(u.last() == v@[b - 1]);
        assert(u.drop_last() == v@.subrange(a as int, b - 1));
        b = b - 1;
    }
    proof {
        let u = v@.subrange(a as int, b as int);
        if u.len() > 0 {
            assert(u.last() == v@[b - 1]);
        }
    }
    (a, b)
}

/// Whether `v[from..to]` equals `w`.
pub fn range_eq(v: &Vec<char>, from: usize, to: usize, w: &Vec<char>) -> (b: bool)
    requires
        from <= to <= v@.len(),
    ensures
        b == (v@.subrange(from as int, to as int) == w@),
{
    if to - from != w.len() {
        return false;
    }
    let mut k: usize = 0;
    while k < w.len()
        invariant
            to - from == w@.len(),
            from <= to <= v@.len(),
            k <= w@.len(),
            forall|m: int| 0 <= m < k ==> v@[from + m] == w@[m],
        decreases w@.len() - k,
    {
        if v[from + k] != w[k] {
            assert(v@.subrange(from as int, to as int)[k as int] != w@[k as int]);
            return false;
        }
        k = k + 1;
    }
    assert(v@.subrange(from as int, to as int) =~= w@);
    true
}

/// `parts` joined by `sep`.
pub open spec fn joined(parts: Seq<Seq<char>>, sep: Seq<char>) -> Seq<char>
    decreases parts.len(),
{
    if parts.len() == 0 {
        seq![]
    } else if parts.len() == 1 {
        parts[0]
    } else {
        joined(parts.drop_last(), sep) + sep + parts.last()
    }
}

/// Whether the texts `a` and `b` are equal.
pub fn str_eq(a: &str, b: &str) -> (r: bool)
    ensures
        r == (a@ == b@),
{
    let ac = chars_of(a);
    let bc = chars_of(b);
    assert(ac@.subrange(0, ac@.len() as int) == ac@);
    range_eq(&ac, 0, ac.len(), &bc)
}

/// What separates the pieces of a split string.
pub enum Sep {
    /// One given character.
    Char(char),
    /// A comma or any whitespace character.
    CommaOrSpace,
}

impl Sep {
    pub open spec fn holds(self, c: char) -> bool {
        match self {
            Sep::Char(x) => c == x,
            Sep::CommaOrSpace => c == ',' || is_ws(c),
        }
    }

    pub fn matches(&self, c: char) -> (b: bool)
        ensures
            b == self.holds(c),
    {
        match self {
            Sep::Char(x) => c == *x,
            Sep::CommaOrSpace => c == ',' || is_whitespace(c),
        }
    }
}

/// The pieces of `s` between the separators (`str::split`).
pub open spec fn split_on(s: Seq<char>, sep: Sep) -> Seq<Seq<char>>
    decreases s.len(),
{
    if s.len() == 0 {
        seq![seq![]]
    } else {
        let init = split_on(s.drop_last(), sep);
        if sep.holds(s.last()) {
            init.push(seq![])
        } else {
            init.update(init.len() - 1, init.last().push(s.last()))
        }
    }
}

pub proof fn lemma_split_on_nonempty(s: Seq<char>, sep: Sep)
    ensures
        split_on(s, sep).len() >= 1,
    decreases s.len(),
{
    if s.len() > 0 {
        lemma_split_on_nonempty(s.drop_last(), sep);
    }
}

/// Text without separators extends the last piece.
pub proof fn lemma_split_on_extend(a: Seq<char>, y: Seq<char>, sep: Sep)
    requires
        forall|i: int| 0 <= i < y.len() ==> !sep.holds(#[trigger] y[i]),
    ensures
        split_on(a + y, sep) == split_on(a, sep).update(
            split_on(a, sep).len() - 1,
            split_on(a, sep).last() + y,
        ),
    decreases y.len(),
{
    lemma_split_on_nonempty(a, sep);
    let sa = split_on(a, sep);
    if y.len() == 0 {
        assert(a + y == a);
        assert(sa.last() + y == sa.last());
        assert(sa.update(sa.len() - 1, sa.last()) == sa);
    } else {
        let y0 = y.drop_last();
        lemma_split_on_extend(a, y0, sep);
        assert((a + y).drop_last() == a + y0);
        assert((a + y).last() == y.last());
        assert(!sep.holds(y[y.len() - 1]));
        assert((sa.last() + y0).push(y.last()) == sa.last() + y);
    }
}

/// Splitting the pieces `ks` joined by the separator character `d` gives
/// them back, when none holds a separator.
pub proof fn lemma_split_joined(ks: Seq<Seq<char>>, d: char, sep: Sep)
    requires
        ks.len() >= 1,
        sep.holds(d),
        forall|k: int, i: int|
            0 <= k < ks.len() && 0 <= i < ks[k].len() ==> !sep.holds(#[trigger] ks[k][i]),
    ensures
        split_on(joined(ks, seq![d]), sep) == ks,
    decreases ks.len(),
{
    if ks.len() == 1 {
        assert forall|i: int| 0 <= i < ks[0].len() implies !sep.holds(#[trigger] ks[0][i]) by {}
        lemma_split_on_extend(seq![], ks[0], sep);
        assert(Seq::<char>::empty() + ks[0] == ks[0]);
        assert(split_on(Seq::<char>::empty(), sep) == seq![Seq::<char>::empty()]);
        assert(seq![Seq::<char>::empty()].update(0, Seq::<char>::empty() + ks[0]) == ks);
    } else {
        let init = ks.drop_last();
        assert forall|k: int, i: int| 0 <= k < init.len() && 0 <= i < init[k].len() implies !sep.holds(
            #[trigger] init[k][i],
        ) by {
            assert(init[k] == ks[k]);
        }
        lemma_split_joined(init, d, sep);
        let j = joined(init, seq![d]);
        assert(j + seq![d] == j.push(d));
        assert(j.push(d).drop_last() == j);
        assert(split_on(j.push(d), sep) == init.push(seq![]));
        let last = ks.last();
        assert forall|i: int| 0 <= i < last.len() implies !sep.holds(#[trigger] last[i]) by {
            assert(ks[ks.len() - 1][i] == last[i]);
        }
        lemma_split_on_extend(j.push(d), last, sep);
        assert(joined(ks, seq![d]) == j.push(d) + last);
        assert(Seq::<char>::empty() + last == last);
        assert(init.push(seq![]).update(init.len() as int, Seq::<char>::empty() + last) == ks);
    }
}

/// `b` bounds a piece of `v` equal to `part`.
pub open spec fn piece_at(v: Seq<char>, b: (usize, usize), part: Seq<char>) -> bool {
    b.0 <= b.1 <= v.len() && v.subrange(b.0 as int, b.1 as int) == part
}

/// `bs` bounds, in order, the pieces `parts` of `v`.
pub open spec fn pieces_at(v: Seq<char>, bs: Seq<(usize, usize)>, parts: Seq<Seq<char>>) -> bool {
    bs.len() == parts.len() && forall|k: int|
        0 <= k < bs.len() ==> piece_at(v, #[trigger] bs[k], parts[k])
}

/// The pieces of `v` between occurrences of `sep`, each as the bounds
/// `(start, end)` of the piece in `v`.
pub fn split_bounds(v: &Vec<char>, sep: &Sep) -> (r: Vec<(usize, usize)>)
    ensures
        pieces_at(v@, r@, split_on(v@, *sep)),
{
    let mut r: Vec<(usize, usize)> = Vec::new();
    let mut start: usize = 0;
    let mut i: usize = 0;
    proof {
        lemma_split_on_nonempty(v@.take(0), *sep);
        assert(v@.take(0) =~= seq![]);
        assert(split_on(v@.take(0), *sep) == seq![Seq::<char>::empty()]);
    }
    while i < v.len()
        invariant
            start <= i <= v@.len(),
            split_on(v@.take(i as int), *sep).len() == r@.len() + 1,
            pieces_at(v@, r@, split_on(v@.take(i as int), *sep).drop_last()),
            v@.subrange(start as int, i as int) == split_on(v@.take(i as int), *sep).last(),
        decreases v@.len() - i,
    {
        let ghost pre = split_on(v@.take(i as int), *sep);
        let ghost old_r = r@;
        let ghost old_start = start;
        let ghost old_i = i;
        proof {
            assert(v@.take(i + 1).drop_last() == v@.take(i as int));
            assert(v@.take(i + 1).last() == v@[i as int]);
        }
        if sep.matches(v[i]) {
            r.push((start, i));
            start = i + 1;
            i = i + 1;
            assert(v@.subrange(start as int, i as int) =~= seq![]);
            let ghost post = split_on(v@.take(i as int), *sep);
            assert(post == pre.push(seq![]));
            assert(post.drop_last() == pre);
            assert forall|k: int| 0 <= k < r@.len() implies piece_at(
                v@,
                #[trigger] r@[k],
                post.drop_last()[k],
            ) by {
                if k < old_r.len() {
                    assert(r@[k] == old_r[k]);
                    assert(pre.drop_last()[k] == pre[k]);
                } else {
                    assert(r@[k] == (old_start, old_i));
                    assert(post.drop_last()[k] == pre.last());
                }
            }
        } else {
            i = i + 1;
            assert(v@.subrange(start as int, i as int) == v@.subrange(start as int, i - 1).push(
                v@[i - 1],
            ));
            let ghost post = split_on(v@.take(i as int), *sep);
            assert(post == pre.update(pre.len() - 1, pre.last().push(v@[i - 1])));
            assert forall|k: int| 0 <= k < r@.len() implies piece_at(
                v@,
                #[trigger] r@[k],
                post.drop_last()[k],
            ) by {
                assert(post.drop_last()[k] == pre.drop_last()[k]);
            }
        }
    }
    let ghost old_r = r@;
    let ghost fin = split_on(v@.take(i as int), *sep);
    r.push((start, i));
    assert(v@.take(v@.len() as int) == v@);
    assert forall|k: int| 0 <= k < r@.len() implies piece_at(v@, #[trigger] r@[k], fin[k]) by {
        if k < old_r.len() {
            assert(r@[k] == old_r[k]);
            assert(fin.drop_last()[k] == fin[k]);
        }
    }
    r
}


pub proof fn lemma_trim_start_no_ws_start(s: Seq<char>)
    ensures
        trim_start(s).len() > 0 ==> !is_ws(trim_start(s)[0]),
        trim_start(trim_start(s)) == trim_start(s),
    decreases s.len(),
{
    if s.len() > 0 && is_ws(s[0]) {
        lemma_trim_start_no_ws_start(s.skip(1));
    }
}

pub proof fn lemma_trim_end_keeps_start(s: Seq<char>)
    ensures
        trim_end(s).len() <= s.len(),
        trim_end(s) == s.take(trim_end(s).len() as int),
        trim_end(s).len() > 0 ==> !is_ws(trim_end(s).last()),
        trim_end(trim_end(s)) == trim_end(s),
    decreases s.len(),
{
    if s.len() > 0 && is_ws(s.last()) {
        lemma_trim_end_keeps_start(s.drop_last());
        let t = trim_end(s.drop_last());
        assert(s.drop_last().take(t.len() as int) == s.take(t.len() as int));
    } else {
        assert(s.take(s.len() as int) == s);
    }
}

/// Trimming twice is trimming once.
pub proof fn lemma_trim_idempotent(s: Seq<char>)
    ensures
        trim(trim(s)) == trim(s),
{
    let a = trim_start(s);
    lemma_trim_start_no_ws_start(s);
    lemma_trim_end_keeps_start(a);
    let t = trim_end(a);
    // t has no leading whitespace: it is a prefix of a
    if t.len() > 0 {
        assert(t[0] == a[0]);
    }
    assert(trim_start(t) == t);
}


/// The end of a trimmed text is the end of the text with trailing
/// whitespace removed: `trim` and `trim_end` agree on the last character.
pub proof fn lemma_trim_end_of_trimmed(s: Seq<char>)
    ensures
        trim(s).len() > 0 <==> trim_end(s).len() > 0,
        trim(s).len() > 0 ==> trim(s).last() == trim_end(s).last(),
    decreases s.len(),
{
    lemma_trim_start_no_ws_start(s);
    lemma_trim_end_keeps_start(s);
    lemma_trim_end_keeps_start(trim_start(s));
    if s.len() > 0 && is_ws(s[0]) {
        lemma_trim_end_of_trimmed(s.skip(1));
        lemma_trim_end_skip_first(s);
    }
}

/// Dropping a leading whitespace character does not change where the
/// text without its trailing whitespace ends.
proof fn lemma_trim_end_skip_first(s: Seq<char>)
    requires
        s.len() > 0,
        is_ws(s[0]),
    ensures
        trim_end(s.skip(1)).len() > 0 ==> trim_end(s).len() == trim_end(s.skip(1)).len() + 1
            && trim_end(s).last() == trim_end(s.skip(1)).last(),
        trim_end(s.skip(1)).len() == 0 ==> trim_end(s).len() == 0,
    decreases s.len(),
{
    if s.len() > 1 && is_ws(s.last()) {
        assert(s.drop_last().skip(1) == s.skip(1).drop_last());
        assert(s.drop_last()[0] == s[0]);
        assert(s.skip(1).last() == s.last());
        lemma_trim_end_skip_first(s.drop_last());
    } else if s.len() > 1 {
        assert(s.skip(1).last() == s.last());
    } else {
        assert(s.skip(1).len() == 0);
        assert(s.drop_last().len() == 0);
        assert(s.last() == s[0]);
        assert(trim_end(s.drop_last()).len() == 0);
    }
}

/// Position of the first `c` in `s`, or -1.
pub open spec fn first_index_of(s: Seq<char>, c: char) -> int
    decreases s.len(),
{
    if s.len() == 0 {
        -1
    } else if s[0] == c {
        0
    } else {
        let r = first_index_of(s.skip(1), c);
        if r < 0 {
            -1
        } else {
            r + 1
        }
    }
}

pub proof fn lemma_first_index_of(s: Seq<char>, c: char)
    ensures
        -1 <= first_index_of(s, c) < s.len(),
        first_index_of(s, c) >= 0 ==> s[first_index_of(s, c)] == c,
        forall|k: int| 0 <= k < first_index_of(s, c) ==> s[k] != c,
        first_index_of(s, c) < 0 ==> forall|k: int| 0 <= k < s.len() ==> s[k] != c,
    decreases s.len(),
{
    if s.len() > 0 && s[0] != c {
        lemma_first_index_of(s.skip(1), c);
        assert forall|k: int| 1 <= k < s.len() implies s[k] == s.skip(1)[k - 1] by {}
    }
}

/// `s` occurs in `t`.
pub open spec fn contains_text(t: Seq<char>, s: Seq<char>) -> bool {
    exists|p: Seq<char>, q: Seq<char>| t == p + s + q
}

/// Text keeps what occurs in it when more text is put around it.
pub proof fn lemma_contains_around(a: Seq<char>, t: Seq<char>, b: Seq<char>, s: Seq<char>)
    requires
        contains_text(t, s),
    ensures
        contains_text(a + t + b, s),
{
    let (p, q) = choose|p: Seq<char>, q: Seq<char>| t == p + s + q;
    assert(a + t + b =~= (a + p) + s + (q + b));
}

/// A piece occurs in itself.
pub proof fn lemma_contains_self(s: Seq<char>)
    ensures
        contains_text(s, s),
{
    assert(s =~= Seq::<char>::empty() + s + Seq::<char>::empty());
}

/// What occurs in `x` occurs in `x + y`.
pub proof fn lemma_contains_left(x: Seq<char>, y: Seq<char>, s: Seq<char>)
    requires
        contains_text(x, s),
    ensures
        contains_text(x + y, s),
{
    lemma_contains_around(seq![], x, y, s);
    assert(seq![] + x + y =~= x + y);
}

/// What occurs in `y` occurs in `x + y`.
pub proof fn lemma_contains_right(x: Seq<char>, y: Seq<char>, s: Seq<char>)
    requires
        contains_text(y, s),
    ensures
        contains_text(x + y, s),
{
    lemma_contains_around(x, y, seq![], s);
    assert(x + y + seq![] =~= x + y);
}

/// What occurs in a piece of `t` occurs in `t`.
pub proof fn lemma_contains_trans(t: Seq<char>, m: Seq<char>, s: Seq<char>)
    requires
        contains_text(t, m),
        contains_text(m, s),
    ensures
        contains_text(t, s),
{
    let (p, q) = choose|p: Seq<char>, q: Seq<char>| t == p + m + q;
    lemma_contains_around(p, m, q, s);
}

/// Each part occurs in the parts joined.
pub proof fn lemma_joined_contains(parts: Seq<Seq<char>>, sep: Seq<char>, k: int)
    requires
        0 <= k < parts.len(),
    ensures
        contains_text(joined(parts, sep), parts[k]),
    decreases parts.len(),
{
    if parts.len() == 1 {
        lemma_contains_self(parts[0]);
    } else {
        let init = joined(parts.drop_last(), sep);
        if k == parts.len() - 1 {
            lemma_contains_self(parts.last());
            lemma_contains_right(init + sep, parts.last(), parts.last());
        } else {
            assert(parts.drop_last()[k] == parts[k]);
            lemma_joined_contains(parts.drop_last(), sep, k);
            lemma_contains_left(init, sep, parts[k]);
            lemma_contains_left(init + sep, parts.last(), parts[k]);
        }
    }
}

} // verus!
