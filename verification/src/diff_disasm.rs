//! Offset-aligned diff of the ATOM command-table disassembly of two ROMs.

use vstd::prelude::*;

use crate::num::{dec, hex, push_dec, push_dec_padded, push_hex, zero_padded};
use crate::render::color::{bad_code, good_code, painted, title_code, warn_code, Palette};
use crate::compare::{at_line_start, lemma_split_lines_concat, lemma_split_single_line, single_line};
use crate::textutil::{push_str_chars, split_on, string_of, Sep};

verus! {

/// One disassembled instruction of a command table.
pub struct DisasmLine {
    /// Offset of the instruction from the start of its table.
    pub addr: usize,
    pub text: String,
}

/// The disassembly of one command table.
pub struct TableDisasm {
    /// Position of the table in the master command table.
    pub index: usize,
    pub name: String,
    pub fmt_rev: u8,
    pub cont_rev: u8,
    pub lines: Vec<DisasmLine>,
}

/// A context line: `  ADDR  text`.
pub open spec fn ctx_line(l: DisasmLine) -> Seq<char> {
    "  "@ + zero_padded(hex(l.addr as nat), 4) + "  "@ + l.text@ + "\n"@
}

/// A line only in A (or changed): red `-`.
pub open spec fn minus_line(on: bool, l: DisasmLine) -> Seq<char> {
    painted(on, bad_code(), "-"@) + " "@ + zero_padded(hex(l.addr as nat), 4) + "  "@ + l.text@
        + "\n"@
}

/// A line only in B (or changed): green `+`.
pub open spec fn plus_line(on: bool, l: DisasmLine) -> Seq<char> {
    painted(on, good_code(), "+"@) + " "@ + zero_padded(hex(l.addr as nat), 4) + "  "@ + l.text@
        + "\n"@
}

/// The pending context lines.
pub open spec fn ctx_text(ctx: Seq<DisasmLine>) -> Seq<char>
    decreases ctx.len(),
{
    if ctx.len() == 0 {
        seq![]
    } else {
        ctx_text(ctx.drop_last()) + ctx_line(ctx.last())
    }
}

/// The context after an unchanged line `l`: the last two unchanged
/// lines (none kept in diff-only mode).
pub open spec fn ctx_after(ctx: Seq<DisasmLine>, l: DisasmLine, diff_only: bool) -> Seq<
    DisasmLine,
> {
    if diff_only {
        ctx
    } else if ctx.push(l).len() > 2 {
        ctx.push(l).skip(1)
    } else {
        ctx.push(l)
    }
}

/// The merge of the line lists `a[i..]` and `b[j..]` (both sorted by
/// address), given the pending context, the output so far and the
/// counts of changed lines: `(output, changed in A, changed in B)`.
#[verifier::opaque]
pub open spec fn merge_from(
    a: Seq<DisasmLine>,
    b: Seq<DisasmLine>,
    i: int,
    j: int,
    ctx: Seq<DisasmLine>,
    out: Seq<char>,
    ac: nat,
    bc: nat,
    diff_only: bool,
    on: bool,
) -> (Seq<char>, nat, nat)
    decreases a.len() - i + b.len() - j,
{
    if i < 0 || j < 0 || i > a.len() || j > b.len() || (i == a.len() && j == b.len()) {
        (out, ac, bc)
    } else if i < a.len() && j < b.len() && a[i].addr == b[j].addr {
        if a[i].text@ == b[j].text@ {
            merge_from(a, b, i + 1, j + 1, ctx_after(ctx, a[i], diff_only), out, ac, bc, diff_only, on)
        } else {
            merge_from(
                a,
                b,
                i + 1,
                j + 1,
                seq![],
                out + ctx_text(ctx) + minus_line(on, a[i]) + plus_line(on, b[j]),
                ac + 1,
                bc + 1,
                diff_only,
                on,
            )
        }
    } else if i < a.len() && (j >= b.len() || a[i].addr < b[j].addr) {
        merge_from(
            a,
            b,
            i + 1,
            j,
            seq![],
            out + ctx_text(ctx) + minus_line(on, a[i]),
            ac + 1,
            bc,
            diff_only,
            on,
        )
    } else {
        merge_from(
            a,
            b,
            i,
            j + 1,
            seq![],
            out + ctx_text(ctx) + plus_line(on, b[j]),
            ac,
            bc + 1,
            diff_only,
            on,
        )
    }
}

proof fn lemma_merge_same(
    a: Seq<DisasmLine>,
    b: Seq<DisasmLine>,
    i: int,
    j: int,
    ctx: Seq<DisasmLine>,
    out: Seq<char>,
    ac: nat,
    bc: nat,
    diff_only: bool,
    on: bool,
)
    requires
        0 <= i < a.len(),
        0 <= j < b.len(),
        a[i].addr == b[j].addr,
        a[i].text@ == b[j].text@,
    ensures
        merge_from(a, b, i, j, ctx, out, ac, bc, diff_only, on) == merge_from(
            a,
            b,
            i + 1,
            j + 1,
            ctx_after(ctx, a[i], diff_only),
            out,
            ac,
            bc,
            diff_only,
            on,
        ),
{
    reveal(merge_from);
}

proof fn lemma_merge_changed(
    a: Seq<DisasmLine>,
    b: Seq<DisasmLine>,
    i: int,
    j: int,
    ctx: Seq<DisasmLine>,
    out: Seq<char>,
    ac: nat,
    bc: nat,
    diff_only: bool,
    on: bool,
)
    requires
        0 <= i < a.len(),
        0 <= j < b.len(),
        a[i].addr == b[j].addr,
        a[i].text@ != b[j].text@,
    ensures
        merge_from(a, b, i, j, ctx, out, ac, bc, diff_only, on) == merge_from(
            a,
            b,
            i + 1,
            j + 1,
            seq![],
            out + ctx_text(ctx) + minus_line(on, a[i]) + plus_line(on, b[j]),
            ac + 1,
            bc + 1,
            diff_only,
            on,
        ),
{
    reveal(merge_from);
}

proof fn lemma_merge_minus(
    a: Seq<DisasmLine>,
    b: Seq<DisasmLine>,
    i: int,
    j: int,
    ctx: Seq<DisasmLine>,
    out: Seq<char>,
    ac: nat,
    bc: nat,
    diff_only: bool,
    on: bool,
)
    requires
        0 <= i < a.len(),
        0 <= j <= b.len(),
        j == b.len() || a[i].addr < b[j].addr,
    ensures
        merge_from(a, b, i, j, ctx, out, ac, bc, diff_only, on) == merge_from(
            a,
            b,
            i + 1,
            j,
            seq![],
            out + ctx_text(ctx) + minus_line(on, a[i]),
            ac + 1,
            bc,
            diff_only,
            on,
        ),
{
    reveal(merge_from);
}

proof fn lemma_merge_plus(
    a: Seq<DisasmLine>,
    b: Seq<DisasmLine>,
    i: int,
    j: int,
    ctx: Seq<DisasmLine>,
    out: Seq<char>,
    ac: nat,
    bc: nat,
    diff_only: bool,
    on: bool,
)
    requires
        0 <= i <= a.len(),
        0 <= j < b.len(),
        i == a.len() || a[i].addr > b[j].addr,
    ensures
        merge_from(a, b, i, j, ctx, out, ac, bc, diff_only, on) == merge_from(
            a,
            b,
            i,
            j + 1,
            seq![],
            out + ctx_text(ctx) + plus_line(on, b[j]),
            ac,
            bc + 1,
            diff_only,
            on,
        ),
{
    reveal(merge_from);
}

proof fn lemma_merge_done(
    a: Seq<DisasmLine>,
    b: Seq<DisasmLine>,
    ctx: Seq<DisasmLine>,
    out: Seq<char>,
    ac: nat,
    bc: nat,
    diff_only: bool,
    on: bool,
)
    ensures
        merge_from(a, b, a.len() as int, b.len() as int, ctx, out, ac, bc, diff_only, on) == (
            out,
            ac,
            bc,
        ),
{
    reveal(merge_from);
}

/// The diff of two tables: a summary, then the changed lines with their
/// context; nothing at all in diff-only mode when they are identical.
pub open spec fn table_diff(a: Seq<DisasmLine>, b: Seq<DisasmLine>, on: bool, diff_only: bool) -> Seq<
    char,
> {
    let (out, ac, bc) = merge_from(a, b, 0, 0, seq![], seq![], 0, 0, diff_only, on);
    if diff_only && ac == 0 && bc == 0 {
        seq![]
    } else if ac == 0 && bc == 0 {
        "  (identical)\n"@ + out
    } else {
        "  "@ + painted(on, warn_code(), "≠"@) + " "@ + dec(ac) + " changed line(s) in A, "@ + dec(bc)
            + " in B ("@ + dec(ac + bc) + " total)\n"@ + out
    }
}

/// Appends `  ADDR  text\n` for `l`.
fn push_ctx_line(out: &mut Vec<char>, l: &DisasmLine)
    requires
        l.addr <= u64::MAX,
    ensures
        final(out)@ == old(out)@ + ctx_line(*l),
{
    push_str_chars(out, "  ");
    push_hex(out, l.addr as u64, 4);
    push_str_chars(out, "  ");
    push_str_chars(out, l.text.as_str());
    push_str_chars(out, "\n");
}

/// Appends `MARK ADDR  text\n` for `l`, `mark` being already colored.
fn push_marked_line(out: &mut Vec<char>, mark: &str, l: &DisasmLine)
    ensures
        final(out)@ == old(out)@ + mark@ + " "@ + zero_padded(hex(l.addr as nat), 4) + "  "@
            + l.text@ + "\n"@,
{
    push_str_chars(out, mark);
    push_str_chars(out, " ");
    push_hex(out, l.addr as u64, 4);
    push_str_chars(out, "  ");
    push_str_chars(out, l.text.as_str());
    push_str_chars(out, "\n");
}

/// Appends the pending context lines and forgets them.
fn flush_ctx(out: &mut Vec<char>, ctx: &mut Vec<&DisasmLine>)
    ensures
        final(out)@ == old(out)@ + ctx_text(old(ctx)@.map_values(|l: &DisasmLine| *l)),
        final(ctx)@.len() == 0,
{
    let ghost start = out@;
    let ghost cs = ctx@.map_values(|l: &DisasmLine| *l);
    let mut k: usize = 0;
    assert(cs.take(0) =~= seq![]);
    while k < ctx.len()
        invariant
            k <= ctx@.len(),
            cs == ctx@.map_values(|l: &DisasmLine| *l),
            out@ == start + ctx_text(cs.take(k as int)),
        decreases ctx@.len() - k,
    {
        push_ctx_line(out, ctx[k]);
        k = k + 1;
        proof {
            let p = cs.take(k as int);
            assert(p.drop_last() == cs.take(k - 1));
            assert(p.last() == *ctx@[k - 1]);
        }
    }
    assert(cs.take(ctx@.len() as int) == cs);
    ctx.clear();
}

/// Merge-diffs two tables' line lists (both sorted by `addr`), with a
/// rolling context of 2 unchanged lines. `-` lines come from A, `+`
/// lines from B; matching lines are context.
#[verifier::rlimit(80)]
pub fn diff_table(ta: &TableDisasm, tb: &TableDisasm, pal: &Palette, diff_only: bool) -> (r: String)
    requires
        ta.lines@.len() + tb.lines@.len() <= usize::MAX,
    ensures
        r@ == table_diff(ta.lines@, tb.lines@, pal.on, diff_only),
{
    let ghost a = ta.lines@;
    let ghost b = tb.lines@;
    let ghost total = merge_from(a, b, 0, 0, seq![], seq![], 0, 0, diff_only, pal.on);
    let mut out: Vec<char> = Vec::new();
    let mut ctx: Vec<&DisasmLine> = Vec::new();
    let mut a_changed: usize = 0;
    let mut b_changed: usize = 0;
    let mut i: usize = 0;
    let mut j: usize = 0;
    let minus = pal.bad("-");
    let plus = pal.good("+");
    assert(ctx@.map_values(|l: &DisasmLine| *l) =~= seq![]);
    while i < ta.lines.len() || j < tb.lines.len()
        invariant
            a == ta.lines@,
            b == tb.lines@,
            a.len() + b.len() <= usize::MAX,
            i <= a.len(),
            j <= b.len(),
            a_changed <= i,
            b_changed <= j,
            minus@ == painted(pal.on, bad_code(), "-"@),
            plus@ == painted(pal.on, good_code(), "+"@),
            total == merge_from(a, b, 0, 0, seq![], seq![], 0, 0, diff_only, pal.on),
            merge_from(
                a,
                b,
                i as int,
                j as int,
                ctx@.map_values(|l: &DisasmLine| *l),
                out@,
                a_changed as nat,
                b_changed as nat,
                diff_only,
                pal.on,
            ) == total,
        decreases a.len() - i + b.len() - j,
    {
        let ghost cs = ctx@.map_values(|l: &DisasmLine| *l);
        let ghost oi = i as int;
        let ghost oj = j as int;
        let ghost oo = out@;
        let ghost oac = a_changed as nat;
        let ghost obc = b_changed as nat;
        if i < ta.lines.len() && j < tb.lines.len() && ta.lines[i].addr == tb.lines[j].addr {
            let x = &ta.lines[i];
            let y = &tb.lines[j];
            if x.text == y.text {
                if !diff_only {
                    ctx.push(x);
                    if ctx.len() > 2 {
                        ctx.remove(0);
                    }
                }
                assert(ctx@.map_values(|l: &DisasmLine| *l) =~= ctx_after(cs, a[i as int], diff_only));
                proof {
                    lemma_merge_same(a, b, oi, oj, cs, oo, oac, obc, diff_only, pal.on);
                }
                i = i + 1;
                j = j + 1;
            } else {
                flush_ctx(&mut out, &mut ctx);
                push_marked_line(&mut out, minus.as_str(), x);
                push_marked_line(&mut out, plus.as_str(), y);
                assert(ctx@.map_values(|l: &DisasmLine| *l) =~= seq![]);
                assert(out@ =~= oo + ctx_text(cs) + minus_line(pal.on, a[oi]) + plus_line(pal.on, b[oj]));
                proof {
                    lemma_merge_changed(a, b, oi, oj, cs, oo, oac, obc, diff_only, pal.on);
                }
                a_changed = a_changed + 1;
                b_changed = b_changed + 1;
                i = i + 1;
                j = j + 1;
            }
        } else if i < ta.lines.len() && (j >= tb.lines.len() || ta.lines[i].addr < tb.lines[j].addr) {
            let x = &ta.lines[i];
            flush_ctx(&mut out, &mut ctx);
            push_marked_line(&mut out, minus.as_str(), x);
            assert(ctx@.map_values(|l: &DisasmLine| *l) =~= seq![]);
            assert(out@ =~= oo + ctx_text(cs) + minus_line(pal.on, a[oi]));
            proof {
                lemma_merge_minus(a, b, oi, oj, cs, oo, oac, obc, diff_only, pal.on);
            }
            a_changed = a_changed + 1;
            i = i + 1;
        } else {
            let y = &tb.lines[j];
            flush_ctx(&mut out, &mut ctx);
            push_marked_line(&mut out, plus.as_str(), y);
            assert(ctx@.map_values(|l: &DisasmLine| *l) =~= seq![]);
            assert(out@ =~= oo + ctx_text(cs) + plus_line(pal.on, b[oj]));
            proof {
                lemma_merge_plus(a, b, oi, oj, cs, oo, oac, obc, diff_only, pal.on);
            }
            b_changed = b_changed + 1;
            j = j + 1;
        }
    }
    proof {
        lemma_merge_done(
            a,
            b,
            ctx@.map_values(|l: &DisasmLine| *l),
            out@,
            a_changed as nat,
            b_changed as nat,
            diff_only,
            pal.on,
        );
    }
    if diff_only && a_changed == 0 && b_changed == 0 {
        return String::new();
    }
    let mut res: Vec<char> = Vec::new();
    if a_changed == 0 && b_changed == 0 {
        push_str_chars(&mut res, "  (identical)\n");
    } else {
        push_str_chars(&mut res, "  ");
        push_str_chars(&mut res, pal.warn("≠").as_str());
        push_str_chars(&mut res, " ");
        push_dec(&mut res, a_changed as u64);
        push_str_chars(&mut res, " changed line(s) in A, ");
        push_dec(&mut res, b_changed as u64);
        push_str_chars(&mut res, " in B (");
        push_dec(&mut res, (a_changed + b_changed) as u64);
        push_str_chars(&mut res, " total)\n");
    }
    crate::textutil::push_all(&mut res, &out);
    string_of(&res)
}


/// The last table of `ts` with position `k` (the one a map keyed by
/// position keeps).
pub open spec fn lookup_last(ts: Seq<TableDisasm>, k: usize) -> Option<TableDisasm>
    decreases ts.len(),
{
    if ts.len() == 0 {
        None
    } else if ts.last().index == k {
        Some(ts.last())
    } else {
        lookup_last(ts.drop_last(), k)
    }
}

/// Some table of `ts` has position `k`.
pub open spec fn has_index(ts: Seq<TableDisasm>, k: usize) -> bool {
    exists|m: int| 0 <= m < ts.len() && #[trigger] ts[m].index == k
}

/// `ks` is strictly increasing.
pub open spec fn strictly_increasing(ks: Seq<usize>) -> bool {
    forall|x: int, y: int| 0 <= x < y < ks.len() ==> ks[x] < ks[y]
}

/// `{index:02} name` of a table heading.
pub open spec fn table_tag(t: TableDisasm) -> Seq<char> {
    zero_padded(dec(t.index as nat), 2) + " "@ + t.name@
}

/// The part of the report for the table at position `k`.
pub open spec fn entry_text(
    a: Seq<TableDisasm>,
    b: Seq<TableDisasm>,
    k: usize,
    diff_only: bool,
    on: bool,
) -> Seq<char> {
    match (lookup_last(a, k), lookup_last(b, k)) {
        (Some(ta), Some(tb)) => painted(
            on,
            title_code(),
            "\n── "@ + table_tag(ta) + " (rev "@ + dec(ta.fmt_rev as nat) + "."@ + dec(
                ta.cont_rev as nat,
            ) + ")"@,
        ) + "\n"@ + table_diff(ta.lines@, tb.lines@, on, diff_only),
        (Some(ta), None) => painted(on, warn_code(), "\n── "@ + table_tag(ta) + ": present only in A"@)
            + "\n"@ + if diff_only {
            seq![]
        } else {
            ctx_text(ta.lines@)
        },
        (None, Some(tb)) => painted(on, warn_code(), "\n── "@ + table_tag(tb) + ": present only in B"@)
            + "\n"@ + if diff_only {
            seq![]
        } else {
            ctx_text(tb.lines@)
        },
        (None, None) => seq![],
    }
}

/// The report for the positions `ks`, in order.
pub open spec fn report_text(
    a: Seq<TableDisasm>,
    b: Seq<TableDisasm>,
    ks: Seq<usize>,
    diff_only: bool,
    on: bool,
) -> Seq<char>
    decreases ks.len(),
{
    if ks.len() == 0 {
        seq![]
    } else {
        report_text(a, b, ks.drop_last(), diff_only, on) + entry_text(
            a,
            b,
            ks.last(),
            diff_only,
            on,
        )
    }
}

/// The line lists are small enough to merge without overflow.
pub open spec fn small_tables(ts: Seq<TableDisasm>) -> bool {
    forall|m: int| 0 <= m < ts.len() ==> #[trigger] ts[m].lines@.len() <= usize::MAX / 2
}

/// The last table of `ts` with position `k`.
fn find_last(ts: &[TableDisasm], k: usize) -> (r: Option<&TableDisasm>)
    ensures
        match r {
            Some(t) => lookup_last(ts@, k) == Some(*t),
            None => lookup_last(ts@, k) is None,
        },
        r is Some <==> has_index(ts@, k),
{
    let mut m = ts.len();
    assert(ts@.take(m as int) == ts@);
    while m > 0
        invariant
            m <= ts@.len(),
            lookup_last(ts@.take(m as int), k) == lookup_last(ts@, k),
            forall|x: int| m <= x < ts@.len() ==> ts@[x].index != k,
        decreases m,
    {
        let ghost p = ts@.take(m as int);
        assert(p.last() == ts@[m - 1]);
        assert(p.drop_last() == ts@.take(m - 1));
        if ts[m - 1].index == k {
            return Some(&ts[m - 1]);
        }
        m = m - 1;
    }
    assert(ts@.take(0) =~= seq![]);
    assert(!has_index(ts@, k)) by {
        if has_index(ts@, k) {
            let w = choose|w: int| 0 <= w < ts@.len() && #[trigger] ts@[w].index == k;
            assert(ts@[w].index != k);
        }
    }
    None
}

/// Inserts `x` into the strictly increasing `keys`, unless present.
fn insert_sorted(keys: &mut Vec<usize>, x: usize)
    requires
        strictly_increasing(old(keys)@),
    ensures
        strictly_increasing(final(keys)@),
        forall|y: usize| final(keys)@.contains(y) <==> (old(keys)@.contains(y) || y == x),
{
    let mut p: usize = 0;
    while p < keys.len() && keys[p] < x
        invariant
            keys@ == old(keys)@,
            p <= keys@.len(),
            forall|q: int| 0 <= q < p ==> keys@[q] < x,
        decreases keys@.len() - p,
    {
        p = p + 1;
    }
    if p < keys.len() && keys[p] == x {
        assert(keys@[p as int] == x);
        assert(keys@.contains(x));
        assert forall|y: usize| keys@.contains(y) <==> (keys@.contains(y) || y == x) by {}
        return;
    }
    let ghost before = keys@;
    assert(before == old(keys)@);
    keys.insert(p, x);
    assert(keys@ == before.insert(p as int, x));
    assert(keys@.len() == before.len() + 1);
    assert forall|y: usize| #[trigger] keys@.contains(y) implies (before.contains(y) || y == x) by {
        let w = choose|w: int| 0 <= w < keys@.len() && keys@[w] == y;
        if w < p {
            assert(before[w] == y);
        } else if w > p {
            assert(before[w - 1] == y);
        }
    }
    assert forall|y: usize| (before.contains(y) || y == x) implies #[trigger] keys@.contains(y) by {
        if y == x {
            assert(keys@[p as int] == x);
        } else {
            let w = choose|w: int| 0 <= w < before.len() && before[w] == y;
            if w < p {
                assert(keys@[w] == y);
            } else {
                assert(keys@[w + 1] == y);
            }
        }
    }
    assert forall|u: int, v: int| 0 <= u < v < keys@.len() implies keys@[u] < keys@[v] by {
        if u < p && v < p {
            assert(before[u] < before[v]);
        } else if u < p && v == p {
        } else if u < p {
            assert(before[u] < before[v - 1]);
        } else if u == p {
            assert(before[v - 1] > x) by {
                if p < before.len() {
                    assert(before[p as int] >= x);
                    assert(before[p as int] != x);
                    if v - 1 > p {
                        assert(before[p as int] < before[v - 1]);
                    }
                }
            }
        } else {
            assert(before[u - 1] < before[v - 1]);
        }
    }
}

/// Appends the heading of `t` with `suffix` (colored by `paint`).
fn push_table_tag(out: &mut Vec<char>, t: &TableDisasm)
    ensures
        final(out)@ == old(out)@ + table_tag(*t),
{
    push_dec_padded(out, t.index as u64, 2);
    push_str_chars(out, " ");
    push_str_chars(out, t.name.as_str());
}

/// Appends the lines of `t` as context lines.
fn push_all_lines(out: &mut Vec<char>, t: &TableDisasm)
    ensures
        final(out)@ == old(out)@ + ctx_text(t.lines@),
{
    let ghost start = out@;
    let mut k: usize = 0;
    assert(t.lines@.take(0) =~= seq![]);
    while k < t.lines.len()
        invariant
            k <= t.lines@.len(),
            out@ == start + ctx_text(t.lines@.take(k as int)),
        decreases t.lines@.len() - k,
    {
        push_ctx_line(out, &t.lines[k]);
        k = k + 1;
        proof {
            let p = t.lines@.take(k as int);
            assert(p.drop_last() == t.lines@.take(k - 1));
            assert(p.last() == t.lines@[k - 1]);
        }
    }
    assert(t.lines@.take(t.lines@.len() as int) == t.lines@);
}

/// The part of the report for one table position.
fn entry(a: &[TableDisasm], b: &[TableDisasm], k: usize, diff_only: bool, pal: &Palette) -> (r:
    Vec<char>)
    requires
        small_tables(a@),
        small_tables(b@),
    ensures
        r@ == entry_text(a@, b@, k, diff_only, pal.on),
{
    let mut out: Vec<char> = Vec::new();
    match (find_last(a, k), find_last(b, k)) {
        (Some(ta), Some(tb)) => {
            proof {
                lemma_lookup_last_in(a@, k);
                lemma_lookup_last_in(b@, k);
            }
            let mut h: Vec<char> = Vec::new();
            push_str_chars(&mut h, "\n── ");
            push_table_tag(&mut h, ta);
            push_str_chars(&mut h, " (rev ");
            push_dec(&mut h, ta.fmt_rev as u64);
            push_str_chars(&mut h, ".");
            push_dec(&mut h, ta.cont_rev as u64);
            push_str_chars(&mut h, ")");
            push_str_chars(&mut out, pal.title(string_of(&h).as_str()).as_str());
            push_str_chars(&mut out, "\n");
            let d = diff_table(ta, tb, pal, diff_only);
            push_str_chars(&mut out, d.as_str());
        },
        (Some(ta), None) => {
            let mut h: Vec<char> = Vec::new();
            push_str_chars(&mut h, "\n── ");
            push_table_tag(&mut h, ta);
            push_str_chars(&mut h, ": present only in A");
            push_str_chars(&mut out, pal.warn(string_of(&h).as_str()).as_str());
            push_str_chars(&mut out, "\n");
            if !diff_only {
                push_all_lines(&mut out, ta);
            }
        },
        (None, Some(tb)) => {
            let mut h: Vec<char> = Vec::new();
            push_str_chars(&mut h, "\n── ");
            push_table_tag(&mut h, tb);
            push_str_chars(&mut h, ": present only in B");
            push_str_chars(&mut out, pal.warn(string_of(&h).as_str()).as_str());
            push_str_chars(&mut out, "\n");
            if !diff_only {
                push_all_lines(&mut out, tb);
            }
        },
        (None, None) => {},
    }
    out
}

proof fn lemma_lookup_last_in(ts: Seq<TableDisasm>, k: usize)
    requires
        small_tables(ts),
    ensures
        lookup_last(ts, k) matches Some(t) ==> t.lines@.len() <= usize::MAX / 2,
    decreases ts.len(),
{
    if ts.len() > 0 {
        assert(ts.last() == ts[ts.len() - 1]);
        assert(small_tables(ts.drop_last())) by {
            assert forall|m: int| 0 <= m < ts.drop_last().len() implies #[trigger] ts.drop_last()[m].lines@.len()
                <= usize::MAX / 2 by {
                assert(ts.drop_last()[m] == ts[m]);
            }
        }
        lemma_lookup_last_in(ts.drop_last(), k);
    }
}

/// Offset-aligned diff of the disassembly of two ROMs' command tables.
/// The disasm `addr` field is relative to the table start, so tables at
/// different ROM offsets still line up. Tables are matched by their
/// position in the master command table; the report walks the positions
/// in increasing order.
pub fn run(a: &[TableDisasm], b: &[TableDisasm], diff_only: bool, color: bool) -> (r: String)
    requires
        small_tables(a@),
        small_tables(b@),
    ensures
        exists|ks: Seq<usize>|
            {
                &&& strictly_increasing(ks)
                &&& forall|k: usize| ks.contains(k) <==> (has_index(a@, k) || has_index(b@, k))
                &&& r@ == report_text(a@, b@, ks, diff_only, color)
            },
{
    let pal = Palette::new(color);
    let mut keys: Vec<usize> = Vec::new();
    let mut m: usize = 0;
    while m < a.len()
        invariant
            m <= a@.len(),
            strictly_increasing(keys@),
            forall|k: usize| keys@.contains(k) <==> exists|x: int| 0 <= x < m && #[trigger] a@[x].index == k,
        decreases a@.len() - m,
    {
        insert_sorted(&mut keys, a[m].index);
        m = m + 1;
        assert forall|k: usize| keys@.contains(k) <==> exists|x: int| 0 <= x < m && #[trigger] a@[x].index == k by {
            if keys@.contains(k) && k != a@[m - 1].index {
                let x = choose|x: int| 0 <= x < m - 1 && #[trigger] a@[x].index == k;
                assert(0 <= x < m && a@[x].index == k);
            }
            if k == a@[m - 1].index {
                assert(a@[m - 1].index == k);
            }
        }
    }
    let mut m: usize = 0;
    while m < b.len()
        invariant
            m <= b@.len(),
            strictly_increasing(keys@),
            forall|k: usize| keys@.contains(k) <==> (has_index(a@, k) || exists|x: int| 0 <= x < m && #[trigger] b@[x].index == k),
        decreases b@.len() - m,
    {
        insert_sorted(&mut keys, b[m].index);
        m = m + 1;
        assert forall|k: usize| keys@.contains(k) <==> (has_index(a@, k) || exists|x: int| 0 <= x < m && #[trigger] b@[x].index == k) by {
            if keys@.contains(k) && k != b@[m - 1].index && !has_index(a@, k) {
                let x = choose|x: int| 0 <= x < m - 1 && #[trigger] b@[x].index == k;
                assert(0 <= x < m && b@[x].index == k);
            }
            if k == b@[m - 1].index {
                assert(b@[m - 1].index == k);
            }
        }
    }
    let mut out: Vec<char> = Vec::new();
    let mut i: usize = 0;
    assert(keys@.take(0) =~= seq![]);
    while i < keys.len()
        invariant
            i <= keys@.len(),
            small_tables(a@),
            small_tables(b@),
            pal.on == color,
            out@ == report_text(a@, b@, keys@.take(i as int), diff_only, color),
        decreases keys@.len() - i,
    {
        let e = entry(a, b, keys[i], diff_only, &pal);
        crate::textutil::push_all(&mut out, &e);
        i = i + 1;
        proof {
            let p = keys@.take(i as int);
            assert(p.drop_last() == keys@.take(i - 1));
            assert(p.last() == keys@[i - 1]);
        }
    }
    assert(keys@.take(keys@.len() as int) == keys@);
    string_of(&out)
}


proof fn lemma_merge_identical(
    a: Seq<DisasmLine>,
    i: int,
    ctx: Seq<DisasmLine>,
    out: Seq<char>,
    diff_only: bool,
    on: bool,
)
    requires
        0 <= i <= a.len(),
    ensures
        merge_from(a, a, i, i, ctx, out, 0, 0, diff_only, on) == (out, 0nat, 0nat),
    decreases a.len() - i,
{
    if i == a.len() {
        lemma_merge_done(a, a, ctx, out, 0, 0, diff_only, on);
    } else {
        lemma_merge_same(a, a, i, i, ctx, out, 0, 0, diff_only, on);
        lemma_merge_identical(a, i + 1, ctx_after(ctx, a[i], diff_only), out, diff_only, on);
    }
}

/// A table compared with itself reports `(identical)` and no line, and
/// nothing at all in diff-only mode.
pub proof fn law_identical_tables(a: Seq<DisasmLine>, on: bool)
    ensures
        table_diff(a, a, on, true) == Seq::<char>::empty(),
        table_diff(a, a, on, false) == "  (identical)\n"@,
{
    lemma_merge_identical(a, 0, seq![], seq![], true, on);
    lemma_merge_identical(a, 0, seq![], seq![], false, on);
    assert("  (identical)\n"@ + Seq::<char>::empty() == "  (identical)\n"@);
}

/// `a[i..]` and `b[j..]` hold the same lines: the same addresses with
/// the same text, in the same order.
pub open spec fn same_suffix(a: Seq<DisasmLine>, b: Seq<DisasmLine>, i: int, j: int) -> bool {
    &&& a.len() - i == b.len() - j
    &&& forall|k: int|
        0 <= k < a.len() - i ==> #[trigger] a[i + k].addr == b[j + k].addr && a[i + k].text@ == b[j
            + k].text@
}

/// Two tables hold the same lines.
pub open spec fn same_lines(a: Seq<DisasmLine>, b: Seq<DisasmLine>) -> bool {
    same_suffix(a, b, 0, 0)
}

proof fn lemma_same_suffix_step(a: Seq<DisasmLine>, b: Seq<DisasmLine>, i: int, j: int)
    requires
        0 <= i < a.len(),
        0 <= j < b.len(),
        a[i].addr == b[j].addr,
        a[i].text@ == b[j].text@,
        same_suffix(a, b, i + 1, j + 1),
    ensures
        same_suffix(a, b, i, j),
{
    assert forall|k: int| 0 <= k < a.len() - i implies #[trigger] a[i + k].addr == b[j + k].addr
        && a[i + k].text@ == b[j + k].text@ by {
        if k > 0 {
            assert(a[(i + 1) + (k - 1)] == a[i + k]);
            assert(b[(j + 1) + (k - 1)] == b[j + k]);
        }
    }
}

proof fn lemma_same_suffix_tail(a: Seq<DisasmLine>, b: Seq<DisasmLine>, i: int, j: int)
    requires
        0 <= i < a.len(),
        0 <= j < b.len(),
        same_suffix(a, b, i, j),
    ensures
        same_suffix(a, b, i + 1, j + 1),
        a[i].addr == b[j].addr,
        a[i].text@ == b[j].text@,
{
    assert(a[i + 0] == a[i] && b[j + 0] == b[j]);
    assert forall|k: int| 0 <= k < a.len() - (i + 1) implies #[trigger] a[(i + 1) + k].addr
        == b[(j + 1) + k].addr && a[(i + 1) + k].text@ == b[(j + 1) + k].text@ by {
        assert(a[i + (k + 1)] == a[(i + 1) + k]);
        assert(b[j + (k + 1)] == b[(j + 1) + k]);
    }
}

proof fn lemma_merge_counts(
    a: Seq<DisasmLine>,
    b: Seq<DisasmLine>,
    i: int,
    j: int,
    ctx: Seq<DisasmLine>,
    out: Seq<char>,
    ac: nat,
    bc: nat,
    diff_only: bool,
    on: bool,
)
    requires
        0 <= i <= a.len(),
        0 <= j <= b.len(),
    ensures
        ({
            let (o, ac2, bc2) = merge_from(a, b, i, j, ctx, out, ac, bc, diff_only, on);
            &&& ac2 >= ac
            &&& bc2 >= bc
            &&& (ac2 == ac && bc2 == bc) == same_suffix(a, b, i, j)
            &&& (ac2 == ac && bc2 == bc) ==> o == out
        }),
    decreases a.len() - i + b.len() - j,
{
    if i == a.len() && j == b.len() {
        lemma_merge_done(a, b, ctx, out, ac, bc, diff_only, on);
    } else if i < a.len() && j < b.len() && a[i].addr == b[j].addr {
        if a[i].text@ == b[j].text@ {
            lemma_merge_same(a, b, i, j, ctx, out, ac, bc, diff_only, on);
            lemma_merge_counts(a, b, i + 1, j + 1, ctx_after(ctx, a[i], diff_only), out, ac, bc, diff_only, on);
            if same_suffix(a, b, i + 1, j + 1) {
                lemma_same_suffix_step(a, b, i, j);
            }
            if same_suffix(a, b, i, j) {
                lemma_same_suffix_tail(a, b, i, j);
            }
        } else {
            lemma_merge_changed(a, b, i, j, ctx, out, ac, bc, diff_only, on);
            lemma_merge_counts(
                a,
                b,
                i + 1,
                j + 1,
                seq![],
                out + ctx_text(ctx) + minus_line(on, a[i]) + plus_line(on, b[j]),
                ac + 1,
                bc + 1,
                diff_only,
                on,
            );
            assert(!same_suffix(a, b, i, j)) by {
                if same_suffix(a, b, i, j) {
                    assert(a[i + 0].text@ == b[j + 0].text@);
                }
            }
        }
    } else if i < a.len() && (j >= b.len() || a[i].addr < b[j].addr) {
        lemma_merge_minus(a, b, i, j, ctx, out, ac, bc, diff_only, on);
        lemma_merge_counts(
            a,
            b,
            i + 1,
            j,
            seq![],
            out + ctx_text(ctx) + minus_line(on, a[i]),
            ac + 1,
            bc,
            diff_only,
            on,
        );
        assert(!same_suffix(a, b, i, j)) by {
            if same_suffix(a, b, i, j) {
                assert(a[i + 0].addr == b[j + 0].addr);
            }
        }
    } else {
        lemma_merge_plus(a, b, i, j, ctx, out, ac, bc, diff_only, on);
        lemma_merge_counts(
            a,
            b,
            i,
            j + 1,
            seq![],
            out + ctx_text(ctx) + plus_line(on, b[j]),
            ac,
            bc + 1,
            diff_only,
            on,
        );
        assert(!same_suffix(a, b, i, j)) by {
            if same_suffix(a, b, i, j) {
                assert(a[i + 0].addr == b[j + 0].addr);
            }
        }
    }
}

/// The diff of two tables reports `(identical)` and nothing else - and,
/// in diff-only mode, nothing at all - exactly when the two tables hold
/// the same lines (addresses and text, in order).
pub proof fn law_identical_iff_same_lines(a: Seq<DisasmLine>, b: Seq<DisasmLine>, on: bool)
    ensures
        (table_diff(a, b, on, false) == "  (identical)\n"@) == same_lines(a, b),
        (table_diff(a, b, on, true).len() == 0) == same_lines(a, b),
{
    lemma_merge_counts(a, b, 0, 0, seq![], seq![], 0, 0, false, on);
    lemma_merge_counts(a, b, 0, 0, seq![], seq![], 0, 0, true, on);
    reveal_strlit("  (identical)\n");
    reveal_strlit(" changed line(s) in A, ");
    reveal_strlit("  ");
    let (o, ac, bc) = merge_from(a, b, 0, 0, seq![], seq![], 0, 0, false, on);
    if same_lines(a, b) {
        assert(o == Seq::<char>::empty());
        assert("  (identical)\n"@ + o == "  (identical)\n"@);
    } else {
        let t = table_diff(a, b, on, false);
        assert(t.len() > 14);
    }
}

/// The lines are in strictly increasing address order.
pub open spec fn addr_sorted(a: Seq<DisasmLine>) -> bool {
    forall|i: int, j: int| 0 <= i < j < a.len() ==> a[i].addr < a[j].addr
}

/// `b` holds a line with the address and text of `l`.
pub open spec fn has_pair(b: Seq<DisasmLine>, l: DisasmLine) -> bool {
    exists|m: int| 0 <= m < b.len() && b[m].addr == l.addr && b[m].text@ == l.text@
}

/// How many lines of `a` have no line of the same address and text in
/// `b`.
pub open spec fn unmatched(a: Seq<DisasmLine>, b: Seq<DisasmLine>) -> nat
    decreases a.len(),
{
    if a.len() == 0 {
        0
    } else {
        (if has_pair(b, a[0]) {
            0nat
        } else {
            1nat
        }) + unmatched(a.skip(1), b)
    }
}

/// Dropping a line of `b` at an address no line of `a` has does not
/// change what of `a` is unmatched.
proof fn lemma_unmatched_drop(a: Seq<DisasmLine>, b: Seq<DisasmLine>)
    requires
        b.len() > 0,
        forall|k: int| 0 <= k < a.len() ==> #[trigger] a[k].addr != b[0].addr,
    ensures
        unmatched(a, b) == unmatched(a, b.skip(1)),
    decreases a.len(),
{
    if a.len() > 0 {
        let rest = a.skip(1);
        assert forall|k: int| 0 <= k < rest.len() implies #[trigger] rest[k].addr != b[0].addr by {
            assert(rest[k] == a[k + 1]);
        }
        lemma_unmatched_drop(rest, b);
        assert(a[0].addr != b[0].addr);
        assert(has_pair(b, a[0]) == has_pair(b.skip(1), a[0])) by {
            if has_pair(b, a[0]) {
                let m = choose|m: int|
                    0 <= m < b.len() && b[m].addr == a[0].addr && b[m].text@ == a[0].text@;
                assert(m != 0);
                assert(b.skip(1)[m - 1] == b[m]);
            }
            if has_pair(b.skip(1), a[0]) {
                let m = choose|m: int|
                    0 <= m < b.skip(1).len() && b.skip(1)[m].addr == a[0].addr && b.skip(1)[m].text@
                        == a[0].text@;
                assert(b[m + 1] == b.skip(1)[m]);
            }
        }
    }
}

proof fn lemma_sorted_skip(a: Seq<DisasmLine>, i: int)
    requires
        addr_sorted(a),
        0 <= i <= a.len(),
    ensures
        addr_sorted(a.skip(i)),
        forall|k: int| 0 < k < a.skip(i).len() ==> #[trigger] a.skip(i)[k].addr > a.skip(i)[0].addr,
{
    assert forall|x: int, y: int| 0 <= x < y < a.skip(i).len() implies a.skip(i)[x].addr
        < a.skip(i)[y].addr by {
        assert(a.skip(i)[x] == a[i + x]);
        assert(a.skip(i)[y] == a[i + y]);
    }
}

/// The change counts of the merge from `a[i..]`, `b[j..]` on: the
/// lines of each side with no same-address, same-text line in the other.
proof fn lemma_merge_unmatched(
    a: Seq<DisasmLine>,
    b: Seq<DisasmLine>,
    i: int,
    j: int,
    ctx: Seq<DisasmLine>,
    out: Seq<char>,
    ac: nat,
    bc: nat,
    diff_only: bool,
    on: bool,
)
    requires
        addr_sorted(a),
        addr_sorted(b),
        0 <= i <= a.len(),
        0 <= j <= b.len(),
    ensures
        merge_from(a, b, i, j, ctx, out, ac, bc, diff_only, on).1 == ac + unmatched(
            a.skip(i),
            b.skip(j),
        ),
        merge_from(a, b, i, j, ctx, out, ac, bc, diff_only, on).2 == bc + unmatched(
            b.skip(j),
            a.skip(i),
        ),
    decreases a.len() - i + b.len() - j,
{
    let sa = a.skip(i);
    let sb = b.skip(j);
    lemma_sorted_skip(a, i);
    lemma_sorted_skip(b, j);
    if i == a.len() && j == b.len() {
        lemma_merge_done(a, b, ctx, out, ac, bc, diff_only, on);
    } else if i < a.len() && j < b.len() && a[i].addr == b[j].addr {
        assert(sa[0] == a[i] && sb[0] == b[j]);
        assert(sa.skip(1) == a.skip(i + 1));
        assert(sb.skip(1) == b.skip(j + 1));
        // the rest of each side lies strictly above the shared address
        assert forall|k: int| 0 <= k < sa.skip(1).len() implies #[trigger] sa.skip(1)[k].addr
            != sb[0].addr by {
            assert(sa.skip(1)[k] == sa[k + 1]);
        }
        assert forall|k: int| 0 <= k < sb.skip(1).len() implies #[trigger] sb.skip(1)[k].addr
            != sa[0].addr by {
            assert(sb.skip(1)[k] == sb[k + 1]);
        }
        lemma_unmatched_drop(sa.skip(1), sb);
        lemma_unmatched_drop(sb.skip(1), sa);
        if a[i].text@ == b[j].text@ {
            lemma_merge_same(a, b, i, j, ctx, out, ac, bc, diff_only, on);
            lemma_merge_unmatched(a, b, i + 1, j + 1, ctx_after(ctx, a[i], diff_only), out, ac, bc, diff_only, on);
            assert(has_pair(sb, sa[0])) by {
                assert(sb[0].addr == sa[0].addr && sb[0].text@ == sa[0].text@);
            }
            assert(has_pair(sa, sb[0])) by {
                assert(sa[0].addr == sb[0].addr && sa[0].text@ == sb[0].text@);
            }
        } else {
            lemma_merge_changed(a, b, i, j, ctx, out, ac, bc, diff_only, on);
            lemma_merge_unmatched(
                a,
                b,
                i + 1,
                j + 1,
                seq![],
                out + ctx_text(ctx) + minus_line(on, a[i]) + plus_line(on, b[j]),
                ac + 1,
                bc + 1,
                diff_only,
                on,
            );
            assert(!has_pair(sb, sa[0])) by {
                if has_pair(sb, sa[0]) {
                    let m = choose|m: int|
                        0 <= m < sb.len() && sb[m].addr == sa[0].addr && sb[m].text@ == sa[0].text@;
                    if m > 0 {
                        assert(sb[m].addr > sb[0].addr);
                    }
                }
            }
            assert(!has_pair(sa, sb[0])) by {
                if has_pair(sa, sb[0]) {
                    let m = choose|m: int|
                        0 <= m < sa.len() && sa[m].addr == sb[0].addr && sa[m].text@ == sb[0].text@;
                    if m > 0 {
                        assert(sa[m].addr > sa[0].addr);
                    }
                }
            }
        }
    } else if i < a.len() && (j >= b.len() || a[i].addr < b[j].addr) {
        lemma_merge_minus(a, b, i, j, ctx, out, ac, bc, diff_only, on);
        lemma_merge_unmatched(
            a,
            b,
            i + 1,
            j,
            seq![],
            out + ctx_text(ctx) + minus_line(on, a[i]),
            ac + 1,
            bc,
            diff_only,
            on,
        );
        assert(sa[0] == a[i]);
        assert(sa.skip(1) == a.skip(i + 1));
        assert(!has_pair(sb, sa[0])) by {
            if has_pair(sb, sa[0]) {
                let m = choose|m: int|
                    0 <= m < sb.len() && sb[m].addr == sa[0].addr && sb[m].text@ == sa[0].text@;
                assert(sb[m] == b[j + m]);
                if m > 0 {
                    assert(b[j + m].addr > b[j].addr);
                }
            }
        }
        if sb.len() > 0 {
            assert forall|k: int| 0 <= k < sb.len() implies #[trigger] sb[k].addr != sa[0].addr by {
                assert(sb[k] == b[j + k]);
                if k > 0 {
                    assert(b[j + k].addr > b[j].addr);
                }
            }
        }
        lemma_unmatched_drop_first(sb, sa);
    } else {
        lemma_merge_plus(a, b, i, j, ctx, out, ac, bc, diff_only, on);
        lemma_merge_unmatched(
            a,
            b,
            i,
            j + 1,
            seq![],
            out + ctx_text(ctx) + plus_line(on, b[j]),
            ac,
            bc + 1,
            diff_only,
            on,
        );
        assert(sb[0] == b[j]);
        assert(sb.skip(1) == b.skip(j + 1));
        assert(!has_pair(sa, sb[0])) by {
            if has_pair(sa, sb[0]) {
                let m = choose|m: int|
                    0 <= m < sa.len() && sa[m].addr == sb[0].addr && sa[m].text@ == sb[0].text@;
                assert(sa[m] == a[i + m]);
                if m > 0 {
                    assert(a[i + m].addr > a[i].addr);
                }
            }
        }
        if sa.len() > 0 {
            assert forall|k: int| 0 <= k < sa.len() implies #[trigger] sa[k].addr != sb[0].addr by {
                assert(sa[k] == a[i + k]);
                if k > 0 {
                    assert(a[i + k].addr > a[i].addr);
                }
            }
        }
        lemma_unmatched_drop_first(sa, sb);
    }
}

/// `unmatched(a, b)` does not change when `b` loses a first line that no
/// line of `a` shares an address with (an empty `b` staying empty).
proof fn lemma_unmatched_drop_first(a: Seq<DisasmLine>, b: Seq<DisasmLine>)
    requires
        b.len() > 0 ==> forall|k: int| 0 <= k < a.len() ==> #[trigger] a[k].addr != b[0].addr,
    ensures
        b.len() > 0 ==> unmatched(a, b) == unmatched(a, b.skip(1)),
{
    if b.len() > 0 {
        lemma_unmatched_drop(a, b);
    }
}

/// For two tables sorted by address, the diff counts as changed in A
/// exactly the lines of A that have no line of the same address and text
/// in B, and as changed in B the lines of B with none in A - the numbers
/// that the header of a differing table reports.
pub proof fn law_diff_counts(a: Seq<DisasmLine>, b: Seq<DisasmLine>, on: bool, diff_only: bool)
    requires
        addr_sorted(a),
        addr_sorted(b),
    ensures
        merge_from(a, b, 0, 0, seq![], seq![], 0, 0, diff_only, on).1 == unmatched(a, b),
        merge_from(a, b, 0, 0, seq![], seq![], 0, 0, diff_only, on).2 == unmatched(b, a),
{
    lemma_merge_unmatched(a, b, 0, 0, seq![], seq![], 0, 0, diff_only, on);
    assert(a.skip(0) == a);
    assert(b.skip(0) == b);
}


/// The lines of `a` that have no line of the same address and text in
/// `b`, in their order in `a`.
pub open spec fn unmatched_lines(a: Seq<DisasmLine>, b: Seq<DisasmLine>) -> Seq<DisasmLine>
    decreases a.len(),
{
    if a.len() == 0 {
        seq![]
    } else {
        (if has_pair(b, a[0]) {
            seq![]
        } else {
            seq![a[0]]
        }) + unmatched_lines(a.skip(1), b)
    }
}

/// The pieces of `ls` that begin with `c`, in order.
pub open spec fn marked(ls: Seq<Seq<char>>, c: char) -> Seq<Seq<char>>
    decreases ls.len(),
{
    if ls.len() == 0 {
        seq![]
    } else {
        let init = marked(ls.drop_last(), c);
        if ls.last().len() > 0 && ls.last()[0] == c {
            init.push(ls.last())
        } else {
            init
        }
    }
}

/// The lines of the text `x` that begin with `c`, in order.
pub open spec fn lines_marked(x: Seq<char>, c: char) -> Seq<Seq<char>> {
    marked(split_on(x, Sep::Char('\n')), c)
}

/// An instruction as a line of the diff without its marker colour and
/// without the line break: `M ADDR  text` with `M` the marker.
pub open spec fn diff_body(m: char, l: DisasmLine) -> Seq<char> {
    seq![m, ' '] + zero_padded(hex(l.addr as nat), 4) + "  "@ + l.text@
}

/// The instructions have one-line texts.
pub open spec fn one_line_texts(a: Seq<DisasmLine>) -> bool {
    forall|k: int| 0 <= k < a.len() ==> single_line(#[trigger] a[k].text@)
}

proof fn lemma_lines_marked_empty(c: char)
    ensures
        lines_marked(seq![], c) == Seq::<Seq<char>>::empty(),
{
    let ls = split_on(seq![], Sep::Char('\n'));
    assert(ls == seq![Seq::<char>::empty()]);
    assert(ls.drop_last() == Seq::<Seq<char>>::empty());
    assert(marked(ls.drop_last(), c) == Seq::<Seq<char>>::empty());
}

proof fn lemma_marked_add(x: Seq<Seq<char>>, y: Seq<Seq<char>>, c: char)
    ensures
        marked(x + y, c) == marked(x, c) + marked(y, c),
    decreases y.len(),
{
    if y.len() == 0 {
        assert(x + y == x);
    } else {
        lemma_marked_add(x, y.drop_last(), c);
        assert((x + y).drop_last() == x + y.drop_last());
        assert((x + y).last() == y.last());
    }
}

proof fn lemma_lines_marked_concat(x: Seq<char>, y: Seq<char>, c: char)
    requires
        at_line_start(x),
    ensures
        lines_marked(x + y, c) == lines_marked(x, c) + lines_marked(y, c),
{
    let sep = Sep::Char('\n');
    lemma_split_lines_concat(x, y);
    let sx = split_on(x, sep);
    lemma_marked_add(sx.drop_last(), split_on(y, sep), c);
    assert(sx.drop_last().push(sx.last()) == sx);
    assert(marked(sx, c) == marked(sx.drop_last(), c));
}

proof fn lemma_line_marked(l: Seq<char>, c: char)
    requires
        single_line(l),
    ensures
        at_line_start(l + "\n"@),
        lines_marked(l + "\n"@, c) == (if l.len() > 0 && l[0] == c {
            seq![l]
        } else {
            seq![]
        }),
{
    reveal_strlit("\n");
    let sep = Sep::Char('\n');
    let x = l + "\n"@;
    lemma_split_single_line(l);
    assert(x.drop_last() == l);
    assert(split_on(x, sep) == seq![l].push(seq![]));
    let s = split_on(x, sep);
    assert(s.drop_last() == seq![l]);
    assert(seq![l].drop_last() == Seq::<Seq<char>>::empty());
    assert(marked(seq![l].drop_last(), c) == Seq::<Seq<char>>::empty());
    assert(seq![l].last() == l);
    assert(marked(s, c) == marked(seq![l], c));
    if l.len() > 0 && l[0] == c {
        assert(marked(seq![l], c) == Seq::<Seq<char>>::empty().push(l));
        assert(Seq::<Seq<char>>::empty().push(l) == seq![l]);
    }
}

proof fn lemma_addr_single_line(n: nat)
    ensures
        single_line(zero_padded(hex(n), 4)),
{
    crate::num::lemma_radix_str_value(n, 16);
    let t = hex(n);
    let z = zero_padded(t, 4);
    assert forall|i: int| 0 <= i < z.len() implies z[i] != '\n' by {
        if t.len() < 4 {
            let pad = Seq::new((4 - t.len()) as nat, |_i: int| '0');
            if i >= pad.len() {
                assert(z[i] == t[i - pad.len()]);
                assert(crate::num::is_digit(t[i - pad.len()], 16));
            }
        } else {
            assert(crate::num::is_digit(t[i], 16));
        }
    }
}

proof fn lemma_diff_line(on: bool, m: char, l: DisasmLine, c: char)
    requires
        single_line(l.text@),
        !on,
        m == '-' || m == '+',
    ensures
        at_line_start(if m == '-' { minus_line(on, l) } else { plus_line(on, l) }),
        lines_marked(if m == '-' { minus_line(on, l) } else { plus_line(on, l) }, c) == (if m == c {
            seq![diff_body(m, l)]
        } else {
            seq![]
        }),
{
    reveal_strlit("-");
    reveal_strlit("+");
    reveal_strlit(" ");
    reveal_strlit("  ");
    reveal_strlit("\n");
    let body = diff_body(m, l);
    lemma_addr_single_line(l.addr as nat);
    let addr = zero_padded(hex(l.addr as nat), 4);
    assert(single_line(body)) by {
        assert forall|i: int| 0 <= i < body.len() implies body[i] != '\n' by {
            let p1 = seq![m, ' '] + addr;
            let p2 = p1 + "  "@;
            if i < 2 {
            } else if i < p1.len() {
                assert(body[i] == addr[i - 2]);
            } else if i < p2.len() {
            } else {
                assert(body[i] == l.text@[i - p2.len()]);
            }
        }
    }
    if m == '-' {
        assert(minus_line(on, l) == body + "\n"@);
    } else {
        assert(plus_line(on, l) == body + "\n"@);
    }
    lemma_line_marked(body, c);
}

proof fn lemma_ctx_marked(ctx: Seq<DisasmLine>, c: char)
    requires
        one_line_texts(ctx),
        c != ' ',
    ensures
        at_line_start(ctx_text(ctx)),
        lines_marked(ctx_text(ctx), c) == Seq::<Seq<char>>::empty(),
    decreases ctx.len(),
{
    reveal_strlit("  ");
    reveal_strlit("\n");
    if ctx.len() == 0 {
        lemma_lines_marked_empty(c);
    } else {
        let init = ctx.drop_last();
        assert(one_line_texts(init)) by {
            assert forall|k: int| 0 <= k < init.len() implies single_line(#[trigger] init[k].text@) by {
                assert(init[k] == ctx[k]);
            }
        }
        lemma_ctx_marked(init, c);
        let l = ctx.last();
        assert(single_line(l.text@));
        let body = "  "@ + zero_padded(hex(l.addr as nat), 4) + "  "@ + l.text@;
        lemma_addr_single_line(l.addr as nat);
        let addr = zero_padded(hex(l.addr as nat), 4);
        assert(single_line(body)) by {
            assert forall|i: int| 0 <= i < body.len() implies body[i] != '\n' by {
                let p1 = "  "@ + addr;
                let p2 = p1 + "  "@;
                if i < 2 {
                } else if i < p1.len() {
                    assert(body[i] == addr[i - 2]);
                } else if i < p2.len() {
                } else {
                    assert(body[i] == l.text@[i - p2.len()]);
                }
            }
        }
        assert(ctx_line(l) == body + "\n"@);
        lemma_line_marked(body, c);
        lemma_lines_marked_concat(ctx_text(init), ctx_line(l), c);
        assert(ctx_text(ctx) == ctx_text(init) + ctx_line(l));
        assert((ctx_text(init) + ctx_line(l)).last() == '\n');
    }
}

/// Dropping a first line of `b` at an address no line of `a` has leaves
/// the unmatched lines of `a` as they are.
proof fn lemma_unmatched_lines_drop(a: Seq<DisasmLine>, b: Seq<DisasmLine>)
    requires
        b.len() > 0 ==> forall|k: int| 0 <= k < a.len() ==> #[trigger] a[k].addr != b[0].addr,
    ensures
        b.len() > 0 ==> unmatched_lines(a, b) == unmatched_lines(a, b.skip(1)),
    decreases a.len(),
{
    if b.len() > 0 && a.len() > 0 {
        let rest = a.skip(1);
        assert forall|k: int| 0 <= k < rest.len() implies #[trigger] rest[k].addr != b[0].addr by {
            assert(rest[k] == a[k + 1]);
        }
        lemma_unmatched_lines_drop(rest, b);
        assert(a[0].addr != b[0].addr);
        assert(has_pair(b, a[0]) == has_pair(b.skip(1), a[0])) by {
            if has_pair(b, a[0]) {
                let m = choose|m: int|
                    0 <= m < b.len() && b[m].addr == a[0].addr && b[m].text@ == a[0].text@;
                assert(m != 0);
                assert(b.skip(1)[m - 1] == b[m]);
            }
            if has_pair(b.skip(1), a[0]) {
                let m = choose|m: int|
                    0 <= m < b.skip(1).len() && b.skip(1)[m].addr == a[0].addr && b.skip(1)[m].text@
                        == a[0].text@;
                assert(b[m + 1] == b.skip(1)[m]);
            }
        }
    }
}

/// The `-` and `+` lines of the merge from `a[i..]`, `b[j..]` on, with
/// colours off: the lines of each side that the other lacks.
#[verifier::rlimit(40)]
proof fn lemma_merge_marked(
    a: Seq<DisasmLine>,
    b: Seq<DisasmLine>,
    i: int,
    j: int,
    ctx: Seq<DisasmLine>,
    out: Seq<char>,
    ac: nat,
    bc: nat,
    diff_only: bool,
)
    requires
        addr_sorted(a),
        addr_sorted(b),
        one_line_texts(a),
        one_line_texts(b),
        one_line_texts(ctx),
        at_line_start(out),
        0 <= i <= a.len(),
        0 <= j <= b.len(),
    ensures
        lines_marked(merge_from(a, b, i, j, ctx, out, ac, bc, diff_only, false).0, '-')
            == lines_marked(out, '-') + unmatched_lines(a.skip(i), b.skip(j)).map_values(
            |l: DisasmLine| diff_body('-', l),
        ),
        lines_marked(merge_from(a, b, i, j, ctx, out, ac, bc, diff_only, false).0, '+')
            == lines_marked(out, '+') + unmatched_lines(b.skip(j), a.skip(i)).map_values(
            |l: DisasmLine| diff_body('+', l),
        ),
    decreases a.len() - i + b.len() - j,
{
    let sa = a.skip(i);
    let sb = b.skip(j);
    let on = false;
    lemma_sorted_skip(a, i);
    lemma_sorted_skip(b, j);
    lemma_ctx_marked(ctx, '-');
    lemma_ctx_marked(ctx, '+');
    let oc = out + ctx_text(ctx);
    lemma_lines_marked_concat(out, ctx_text(ctx), '-');
    lemma_lines_marked_concat(out, ctx_text(ctx), '+');
    assert(at_line_start(oc)) by {
        if ctx_text(ctx).len() > 0 {
            assert(oc.last() == ctx_text(ctx).last());
        } else {
            assert(oc == out);
        }
    }
    let fm = |l: DisasmLine| diff_body('-', l);
    let fp = |l: DisasmLine| diff_body('+', l);
    if i == a.len() && j == b.len() {
        lemma_merge_done(a, b, ctx, out, ac, bc, diff_only, on);
        assert(sa.len() == 0 && sb.len() == 0);
        assert(unmatched_lines(sa, sb).map_values(fm) == Seq::<Seq<char>>::empty());
        assert(unmatched_lines(sb, sa).map_values(fp) == Seq::<Seq<char>>::empty());
    } else if i < a.len() && j < b.len() && a[i].addr == b[j].addr {
        assert(sa[0] == a[i] && sb[0] == b[j]);
        assert(sa.skip(1) == a.skip(i + 1));
        assert(sb.skip(1) == b.skip(j + 1));
        assert forall|k: int| 0 <= k < sa.skip(1).len() implies #[trigger] sa.skip(1)[k].addr
            != sb[0].addr by {
            assert(sa.skip(1)[k] == sa[k + 1]);
        }
        assert forall|k: int| 0 <= k < sb.skip(1).len() implies #[trigger] sb.skip(1)[k].addr
            != sa[0].addr by {
            assert(sb.skip(1)[k] == sb[k + 1]);
        }
        lemma_unmatched_lines_drop(sa.skip(1), sb);
        lemma_unmatched_lines_drop(sb.skip(1), sa);
        if a[i].text@ == b[j].text@ {
            lemma_merge_same(a, b, i, j, ctx, out, ac, bc, diff_only, on);
            let c2 = ctx_after(ctx, a[i], diff_only);
            assert(one_line_texts(c2)) by {
                assert forall|k: int| 0 <= k < c2.len() implies single_line(#[trigger] c2[k].text@) by {
                    if !diff_only {
                        if ctx.push(a[i]).len() > 2 {
                            assert(c2[k] == ctx.push(a[i])[k + 1]);
                        } else {
                            assert(c2[k] == ctx.push(a[i])[k]);
                        }
                    }
                }
            }
            lemma_merge_marked(a, b, i + 1, j + 1, c2, out, ac, bc, diff_only);
            assert(has_pair(sb, sa[0])) by {
                assert(sb[0].addr == sa[0].addr && sb[0].text@ == sa[0].text@);
            }
            assert(has_pair(sa, sb[0])) by {
                assert(sa[0].addr == sb[0].addr && sa[0].text@ == sb[0].text@);
            }
            assert(unmatched_lines(sa, sb) == unmatched_lines(sa.skip(1), sb));
            assert(unmatched_lines(sb, sa) == unmatched_lines(sb.skip(1), sa));
        } else {
            lemma_merge_changed(a, b, i, j, ctx, out, ac, bc, diff_only, on);
            let o2 = oc + minus_line(on, a[i]) + plus_line(on, b[j]);
            lemma_diff_line(on, '-', a[i], '-');
            lemma_diff_line(on, '-', a[i], '+');
            lemma_diff_line(on, '+', b[j], '-');
            lemma_diff_line(on, '+', b[j], '+');
            lemma_lines_marked_concat(oc, minus_line(on, a[i]), '-');
            lemma_lines_marked_concat(oc, minus_line(on, a[i]), '+');
            let o1 = oc + minus_line(on, a[i]);
            assert(at_line_start(o1)) by {
                assert(o1.last() == minus_line(on, a[i]).last());
            }
            lemma_lines_marked_concat(o1, plus_line(on, b[j]), '-');
            lemma_lines_marked_concat(o1, plus_line(on, b[j]), '+');
            assert(at_line_start(o2)) by {
                assert(o2.last() == plus_line(on, b[j]).last());
            }
            lemma_merge_marked(a, b, i + 1, j + 1, seq![], o2, ac + 1, bc + 1, diff_only);
            assert(!has_pair(sb, sa[0])) by {
                if has_pair(sb, sa[0]) {
                    let m = choose|m: int|
                        0 <= m < sb.len() && sb[m].addr == sa[0].addr && sb[m].text@ == sa[0].text@;
                    if m > 0 {
                        assert(sb[m].addr > sb[0].addr);
                    }
                }
            }
            assert(!has_pair(sa, sb[0])) by {
                if has_pair(sa, sb[0]) {
                    let m = choose|m: int|
                        0 <= m < sa.len() && sa[m].addr == sb[0].addr && sa[m].text@ == sb[0].text@;
                    if m > 0 {
                        assert(sa[m].addr > sa[0].addr);
                    }
                }
            }
            assert(unmatched_lines(sa, sb) == seq![a[i]] + unmatched_lines(sa.skip(1), sb));
            assert(unmatched_lines(sb, sa) == seq![b[j]] + unmatched_lines(sb.skip(1), sa));
            assert((seq![a[i]] + unmatched_lines(sa.skip(1), sb.skip(1))).map_values(fm) == seq![
                diff_body('-', a[i]),
            ] + unmatched_lines(sa.skip(1), sb.skip(1)).map_values(fm));
            assert((seq![b[j]] + unmatched_lines(sb.skip(1), sa.skip(1))).map_values(fp) == seq![
                diff_body('+', b[j]),
            ] + unmatched_lines(sb.skip(1), sa.skip(1)).map_values(fp));
        }
    } else if i < a.len() && (j >= b.len() || a[i].addr < b[j].addr) {
        lemma_merge_minus(a, b, i, j, ctx, out, ac, bc, diff_only, on);
        let o1 = oc + minus_line(on, a[i]);
        lemma_diff_line(on, '-', a[i], '-');
        lemma_diff_line(on, '-', a[i], '+');
        lemma_lines_marked_concat(oc, minus_line(on, a[i]), '-');
        lemma_lines_marked_concat(oc, minus_line(on, a[i]), '+');
        assert(at_line_start(o1)) by {
            assert(o1.last() == minus_line(on, a[i]).last());
        }
        lemma_merge_marked(a, b, i + 1, j, seq![], o1, ac + 1, bc, diff_only);
        assert(sa[0] == a[i]);
        assert(sa.skip(1) == a.skip(i + 1));
        assert(!has_pair(sb, sa[0])) by {
            if has_pair(sb, sa[0]) {
                let m = choose|m: int|
                    0 <= m < sb.len() && sb[m].addr == sa[0].addr && sb[m].text@ == sa[0].text@;
                assert(sb[m] == b[j + m]);
                if m > 0 {
                    assert(b[j + m].addr > b[j].addr);
                }
            }
        }
        if sb.len() > 0 {
            assert forall|k: int| 0 <= k < sb.len() implies #[trigger] sb[k].addr != sa[0].addr by {
                assert(sb[k] == b[j + k]);
                if k > 0 {
                    assert(b[j + k].addr > b[j].addr);
                }
            }
        }
        lemma_unmatched_lines_drop(sb, sa);
        assert(unmatched_lines(sa, sb) == seq![a[i]] + unmatched_lines(sa.skip(1), sb));
        assert((seq![a[i]] + unmatched_lines(sa.skip(1), sb)).map_values(fm) == seq![
            diff_body('-', a[i]),
        ] + unmatched_lines(sa.skip(1), sb).map_values(fm));
    } else {
        lemma_merge_plus(a, b, i, j, ctx, out, ac, bc, diff_only, on);
        let o1 = oc + plus_line(on, b[j]);
        lemma_diff_line(on, '+', b[j], '-');
        lemma_diff_line(on, '+', b[j], '+');
        lemma_lines_marked_concat(oc, plus_line(on, b[j]), '-');
        lemma_lines_marked_concat(oc, plus_line(on, b[j]), '+');
        assert(at_line_start(o1)) by {
            assert(o1.last() == plus_line(on, b[j]).last());
        }
        lemma_merge_marked(a, b, i, j + 1, seq![], o1, ac, bc + 1, diff_only);
        assert(sb[0] == b[j]);
        assert(sb.skip(1) == b.skip(j + 1));
        assert(!has_pair(sa, sb[0])) by {
            if has_pair(sa, sb[0]) {
                let m = choose|m: int|
                    0 <= m < sa.len() && sa[m].addr == sb[0].addr && sa[m].text@ == sb[0].text@;
                assert(sa[m] == a[i + m]);
                if m > 0 {
                    assert(a[i + m].addr > a[i].addr);
                }
            }
        }
        if sa.len() > 0 {
            assert forall|k: int| 0 <= k < sa.len() implies #[trigger] sa[k].addr != sb[0].addr by {
                assert(sa[k] == a[i + k]);
                if k > 0 {
                    assert(a[i + k].addr > a[i].addr);
                }
            }
        }
        lemma_unmatched_lines_drop(sa, sb);
        assert(unmatched_lines(sb, sa) == seq![b[j]] + unmatched_lines(sb.skip(1), sa));
        assert((seq![b[j]] + unmatched_lines(sb.skip(1), sa)).map_values(fp) == seq![
            diff_body('+', b[j]),
        ] + unmatched_lines(sb.skip(1), sa).map_values(fp));
    }
}

/// For two tables sorted by address whose instructions are one-line
/// texts, the `-` lines of the diff (colours off) are exactly the
/// instructions of A that B lacks at the same address with the same
/// text, in address order; the `+` lines are those of B that A lacks.
pub proof fn law_diff_lines(a: Seq<DisasmLine>, b: Seq<DisasmLine>, diff_only: bool)
    requires
        addr_sorted(a),
        addr_sorted(b),
        one_line_texts(a),
        one_line_texts(b),
    ensures
        lines_marked(merge_from(a, b, 0, 0, seq![], seq![], 0, 0, diff_only, false).0, '-')
            == unmatched_lines(a, b).map_values(|l: DisasmLine| diff_body('-', l)),
        lines_marked(merge_from(a, b, 0, 0, seq![], seq![], 0, 0, diff_only, false).0, '+')
            == unmatched_lines(b, a).map_values(|l: DisasmLine| diff_body('+', l)),
{
    lemma_merge_marked(a, b, 0, 0, seq![], seq![], 0, 0, diff_only);
    assert(a.skip(0) == a);
    assert(b.skip(0) == b);
    lemma_lines_marked_empty('-');
    lemma_lines_marked_empty('+');
    let e = Seq::<Seq<char>>::empty();
    assert(e + unmatched_lines(a, b).map_values(|l: DisasmLine| diff_body('-', l))
        == unmatched_lines(a, b).map_values(|l: DisasmLine| diff_body('-', l)));
    assert(e + unmatched_lines(b, a).map_values(|l: DisasmLine| diff_body('+', l))
        == unmatched_lines(b, a).map_values(|l: DisasmLine| diff_body('+', l)));
}

} // verus!
