//! Memory straps side by side: the straps of two ROMs matched by clock,
//! shown as a register x clock matrix of their values.

use std::collections::HashMap;

use vstd::prelude::*;

use crate::compare::{header_row, header_row_text, ne_mark, row_text, title, title_text, NAME_W, VAL_W};
use crate::compare_all::{
    Matrix, all_same, col_width_for, matrix_header_text as all_matrix_header_text,
    matrix_row_text as all_matrix_row_text,
};
use crate::compare_util::{
    aligned_line, all_identical, all_labels, dedup, field_at, field_at_clock, layouts_fit, max_label, named_groups,
    other_lines, raw_slots, strap_at, GroupV, StrapValues, TimingRegister, RegGroup, fields_view,
    group_view, groups_view, roms_view, names_view, strap_other_groups, other_fields_lines, align_other_lines,
};
use crate::num::{dec, hex, push_dec, push_hex, zero_padded};
use crate::reg_names::name_views;
use crate::render::color::{
    fit, fitted, good_code, label_code, pad, padded, painted, warn_code, Palette,
};
use crate::render::sections::{label_of, Section};
use crate::textutil::{
    contains_text, is_whitespace, joined, lemma_contains_left, lemma_contains_right,
    lemma_contains_self, push_str_chars, string_of, trim_end, views, ESC,
};

verus! {

broadcast use vstd::std_specs::hash::group_hash_axioms;

/// `q` is in strictly increasing order.
pub open spec fn ascending(q: Seq<i64>) -> bool {
    forall|i: int, j: int| 0 <= i < j < q.len() ==> q[i] < q[j]
}

/// The elements of the finite set `s` in increasing order.
pub open spec fn in_order(s: Set<i64>) -> Seq<i64> {
    choose|q: Seq<i64>| ascending(q) && q.to_set() == s
}

/// Two increasing sequences with the same elements are equal.
pub proof fn lemma_ascending_unique(p: Seq<i64>, q: Seq<i64>)
    requires
        ascending(p),
        ascending(q),
        forall|x: i64| p.contains(x) <==> q.contains(x),
    ensures
        p == q,
    decreases p.len(),
{
    if p.len() == 0 {
        if q.len() > 0 {
            assert(q.contains(q[0]));
        }
    } else if q.len() == 0 {
        assert(p.contains(p[0]));
    } else {
        assert(p.contains(p[0]));
        assert(q.contains(q[0]));
        let i = choose|i: int| 0 <= i < q.len() && q[i] == p[0];
        let j = choose|j: int| 0 <= j < p.len() && p[j] == q[0];
        assert(p[0] == q[0]) by {
            if i > 0 {
                assert(q[0] < q[i]);
            }
            if j > 0 {
                assert(p[0] < p[j]);
            }
        }
        let p1 = p.skip(1);
        let q1 = q.skip(1);
        assert forall|x: i64| p1.contains(x) <==> q1.contains(x) by {
            if p1.contains(x) {
                let k = choose|k: int| 0 <= k < p1.len() && p1[k] == x;
                assert(p[k + 1] == x);
                assert(p[0] < p[k + 1]);
                assert(p.contains(x));
                let m = choose|m: int| 0 <= m < q.len() && q[m] == x;
                assert(m != 0);
                assert(q1[m - 1] == x);
            }
            if q1.contains(x) {
                let k = choose|k: int| 0 <= k < q1.len() && q1[k] == x;
                assert(q[k + 1] == x);
                assert(q[0] < q[k + 1]);
                assert(q.contains(x));
                let m = choose|m: int| 0 <= m < p.len() && p[m] == x;
                assert(m != 0);
                assert(p1[m - 1] == x);
            }
        }
        lemma_ascending_unique(p1, q1);
        assert(p == seq![p[0]] + p1);
        assert(q == seq![q[0]] + q1);
    }
}

/// An increasing sequence is the ordered form of its element set.
pub proof fn lemma_in_order(q: Seq<i64>)
    requires
        ascending(q),
    ensures
        in_order(q.to_set()) == q,
{
    let p = in_order(q.to_set());
    assert(ascending(q) && q.to_set() == q.to_set());
    assert(ascending(p) && p.to_set() == q.to_set());
    assert forall|x: i64| p.contains(x) <==> q.contains(x) by {
        assert(p.to_set().contains(x) == p.contains(x));
        assert(q.to_set().contains(x) == q.contains(x));
    }
    lemma_ascending_unique(p, q);
}

/// The rounded clocks of `straps`.
pub open spec fn clock_set(straps: Seq<StrapValues>) -> Set<i64> {
    Set::new(|c: i64| exists|k: int| 0 <= k < straps.len() && straps[k].clock_mhz == c)
}

/// The memory block ids of `ids`, as a set.
pub open spec fn block_set(ids: Seq<u8>) -> Set<i64> {
    Set::new(|c: i64| exists|k: int| 0 <= k < ids.len() && ids[k] as i64 == c)
}

/// Decimal rendering of a signed number.
pub open spec fn idec(n: int) -> Seq<char> {
    if n < 0 {
        "-"@ + dec((-n) as nat)
    } else {
        dec(n as nat)
    }
}

/// The numbers of `q` in decimal.
pub open spec fn idecs(q: Seq<i64>) -> Seq<Seq<char>> {
    q.map_values(|x: i64| idec(x as int))
}

/// A set as `{:?}` shows it: `{1, 2}`.
pub open spec fn set_text(s: Set<i64>) -> Seq<char> {
    "{"@ + joined(idecs(in_order(s)), ", "@) + "}"@
}

pub fn push_idec(out: &mut Vec<char>, n: i64)
    ensures
        final(out)@ == old(out)@ + idec(n as int),
{
    if n < 0 {
        out.push('-');
        let m: u64 = (0i128 - n as i128) as u64;
        assert(m as int == -n);
        push_dec(out, m);
        proof {
            reveal_strlit("-");
        }
    } else {
        push_dec(out, n as u64);
    }
}

/// Inserts `x` into the increasing `v`, unless it is there already.
fn insert_ordered(v: &mut Vec<i64>, x: i64)
    requires
        ascending(old(v)@),
    ensures
        ascending(final(v)@),
        forall|y: i64| final(v)@.contains(y) <==> (old(v)@.contains(y) || y == x),
{
    let ghost before = v@;
    let mut k: usize = 0;
    while k < v.len() && v[k] < x
        invariant
            k <= v@.len(),
            forall|i: int| 0 <= i < k ==> v@[i] < x,
        decreases v@.len() - k,
    {
        k = k + 1;
    }
    if k < v.len() && v[k] == x {
        assert(v@.contains(x));
        return ;
    }
    v.insert(k, x);
    assert(v@ == before.insert(k as int, x));
    assert forall|i: int, j: int| 0 <= i < j < v@.len() implies v@[i] < v@[j] by {
        if j < k {
        } else if j == k {
        } else if i < k {
            assert(v@[j] == before[j - 1]);
            assert(before[k as int] > x);
            if j - 1 > k {
                assert(before[k as int] < before[j - 1]);
            }
        } else if i == k {
            assert(v@[j] == before[j - 1]);
            if j - 1 > k {
                assert(before[k as int] < before[j - 1]);
            }
        } else {
            assert(v@[i] == before[i - 1]);
            assert(v@[j] == before[j - 1]);
        }
    }
    assert forall|y: i64| v@.contains(y) <==> (before.contains(y) || y == x) by {
        if v@.contains(y) {
            let i = choose|i: int| 0 <= i < v@.len() && v@[i] == y;
            if i < k {
                assert(before[i] == y);
            } else if i > k {
                assert(before[i - 1] == y);
            }
        }
        if before.contains(y) {
            let i = choose|i: int| 0 <= i < before.len() && before[i] == y;
            if i < k {
                assert(v@[i] == y);
            } else {
                assert(v@[i + 1] == y);
            }
        }
        if y == x {
            assert(v@[k as int] == x);
        }
    }
    assert(before == old(v)@);
    assert(forall|y: i64| v@.contains(y) <==> (old(v)@.contains(y) || y == x));
}

/// The clocks of the straps of either ROM, in increasing order.
pub fn strap_clocks(a: &[StrapValues], b: &[StrapValues]) -> (r: Vec<i64>)
    ensures
        r@ == in_order(clock_set(a@).union(clock_set(b@))),
{
    let mut v: Vec<i64> = Vec::new();
    let mut i: usize = 0;
    while i < a.len()
        invariant
            i <= a@.len(),
            ascending(v@),
            forall|y: i64|
                v@.contains(y) <==> exists|k: int| 0 <= k < i && a@[k].clock_mhz == y,
        decreases a@.len() - i,
    {
        insert_ordered(&mut v, a[i].clock_mhz);
        assert forall|y: i64|
            v@.contains(y) <==> exists|k: int| 0 <= k < i + 1 && a@[k].clock_mhz == y by {
            if y == a@[i as int].clock_mhz {
                assert(0 <= i < i + 1 && a@[i as int].clock_mhz == y);
            }
        }
        i = i + 1;
    }
    let mut j: usize = 0;
    while j < b.len()
        invariant
            j <= b@.len(),
            ascending(v@),
            forall|y: i64|
                v@.contains(y) <==> (exists|k: int| 0 <= k < a@.len() && a@[k].clock_mhz == y)
                    || (exists|k: int| 0 <= k < j && b@[k].clock_mhz == y),
        decreases b@.len() - j,
    {
        insert_ordered(&mut v, b[j].clock_mhz);
        assert forall|y: i64|
            v@.contains(y) <==> (exists|k: int| 0 <= k < a@.len() && a@[k].clock_mhz == y)
                || (exists|k: int| 0 <= k < j + 1 && b@[k].clock_mhz == y) by {
            if y == b@[j as int].clock_mhz {
                assert(0 <= j < j + 1 && b@[j as int].clock_mhz == y);
            }
        }
        j = j + 1;
    }
    proof {
        assert(v@.to_set() =~= clock_set(a@).union(clock_set(b@)));
        lemma_in_order(v@);
    }
    v
}

/// `{:?}` of the set of memory block ids in `ids`.
pub fn block_set_text(ids: &[u8]) -> (r: String)
    ensures
        r@ == set_text(block_set(ids@)),
{
    let mut v: Vec<i64> = Vec::new();
    let mut i: usize = 0;
    while i < ids.len()
        invariant
            i <= ids@.len(),
            ascending(v@),
            forall|y: i64| v@.contains(y) <==> exists|k: int| 0 <= k < i && ids@[k] as i64 == y,
        decreases ids@.len() - i,
    {
        insert_ordered(&mut v, ids[i] as i64);
        assert forall|y: i64|
            v@.contains(y) <==> exists|k: int| 0 <= k < i + 1 && ids@[k] as i64 == y by {
            if y == ids@[i as int] as i64 {
                assert(0 <= i < i + 1 && ids@[i as int] as i64 == y);
            }
        }
        i = i + 1;
    }
    proof {
        assert(v@.to_set() =~= block_set(ids@));
        lemma_in_order(v@);
    }
    let mut out: Vec<char> = Vec::new();
    out.push('{');
    let ghost start = out@;
    let mut k: usize = 0;
    while k < v.len()
        invariant
            k <= v@.len(),
            out@ == start + joined(idecs(v@).take(k as int), ", "@),
        decreases v@.len() - k,
    {
        if k > 0 {
            push_str_chars(&mut out, ", ");
        }
        push_idec(&mut out, v[k]);
        proof {
            let t = idecs(v@).take(k + 1);
            assert(t.drop_last() == idecs(v@).take(k as int));
            assert(t.last() == idec(v@[k as int] as int));
        }
        k = k + 1;
    }
    assert(idecs(v@).take(v@.len() as int) == idecs(v@));
    out.push('}');
    proof {
        reveal_strlit("{");
        reveal_strlit("}");
    }
    assert(out@ == "{"@ + joined(idecs(v@), ", "@) + "}"@);
    string_of(&out)
}

/// The register value in slot `row` of the strap at clock `clk`.
pub open spec fn cell(straps: Seq<StrapValues>, clk: i64, row: nat) -> Option<u32> {
    match strap_at(straps, clk) {
        Some(s) => if row < s.values@.len() {
            Some(s.values@[row as int])
        } else {
            None
        },
        None => None,
    }
}

/// A register value as eight upper-case hex digits.
pub open spec fn hex8(x: u32) -> Seq<char> {
    zero_padded(hex(x as nat), 8)
}

/// One cell of the matrix: both values, padded to 20 characters.
pub open spec fn cell_text(on: bool, ca: Option<u32>, cb: Option<u32>) -> Seq<char> {
    match (ca, cb) {
        (Some(x), Some(y)) => if x == y {
            padded(painted(on, good_code(), hex8(x) + "="@), 20)
        } else {
            padded(painted(on, warn_code(), hex8(x) + "/"@ + hex8(y) + seq![ne_mark()]), 20)
        },
        (Some(x), None) => padded(painted(on, warn_code(), hex8(x) + "/----"@), 20),
        (None, Some(y)) => padded(painted(on, warn_code(), "----/"@ + hex8(y)), 20),
        (None, None) => padded("·"@, 20),
    }
}

/// The cells of register slot `row`, one per clock.
pub open spec fn row_cells(
    on: bool,
    a: Seq<StrapValues>,
    b: Seq<StrapValues>,
    clocks: Seq<i64>,
    row: nat,
) -> Seq<char>
    decreases clocks.len(),
{
    if clocks.len() == 0 {
        seq![]
    } else {
        row_cells(on, a, b, clocks.drop_last(), row) + cell_text(
            on,
            cell(a, clocks.last(), row),
            cell(b, clocks.last(), row),
        )
    }
}

/// Register slot `row` differs between the ROMs at one of the clocks.
pub open spec fn row_differs(
    a: Seq<StrapValues>,
    b: Seq<StrapValues>,
    clocks: Seq<i64>,
    row: nat,
) -> bool {
    exists|k: int| 0 <= k < clocks.len() && cell(a, clocks[k], row) != cell(b, clocks[k], row)
}

/// The label of register slot `i`: its number, with the user's name for
/// the register index in that slot when there is one.
pub open spec fn reg_label(names: Option<Map<u16, Seq<char>>>, indices: Seq<u16>, i: nat) -> Seq<
    char,
> {
    match names {
        Some(m) => if i < indices.len() && m.contains_key(indices[i as int]) {
            dec(i) + "("@ + m[indices[i as int]] + ")"@
        } else {
            dec(i)
        },
        None => dec(i),
    }
}

/// The matrix line of register slot `row` (without its line break).
pub open spec fn matrix_row_text(
    on: bool,
    a: Seq<StrapValues>,
    b: Seq<StrapValues>,
    clocks: Seq<i64>,
    names: Option<Map<u16, Seq<char>>>,
    indices: Seq<u16>,
    row: nat,
) -> Seq<char> {
    let label = if row_differs(a, b, clocks, row) {
        painted(on, warn_code(), seq![ne_mark()]) + " "@ + padded(reg_label(names, indices, row), 22)
    } else {
        "  "@ + padded(reg_label(names, indices, row), 22)
    };
    "  "@ + label + " "@ + row_cells(on, a, b, clocks, row)
}

/// The matrix line of register slot `row` with its line break, or
/// nothing when `diff_only` hides a slot that does not differ.
#[verifier::opaque]
pub open spec fn matrix_row_entry(
    on: bool,
    diff_only: bool,
    a: Seq<StrapValues>,
    b: Seq<StrapValues>,
    clocks: Seq<i64>,
    names: Option<Map<u16, Seq<char>>>,
    indices: Seq<u16>,
    row: nat,
) -> Seq<char> {
    if diff_only && !row_differs(a, b, clocks, row) {
        seq![]
    } else {
        matrix_row_text(on, a, b, clocks, names, indices, row) + "\n"@
    }
}

/// The matrix lines of the register slots below `n`.
pub open spec fn matrix_rows(
    on: bool,
    diff_only: bool,
    a: Seq<StrapValues>,
    b: Seq<StrapValues>,
    clocks: Seq<i64>,
    names: Option<Map<u16, Seq<char>>>,
    indices: Seq<u16>,
    n: nat,
) -> Seq<char>
    decreases n,
{
    if n == 0 {
        seq![]
    } else {
        matrix_rows(on, diff_only, a, b, clocks, names, indices, (n - 1) as nat) + matrix_row_entry(
            on,
            diff_only,
            a,
            b,
            clocks,
            names,
            indices,
            (n - 1) as nat,
        )
    }
}

/// The largest number of register values of any strap.
pub open spec fn max_len(straps: Seq<StrapValues>) -> nat
    decreases straps.len(),
{
    if straps.len() == 0 {
        0
    } else {
        let m = max_len(straps.drop_last());
        let l = straps.last().values@.len();
        if m >= l {
            m
        } else {
            l
        }
    }
}

fn max_values_len(straps: &[StrapValues]) -> (r: usize)
    ensures
        r == max_len(straps@),
{
    let mut m: usize = 0;
    let mut i: usize = 0;
    while i < straps.len()
        invariant
            i <= straps@.len(),
            m == max_len(straps@.take(i as int)),
        decreases straps@.len() - i,
    {
        proof {
            let t = straps@.take(i + 1);
            assert(t.drop_last() == straps@.take(i as int));
            assert(t.last() == straps@[i as int]);
        }
        if straps[i].values.len() > m {
            m = straps[i].values.len();
        }
        i = i + 1;
    }
    assert(straps@.take(straps@.len() as int) == straps@);
    m
}

fn cell_value(straps: &[StrapValues], clk: i64, row: usize) -> (r: Option<u32>)
    ensures
        r == cell(straps@, clk, row as nat),
{
    match crate::compare_util::find_strap(straps, clk) {
        Some(k) => if row < straps[k].values.len() {
            Some(straps[k].values[row])
        } else {
            None
        },
        None => None,
    }
}

fn push_hex8(out: &mut Vec<char>, x: u32)
    ensures
        final(out)@ == old(out)@ + hex8(x),
{
    push_hex(out, x as u64, 8);
}

fn cell_chars(pal: &Palette, ca: Option<u32>, cb: Option<u32>) -> (r: String)
    ensures
        r@ == cell_text(pal.on, ca, cb),
{
    let mut v: Vec<char> = Vec::new();
    match (ca, cb) {
        (Some(x), Some(y)) => {
            if x == y {
                push_hex8(&mut v, x);
                push_str_chars(&mut v, "=");
                pad(pal.good(string_of(&v).as_str()).as_str(), 20)
            } else {
                push_hex8(&mut v, x);
                push_str_chars(&mut v, "/");
                push_hex8(&mut v, y);
                v.push('≠');
                pad(pal.warn(string_of(&v).as_str()).as_str(), 20)
            }
        },
        (Some(x), None) => {
            push_hex8(&mut v, x);
            push_str_chars(&mut v, "/----");
            pad(pal.warn(string_of(&v).as_str()).as_str(), 20)
        },
        (None, Some(y)) => {
            push_str_chars(&mut v, "----/");
            push_hex8(&mut v, y);
            pad(pal.warn(string_of(&v).as_str()).as_str(), 20)
        },
        (None, None) => pad("·", 20),
    }
}

fn same_cell(ca: Option<u32>, cb: Option<u32>) -> (r: bool)
    ensures
        r == (ca == cb),
{
    match (ca, cb) {
        (Some(x), Some(y)) => x == y,
        (None, None) => true,
        _ => false,
    }
}

fn push_row_cells(
    out: &mut Vec<char>,
    pal: &Palette,
    a: &[StrapValues],
    b: &[StrapValues],
    clocks: &[i64],
    row: usize,
) -> (differs: bool)
    ensures
        final(out)@ == old(out)@ + row_cells(pal.on, a@, b@, clocks@, row as nat),
        differs == row_differs(a@, b@, clocks@, row as nat),
{
    let ghost start = out@;
    let mut differs = false;
    let mut k: usize = 0;
    while k < clocks.len()
        invariant
            k <= clocks@.len(),
            out@ == start + row_cells(pal.on, a@, b@, clocks@.take(k as int), row as nat),
            differs == exists|i: int|
                0 <= i < k && cell(a@, clocks@[i], row as nat) != cell(b@, clocks@[i], row as nat),
        decreases clocks@.len() - k,
    {
        let ca = cell_value(a, clocks[k], row);
        let cb = cell_value(b, clocks[k], row);
        push_str_chars(out, cell_chars(pal, ca, cb).as_str());
        if !same_cell(ca, cb) {
            differs = true;
        }
        proof {
            let t = clocks@.take(k + 1);
            assert(t.drop_last() == clocks@.take(k as int));
            assert(t.last() == clocks@[k as int]);
            if ca != cb {
                assert(0 <= k < k + 1 && cell(a@, clocks@[k as int], row as nat) != cell(
                    b@,
                    clocks@[k as int],
                    row as nat,
                ));
            }
        }
        k = k + 1;
    }
    assert(clocks@.take(clocks@.len() as int) == clocks@);
    differs
}

fn reg_label_chars(names: Option<&HashMap<u16, String>>, indices: &[u16], i: usize) -> (r: Vec<
    char,
>)
    ensures
        r@ == reg_label(
            match names {
                Some(m) => Some(name_views(m@)),
                None => None,
            },
            indices@,
            i as nat,
        ),
{
    let mut v: Vec<char> = Vec::new();
    push_dec(&mut v, i as u64);
    if let Some(m) = names {
        if i < indices.len() {
            if let Some(name) = m.get(&indices[i]) {
                push_str_chars(&mut v, "(");
                push_str_chars(&mut v, name.as_str());
                push_str_chars(&mut v, ")");
                proof {
                    reveal_strlit("(");
                    reveal_strlit(")");
                }
            }
        }
    }
    v
}

/// The straps of one ROM as the comparison reads them.
pub struct VramStraps {
    pub file_name: String,
    /// Each strap's register values, with its clock rounded to whole MHz.
    pub straps: Vec<StrapValues>,
    /// The memory block (vendor) of each strap.
    pub block_ids: Vec<u8>,
    /// The MC register index of each strap slot.
    pub reg_indices: Vec<u16>,
    /// The highest strap clock in MHz, rounded for display.
    pub max_clock: String,
    /// The hard-limit cross-check findings of this ROM.
    pub cross_checks: Vec<String>,
}

/// A comparison row, left out under `diff_only` when both sides agree.
pub open spec fn opt_row(on: bool, diff_only: bool, label: Seq<char>, a: Seq<char>, b: Seq<char>) -> Seq<
    char,
> {
    if diff_only && a == b {
        seq![]
    } else {
        row_text(on, label, a, b)
    }
}

/// A numeric comparison row whose B side carries the relative change
/// `delta` when the two numbers differ (`equal` is false).
pub open spec fn pct_row_text(
    on: bool,
    diff_only: bool,
    label: Seq<char>,
    a: Seq<char>,
    b: Seq<char>,
    equal: bool,
    delta: Seq<char>,
) -> Seq<char> {
    if diff_only && equal {
        seq![]
    } else {
        let b_s = if equal {
            b
        } else {
            b + " ("@ + delta + ")"@
        };
        let marker = if equal {
            painted(on, good_code(), "="@)
        } else {
            painted(on, warn_code(), seq![ne_mark()])
        };
        "  "@ + fitted(label, NAME_W as nat) + " "@ + fitted(a, VAL_W as nat) + " "@ + fitted(
            b_s,
            VAL_W as nat,
        ) + " "@ + marker + "\n"@
    }
}

/// The clock column headings.
pub open spec fn clock_cells(clocks: Seq<i64>) -> Seq<char>
    decreases clocks.len(),
{
    if clocks.len() == 0 {
        seq![]
    } else {
        clock_cells(clocks.drop_last()) + padded(idec(clocks.last() as int), 20)
    }
}

/// The heading line of the matrix.
pub open spec fn matrix_header_text(clocks: Seq<i64>) -> Seq<char> {
    trim_end("  "@ + padded("reg (name)"@, 24) + "  "@ + clock_cells(clocks) + "\n"@)
}

/// One line per cross-check finding, tagged with the ROM's name.
pub open spec fn trip_lines(on: bool, name: Seq<char>, trips: Seq<Seq<char>>) -> Seq<char>
    decreases trips.len(),
{
    if trips.len() == 0 {
        seq![]
    } else {
        trip_lines(on, name, trips.drop_last()) + "    "@ + painted(on, warn_code(), "⚠"@) + " "@
            + name + ": "@ + trips.last() + "\n"@
    }
}

/// The cross-check block, when either ROM has a finding.
pub open spec fn trips_text(on: bool, a: VramStraps, b: VramStraps) -> Seq<char> {
    let ta = crate::textutil::views(a.cross_checks@);
    let tb = crate::textutil::views(b.cross_checks@);
    if ta.len() == 0 && tb.len() == 0 {
        seq![]
    } else {
        painted(on, label_code(), "\n  Hard limit cross-check (informational):"@) + "\n"@
            + trip_lines(on, a.file_name@, ta) + trip_lines(on, b.file_name@, tb)
    }
}

/// The clocks of the matrix columns.
pub open spec fn matrix_clocks(a: VramStraps, b: VramStraps) -> Seq<i64> {
    in_order(clock_set(a.straps@).union(clock_set(b.straps@)))
}

/// The number of register slots of the matrix.
pub open spec fn slot_count(a: VramStraps, b: VramStraps) -> nat {
    let la = max_len(a.straps@);
    let lb = max_len(b.straps@);
    if la >= lb {
        la
    } else {
        lb
    }
}

/// The summary rows at the top of the section.
pub open spec fn straps_summary_text(
    a: VramStraps,
    b: VramStraps,
    max_equal: bool,
    max_delta: Seq<char>,
    on: bool,
    diff_only: bool,
) -> Seq<char> {
    title_text(on, label_of(Section::Straps)) + "\n"@ + header_row_text(
        on,
        a.file_name@,
        b.file_name@,
    ) + "\n"@ + opt_row(
        on,
        diff_only,
        "Available straps (count)"@,
        dec(a.straps@.len()),
        dec(b.straps@.len()),
    ) + pct_row_text(
        on,
        diff_only,
        "Max strap (MHz)"@,
        a.max_clock@,
        b.max_clock@,
        max_equal,
        max_delta,
    ) + opt_row(
        on,
        diff_only,
        "Memory blocks (vendor)"@,
        set_text(block_set(a.block_ids@)),
        set_text(block_set(b.block_ids@)),
    )
}

/// The register x clock matrix with its heading and legend.
pub open spec fn straps_matrix_text(
    a: VramStraps,
    b: VramStraps,
    on: bool,
    diff_only: bool,
    names: Option<Map<u16, Seq<char>>>,
) -> Seq<char> {
    painted(on, label_code(), "\n  Straps x register matrix (A/B values in hex):"@) + "\n"@
        + matrix_header_text(matrix_clocks(a, b)) + "\n"@ + matrix_rows(
        on,
        diff_only,
        a.straps@,
        b.straps@,
        matrix_clocks(a, b),
        names,
        a.reg_indices@,
        slot_count(a, b),
    ) + painted(
        on,
        label_code(),
        "  (= equal, ≠ differs; ---- = register not present in that strap)"@,
    ) + "\n"@
}

/// The whole straps section of a two-ROM comparison.
pub open spec fn straps_compare_text(
    a: VramStraps,
    b: VramStraps,
    max_equal: bool,
    max_delta: Seq<char>,
    on: bool,
    diff_only: bool,
    names: Option<Map<u16, Seq<char>>>,
) -> Seq<char> {
    straps_summary_text(a, b, max_equal, max_delta, on, diff_only) + straps_matrix_text(
        a,
        b,
        on,
        diff_only,
        names,
    ) + trips_text(on, a, b)
}

fn push_opt_row(
    out: &mut Vec<char>,
    pal: &Palette,
    diff_only: bool,
    label: &str,
    a: &str,
    b: &str,
)
    ensures
        final(out)@ == old(out)@ + opt_row(pal.on, diff_only, label@, a@, b@),
{
    let same = crate::textutil::str_eq(a, b);
    if diff_only && same {
        return ;
    }
    push_str_chars(out, "  ");
    push_str_chars(out, fit(label, NAME_W).as_str());
    push_str_chars(out, " ");
    push_str_chars(out, fit(a, VAL_W).as_str());
    push_str_chars(out, " ");
    push_str_chars(out, fit(b, VAL_W).as_str());
    push_str_chars(out, " ");
    if same {
        push_str_chars(out, pal.good("=").as_str());
    } else {
        proof {
            reveal_strlit("≠");
        }
        push_str_chars(out, pal.warn("≠").as_str());
    }
    push_str_chars(out, "\n");
}

#[verifier::rlimit(40)]
fn push_pct_row(
    out: &mut Vec<char>,
    pal: &Palette,
    diff_only: bool,
    label: &str,
    a: &str,
    b: &str,
    equal: bool,
    delta: &str,
)
    ensures
        final(out)@ == old(out)@ + pct_row_text(pal.on, diff_only, label@, a@, b@, equal, delta@),
{
    if diff_only && equal {
        return ;
    }
    let mut b_s: Vec<char> = Vec::new();
    push_str_chars(&mut b_s, b);
    if !equal {
        push_str_chars(&mut b_s, " (");
        push_str_chars(&mut b_s, delta);
        push_str_chars(&mut b_s, ")");
    }
    push_str_chars(out, "  ");
    push_str_chars(out, fit(label, NAME_W).as_str());
    push_str_chars(out, " ");
    push_str_chars(out, fit(a, VAL_W).as_str());
    push_str_chars(out, " ");
    push_str_chars(out, fit(string_of(&b_s).as_str(), VAL_W).as_str());
    push_str_chars(out, " ");
    if equal {
        push_str_chars(out, pal.good("=").as_str());
    } else {
        proof {
            reveal_strlit("≠");
        }
        push_str_chars(out, pal.warn("≠").as_str());
    }
    push_str_chars(out, "\n");
}

/// The length of `v` without its trailing whitespace.
fn trim_end_len(v: &Vec<char>) -> (n: usize)
    ensures
        n <= v@.len(),
        v@.subrange(0, n as int) == trim_end(v@),
{
    let mut b = v.len();
    assert(v@.subrange(0, b as int) == v@);
    while b > 0 && is_whitespace(v[b - 1])
        invariant
            b <= v@.len(),
            trim_end(v@.subrange(0, b as int)) == trim_end(v@),
        decreases b,
    {
        let ghost u = v@.subrange(0, b as int);
        assert(u.last() == v@[b - 1]);
        assert(u.drop_last() == v@.subrange(0, b - 1));
        b = b - 1;
    }
    proof {
        let u = v@.subrange(0, b as int);
        if u.len() > 0 {
            assert(u.last() == v@[b - 1]);
        }
    }
    b
}

fn push_matrix_header(out: &mut Vec<char>, clocks: &Vec<i64>)
    ensures
        final(out)@ == old(out)@ + matrix_header_text(clocks@),
{
    let mut line: Vec<char> = Vec::new();
    push_str_chars(&mut line, "  ");
    push_str_chars(&mut line, pad("reg (name)", 24).as_str());
    push_str_chars(&mut line, "  ");
    let ghost start = line@;
    let mut k: usize = 0;
    while k < clocks.len()
        invariant
            k <= clocks@.len(),
            line@ == start + clock_cells(clocks@.take(k as int)),
        decreases clocks@.len() - k,
    {
        let mut c: Vec<char> = Vec::new();
        push_idec(&mut c, clocks[k]);
        push_str_chars(&mut line, pad(string_of(&c).as_str(), 20).as_str());
        proof {
            let t = clocks@.take(k + 1);
            assert(t.drop_last() == clocks@.take(k as int));
            assert(t.last() == clocks@[k as int]);
        }
        k = k + 1;
    }
    assert(clocks@.take(clocks@.len() as int) == clocks@);
    push_str_chars(&mut line, "\n");
    let n = trim_end_len(&line);
    crate::textutil::push_range(out, &line, 0, n);
}

fn push_trip_lines(out: &mut Vec<char>, pal: &Palette, name: &str, trips: &Vec<String>)
    ensures
        final(out)@ == old(out)@ + trip_lines(pal.on, name@, crate::textutil::views(trips@)),
{
    let ghost start = out@;
    let mut k: usize = 0;
    while k < trips.len()
        invariant
            k <= trips@.len(),
            out@ == start + trip_lines(pal.on, name@, crate::textutil::views(trips@).take(k as int)),
        decreases trips@.len() - k,
    {
        push_str_chars(out, "    ");
        push_str_chars(out, pal.warn("⚠").as_str());
        push_str_chars(out, " ");
        push_str_chars(out, name);
        push_str_chars(out, ": ");
        push_str_chars(out, trips[k].as_str());
        push_str_chars(out, "\n");
        proof {
            let t = crate::textutil::views(trips@).take(k + 1);
            assert(t.drop_last() == crate::textutil::views(trips@).take(k as int));
            assert(t.last() == trips@[k as int]@);
        }
        k = k + 1;
    }
    assert(crate::textutil::views(trips@).take(trips@.len() as int) == crate::textutil::views(
        trips@,
    ));
}

fn matrix_row(
    pal: &Palette,
    a: &VramStraps,
    b: &VramStraps,
    clocks: &Vec<i64>,
    reg_names: Option<&HashMap<u16, String>>,
    row: usize,
) -> (r: (Vec<char>, bool))
    ensures
        r.0@ == matrix_row_text(
            pal.on,
            a.straps@,
            b.straps@,
            clocks@,
            match reg_names {
                Some(m) => Some(name_views(m@)),
                None => None,
            },
            a.reg_indices@,
            row as nat,
        ),
        r.1 == row_differs(a.straps@, b.straps@, clocks@, row as nat),
{
    let mut cells: Vec<char> = Vec::new();
    let differs = push_row_cells(
        &mut cells,
        pal,
        a.straps.as_slice(),
        b.straps.as_slice(),
        clocks.as_slice(),
        row,
    );
    let lbl = reg_label_chars(reg_names, a.reg_indices.as_slice(), row);
    let mut out: Vec<char> = Vec::new();
    push_str_chars(&mut out, "  ");
    if differs {
        proof {
            reveal_strlit("≠");
        }
        push_str_chars(&mut out, pal.warn("≠").as_str());
        push_str_chars(&mut out, " ");
    } else {
        push_str_chars(&mut out, "  ");
    }
    push_str_chars(&mut out, pad(string_of(&lbl).as_str(), 22).as_str());
    push_str_chars(&mut out, " ");
    crate::textutil::push_all(&mut out, &cells);
    (out, differs)
}

fn push_row_entry(
    out: &mut Vec<char>,
    pal: &Palette,
    diff_only: bool,
    a: &VramStraps,
    b: &VramStraps,
    clocks: &Vec<i64>,
    reg_names: Option<&HashMap<u16, String>>,
    row: usize,
)
    ensures
        final(out)@ == old(out)@ + matrix_row_entry(
            pal.on,
            diff_only,
            a.straps@,
            b.straps@,
            clocks@,
            match reg_names {
                Some(m) => Some(name_views(m@)),
                None => None,
            },
            a.reg_indices@,
            row as nat,
        ),
{
    reveal(matrix_row_entry);
    let (line, differs) = matrix_row(pal, a, b, clocks, reg_names, row);
    if !(diff_only && !differs) {
        crate::textutil::push_all(out, &line);
        push_str_chars(out, "\n");
    }
}

fn push_matrix_rows(
    out: &mut Vec<char>,
    pal: &Palette,
    diff_only: bool,
    a: &VramStraps,
    b: &VramStraps,
    clocks: &Vec<i64>,
    reg_names: Option<&HashMap<u16, String>>,
    n: usize,
)
    ensures
        final(out)@ == old(out)@ + matrix_rows(
            pal.on,
            diff_only,
            a.straps@,
            b.straps@,
            clocks@,
            match reg_names {
                Some(m) => Some(name_views(m@)),
                None => None,
            },
            a.reg_indices@,
            n as nat,
        ),
{
    let ghost names = match reg_names {
        Some(m) => Some(name_views(m@)),
        None => None,
    };
    let ghost start = out@;
    let mut row: usize = 0;
    while row < n
        invariant
            row <= n,
            names == match reg_names {
                Some(m) => Some(name_views(m@)),
                None => None,
            },
            out@ == start + matrix_rows(
                pal.on,
                diff_only,
                a.straps@,
                b.straps@,
                clocks@,
                names,
                a.reg_indices@,
                row as nat,
            ),
        decreases n - row,
    {
        push_row_entry(out, pal, diff_only, a, b, clocks, reg_names, row);
        row = row + 1;
    }
}

/// Compares the memory straps of two ROMs, matched by clock rather than
/// by position: for each register slot and each clock present in either
/// ROM, the two register values side by side. `max_equal` and `max_delta`
/// tell whether the highest strap clocks are equal and, when not, their
/// relative change; `reg_names` holds the user's register annotations.
pub fn compare_straps(
    a: &VramStraps,
    b: &VramStraps,
    max_equal: bool,
    max_delta: &str,
    pal: &Palette,
    diff_only: bool,
    reg_names: Option<&HashMap<u16, String>>,
) -> (r: String)
    ensures
        r@ == straps_compare_text(
            *a,
            *b,
            max_equal,
            max_delta@,
            pal.on,
            diff_only,
            match reg_names {
                Some(m) => Some(name_views(m@)),
                None => None,
            },
        ),
{
    let mut out: Vec<char> = Vec::new();
    push_summary(&mut out, a, b, max_equal, max_delta, pal, diff_only);
    push_matrix(&mut out, a, b, pal, diff_only, reg_names);
    push_trips(&mut out, a, b, pal);
    string_of(&out)
}

fn push_summary(
    out: &mut Vec<char>,
    a: &VramStraps,
    b: &VramStraps,
    max_equal: bool,
    max_delta: &str,
    pal: &Palette,
    diff_only: bool,
)
    ensures
        final(out)@ == old(out)@ + straps_summary_text(*a, *b, max_equal, max_delta@, pal.on, diff_only),
{
    let ghost s0 = out@;
    push_str_chars(out, title(pal, Section::Straps.label()).as_str());
    push_str_chars(out, "\n");
    push_str_chars(out, header_row(pal, a.file_name.as_str(), b.file_name.as_str()).as_str());
    push_str_chars(out, "\n");
    let ghost s1 = out@;
    let mut ca: Vec<char> = Vec::new();
    push_dec(&mut ca, a.straps.len() as u64);
    let mut cb: Vec<char> = Vec::new();
    push_dec(&mut cb, b.straps.len() as u64);
    push_opt_row(out, pal, diff_only, "Available straps (count)", string_of(&ca).as_str(), string_of(&cb).as_str());
    let ghost s2 = out@;
    push_pct_row(out, pal, diff_only, "Max strap (MHz)", a.max_clock.as_str(), b.max_clock.as_str(), max_equal, max_delta);
    let ghost s3 = out@;
    let ba = block_set_text(a.block_ids.as_slice());
    let bb = block_set_text(b.block_ids.as_slice());
    push_opt_row(out, pal, diff_only, "Memory blocks (vendor)", ba.as_str(), bb.as_str());
    assert(out@ =~= s0 + straps_summary_text(*a, *b, max_equal, max_delta@, pal.on, diff_only));
}

fn push_matrix(
    out: &mut Vec<char>,
    a: &VramStraps,
    b: &VramStraps,
    pal: &Palette,
    diff_only: bool,
    reg_names: Option<&HashMap<u16, String>>,
)
    ensures
        final(out)@ == old(out)@ + straps_matrix_text(
            *a,
            *b,
            pal.on,
            diff_only,
            match reg_names {
                Some(m) => Some(name_views(m@)),
                None => None,
            },
        ),
{
    let ghost s0 = out@;
    let clocks = strap_clocks(a.straps.as_slice(), b.straps.as_slice());
    let la = max_values_len(a.straps.as_slice());
    let lb = max_values_len(b.straps.as_slice());
    let n = if la >= lb {
        la
    } else {
        lb
    };
    push_str_chars(out, pal.label("\n  Straps x register matrix (A/B values in hex):").as_str());
    push_str_chars(out, "\n");
    let ghost s1 = out@;
    push_matrix_header(out, &clocks);
    push_str_chars(out, "\n");
    let ghost s2 = out@;
    push_matrix_rows(out, pal, diff_only, a, b, &clocks, reg_names, n);
    let ghost s3 = out@;
    push_str_chars(
        out,
        pal.label("  (= equal, ≠ differs; ---- = register not present in that strap)").as_str(),
    );
    push_str_chars(out, "\n");
    assert(out@ =~= s0 + straps_matrix_text(
        *a,
        *b,
        pal.on,
        diff_only,
        match reg_names {
            Some(m) => Some(name_views(m@)),
            None => None,
        },
    ));
}

fn push_trips(out: &mut Vec<char>, a: &VramStraps, b: &VramStraps, pal: &Palette)
    ensures
        final(out)@ == old(out)@ + trips_text(pal.on, *a, *b),
{
    let ghost s0 = out@;
    if a.cross_checks.len() == 0 && b.cross_checks.len() == 0 {
        assert(out@ =~= s0 + trips_text(pal.on, *a, *b));
        return ;
    }
    push_str_chars(out, pal.label("\n  Hard limit cross-check (informational):").as_str());
    push_str_chars(out, "\n");
    push_trip_lines(out, pal, a.file_name.as_str(), &a.cross_checks);
    push_trip_lines(out, pal, b.file_name.as_str(), &b.cross_checks);
    assert(out@ =~= s0 + trips_text(pal.on, *a, *b));
}

/// In the straps matrix a register slot's line carries the difference
/// mark `≠` exactly when the two ROMs' values of that slot differ at one
/// of the clocks; the other lines start with blanks.
pub proof fn law_strap_row_marker(
    on: bool,
    a: Seq<StrapValues>,
    b: Seq<StrapValues>,
    clocks: Seq<i64>,
    names: Option<Map<u16, Seq<char>>>,
    indices: Seq<u16>,
    row: nat,
)
    ensures
        ({
            let line = matrix_row_text(on, a, b, clocks, names, indices, row);
            let mark = "  "@ + painted(on, warn_code(), seq![ne_mark()]);
            row_differs(a, b, clocks, row) <==> (line.len() >= mark.len() && line.subrange(
                0,
                mark.len() as int,
            ) == mark)
        }),
        !on && row_differs(a, b, clocks, row) ==> crate::compare::marks_difference(
            matrix_row_text(on, a, b, clocks, names, indices, row),
        ),
{
    let line = matrix_row_text(on, a, b, clocks, names, indices, row);
    let mark = "  "@ + painted(on, warn_code(), seq![ne_mark()]);
    reveal_strlit("  ");
    assert(mark[2] != ' ') by {
        if on {
            assert(mark[2] == ESC);
        } else {
            assert(mark[2] == ne_mark());
        }
    }
    if row_differs(a, b, clocks, row) {
        assert(line.subrange(0, mark.len() as int) =~= mark);
    } else {
        assert(line[2] == ' ');
        if line.len() >= mark.len() && line.subrange(0, mark.len() as int) == mark {
            assert(line.subrange(0, mark.len() as int)[2] == mark[2]);
        }
    }
}

/// No two straps share a (rounded) clock.
pub open spec fn distinct_clocks(straps: Seq<StrapValues>) -> bool {
    forall|i: int, j: int|
        0 <= i < straps.len() && 0 <= j < straps.len() && i != j ==> straps[i].clock_mhz
            != straps[j].clock_mhz
}

proof fn lemma_strap_at_member(straps: Seq<StrapValues>, clk: i64)
    requires
        distinct_clocks(straps),
    ensures
        strap_at(straps, clk) is None <==> !clock_set(straps).contains(clk),
        forall|x: StrapValues|
            straps.contains(x) && x.clock_mhz == clk ==> strap_at(straps, clk) == Some(x),
    decreases straps.len(),
{
    if straps.len() > 0 {
        let rest = straps.skip(1);
        assert forall|i: int, j: int|
            0 <= i < rest.len() && 0 <= j < rest.len() && i != j implies rest[i].clock_mhz
            != rest[j].clock_mhz by {
            assert(rest[i] == straps[i + 1]);
            assert(rest[j] == straps[j + 1]);
        }
        lemma_strap_at_member(rest, clk);
        if straps[0].clock_mhz != clk {
            assert(clock_set(straps).contains(clk) <==> clock_set(rest).contains(clk)) by {
                if clock_set(straps).contains(clk) {
                    let k = choose|k: int| 0 <= k < straps.len() && straps[k].clock_mhz == clk;
                    assert(rest[k - 1] == straps[k]);
                }
                if clock_set(rest).contains(clk) {
                    let k = choose|k: int| 0 <= k < rest.len() && rest[k].clock_mhz == clk;
                    assert(straps[k + 1] == rest[k]);
                }
            }
            assert forall|x: StrapValues|
                straps.contains(x) && x.clock_mhz == clk implies strap_at(straps, clk) == Some(
                x,
            ) by {
                let k = choose|k: int| 0 <= k < straps.len() && straps[k] == x;
                assert(k != 0);
                assert(rest[k - 1] == x);
                assert(rest.contains(x));
            }
        } else {
            assert(clock_set(straps).contains(clk)) by {
                assert(straps[0].clock_mhz == clk);
            }
            assert forall|x: StrapValues|
                straps.contains(x) && x.clock_mhz == clk implies strap_at(straps, clk) == Some(
                x,
            ) by {
                let k = choose|k: int| 0 <= k < straps.len() && straps[k] == x;
                if k != 0 {
                    assert(straps[k].clock_mhz == straps[0].clock_mhz);
                }
            }
        }
    }
}

proof fn lemma_max_len_bounds(straps: Seq<StrapValues>)
    ensures
        forall|k: int| 0 <= k < straps.len() ==> straps[k].values@.len() <= max_len(straps),
        straps.len() == 0 ==> max_len(straps) == 0,
        straps.len() > 0 ==> exists|k: int|
            0 <= k < straps.len() && straps[k].values@.len() == max_len(straps),
    decreases straps.len(),
{
    if straps.len() > 0 {
        let init = straps.drop_last();
        lemma_max_len_bounds(init);
        assert forall|k: int| 0 <= k < straps.len() implies straps[k].values@.len() <= max_len(
            straps,
        ) by {
            if k < straps.len() - 1 {
                assert(init[k] == straps[k]);
            }
        }
        if max_len(init) >= straps.last().values@.len() && init.len() > 0 {
            let k = choose|k: int| 0 <= k < init.len() && init[k].values@.len() == max_len(init);
            assert(straps[k] == init[k]);
        } else {
            assert(straps[straps.len() - 1].values@.len() == max_len(straps));
        }
    }
}

proof fn lemma_max_len_reorder(s: Seq<StrapValues>, t: Seq<StrapValues>)
    requires
        t.to_multiset() == s.to_multiset(),
    ensures
        max_len(t) == max_len(s),
{
    lemma_max_len_bounds(s);
    lemma_max_len_bounds(t);
    vstd::seq_lib::to_multiset_len(s);
    vstd::seq_lib::to_multiset_len(t);
    if s.len() > 0 {
        let k = choose|k: int| 0 <= k < s.len() && s[k].values@.len() == max_len(s);
        vstd::seq_lib::to_multiset_contains(s, s[k]);
        vstd::seq_lib::to_multiset_contains(t, s[k]);
        assert(s.contains(s[k]));
        let m = choose|m: int| 0 <= m < t.len() && t[m] == s[k];
        let j = choose|j: int| 0 <= j < t.len() && t[j].values@.len() == max_len(t);
        vstd::seq_lib::to_multiset_contains(t, t[j]);
        vstd::seq_lib::to_multiset_contains(s, t[j]);
        assert(t.contains(t[j]));
        let n = choose|n: int| 0 <= n < s.len() && s[n] == t[j];
    }
}

proof fn lemma_row_cells_same(
    on: bool,
    a: Seq<StrapValues>,
    a2: Seq<StrapValues>,
    b: Seq<StrapValues>,
    clocks: Seq<i64>,
    row: nat,
)
    requires
        forall|c: i64, r: nat| #[trigger] cell(a2, c, r) == cell(a, c, r),
    ensures
        row_cells(on, a2, b, clocks, row) == row_cells(on, a, b, clocks, row),
    decreases clocks.len(),
{
    if clocks.len() > 0 {
        lemma_row_cells_same(on, a, a2, b, clocks.drop_last(), row);
        assert(cell(a2, clocks.last(), row) == cell(a, clocks.last(), row));
    }
}

proof fn lemma_matrix_rows_same(
    on: bool,
    diff_only: bool,
    a: Seq<StrapValues>,
    a2: Seq<StrapValues>,
    b: Seq<StrapValues>,
    clocks: Seq<i64>,
    names: Option<Map<u16, Seq<char>>>,
    indices: Seq<u16>,
    n: nat,
)
    requires
        forall|c: i64, r: nat| #[trigger] cell(a2, c, r) == cell(a, c, r),
    ensures
        matrix_rows(on, diff_only, a2, b, clocks, names, indices, n) == matrix_rows(
            on,
            diff_only,
            a,
            b,
            clocks,
            names,
            indices,
            n,
        ),
    decreases n,
{
    if n > 0 {
        let r = (n - 1) as nat;
        lemma_matrix_rows_same(on, diff_only, a, a2, b, clocks, names, indices, r);
        lemma_row_cells_same(on, a, a2, b, clocks, r);
        assert(row_differs(a2, b, clocks, r) == row_differs(a, b, clocks, r)) by {
            if row_differs(a2, b, clocks, r) {
                let k = choose|k: int|
                    0 <= k < clocks.len() && cell(a2, clocks[k], r) != cell(b, clocks[k], r);
                assert(cell(a2, clocks[k], r) == cell(a, clocks[k], r));
            }
            if row_differs(a, b, clocks, r) {
                let k = choose|k: int|
                    0 <= k < clocks.len() && cell(a, clocks[k], r) != cell(b, clocks[k], r);
                assert(cell(a2, clocks[k], r) == cell(a, clocks[k], r));
            }
        }
        reveal(matrix_row_entry);
    }
}

proof fn lemma_row_cells_same_b(
    on: bool,
    a: Seq<StrapValues>,
    b: Seq<StrapValues>,
    b2: Seq<StrapValues>,
    clocks: Seq<i64>,
    row: nat,
)
    requires
        forall|c: i64, r: nat| #[trigger] cell(b2, c, r) == cell(b, c, r),
    ensures
        row_cells(on, a, b2, clocks, row) == row_cells(on, a, b, clocks, row),
    decreases clocks.len(),
{
    if clocks.len() > 0 {
        lemma_row_cells_same_b(on, a, b, b2, clocks.drop_last(), row);
        assert(cell(b2, clocks.last(), row) == cell(b, clocks.last(), row));
    }
}

proof fn lemma_matrix_rows_same_b(
    on: bool,
    diff_only: bool,
    a: Seq<StrapValues>,
    b: Seq<StrapValues>,
    b2: Seq<StrapValues>,
    clocks: Seq<i64>,
    names: Option<Map<u16, Seq<char>>>,
    indices: Seq<u16>,
    n: nat,
)
    requires
        forall|c: i64, r: nat| #[trigger] cell(b2, c, r) == cell(b, c, r),
    ensures
        matrix_rows(on, diff_only, a, b2, clocks, names, indices, n) == matrix_rows(
            on,
            diff_only,
            a,
            b,
            clocks,
            names,
            indices,
            n,
        ),
    decreases n,
{
    if n > 0 {
        let r = (n - 1) as nat;
        lemma_matrix_rows_same_b(on, diff_only, a, b, b2, clocks, names, indices, r);
        lemma_row_cells_same_b(on, a, b, b2, clocks, r);
        assert(row_differs(a, b2, clocks, r) == row_differs(a, b, clocks, r)) by {
            if row_differs(a, b2, clocks, r) {
                let k = choose|k: int|
                    0 <= k < clocks.len() && cell(a, clocks[k], r) != cell(b2, clocks[k], r);
                assert(cell(b2, clocks[k], r) == cell(b, clocks[k], r));
            }
            if row_differs(a, b, clocks, r) {
                let k = choose|k: int|
                    0 <= k < clocks.len() && cell(a, clocks[k], r) != cell(b, clocks[k], r);
                assert(cell(b2, clocks[k], r) == cell(b, clocks[k], r));
            }
        }
        reveal(matrix_row_entry);
    }
}

/// What a reordering of a ROM's straps (with distinct clocks) and block
/// ids keeps: the number of straps, the clock set, every matrix cell,
/// the block set and the widest strap.
proof fn lemma_reorder_facts(a: VramStraps, a2: VramStraps)
    requires
        a2.straps@.to_multiset() == a.straps@.to_multiset(),
        a2.block_ids@.to_multiset() == a.block_ids@.to_multiset(),
        distinct_clocks(a.straps@),
        distinct_clocks(a2.straps@),
    ensures
        a2.straps@.len() == a.straps@.len(),
        clock_set(a2.straps@) == clock_set(a.straps@),
        forall|c: i64, r: nat| #[trigger] cell(a2.straps@, c, r) == cell(a.straps@, c, r),
        block_set(a2.block_ids@) == block_set(a.block_ids@),
        max_len(a2.straps@) == max_len(a.straps@),
{
    let s = a.straps@;
    let t = a2.straps@;
    vstd::seq_lib::to_multiset_len(s);
    vstd::seq_lib::to_multiset_len(t);
    assert forall|x: StrapValues| t.contains(x) <==> s.contains(x) by {
        vstd::seq_lib::to_multiset_contains(s, x);
        vstd::seq_lib::to_multiset_contains(t, x);
    }
    assert(clock_set(t) =~= clock_set(s)) by {
        assert forall|c: i64| clock_set(t).contains(c) implies clock_set(s).contains(c) by {
            let k = choose|k: int| 0 <= k < t.len() && t[k].clock_mhz == c;
            assert(t.contains(t[k]));
            let m = choose|m: int| 0 <= m < s.len() && s[m] == t[k];
        }
        assert forall|c: i64| clock_set(s).contains(c) implies clock_set(t).contains(c) by {
            let k = choose|k: int| 0 <= k < s.len() && s[k].clock_mhz == c;
            assert(s.contains(s[k]));
            let m = choose|m: int| 0 <= m < t.len() && t[m] == s[k];
        }
    }
    assert forall|c: i64| strap_at(t, c) == strap_at(s, c) by {
        lemma_strap_at_member(s, c);
        lemma_strap_at_member(t, c);
        if clock_set(s).contains(c) {
            let k = choose|k: int| 0 <= k < s.len() && s[k].clock_mhz == c;
            assert(s.contains(s[k]));
            assert(t.contains(s[k]));
        }
    }
    assert forall|c: i64, r: nat| #[trigger] cell(t, c, r) == cell(s, c, r) by {
        assert(strap_at(t, c) == strap_at(s, c));
    }
    let ia = a.block_ids@;
    let ib = a2.block_ids@;
    assert(block_set(ib) =~= block_set(ia)) by {
        assert forall|c: i64| block_set(ib).contains(c) implies block_set(ia).contains(c) by {
            let k = choose|k: int| 0 <= k < ib.len() && ib[k] as i64 == c;
            vstd::seq_lib::to_multiset_contains(ib, ib[k]);
            vstd::seq_lib::to_multiset_contains(ia, ib[k]);
            assert(ib.contains(ib[k]));
            let m = choose|m: int| 0 <= m < ia.len() && ia[m] == ib[k];
        }
        assert forall|c: i64| block_set(ia).contains(c) implies block_set(ib).contains(c) by {
            let k = choose|k: int| 0 <= k < ia.len() && ia[k] as i64 == c;
            vstd::seq_lib::to_multiset_contains(ib, ia[k]);
            vstd::seq_lib::to_multiset_contains(ia, ia[k]);
            assert(ia.contains(ia[k]));
            let m = choose|m: int| 0 <= m < ib.len() && ib[m] == ia[k];
        }
    }
    lemma_max_len_reorder(s, t);
}

/// Straps are matched by their rounded clock, not by their position:
/// listing either ROM's straps (and their block ids) in another order
/// leaves the text of `compare_straps` unchanged, as long as no two of
/// that ROM's straps share a clock.
pub proof fn law_straps_reorder(
    a: VramStraps,
    a2: VramStraps,
    b: VramStraps,
    b2: VramStraps,
    max_equal: bool,
    max_delta: Seq<char>,
    on: bool,
    diff_only: bool,
    names: Option<Map<u16, Seq<char>>>,
)
    requires
        a2.straps@.to_multiset() == a.straps@.to_multiset(),
        a2.block_ids@.to_multiset() == a.block_ids@.to_multiset(),
        distinct_clocks(a.straps@),
        distinct_clocks(a2.straps@),
        a2.file_name@ == a.file_name@,
        a2.reg_indices@ == a.reg_indices@,
        a2.max_clock@ == a.max_clock@,
        crate::textutil::views(a2.cross_checks@) == crate::textutil::views(a.cross_checks@),
        b2.straps@.to_multiset() == b.straps@.to_multiset(),
        b2.block_ids@.to_multiset() == b.block_ids@.to_multiset(),
        distinct_clocks(b.straps@),
        distinct_clocks(b2.straps@),
        b2.file_name@ == b.file_name@,
        b2.reg_indices@ == b.reg_indices@,
        b2.max_clock@ == b.max_clock@,
        crate::textutil::views(b2.cross_checks@) == crate::textutil::views(b.cross_checks@),
    ensures
        straps_compare_text(a2, b2, max_equal, max_delta, on, diff_only, names)
            == straps_compare_text(a, b, max_equal, max_delta, on, diff_only, names),
{
    lemma_reorder_facts(a, a2);
    lemma_reorder_facts(b, b2);
    assert(matrix_clocks(a2, b2) == matrix_clocks(a, b));
    assert(slot_count(a2, b2) == slot_count(a, b));
    let clocks = matrix_clocks(a, b);
    lemma_matrix_rows_same(
        on,
        diff_only,
        a.straps@,
        a2.straps@,
        b2.straps@,
        clocks,
        names,
        a.reg_indices@,
        slot_count(a, b),
    );
    lemma_matrix_rows_same_b(
        on,
        diff_only,
        a.straps@,
        b.straps@,
        b2.straps@,
        clocks,
        names,
        a.reg_indices@,
        slot_count(a, b),
    );
}

/// The timing fields shown in the core timing matrix of a multi-ROM
/// comparison.
pub open spec fn core_timings() -> Seq<Seq<char>> {
    seq![
        "tCL"@,
        "tRCDW"@,
        "tRCDWA"@,
        "tRCDR"@,
        "tRCDRA"@,
        "tRRD"@,
        "tRC"@,
        "tRP"@,
        "tRFC"@,
        "tFAW"@,
    ]
}

/// The value of timing field `field` at clock `clk` in each ROM.
pub open spec fn field_values(
    roms: Seq<VramStraps>,
    regs: Seq<TimingRegister>,
    clk: i64,
    field: Seq<char>,
) -> Seq<Option<u32>> {
    roms.map_values(
        |r: VramStraps| field_at_clock(r.straps@, r.reg_indices@, regs, clk, field),
    )
}

/// The ROMs show the same value, absence (`·`) counting as one value of
/// its own.
pub open spec fn all_shown_equal(vals: Seq<Option<u32>>) -> bool {
    forall|i: int| 0 <= i < vals.len() ==> #[trigger] vals[i] == vals[0]
}

/// A value as the matrix shows it: decimal, or `·` when absent.
pub open spec fn value_text(v: Option<u32>) -> Seq<char> {
    match v {
        Some(x) => dec(x as nat),
        None => "·"@,
    }
}

/// One cell of the core timing matrix: the values of all ROMs joined by
/// `/`, padded to `w` and colored by whether they agree.
pub open spec fn core_cell_text(on: bool, vals: Seq<Option<u32>>, w: nat) -> Seq<char> {
    let content = padded(
        joined(vals.map_values(|v: Option<u32>| value_text(v)), "/"@),
        w,
    );
    if all_shown_equal(vals) {
        painted(on, good_code(), content)
    } else {
        painted(on, warn_code(), content)
    }
}

/// The cells of timing field `field`, one per clock.
pub open spec fn core_cells(
    on: bool,
    roms: Seq<VramStraps>,
    regs: Seq<TimingRegister>,
    clocks: Seq<i64>,
    field: Seq<char>,
    w: nat,
) -> Seq<char>
    decreases clocks.len(),
{
    if clocks.len() == 0 {
        seq![]
    } else {
        core_cells(on, roms, regs, clocks.drop_last(), field, w) + core_cell_text(
            on,
            field_values(roms, regs, clocks.last(), field),
            w,
        )
    }
}

/// The ROMs show different values of timing field `field` at some
/// clock (a ROM without it showing `·`).
pub open spec fn core_row_differs(
    roms: Seq<VramStraps>,
    regs: Seq<TimingRegister>,
    clocks: Seq<i64>,
    field: Seq<char>,
) -> bool {
    exists|k: int|
        0 <= k < clocks.len() && !all_shown_equal(
            #[trigger] field_values(roms, regs, clocks[k], field),
        )
}

/// The line of timing field `field` (without its line break).
pub open spec fn core_row_text(
    on: bool,
    roms: Seq<VramStraps>,
    regs: Seq<TimingRegister>,
    clocks: Seq<i64>,
    field: Seq<char>,
    w: nat,
) -> Seq<char> {
    let label = if core_row_differs(roms, regs, clocks, field) {
        painted(on, warn_code(), "≠"@) + " "@ + padded(field, 22)
    } else {
        "  "@ + padded(field, 22)
    };
    "  "@ + label + " "@ + core_cells(on, roms, regs, clocks, field, w)
}

/// The line of one timing field with its line break, or nothing when
/// `diff_only` hides a field that agrees everywhere.
#[verifier::opaque]
pub open spec fn core_row_entry(
    on: bool,
    diff_only: bool,
    roms: Seq<VramStraps>,
    regs: Seq<TimingRegister>,
    clocks: Seq<i64>,
    field: Seq<char>,
    w: nat,
) -> Seq<char> {
    if diff_only && !core_row_differs(roms, regs, clocks, field) {
        seq![]
    } else {
        core_row_text(on, roms, regs, clocks, field, w) + "\n"@
    }
}

/// The lines of the timing fields `fields`.
pub open spec fn core_rows(
    on: bool,
    diff_only: bool,
    roms: Seq<VramStraps>,
    regs: Seq<TimingRegister>,
    clocks: Seq<i64>,
    fields: Seq<Seq<char>>,
    w: nat,
) -> Seq<char>
    decreases fields.len(),
{
    if fields.len() == 0 {
        seq![]
    } else {
        core_rows(on, diff_only, roms, regs, clocks, fields.drop_last(), w) + core_row_entry(
            on,
            diff_only,
            roms,
            regs,
            clocks,
            fields.last(),
            w,
        )
    }
}

/// The clock headings of the core timing matrix, `w` wide each.
pub open spec fn clock_cells_w(clocks: Seq<i64>, w: nat) -> Seq<char>
    decreases clocks.len(),
{
    if clocks.len() == 0 {
        seq![]
    } else {
        clock_cells_w(clocks.drop_last(), w) + padded(idec(clocks.last() as int), w)
    }
}

/// The heading line of the core timing matrix.
pub open spec fn core_header_text(clocks: Seq<i64>, w: nat) -> Seq<char> {
    trim_end("  "@ + padded("timing"@, 24) + " "@ + clock_cells_w(clocks, w) + "\n"@)
}

/// The clocks of the straps of any of the ROMs.
pub open spec fn all_clock_set(roms: Seq<VramStraps>) -> Set<i64> {
    Set::new(
        |c: i64|
            exists|i: int, k: int|
                0 <= i < roms.len() && 0 <= k < roms[i].straps@.len()
                    && #[trigger] roms[i].straps@[k].clock_mhz == c,
    )
}

/// The "other fields" groups of one strap: the non-core decoded fields
/// per register, then the raw hex of registers without a known layout.
pub open spec fn other_groups(values: Seq<u32>, indices: Seq<u16>, regs: Seq<TimingRegister>) -> Seq<
    GroupV,
> {
    let named = named_groups(values, indices, core_timings(), regs, values.len());
    let raw = raw_slots(values, indices, regs, values.len());
    if raw.len() > 0 {
        named.push(
            (
                "RAW"@,
                raw.map_values(
                    |p: (u16, u32)| ("0x"@ + hex(p.0 as nat), "0x"@ + zero_padded(hex(p.1 as nat), 8)),
                ),
            ),
        )
    } else {
        named
    }
}

/// The "other fields" groups of each ROM at clock `clk` (none where the
/// ROM has no strap at that clock).
pub open spec fn groups_at(roms: Seq<VramStraps>, regs: Seq<TimingRegister>, clk: i64) -> Seq<
    Seq<GroupV>,
> {
    roms.map_values(
        |r: VramStraps|
            match strap_at(r.straps@, clk) {
                Some(s) => other_groups(s.values@, r.reg_indices@, regs),
                None => seq![],
            },
    )
}

/// The "other fields" lines at clock `clk`, before alignment.
pub open spec fn other_lines_at(
    on: bool,
    roms: Seq<VramStraps>,
    regs: Seq<TimingRegister>,
    clk: i64,
) -> Seq<Seq<char>> {
    let g = groups_at(roms, regs, clk);
    other_lines(on, g, dedup(all_labels(g)))
}

/// The aligned lines, each followed by a line break.
pub open spec fn aligned_block(on: bool, lines: Seq<Seq<char>>, width: nat) -> Seq<char>
    decreases lines.len(),
{
    if lines.len() == 0 {
        seq![]
    } else {
        aligned_block(on, lines.drop_last(), width) + aligned_line(on, lines.last(), width)
            + "\n"@
    }
}

/// The "other fields" entry of one clock: a marked clock line and, when
/// something differs, the aligned field lines.
#[verifier::opaque]
pub open spec fn other_clock_entry(
    on: bool,
    diff_only: bool,
    roms: Seq<VramStraps>,
    regs: Seq<TimingRegister>,
    clk: i64,
) -> Seq<char> {
    let identical = all_identical(groups_at(roms, regs, clk));
    let lines = other_lines_at(on, roms, regs, clk);
    if diff_only && identical {
        seq![]
    } else {
        let marker = if identical {
            painted(on, good_code(), "="@)
        } else {
            painted(on, warn_code(), "≠"@)
        };
        "  "@ + marker + " "@ + idec(clk as int) + " MHz"@ + "\n"@ + if identical {
            seq![]
        } else {
            aligned_block(on, lines, max_label(lines))
        }
    }
}

/// The "other fields" entries of the clocks `clocks`.
pub open spec fn other_entries(
    on: bool,
    diff_only: bool,
    roms: Seq<VramStraps>,
    regs: Seq<TimingRegister>,
    clocks: Seq<i64>,
) -> Seq<char>
    decreases clocks.len(),
{
    if clocks.len() == 0 {
        seq![]
    } else {
        other_entries(on, diff_only, roms, regs, clocks.drop_last()) + other_clock_entry(
            on,
            diff_only,
            roms,
            regs,
            clocks.last(),
        )
    }
}

/// Every "other fields" line is short enough that its UTF-8 length fits
/// in memory four times over.
pub open spec fn other_lines_fit(roms: Seq<VramStraps>, regs: Seq<TimingRegister>) -> bool {
    forall|on: bool, clk: i64, k: int|
        0 <= k < other_lines_at(on, roms, regs, clk).len() ==> (#[trigger] other_lines_at(
            on,
            roms,
            regs,
            clk,
        )[k]).len() * 4 <= usize::MAX
}

/// The title and the summary rows of the multi-ROM straps section.
pub open spec fn straps_head_text(
    roms: Seq<VramStraps>,
    names: Seq<Seq<char>>,
    on: bool,
    diff_only: bool,
) -> Seq<char> {
    let n = roms.len();
    let counts = roms.map_values(|x: VramStraps| dec(x.straps@.len()));
    let maxes = roms.map_values(|x: VramStraps| x.max_clock@);
    let col_w = col_width_for(n);
    title_text(on, label_of(Section::Straps)) + "\n"@ + all_matrix_header_text(on, 24, col_w, names)
        + (if diff_only && all_same(counts) {
        seq![]
    } else {
        all_matrix_row_text(on, 24, col_w, "Straps (count)"@, counts)
    }) + (if diff_only && all_same(maxes) {
        seq![]
    } else {
        all_matrix_row_text(on, 24, col_w, "Max strap (MHz)"@, maxes)
    })
}

/// The core timing matrix with its heading and legend.
pub open spec fn core_block_text(
    roms: Seq<VramStraps>,
    regs: Seq<TimingRegister>,
    on: bool,
    diff_only: bool,
) -> Seq<char> {
    let clocks = in_order(all_clock_set(roms));
    let w = roms.len() * 4 + 1;
    painted(
        on,
        label_code(),
        "\n  Core timings per clock (cycles, values in ROM order; · = no strap at this clock):"@,
    ) + "\n"@ + core_header_text(clocks, w) + "\n"@ + core_rows(
        on,
        diff_only,
        roms,
        regs,
        clocks,
        core_timings(),
        w,
    ) + painted(
        on,
        label_code(),
        "  (= equal, ≠ differs, · = absent; values are memory-clock cycles)"@,
    ) + "\n"@
}

/// The remaining fields and raw registers per clock.
pub open spec fn other_block_text(
    roms: Seq<VramStraps>,
    regs: Seq<TimingRegister>,
    on: bool,
    diff_only: bool,
) -> Seq<char> {
    painted(
        on,
        label_code(),
        "\n  Other fields & raw registers per clock (green = equal, yellow = differs, · = absent):"@,
    ) + "\n"@ + other_entries(on, diff_only, roms, regs, in_order(all_clock_set(roms)))
}

/// The straps section of a comparison of several ROMs.
pub open spec fn straps_section_text(
    roms: Seq<VramStraps>,
    names: Seq<Seq<char>>,
    regs: Seq<TimingRegister>,
    on: bool,
    diff_only: bool,
) -> Seq<char> {
    straps_head_text(roms, names, on, diff_only) + core_block_text(roms, regs, on, diff_only)
        + other_block_text(roms, regs, on, diff_only)
}

/// The clocks of the straps of any of the ROMs, in increasing order.
pub fn all_strap_clocks(roms: &[VramStraps]) -> (r: Vec<i64>)
    ensures
        r@ == in_order(all_clock_set(roms@)),
{
    let mut v: Vec<i64> = Vec::new();
    let mut i: usize = 0;
    while i < roms.len()
        invariant
            i <= roms@.len(),
            ascending(v@),
            forall|y: i64|
                v@.contains(y) <==> exists|ri: int, k: int|
                    0 <= ri < i && 0 <= k < roms@[ri].straps@.len()
                        && #[trigger] roms@[ri].straps@[k].clock_mhz == y,
        decreases roms@.len() - i,
    {
        let straps = &roms[i].straps;
        let mut j: usize = 0;
        while j < straps.len()
            invariant
                i < roms@.len(),
                straps@ == roms@[i as int].straps@,
                j <= straps@.len(),
                ascending(v@),
                forall|y: i64|
                    v@.contains(y) <==> (exists|ri: int, k: int|
                        0 <= ri < i && 0 <= k < roms@[ri].straps@.len()
                            && #[trigger] roms@[ri].straps@[k].clock_mhz == y) || (exists|k: int|
                        0 <= k < j && straps@[k].clock_mhz == y),
            decreases straps@.len() - j,
        {
            insert_ordered(&mut v, straps[j].clock_mhz);
            assert forall|y: i64|
                v@.contains(y) <==> (exists|ri: int, k: int|
                    0 <= ri < i && 0 <= k < roms@[ri].straps@.len()
                        && #[trigger] roms@[ri].straps@[k].clock_mhz == y) || (exists|k: int|
                    0 <= k < j + 1 && straps@[k].clock_mhz == y) by {
                if y == straps@[j as int].clock_mhz {
                    assert(0 <= j < j + 1 && straps@[j as int].clock_mhz == y);
                }
            }
            j = j + 1;
        }
        assert forall|y: i64|
            v@.contains(y) <==> exists|ri: int, k: int|
                0 <= ri < i + 1 && 0 <= k < roms@[ri].straps@.len()
                    && #[trigger] roms@[ri].straps@[k].clock_mhz == y by {
            if exists|k: int| 0 <= k < j && straps@[k].clock_mhz == y {
                let k = choose|k: int| 0 <= k < j && straps@[k].clock_mhz == y;
                assert(roms@[i as int].straps@[k].clock_mhz == y);
            }
            if exists|ri: int, k: int|
                0 <= ri < i + 1 && 0 <= k < roms@[ri].straps@.len()
                    && #[trigger] roms@[ri].straps@[k].clock_mhz == y {
                let (ri, k) = choose|ri: int, k: int|
                    0 <= ri < i + 1 && 0 <= k < roms@[ri].straps@.len()
                        && #[trigger] roms@[ri].straps@[k].clock_mhz == y;
                if ri == i {
                    assert(straps@[k].clock_mhz == y);
                }
            }
        }
        i = i + 1;
    }
    proof {
        assert(v@.to_set() =~= all_clock_set(roms@));
        lemma_in_order(v@);
    }
    v
}

fn core_cell(
    pal: &Palette,
    roms: &[VramStraps],
    registers: &[TimingRegister],
    clk: i64,
    field: &str,
    w: usize,
) -> (r: (String, bool))
    requires
        layouts_fit(registers@),
    ensures
        r.0@ == core_cell_text(pal.on, field_values(roms@, registers@, clk, field@), w as nat),
        r.1 == all_shown_equal(field_values(roms@, registers@, clk, field@)),
{
    let ghost vals = field_values(roms@, registers@, clk, field@);
    let ghost texts = vals.map_values(|v: Option<u32>| value_text(v));
    let mut content: Vec<char> = Vec::new();
    let mut all_eq = true;
    let mut first: Option<u32> = None;
    let mut i: usize = 0;
    while i < roms.len()
        invariant
            i <= roms@.len(),
            layouts_fit(registers@),
            vals == field_values(roms@, registers@, clk, field@),
            texts == vals.map_values(|v: Option<u32>| value_text(v)),
            content@ == joined(texts.take(i as int), "/"@),
            i > 0 ==> first == vals[0],
            all_eq == forall|j: int| 0 <= j < i ==> #[trigger] vals[j] == vals[0],
        decreases roms@.len() - i,
    {
        let v = field_at(
            roms[i].straps.as_slice(),
            roms[i].reg_indices.as_slice(),
            registers,
            clk,
            field,
        );
        assert(v == vals[i as int]);
        if i > 0 {
            push_str_chars(&mut content, "/");
        } else {
            first = v;
        }
        match v {
            Some(x) => push_dec(&mut content, x as u64),
            None => push_str_chars(&mut content, "·"),
        }
        let ok = match (v, first) {
            (Some(x), Some(y)) => x == y,
            (None, None) => true,
            _ => false,
        };
        if !ok {
            all_eq = false;
        }
        proof {
            let t = texts.take(i + 1);
            assert(t.drop_last() == texts.take(i as int));
            assert(t.last() == value_text(vals[i as int]));
            if !ok {
                assert(vals[i as int] != vals[0]);
            }
        }
        i = i + 1;
    }
    assert(texts.take(roms@.len() as int) == texts);
    let padded_content = pad(string_of(&content).as_str(), w);
    let out = if all_eq {
        pal.good(padded_content.as_str())
    } else {
        pal.warn(padded_content.as_str())
    };
    (out, all_eq)
}

fn core_row(
    pal: &Palette,
    roms: &[VramStraps],
    registers: &[TimingRegister],
    clocks: &Vec<i64>,
    field: &str,
    w: usize,
) -> (r: (Vec<char>, bool))
    requires
        layouts_fit(registers@),
    ensures
        r.0@ == core_row_text(pal.on, roms@, registers@, clocks@, field@, w as nat),
        r.1 == core_row_differs(roms@, registers@, clocks@, field@),
{
    let mut cells: Vec<char> = Vec::new();
    let mut differs = false;
    let mut k: usize = 0;
    while k < clocks.len()
        invariant
            k <= clocks@.len(),
            layouts_fit(registers@),
            cells@ == core_cells(pal.on, roms@, registers@, clocks@.take(k as int), field@, w as nat),
            differs == exists|j: int|
                0 <= j < k && !all_shown_equal(
                    #[trigger] field_values(roms@, registers@, clocks@[j], field@),
                ),
        decreases clocks@.len() - k,
    {
        let (c, eq) = core_cell(pal, roms, registers, clocks[k], field, w);
        push_str_chars(&mut cells, c.as_str());
        if !eq {
            differs = true;
        }
        proof {
            let t = clocks@.take(k + 1);
            assert(t.drop_last() == clocks@.take(k as int));
            assert(t.last() == clocks@[k as int]);
            if !eq {
                assert(0 <= k < k + 1 && !all_shown_equal(
                    field_values(roms@, registers@, clocks@[k as int], field@),
                ));
            }
        }
        k = k + 1;
    }
    assert(clocks@.take(clocks@.len() as int) == clocks@);
    let mut out: Vec<char> = Vec::new();
    push_str_chars(&mut out, "  ");
    if differs {
        push_str_chars(&mut out, pal.warn("≠").as_str());
        push_str_chars(&mut out, " ");
    } else {
        push_str_chars(&mut out, "  ");
    }
    push_str_chars(&mut out, pad(field, 22).as_str());
    push_str_chars(&mut out, " ");
    crate::textutil::push_all(&mut out, &cells);
    (out, differs)
}

fn push_core_entry(
    out: &mut Vec<char>,
    pal: &Palette,
    diff_only: bool,
    roms: &[VramStraps],
    registers: &[TimingRegister],
    clocks: &Vec<i64>,
    field: &str,
    w: usize,
)
    requires
        layouts_fit(registers@),
    ensures
        final(out)@ == old(out)@ + core_row_entry(
            pal.on,
            diff_only,
            roms@,
            registers@,
            clocks@,
            field@,
            w as nat,
        ),
{
    reveal(core_row_entry);
    let (line, differs) = core_row(pal, roms, registers, clocks, field, w);
    if !(diff_only && !differs) {
        crate::textutil::push_all(out, &line);
        push_str_chars(out, "\n");
    }
}

fn push_core_header(out: &mut Vec<char>, clocks: &Vec<i64>, w: usize)
    ensures
        final(out)@ == old(out)@ + core_header_text(clocks@, w as nat),
{
    let mut line: Vec<char> = Vec::new();
    push_str_chars(&mut line, "  ");
    push_str_chars(&mut line, pad("timing", 24).as_str());
    push_str_chars(&mut line, " ");
    let ghost start = line@;
    let mut k: usize = 0;
    while k < clocks.len()
        invariant
            k <= clocks@.len(),
            line@ == start + clock_cells_w(clocks@.take(k as int), w as nat),
        decreases clocks@.len() - k,
    {
        let mut c: Vec<char> = Vec::new();
        push_idec(&mut c, clocks[k]);
        push_str_chars(&mut line, pad(string_of(&c).as_str(), w).as_str());
        proof {
            let t = clocks@.take(k + 1);
            assert(t.drop_last() == clocks@.take(k as int));
            assert(t.last() == clocks@[k as int]);
        }
        k = k + 1;
    }
    assert(clocks@.take(clocks@.len() as int) == clocks@);
    push_str_chars(&mut line, "\n");
    let n = trim_end_len(&line);
    crate::textutil::push_range(out, &line, 0, n);
}

/// `0x` and the upper-case hex digits of a register index.
fn hex_label(idx: u16) -> (r: String)
    ensures
        r@ == "0x"@ + hex(idx as nat),
{
    let mut v: Vec<char> = Vec::new();
    push_str_chars(&mut v, "0x");
    push_hex(&mut v, idx as u64, 0);
    assert(zero_padded(hex(idx as nat), 0) == hex(idx as nat));
    string_of(&v)
}

fn strap_groups(
    values: &[u32],
    indices: &[u16],
    core: &[&str],
    registers: &[TimingRegister],
) -> (r: Vec<RegGroup>)
    requires
        layouts_fit(registers@),
        names_view(core@) == core_timings(),
    ensures
        groups_view(r@) == other_groups(values@, indices@, registers@),
{
    let g = strap_other_groups(
        values,
        indices,
        core,
        registers,
        hex_label,
    );
    proof {
        let named = named_groups(values@, indices@, core_timings(), registers@, values@.len());
        let raw = raw_slots(values@, indices@, registers@, values@.len());
        if raw.len() > 0 {
            let last = g@.last();
            let want = raw.map_values(
                |p: (u16, u32)| ("0x"@ + hex(p.0 as nat), "0x"@ + zero_padded(hex(p.1 as nat), 8)),
            );
            assert forall|j: int| 0 <= j < raw.len() implies #[trigger] fields_view(last.1@)[j]
                == want[j] by {
                assert(last.1@[j].1@ == "0x"@ + zero_padded(hex(raw[j].1 as nat), 8));
            }
            assert(fields_view(last.1@) =~= want);
            assert forall|k: int| 0 <= k < g@.len() implies #[trigger] groups_view(g@)[k]
                == other_groups(values@, indices@, registers@)[k] by {
                if k < named.len() {
                    assert(group_view(g@[k]) == named[k]);
                }
            }
        } else {
            assert forall|k: int| 0 <= k < g@.len() implies #[trigger] groups_view(g@)[k]
                == other_groups(values@, indices@, registers@)[k] by {
                assert(group_view(g@[k]) == named[k]);
            }
        }
        assert(groups_view(g@) =~= other_groups(values@, indices@, registers@));
    }
    g
}

fn groups_at_clock(
    roms: &[VramStraps],
    registers: &[TimingRegister],
    clk: i64,
    core: &[&str],
) -> (r: Vec<Vec<RegGroup>>)
    requires
        layouts_fit(registers@),
        names_view(core@) == core_timings(),
    ensures
        roms_view(r@) == groups_at(roms@, registers@, clk),
{
    let mut per: Vec<Vec<RegGroup>> = Vec::new();
    let mut i: usize = 0;
    while i < roms.len()
        invariant
            i <= roms@.len(),
            layouts_fit(registers@),
            names_view(core@) == core_timings(),
            roms_view(per@) == groups_at(roms@, registers@, clk).take(i as int),
        decreases roms@.len() - i,
    {
        let r = &roms[i];
        let gs = match crate::compare_util::find_strap(r.straps.as_slice(), clk) {
            Some(k) => strap_groups(r.straps[k].values.as_slice(), r.reg_indices.as_slice(), core, registers),
            None => {
                let e: Vec<RegGroup> = Vec::new();
                assert(groups_view(e@) =~= seq![]);
                e
            },
        };
        let ghost before = per@;
        per.push(gs);
        assert(roms_view(per@) =~= groups_at(roms@, registers@, clk).take(i + 1)) by {
            assert(roms_view(per@) =~= roms_view(before).push(groups_view(gs@)));
        }
        i = i + 1;
    }
    assert(groups_at(roms@, registers@, clk).take(roms@.len() as int) =~= groups_at(
        roms@,
        registers@,
        clk,
    ));
    per
}

fn push_aligned(out: &mut Vec<char>, pal: &Palette, lines: &Vec<String>)
    requires
        forall|k: int| 0 <= k < lines@.len() ==> #[trigger] lines@[k]@.len() * 4 <= usize::MAX,
    ensures
        final(out)@ == old(out)@ + aligned_block(pal.on, views(lines@), max_label(views(lines@))),
{
    let ghost ls = views(lines@);
    let ghost s1 = out@;
    let al = align_other_lines(pal, lines.as_slice());
    let ghost w = max_label(ls);
    assert(views(al@).len() == al@.len());
    let mut k: usize = 0;
    while k < al.len()
        invariant
            k <= al@.len(),
            al@.len() == ls.len(),
            views(al@) == ls.map_values(|l: Seq<char>| aligned_line(pal.on, l, w)),
            out@ == s1 + aligned_block(pal.on, ls.take(k as int), w),
        decreases al@.len() - k,
    {
        push_str_chars(out, al[k].as_str());
        push_str_chars(out, "\n");
        proof {
            let t = ls.take(k + 1);
            assert(t.drop_last() == ls.take(k as int));
            assert(t.last() == ls[k as int]);
            assert(views(al@)[k as int] == al@[k as int]@);
        }
        k = k + 1;
    }
    assert(ls.take(ls.len() as int) == ls);
}

fn other_lines_for(
    pal: &Palette,
    roms: &[VramStraps],
    registers: &[TimingRegister],
    clk: i64,
    core: &[&str],
) -> (r: (bool, Vec<String>))
    requires
        layouts_fit(registers@),
        names_view(core@) == core_timings(),
    ensures
        r.0 == all_identical(groups_at(roms@, registers@, clk)),
        views(r.1@) == other_lines_at(pal.on, roms@, registers@, clk),
{
    let per = groups_at_clock(roms, registers, clk, core);
    other_fields_lines(pal, per.as_slice())
}

fn push_other_entry(
    out: &mut Vec<char>,
    pal: &Palette,
    diff_only: bool,
    roms: &[VramStraps],
    registers: &[TimingRegister],
    clk: i64,
    core: &[&str],
)
    requires
        layouts_fit(registers@),
        names_view(core@) == core_timings(),
        other_lines_fit(roms@, registers@),
    ensures
        final(out)@ == old(out)@ + other_clock_entry(pal.on, diff_only, roms@, registers@, clk),
{
    reveal(other_clock_entry);
    let ghost s0 = out@;
    let (identical, lines) = other_lines_for(pal, roms, registers, clk, core);
    let ghost ls = views(lines@);
    if diff_only && identical {
        return ;
    }
    push_str_chars(out, "  ");
    if identical {
        push_str_chars(out, pal.good("=").as_str());
    } else {
        push_str_chars(out, pal.warn("≠").as_str());
    }
    push_str_chars(out, " ");
    push_idec(out, clk);
    push_str_chars(out, " MHz");
    push_str_chars(out, "\n");
    let ghost s1 = out@;
    if !identical {
        assert forall|k: int| 0 <= k < lines@.len() implies #[trigger] lines@[k]@.len() * 4
            <= usize::MAX by {
            assert(ls[k] == lines@[k]@);
            assert(ls[k] == other_lines_at(pal.on, roms@, registers@, clk)[k]);
        }
        push_aligned(out, pal, &lines);
    }
    assert(out@ =~= s0 + other_clock_entry(pal.on, diff_only, roms@, registers@, clk));
}

fn count_texts(roms: &[VramStraps]) -> (r: Vec<String>)
    ensures
        views(r@) == roms@.map_values(|x: VramStraps| dec(x.straps@.len())),
{
    let mut v: Vec<String> = Vec::new();
    let mut i: usize = 0;
    while i < roms.len()
        invariant
            i <= roms@.len(),
            views(v@) == roms@.map_values(|x: VramStraps| dec(x.straps@.len())).take(i as int),
        decreases roms@.len() - i,
    {
        let mut c: Vec<char> = Vec::new();
        push_dec(&mut c, roms[i].straps.len() as u64);
        let ghost before = v@;
        v.push(string_of(&c));
        assert(views(v@) =~= views(before).push(c@));
        assert(roms@.map_values(|x: VramStraps| dec(x.straps@.len())).take(i + 1) =~= roms@.map_values(
            |x: VramStraps| dec(x.straps@.len()),
        ).take(i as int).push(dec(roms@[i as int].straps@.len())));
        i = i + 1;
    }
    assert(roms@.map_values(|x: VramStraps| dec(x.straps@.len())).take(roms@.len() as int)
        =~= roms@.map_values(|x: VramStraps| dec(x.straps@.len())));
    v
}

fn max_texts(roms: &[VramStraps]) -> (r: Vec<String>)
    ensures
        views(r@) == roms@.map_values(|x: VramStraps| x.max_clock@),
{
    let mut v: Vec<String> = Vec::new();
    let mut i: usize = 0;
    while i < roms.len()
        invariant
            i <= roms@.len(),
            views(v@) == roms@.map_values(|x: VramStraps| x.max_clock@).take(i as int),
        decreases roms@.len() - i,
    {
        let mut c: Vec<char> = Vec::new();
        push_str_chars(&mut c, roms[i].max_clock.as_str());
        let ghost before = v@;
        v.push(string_of(&c));
        assert(views(v@) =~= views(before).push(c@));
        assert(roms@.map_values(|x: VramStraps| x.max_clock@).take(i + 1) =~= roms@.map_values(
            |x: VramStraps| x.max_clock@,
        ).take(i as int).push(roms@[i as int].max_clock@));
        i = i + 1;
    }
    assert(roms@.map_values(|x: VramStraps| x.max_clock@).take(roms@.len() as int)
        =~= roms@.map_values(|x: VramStraps| x.max_clock@));
    v
}

fn summary_rows(roms: &[VramStraps], names: &[String], pal: &Palette, diff_only: bool) -> (r: String)
    requires
        names@.len() * 27 + 26 <= usize::MAX,
    ensures
        ({
            let n = roms@.len();
            let counts = roms@.map_values(|x: VramStraps| dec(x.straps@.len()));
            let maxes = roms@.map_values(|x: VramStraps| x.max_clock@);
            let col_w = col_width_for(n);
            r@ == all_matrix_header_text(pal.on, 24, col_w, views(names@)) + (if diff_only
                && all_same(counts) {
                seq![]
            } else {
                all_matrix_row_text(pal.on, 24, col_w, "Straps (count)"@, counts)
            }) + (if diff_only && all_same(maxes) {
                seq![]
            } else {
                all_matrix_row_text(pal.on, 24, col_w, "Max strap (MHz)"@, maxes)
            })
        }),
{
    let mut m = Matrix::new(pal, roms.len(), diff_only);
    let ghost cw = m.col_w as int;
    let ghost nn = names@.len() as int;
    assert(cw <= 26);
    assert(nn * (cw + 1) <= nn * 27) by (nonlinear_arith)
        requires
            0 <= cw <= 26,
            0 <= nn,
    ;
    m.header(names);
    let counts = count_texts(roms);
    m.row("Straps (count)", counts.as_slice());
    let maxes = max_texts(roms);
    m.row("Max strap (MHz)", maxes.as_slice());
    m.buf
}

fn push_core_rows(
    out: &mut Vec<char>,
    pal: &Palette,
    diff_only: bool,
    roms: &[VramStraps],
    registers: &[TimingRegister],
    clocks: &Vec<i64>,
    core: &[&str],
    w: usize,
)
    requires
        layouts_fit(registers@),
        names_view(core@) == core_timings(),
    ensures
        final(out)@ == old(out)@ + core_rows(
            pal.on,
            diff_only,
            roms@,
            registers@,
            clocks@,
            core_timings(),
            w as nat,
        ),
{
    let ghost start = out@;
    let ghost fs = core_timings();
    let mut k: usize = 0;
    while k < core.len()
        invariant
            k <= core@.len(),
            layouts_fit(registers@),
            fs == names_view(core@),
            out@ == start + core_rows(
                pal.on,
                diff_only,
                roms@,
                registers@,
                clocks@,
                fs.take(k as int),
                w as nat,
            ),
        decreases core@.len() - k,
    {
        push_core_entry(out, pal, diff_only, roms, registers, clocks, core[k], w);
        proof {
            let t = fs.take(k + 1);
            assert(t.drop_last() == fs.take(k as int));
            assert(t.last() == core@[k as int]@);
        }
        k = k + 1;
    }
    assert(fs.take(core@.len() as int) == fs);
}

fn push_other_entries(
    out: &mut Vec<char>,
    pal: &Palette,
    diff_only: bool,
    roms: &[VramStraps],
    registers: &[TimingRegister],
    clocks: &Vec<i64>,
    core: &[&str],
)
    requires
        layouts_fit(registers@),
        names_view(core@) == core_timings(),
        other_lines_fit(roms@, registers@),
    ensures
        final(out)@ == old(out)@ + other_entries(pal.on, diff_only, roms@, registers@, clocks@),
{
    let ghost start = out@;
    let mut k: usize = 0;
    while k < clocks.len()
        invariant
            k <= clocks@.len(),
            layouts_fit(registers@),
            names_view(core@) == core_timings(),
            other_lines_fit(roms@, registers@),
            out@ == start + other_entries(
                pal.on,
                diff_only,
                roms@,
                registers@,
                clocks@.take(k as int),
            ),
        decreases clocks@.len() - k,
    {
        push_other_entry(out, pal, diff_only, roms, registers, clocks[k], core);
        proof {
            let t = clocks@.take(k + 1);
            assert(t.drop_last() == clocks@.take(k as int));
            assert(t.last() == clocks@[k as int]);
        }
        k = k + 1;
    }
    assert(clocks@.take(clocks@.len() as int) == clocks@);
}

fn push_core_block(
    out: &mut Vec<char>,
    pal: &Palette,
    diff_only: bool,
    roms: &[VramStraps],
    registers: &[TimingRegister],
    clocks: &Vec<i64>,
    core: &[&str],
)
    requires
        layouts_fit(registers@),
        names_view(core@) == core_timings(),
        roms@.len() * 4 + 1 <= usize::MAX,
        clocks@ == in_order(all_clock_set(roms@)),
    ensures
        final(out)@ == old(out)@ + core_block_text(roms@, registers@, pal.on, diff_only),
{
    let ghost s0 = out@;
    let w = roms.len() * 4 + 1;
    push_str_chars(
        out,
        pal.label(
            "\n  Core timings per clock (cycles, values in ROM order; · = no strap at this clock):",
        ).as_str(),
    );
    push_str_chars(out, "\n");
    push_core_header(out, clocks, w);
    push_str_chars(out, "\n");
    push_core_rows(out, pal, diff_only, roms, registers, clocks, core, w);
    push_str_chars(
        out,
        pal.label("  (= equal, ≠ differs, · = absent; values are memory-clock cycles)").as_str(),
    );
    push_str_chars(out, "\n");
    assert(out@ =~= s0 + core_block_text(roms@, registers@, pal.on, diff_only));
}

/// The straps section of a comparison of several ROMs: strap counts and
/// highest clocks, the core timings of every ROM per clock (the strap
/// clocks of all ROMs, matched by rounded clock), then the remaining
/// fields and raw registers per clock. `names` are the ROMs' column
/// headings, `registers` the known register layouts.
#[verifier::spinoff_prover]
#[verifier::rlimit(40)]
pub fn straps_section(
    roms: &[VramStraps],
    names: &[String],
    registers: &[TimingRegister],
    pal: &Palette,
    diff_only: bool,
) -> (r: String)
    requires
        layouts_fit(registers@),
        other_lines_fit(roms@, registers@),
        roms@.len() * 4 + 1 <= usize::MAX,
        names@.len() * 27 + 26 <= usize::MAX,
    ensures
        r@ == straps_section_text(roms@, views(names@), registers@, pal.on, diff_only),
{
    let core: [&str; 10] = [
        "tCL",
        "tRCDW",
        "tRCDWA",
        "tRCDR",
        "tRCDRA",
        "tRRD",
        "tRC",
        "tRP",
        "tRFC",
        "tFAW",
    ];
    assert(names_view(core@) =~= core_timings());
    let clocks = all_strap_clocks(roms);
    let mut out: Vec<char> = Vec::new();
    push_str_chars(&mut out, title(pal, Section::Straps.label()).as_str());
    push_str_chars(&mut out, "\n");
    push_str_chars(&mut out, summary_rows(roms, names, pal, diff_only).as_str());
    let ghost s1 = out@;
    assert(s1 =~= straps_head_text(roms@, views(names@), pal.on, diff_only));
    push_core_block(&mut out, pal, diff_only, roms, registers, &clocks, core.as_slice());
    let ghost s2 = out@;
    push_str_chars(
        &mut out,
        pal.label(
            "\n  Other fields & raw registers per clock (green = equal, yellow = differs, · = absent):",
        ).as_str(),
    );
    push_str_chars(&mut out, "\n");
    push_other_entries(&mut out, pal, diff_only, roms, registers, &clocks, core.as_slice());
    assert(out@ =~= s2 + other_block_text(roms@, registers@, pal.on, diff_only));
    string_of(&out)
}

/// In the core timing matrix of a multi-ROM comparison a timing field's
/// line starts with `  ≠ ` exactly when, at some clock, the ROMs' values
/// of that field differ or one of them lacks it.
pub proof fn law_core_row_marker(
    on: bool,
    roms: Seq<VramStraps>,
    regs: Seq<TimingRegister>,
    clocks: Seq<i64>,
    field: Seq<char>,
    w: nat,
)
    ensures
        ({
            let line = core_row_text(on, roms, regs, clocks, field, w);
            let mark = "  "@ + painted(on, warn_code(), "≠"@) + " "@;
            core_row_differs(roms, regs, clocks, field) <==> (line.len() >= mark.len()
                && line.subrange(0, mark.len() as int) == mark)
        }),
        !on && core_row_differs(roms, regs, clocks, field) ==> crate::compare::marks_difference(
            core_row_text(on, roms, regs, clocks, field, w),
        ),
{
    let line = core_row_text(on, roms, regs, clocks, field, w);
    let mark = "  "@ + painted(on, warn_code(), "≠"@) + " "@;
    reveal_strlit("  ");
    reveal_strlit(" ");
    reveal_strlit("≠");
    assert(mark[2] != ' ') by {
        if on {
            assert(mark[2] == ESC);
        } else {
            assert(mark[2] == '≠');
        }
    }
    if core_row_differs(roms, regs, clocks, field) {
        assert(line.subrange(0, mark.len() as int) =~= mark);
    } else {
        assert(line[2] == ' ');
        if line.len() >= mark.len() && line.subrange(0, mark.len() as int) == mark {
            assert(line.subrange(0, mark.len() as int)[2] == mark[2]);
        }
    }
}

/// The straps comparison shows ROM A's number of straps under A and ROM
/// B's under B, and their memory block (vendor) sets likewise (each row
/// whenever shown).
pub proof fn law_straps_summary_columns(
    a: VramStraps,
    b: VramStraps,
    max_equal: bool,
    max_delta: Seq<char>,
    on: bool,
    diff_only: bool,
    names: Option<Map<u16, Seq<char>>>,
)
    ensures
        (!diff_only || dec(a.straps@.len()) != dec(b.straps@.len())) ==> contains_text(
            straps_compare_text(a, b, max_equal, max_delta, on, diff_only, names),
            row_text(on, "Available straps (count)"@, dec(a.straps@.len()), dec(b.straps@.len())),
        ),
        (!diff_only || set_text(block_set(a.block_ids@)) != set_text(block_set(b.block_ids@)))
            ==> contains_text(
            straps_compare_text(a, b, max_equal, max_delta, on, diff_only, names),
            row_text(
                on,
                "Memory blocks (vendor)"@,
                set_text(block_set(a.block_ids@)),
                set_text(block_set(b.block_ids@)),
            ),
        ),
{
    let h = title_text(on, label_of(Section::Straps)) + "\n"@ + header_row_text(on, a.file_name@, b.file_name@)
        + "\n"@;
    let r1 = opt_row(on, diff_only, "Available straps (count)"@, dec(a.straps@.len()), dec(b.straps@.len()));
    let r2 = pct_row_text(on, diff_only, "Max strap (MHz)"@, a.max_clock@, b.max_clock@, max_equal, max_delta);
    let r3 = opt_row(
        on,
        diff_only,
        "Memory blocks (vendor)"@,
        set_text(block_set(a.block_ids@)),
        set_text(block_set(b.block_ids@)),
    );
    let sm = straps_summary_text(a, b, max_equal, max_delta, on, diff_only);
    assert(sm == h + r1 + r2 + r3);
    let rest = straps_matrix_text(a, b, on, diff_only, names) + trips_text(on, a, b);
    assert(straps_compare_text(a, b, max_equal, max_delta, on, diff_only, names) =~= sm + rest);
    if !diff_only || dec(a.straps@.len()) != dec(b.straps@.len()) {
        lemma_contains_self(r1);
        lemma_contains_right(h, r1, r1);
        lemma_contains_left(h + r1, r2, r1);
        lemma_contains_left(h + r1 + r2, r3, r1);
        lemma_contains_left(sm, rest, r1);
    }
    if !diff_only || set_text(block_set(a.block_ids@)) != set_text(block_set(b.block_ids@)) {
        lemma_contains_self(r3);
        lemma_contains_right(h + r1 + r2, r3, r3);
        lemma_contains_left(sm, rest, r3);
    }
}

proof fn lemma_row_cells_has(on: bool, a: Seq<StrapValues>, b: Seq<StrapValues>, clocks: Seq<i64>, row: nat, k: int)
    requires
        0 <= k < clocks.len(),
    ensures
        contains_text(
            row_cells(on, a, b, clocks, row),
            cell_text(on, cell(a, clocks[k], row), cell(b, clocks[k], row)),
        ),
    decreases clocks.len(),
{
    let init = row_cells(on, a, b, clocks.drop_last(), row);
    let last = cell_text(on, cell(a, clocks.last(), row), cell(b, clocks.last(), row));
    let c = cell_text(on, cell(a, clocks[k], row), cell(b, clocks[k], row));
    if k == clocks.len() - 1 {
        lemma_contains_self(last);
        lemma_contains_right(init, last, last);
    } else {
        assert(clocks.drop_last()[k] == clocks[k]);
        lemma_row_cells_has(on, a, b, clocks.drop_last(), row, k);
        lemma_contains_left(init, last, c);
    }
}

/// In the line of a register slot of the strap matrix, the cell of each
/// clock shows ROM A's value of the slot at that clock before ROM B's:
/// for two differing values `AAAAAAAA/BBBBBBBB≠`, for equal ones the
/// value and `=`, `----` for a value a ROM lacks.
pub proof fn law_strap_cell_order(
    on: bool,
    a: Seq<StrapValues>,
    b: Seq<StrapValues>,
    clocks: Seq<i64>,
    names: Option<Map<u16, Seq<char>>>,
    indices: Seq<u16>,
    row: nat,
    k: int,
)
    requires
        0 <= k < clocks.len(),
    ensures
        ({
            let t = matrix_row_text(on, a, b, clocks, names, indices, row);
            let ca = cell(a, clocks[k], row);
            let cb = cell(b, clocks[k], row);
            &&& (ca matches Some(x) && cb matches Some(y) && x != y) ==> contains_text(
                t,
                padded(painted(on, warn_code(), hex8(ca->0) + "/"@ + hex8(cb->0) + seq![ne_mark()]), 20),
            )
            &&& (ca matches Some(x) && cb is None) ==> contains_text(
                t,
                padded(painted(on, warn_code(), hex8(ca->0) + "/----"@), 20),
            )
            &&& (ca is None && cb matches Some(y)) ==> contains_text(
                t,
                padded(painted(on, warn_code(), "----/"@ + hex8(cb->0)), 20),
            )
        }),
{
    lemma_row_cells_has(on, a, b, clocks, row, k);
    let t = matrix_row_text(on, a, b, clocks, names, indices, row);
    let label = if row_differs(a, b, clocks, row) {
        painted(on, warn_code(), seq![ne_mark()]) + " "@ + padded(reg_label(names, indices, row), 22)
    } else {
        "  "@ + padded(reg_label(names, indices, row), 22)
    };
    assert(t == "  "@ + label + " "@ + row_cells(on, a, b, clocks, row));
    lemma_contains_right("  "@ + label + " "@, row_cells(on, a, b, clocks, row), cell_text(
        on,
        cell(a, clocks[k], row),
        cell(b, clocks[k], row),
    ));
}

} // verus!
