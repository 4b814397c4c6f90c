//! The order of texts (`str`'s `Ord`: byte order of UTF-8, which is the
//! order of code points), and sorting a list of texts without repeats.

use vstd::prelude::*;

use crate::textutil::{chars_of, str_eq, views};

verus! {

/// `a` comes before `b`: at the first position where they differ, `a`
/// has the smaller code point, or `a` is a proper prefix of `b`.
pub open spec fn text_lt(a: Seq<char>, b: Seq<char>) -> bool
    decreases a.len(),
{
    if a.len() == 0 {
        b.len() > 0
    } else if b.len() == 0 {
        false
    } else if a[0] < b[0] {
        true
    } else if a[0] == b[0] {
        text_lt(a.skip(1), b.skip(1))
    } else {
        false
    }
}

pub proof fn lemma_text_lt_irreflexive(a: Seq<char>)
    ensures
        !text_lt(a, a),
    decreases a.len(),
{
    if a.len() > 0 {
        lemma_text_lt_irreflexive(a.skip(1));
    }
}

pub proof fn lemma_text_lt_transitive(a: Seq<char>, b: Seq<char>, c: Seq<char>)
    requires
        text_lt(a, b),
        text_lt(b, c),
    ensures
        text_lt(a, c),
    decreases a.len(),
{
    if a.len() > 0 && b.len() > 0 && c.len() > 0 {
        if a[0] == b[0] && b[0] == c[0] {
            lemma_text_lt_transitive(a.skip(1), b.skip(1), c.skip(1));
        }
    }
}

pub proof fn lemma_text_lt_total(a: Seq<char>, b: Seq<char>)
    requires
        a != b,
    ensures
        text_lt(a, b) || text_lt(b, a),
    decreases a.len(),
{
    if a.len() > 0 && b.len() > 0 && a[0] == b[0] {
        if a.skip(1) == b.skip(1) {
            assert(a == seq![a[0]] + a.skip(1));
            assert(b == seq![b[0]] + b.skip(1));
        }
        lemma_text_lt_total(a.skip(1), b.skip(1));
    } else if a.len() > 0 && b.len() > 0 {
    } else if a.len() == 0 && b.len() == 0 {
        assert(a == b);
    }
}

/// Whether `a` comes before `b`.
pub fn text_less(a: &str, b: &str) -> (r: bool)
    ensures
        r == text_lt(a@, b@),
{
    let ac = chars_of(a);
    let bc = chars_of(b);
    let mut k: usize = 0;
    assert(ac@.skip(0) == ac@ && bc@.skip(0) == bc@);
    while k < ac.len() && k < bc.len() && ac[k] == bc[k]
        invariant
            ac@ == a@,
            bc@ == b@,
            k <= ac@.len(),
            k <= bc@.len(),
            text_lt(ac@.skip(k as int), bc@.skip(k as int)) == text_lt(a@, b@),
        decreases ac@.len() - k,
    {
        let ghost x = ac@.skip(k as int);
        let ghost y = bc@.skip(k as int);
        assert(x[0] == ac@[k as int] && y[0] == bc@[k as int]);
        assert(x.skip(1) == ac@.skip(k + 1));
        assert(y.skip(1) == bc@.skip(k + 1));
        k = k + 1;
    }
    let ghost x = ac@.skip(k as int);
    let ghost y = bc@.skip(k as int);
    if k == ac.len() {
        assert(x.len() == 0);
        k < bc.len()
    } else if k == bc.len() {
        assert(y.len() == 0);
        false
    } else {
        assert(x[0] == ac@[k as int] && y[0] == bc@[k as int]);
        ac[k] < bc[k]
    }
}

/// Every text of `s` comes before the texts after it.
pub open spec fn strictly_sorted(s: Seq<Seq<char>>) -> bool {
    forall|i: int, j: int| 0 <= i < j < s.len() ==> text_lt(#[trigger] s[i], #[trigger] s[j])
}

/// Inserts `x` into the strictly sorted `out`, unless it is there.
fn insert_text(out: &mut Vec<String>, x: &String)
    requires
        strictly_sorted(views(old(out)@)),
    ensures
        strictly_sorted(views(final(out)@)),
        forall|y: Seq<char>|
            views(final(out)@).contains(y) <==> (views(old(out)@).contains(y) || y == x@),
{
    let ghost before = views(out@);
    let mut p: usize = 0;
    while p < out.len() && text_less(out[p].as_str(), x.as_str())
        invariant
            views(out@) == before,
            p <= before.len(),
            strictly_sorted(before),
            forall|q: int| 0 <= q < p ==> text_lt(#[trigger] before[q], x@),
        decreases before.len() - p,
    {
        assert(before[p as int] == out@[p as int]@);
        p = p + 1;
    }
    if p < out.len() {
        assert(before[p as int] == out@[p as int]@);
        if str_eq(out[p].as_str(), x.as_str()) {
            assert(before.contains(x@));
            return;
        }
    }
    // `x` goes at `p`: everything before it is smaller, everything from
    // `p` on is larger.
    proof {
        if p < before.len() {
            assert(!text_lt(before[p as int], x@));
            assert(before[p as int] != x@);
            lemma_text_lt_total(before[p as int], x@);
        }
    }
    out.insert(p, x.clone());
    let ghost after = views(out@);
    assert(after == before.insert(p as int, x@)) by {
        assert(after.len() == before.len() + 1);
        assert forall|i: int| 0 <= i < after.len() implies after[i] == before.insert(p as int, x@)[i] by {
            if i < p {
                assert(after[i] == out@[i]@);
            } else if i == p {
                assert(after[i] == out@[i]@);
            } else {
                assert(after[i] == out@[i]@);
            }
        }
    }
    assert forall|y: Seq<char>| after.contains(y) <==> (before.contains(y) || y == x@) by {
        if after.contains(y) {
            let w = choose|w: int| 0 <= w < after.len() && after[w] == y;
            if w < p {
                assert(before[w] == y);
            } else if w > p {
                assert(before[w - 1] == y);
            }
        }
        if before.contains(y) {
            let w = choose|w: int| 0 <= w < before.len() && before[w] == y;
            if w < p {
                assert(after[w] == y);
            } else {
                assert(after[w + 1] == y);
            }
        }
        if y == x@ {
            assert(after[p as int] == y);
        }
    }
    assert forall|i: int, j: int| 0 <= i < j < after.len() implies text_lt(
        #[trigger] after[i],
        #[trigger] after[j],
    ) by {
        if j < p {
            assert(after[i] == before[i] && after[j] == before[j]);
        } else if j == p {
            assert(after[i] == before[i]);
        } else if i < p {
            assert(after[i] == before[i] && after[j] == before[j - 1]);
            assert(text_lt(before[i], x@));
            if p < before.len() {
                assert(text_lt(x@, before[p as int]));
                if j - 1 > p {
                    assert(text_lt(before[p as int], before[j - 1]));
                    lemma_text_lt_transitive(x@, before[p as int], before[j - 1]);
                }
                lemma_text_lt_transitive(before[i], x@, before[j - 1]);
            }
        } else if i == p {
            assert(after[j] == before[j - 1]);
            assert(text_lt(x@, before[p as int]));
            if j - 1 > p {
                assert(text_lt(before[p as int], before[j - 1]));
                lemma_text_lt_transitive(x@, before[p as int], before[j - 1]);
            }
        } else {
            assert(after[i] == before[i - 1] && after[j] == before[j - 1]);
        }
    }
}

/// The texts of `names` in order, each once (`sort` then `dedup`).
pub fn sorted_unique(names: &[String]) -> (r: Vec<String>)
    ensures
        strictly_sorted(views(r@)),
        forall|y: Seq<char>| views(r@).contains(y) <==> views(names@).contains(y),
{
    let mut out: Vec<String> = Vec::new();
    let mut i: usize = 0;
    assert(views(out@) =~= seq![]);
    while i < names.len()
        invariant
            i <= names@.len(),
            strictly_sorted(views(out@)),
            forall|y: Seq<char>|
                views(out@).contains(y) <==> exists|k: int| 0 <= k < i && names@[k]@ == y,
        decreases names@.len() - i,
    {
        insert_text(&mut out, &names[i]);
        i = i + 1;
        assert forall|y: Seq<char>| views(out@).contains(y) <==> exists|k: int| 0 <= k < i && names@[k]@ == y by {
            if y == names@[i - 1]@ {
                assert(names@[i - 1]@ == y);
            }
            if exists|k: int| 0 <= k < i && names@[k]@ == y {
                let k = choose|k: int| 0 <= k < i && names@[k]@ == y;
                if k < i - 1 {
                    assert(exists|k2: int| 0 <= k2 < i - 1 && names@[k2]@ == y);
                }
            }
        }
    }
    assert forall|y: Seq<char>| views(out@).contains(y) <==> views(names@).contains(y) by {
        if views(names@).contains(y) {
            let w = choose|w: int| 0 <= w < views(names@).len() && views(names@)[w] == y;
            assert(names@[w]@ == y);
        }
        if exists|k: int| 0 <= k < names@.len() && names@[k]@ == y {
            let k = choose|k: int| 0 <= k < names@.len() && names@[k]@ == y;
            assert(views(names@)[k] == y);
        }
    }
    out
}

} // verus!
