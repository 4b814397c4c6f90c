//! The visible width of terminal text, and what `wrap_ansi` promises of
//! the width of its lines.

use vstd::prelude::*;

use crate::render::color::{
    close_line, csi_body_len, dots, ellipsis, esc_token_len, is_ascii_alpha, lemma_csi_body_len_bound,
    lemma_esc_token_len_bound, next_active, sgr_is_reset, vis_limit, vis_trunc_from, wrap_from,
    wrapped,
};
use crate::textutil::{ends_with, reset_seq, ESC};

verus! {

/// One character read left to right: `(shown, state)`, `shown` being the
/// characters shown so far and the state
/// 0 in plain text, 1 just after an `ESC`, 2 inside an `ESC [` sequence
/// (which an ASCII letter ends). An `ESC` not followed by `[` is itself
/// invisible; the character after it is read as plain text.
pub open spec fn vis_step(acc: (Seq<char>, nat), c: char) -> (Seq<char>, nat) {
    if acc.1 == 2 {
        if is_ascii_alpha(c) {
            (acc.0, 0nat)
        } else {
            (acc.0, 2nat)
        }
    } else if acc.1 == 1 && c == '[' {
        (acc.0, 2nat)
    } else if c == ESC {
        (acc.0, 1nat)
    } else {
        (acc.0.push(c), 0nat)
    }
}

/// Reading `s` from `acc` on.
pub open spec fn vis_scan(s: Seq<char>, acc: (Seq<char>, nat)) -> (Seq<char>, nat)
    decreases s.len(),
{
    if s.len() == 0 {
        acc
    } else {
        vis_step(vis_scan(s.drop_last(), acc), s.last())
    }
}

/// The text of `s` that a terminal shows: the characters outside escape
/// sequences.
pub open spec fn visible_text(s: Seq<char>) -> Seq<char> {
    vis_scan(s, (seq![], 0)).0
}

/// The number of characters of `s` that a terminal shows.
pub open spec fn visible_width(s: Seq<char>) -> nat {
    visible_text(s).len()
}

pub proof fn lemma_vis_scan_concat(a: Seq<char>, b: Seq<char>, acc: (Seq<char>, nat))
    ensures
        vis_scan(a + b, acc) == vis_scan(b, vis_scan(a, acc)),
    decreases b.len(),
{
    if b.len() == 0 {
        assert(a + b == a);
    } else {
        assert((a + b).drop_last() == a + b.drop_last());
        assert((a + b).last() == b.last());
        lemma_vis_scan_concat(a, b.drop_last(), acc);
    }
}

proof fn lemma_vis_scan_one(c: char, acc: (Seq<char>, nat))
    ensures
        vis_scan(seq![c], acc) == vis_step(acc, c),
{
    assert(seq![c].drop_last() == Seq::<char>::empty());
    assert(vis_scan(Seq::<char>::empty(), acc) == acc);
    assert(seq![c].last() == c);
}

proof fn lemma_vis_scan_cons(c: char, t: Seq<char>, acc: (Seq<char>, nat))
    ensures
        vis_scan(seq![c] + t, acc) == vis_scan(t, vis_step(acc, c)),
{
    lemma_vis_scan_concat(seq![c], t, acc);
    lemma_vis_scan_one(c, acc);
}

/// The body of a CSI sequence read inside the sequence: it ends it when
/// it holds its closing letter, else it runs to the end of `t`.
proof fn lemma_csi_scan(t: Seq<char>, n: Seq<char>)
    ensures
        ({
            let k = csi_body_len(t);
            if k > 0 && is_ascii_alpha(t[k - 1]) {
                vis_scan(t.take(k as int), (n, 2)) == (n, 0nat)
            } else {
                vis_scan(t.take(k as int), (n, 2)) == (n, 2nat) && k == t.len()
            }
        }),
    decreases t.len(),
{
    lemma_csi_body_len_bound(t);
    let k = csi_body_len(t);
    if t.len() == 0 {
        assert(t.take(0) == Seq::<char>::empty());
    } else if is_ascii_alpha(t[0]) {
        assert(t.take(1) == seq![t[0]]);
        lemma_vis_scan_one(t[0], (n, 2));
    } else {
        let r = t.skip(1);
        lemma_csi_scan(r, n);
        lemma_csi_body_len_bound(r);
        let kr = csi_body_len(r);
        assert(k == 1 + kr);
        assert(t.take(k as int) == seq![t[0]] + r.take(kr as int));
        lemma_vis_scan_cons(t[0], r.take(kr as int), (n, 2));
        if kr > 0 {
            assert(t[k - 1] == r[kr - 1]);
        }
    }
}

/// What the reading state says of the rest `s` of the input: an `ESC`
/// just read is not the start of a CSI sequence, and an open CSI
/// sequence ran to the end of the input.
pub open spec fn state_fits(st: nat, s: Seq<char>) -> bool {
    ||| st == 0
    ||| st == 1 && (s.len() > 0 ==> s[0] != '[')
    ||| st == 2 && s.len() == 0
}

/// The reading state after the escape token at the start of `s`: plain
/// text after a complete CSI sequence, inside one that runs to the end
/// of `s`, just after an `ESC` for a lone `ESC`.
pub open spec fn token_state(s: Seq<char>) -> nat {
    if s.len() >= 2 && s[1] == '[' {
        let t = s.skip(2);
        let k = csi_body_len(t);
        if k > 0 && is_ascii_alpha(t[k - 1]) {
            0
        } else {
            2
        }
    } else {
        1
    }
}

/// An escape token read from plain text (or just after an `ESC`): it
/// shows nothing, and leaves a state that fits the rest of the input.
proof fn lemma_token_scan(s: Seq<char>, acc: (Seq<char>, nat))
    requires
        s.len() > 0,
        s[0] == ESC,
        acc.1 == 0 || acc.1 == 1,
    ensures
        ({
            let n = esc_token_len(s);
            let r = vis_scan(s.take(n as int), acc);
            &&& r == (acc.0, token_state(s))
            &&& state_fits(r.1, s.skip(n as int))
            &&& (s.take(n as int).last() == 'm' ==> r.1 == 0)
        }),
{
    lemma_esc_token_len_bound(s);
    let n = esc_token_len(s);
    let tok = s.take(n as int);
    assert(tok == seq![ESC] + tok.skip(1));
    lemma_vis_scan_cons(ESC, tok.skip(1), acc);
    let a1 = (acc.0, 1nat);
    assert(vis_step(acc, ESC) == a1);
    if s.len() >= 2 && s[1] == '[' {
        let t = s.skip(2);
        lemma_csi_scan(t, acc.0);
        lemma_csi_body_len_bound(t);
        let k = csi_body_len(t);
        assert(tok.skip(1) == seq!['['] + t.take(k as int));
        lemma_vis_scan_cons('[', t.take(k as int), a1);
        assert(vis_step(a1, '[') == (acc.0, 2nat));
        if !(k > 0 && is_ascii_alpha(t[k - 1])) {
            assert(s.skip(n as int).len() == 0);
            if k > 0 {
                assert(tok.last() == t[k - 1]);
            } else {
                assert(tok.last() == '[');
            }
        }
    } else {
        assert(tok.skip(1) == Seq::<char>::empty());
        assert(s.skip(1).len() > 0 ==> s.skip(1)[0] == s[1]);
    }
}

/// Closing a line adds nothing visible.
proof fn lemma_close_line_width(cur: Seq<char>, st: nat)
    requires
        vis_scan(cur, (seq![], 0)).1 == st,
        st <= 2,
    ensures
        visible_text(close_line(cur)) == visible_text(cur),
{
    if !ends_with(cur, reset_seq()) {
        let acc = vis_scan(cur, (seq![], 0));
        lemma_vis_scan_concat(cur, reset_seq(), (seq![], 0));
        let r = reset_seq();
        assert(r == seq![ESC] + (seq!['['] + (seq!['0'] + seq!['m'])));
        lemma_vis_scan_cons(ESC, seq!['['] + (seq!['0'] + seq!['m']), acc);
        let a1 = vis_step(acc, ESC);
        lemma_vis_scan_cons('[', seq!['0'] + seq!['m'], a1);
        let a2 = vis_step(a1, '[');
        lemma_vis_scan_cons('0', seq!['m'], a2);
        let a3 = vis_step(a2, '0');
        lemma_vis_scan_one('m', a3);
        assert(is_ascii_alpha('m'));
    }
}

/// The reading state of the open line of `wrap_ansi`.
pub open spec fn line_state_ok(cur: Seq<char>, cur_vis: nat, s: Seq<char>) -> bool {
    let r = vis_scan(cur, (seq![], 0));
    r.0.len() == cur_vis && state_fits(r.1, s)
}

proof fn lemma_wrap_from_widths(
    s: Seq<char>,
    max: nat,
    lines: Seq<Seq<char>>,
    cur: Seq<char>,
    cur_vis: nat,
    active: Seq<char>,
)
    requires
        max > 0,
        cur_vis <= max,
        forall|k: int| 0 <= k < lines.len() ==> visible_width(#[trigger] lines[k]) == max,
        line_state_ok(cur, cur_vis, s),
        vis_scan(active, (seq![], 0)) == (Seq::<char>::empty(), 0nat),
    ensures
        ({
            let out = wrap_from(s, max, lines, cur, cur_vis, active);
            &&& forall|k: int| 0 <= k < out.len() ==> visible_width(#[trigger] out[k]) <= max
            &&& forall|k: int| 0 <= k < out.len() - 1 ==> visible_width(#[trigger] out[k]) == max
        }),
    decreases s.len(),
{
    let out = wrap_from(s, max, lines, cur, cur_vis, active);
    let acc = vis_scan(cur, (seq![], 0));
    if s.len() == 0 {
        if cur.len() > 0 {
            lemma_close_line_width(cur, acc.1);
            let l2 = lines.push(close_line(cur));
            assert(out == l2);
            assert forall|k: int| 0 <= k < out.len() implies visible_width(#[trigger] out[k]) <= max by {
                if k < lines.len() {
                    assert(out[k] == lines[k]);
                }
            }
            assert forall|k: int| 0 <= k < out.len() - 1 implies visible_width(#[trigger] out[k]) == max by {
                assert(out[k] == lines[k]);
            }
        }
    } else if s[0] == ESC {
        let n = esc_token_len(s);
        lemma_esc_token_len_bound(s);
        let tok = s.take(n as int);
        lemma_token_scan(s, acc);
        lemma_vis_scan_concat(cur, tok, (seq![], 0));
        let act2 = next_active(active, tok);
        if tok.len() > 0 && tok.last() == 'm' && !sgr_is_reset(tok) {
            lemma_vis_scan_concat(active, tok, (seq![], 0));
            lemma_token_scan(s, (seq![], 0));
        }
        lemma_wrap_from_widths(s.skip(n as int), max, lines, cur + tok, cur_vis, act2);
        assert(out == wrap_from(s.skip(n as int), max, lines, cur + tok, cur_vis, act2));
    } else if cur_vis >= max {
        lemma_close_line_width(cur, acc.1);
        let l2 = lines.push(close_line(cur));
        assert forall|k: int| 0 <= k < l2.len() implies visible_width(#[trigger] l2[k]) == max by {
            if k < lines.len() {
                assert(l2[k] == lines[k]);
            }
        }
        lemma_vis_scan_concat(active, seq![s[0]], (seq![], 0));
        lemma_vis_scan_one(s[0], (seq![], 0));
        assert(active + seq![s[0]] == active.push(s[0]));
        lemma_wrap_from_widths(s.skip(1), max, l2, active.push(s[0]), 1, active);
        assert(out == wrap_from(s.skip(1), max, l2, active.push(s[0]), 1, active));
    } else {
        lemma_vis_scan_concat(cur, seq![s[0]], (seq![], 0));
        lemma_vis_scan_one(s[0], acc);
        assert(cur + seq![s[0]] == cur.push(s[0]));
        lemma_wrap_from_widths(s.skip(1), max, lines, cur.push(s[0]), cur_vis + 1, active);
        assert(out == wrap_from(s.skip(1), max, lines, cur.push(s[0]), cur_vis + 1, active));
    }
}

/// No line of `wrap_ansi(s, max)` shows more than `max` characters, and
/// every line but the last shows exactly `max`.
pub proof fn law_wrapped_widths(s: Seq<char>, max: nat)
    ensures
        forall|k: int|
            0 <= k < wrapped(s, max).len() ==> visible_width(#[trigger] wrapped(s, max)[k]) <= max,
        forall|k: int|
            0 <= k < wrapped(s, max).len() - 1 ==> visible_width(#[trigger] wrapped(s, max)[k])
                == max,
{
    if max > 0 {
        assert(vis_scan(Seq::<char>::empty(), (seq![], 0)) == (Seq::<char>::empty(), 0nat));
        lemma_wrap_from_widths(s, max, seq![], seq![], 0, seq![]);
    }
}

/// The text that all `lines` show, one after the other.
pub open spec fn lines_text(lines: Seq<Seq<char>>) -> Seq<char>
    decreases lines.len(),
{
    if lines.len() == 0 {
        seq![]
    } else {
        lines_text(lines.drop_last()) + visible_text(lines.last())
    }
}

proof fn lemma_wrap_from_text(
    s: Seq<char>,
    max: nat,
    lines: Seq<Seq<char>>,
    cur: Seq<char>,
    cur_vis: nat,
    active: Seq<char>,
    done: Seq<char>,
)
    requires
        max > 0,
        line_state_ok(cur, cur_vis, s),
        vis_scan(active, (seq![], 0)) == (Seq::<char>::empty(), 0nat),
        vis_scan(done, (seq![], 0)) == (lines_text(lines) + vis_scan(cur, (seq![], 0)).0, vis_scan(
            cur,
            (seq![], 0),
        ).1),
    ensures
        lines_text(wrap_from(s, max, lines, cur, cur_vis, active)) == visible_text(done + s),
    decreases s.len(),
{
    let out = wrap_from(s, max, lines, cur, cur_vis, active);
    let acc = vis_scan(cur, (seq![], 0));
    let t = lines_text(lines);
    if s.len() == 0 {
        assert(done + s == done);
        if cur.len() > 0 {
            lemma_close_line_width(cur, acc.1);
            let l2 = lines.push(close_line(cur));
            assert(l2.drop_last() == lines);
            assert(out == l2);
        } else {
            assert(vis_scan(cur, (seq![], 0)) == (Seq::<char>::empty(), 0nat));
            assert(t + Seq::<char>::empty() == t);
        }
    } else if s[0] == ESC {
        let n = esc_token_len(s);
        lemma_esc_token_len_bound(s);
        let tok = s.take(n as int);
        lemma_token_scan(s, acc);
        lemma_token_scan(s, vis_scan(done, (seq![], 0)));
        lemma_vis_scan_concat(cur, tok, (seq![], 0));
        lemma_vis_scan_concat(done, tok, (seq![], 0));
        let act2 = next_active(active, tok);
        if tok.len() > 0 && tok.last() == 'm' && !sgr_is_reset(tok) {
            lemma_vis_scan_concat(active, tok, (seq![], 0));
            lemma_token_scan(s, (seq![], 0));
        }
        lemma_wrap_from_text(s.skip(n as int), max, lines, cur + tok, cur_vis, act2, done + tok);
        assert(out == wrap_from(s.skip(n as int), max, lines, cur + tok, cur_vis, act2));
        assert(done + tok + s.skip(n as int) == done + s);
    } else {
        let c = s[0];
        lemma_vis_scan_concat(done, seq![c], (seq![], 0));
        lemma_vis_scan_one(c, vis_scan(done, (seq![], 0)));
        assert(done + seq![c] + s.skip(1) == done + s);
        if cur_vis >= max {
            lemma_close_line_width(cur, acc.1);
            let l2 = lines.push(close_line(cur));
            assert(l2.drop_last() == lines);
            lemma_vis_scan_concat(active, seq![c], (seq![], 0));
            lemma_vis_scan_one(c, (seq![], 0));
            assert(active + seq![c] == active.push(c));
            assert(lines_text(l2) == t + acc.0);
            assert((t + acc.0).push(c) == lines_text(l2) + seq![c]);
            lemma_wrap_from_text(s.skip(1), max, l2, active.push(c), 1, active, done + seq![c]);
            assert(out == wrap_from(s.skip(1), max, l2, active.push(c), 1, active));
        } else {
            lemma_vis_scan_concat(cur, seq![c], (seq![], 0));
            lemma_vis_scan_one(c, acc);
            assert(cur + seq![c] == cur.push(c));
            assert((t + acc.0).push(c) == t + acc.0.push(c));
            lemma_wrap_from_text(
                s.skip(1),
                max,
                lines,
                cur.push(c),
                cur_vis + 1,
                active,
                done + seq![c],
            );
            assert(out == wrap_from(s.skip(1), max, lines, cur.push(c), cur_vis + 1, active));
        }
    }
}

/// `wrap_ansi` loses, adds and reorders no visible character: for a
/// width above zero its lines, one after the other, show exactly the
/// text that `s` shows.
pub proof fn law_wrapped_keeps_text(s: Seq<char>, max: nat)
    requires
        max > 0,
    ensures
        lines_text(wrapped(s, max)) == visible_text(s),
{
    assert(vis_scan(Seq::<char>::empty(), (seq![], 0)) == (Seq::<char>::empty(), 0nat));
    assert(lines_text(Seq::<Seq<char>>::empty()) == Seq::<char>::empty());
    assert(Seq::<char>::empty() + Seq::<char>::empty() == Seq::<char>::empty());
    lemma_wrap_from_text(s, max, seq![], seq![], 0, seq![], seq![]);
    assert(Seq::<char>::empty() + s == s);
}

/// Reading from a state with some text already shown only adds to it.
proof fn lemma_vis_scan_prefix(s: Seq<char>, t: Seq<char>, st: nat)
    ensures
        vis_scan(s, (t, st)) == (t + vis_scan(s, (seq![], st)).0, vis_scan(s, (seq![], st)).1),
    decreases s.len(),
{
    if s.len() == 0 {
        assert(t + Seq::<char>::empty() == t);
    } else {
        lemma_vis_scan_prefix(s.drop_last(), t, st);
        let x = vis_scan(s.drop_last(), (seq![], st));
        assert((t + x.0).push(s.last()) == t + x.0.push(s.last()));
    }
}

/// The reset sequence shows nothing and, read from plain text or just
/// after an `ESC`, ends in plain text.
proof fn lemma_reset_scan(acc: (Seq<char>, nat))
    requires
        acc.1 == 0 || acc.1 == 1,
    ensures
        vis_scan(reset_seq(), acc) == (acc.0, 0nat),
{
    let r = reset_seq();
    assert(r == seq![ESC] + (seq!['['] + (seq!['0'] + seq!['m'])));
    lemma_vis_scan_cons(ESC, seq!['['] + (seq!['0'] + seq!['m']), acc);
    let a1 = vis_step(acc, ESC);
    lemma_vis_scan_cons('[', seq!['0'] + seq!['m'], a1);
    let a2 = vis_step(a1, '[');
    lemma_vis_scan_cons('0', seq!['m'], a2);
    let a3 = vis_step(a2, '0');
    lemma_vis_scan_one('m', a3);
    assert(is_ascii_alpha('m'));
}

/// Dots read from plain text (or just after an `ESC`) all show.
proof fn lemma_dots_scan(m: nat, t: Seq<char>, st: nat)
    requires
        m <= 3,
        st == 0 || st == 1,
    ensures
        vis_scan(dots().take(m as int), (t, st)) == (t + dots().take(m as int), if m == 0 {
            st
        } else {
            0nat
        }),
    decreases m,
{
    if m == 0 {
        assert(dots().take(0) == Seq::<char>::empty());
        assert(t + Seq::<char>::empty() == t);
    } else {
        lemma_dots_scan((m - 1) as nat, t, st);
        let d = dots().take(m as int);
        assert(d.drop_last() == dots().take(m - 1));
        assert(d.last() == '.');
        assert((t + dots().take(m - 1)).push('.') == t + d);
    }
}

proof fn lemma_vis_trunc_text(s: Seq<char>, limit: nat, t: Seq<char>, st: nat, m: nat)
    requires
        t.len() <= limit,
        state_fits(st, s),
        m <= 3,
    ensures
        ({
            let rest = vis_scan(s, (seq![], st)).0;
            let out = vis_trunc_from(s, limit, t.len(), dots().take(m as int));
            &&& t.len() + rest.len() <= limit ==> out == s
            &&& t.len() + rest.len() > limit ==> vis_scan(out, (t, st)).0 == t + rest.take(
                limit - t.len(),
            ) + dots().take(m as int)
        }),
    decreases s.len(),
{
    let mark = dots().take(m as int);
    let rest = vis_scan(s, (seq![], st)).0;
    let out = vis_trunc_from(s, limit, t.len(), mark);
    if s.len() == 0 {
    } else if s[0] == ESC {
        let n = esc_token_len(s);
        lemma_esc_token_len_bound(s);
        let tok = s.take(n as int);
        let s2 = s.skip(n as int);
        assert(s == tok + s2);
        lemma_token_scan(s, (seq![], st));
        lemma_token_scan(s, (t, st));
        lemma_vis_scan_concat(tok, s2, (seq![], st));
        let st2 = token_state(s);
        assert(rest == vis_scan(s2, (seq![], st2)).0);
        lemma_vis_trunc_text(s2, limit, t, st2, m);
        assert(out == tok + vis_trunc_from(s2, limit, t.len(), mark));
        lemma_vis_scan_concat(tok, vis_trunc_from(s2, limit, t.len(), mark), (t, st));
    } else {
        let c = s[0];
        let s2 = s.skip(1);
        assert(s == seq![c] + s2);
        lemma_vis_scan_cons(c, s2, (seq![], st));
        assert(vis_step((seq![], st), c) == (seq![c], 0nat));
        lemma_vis_scan_prefix(s2, seq![c], 0);
        let rest2 = vis_scan(s2, (seq![], 0)).0;
        assert(rest == seq![c] + rest2);
        if t.len() >= limit {
            assert(out == mark + reset_seq());
            lemma_vis_scan_concat(mark, reset_seq(), (t, st));
            lemma_dots_scan(m, t, st);
            let after = vis_scan(mark, (t, st));
            lemma_reset_scan(after);
            assert(t + mark == t + rest.take(0) + mark);
        } else {
            let t2 = t.push(c);
            lemma_vis_trunc_text(s2, limit, t2, 0, m);
            assert(out == seq![c] + vis_trunc_from(s2, limit, t2.len(), mark));
            lemma_vis_scan_cons(c, vis_trunc_from(s2, limit, t2.len(), mark), (t, st));
            assert(vis_step((t, st), c) == (t2, 0nat));
            if t.len() + rest.len() > limit {
                assert(rest.take(limit - t.len()) == seq![c] + rest2.take(limit - t2.len()));
                assert(t2 + rest2.take(limit - t2.len()) == t + rest.take(limit - t.len()));
            }
        }
    }
}

/// `visible_truncate(s, max)` keeps `s` as it is when `s` shows at most
/// `max - 3` characters (none when `max < 3`); otherwise it shows the
/// first `max - 3` characters of `s` and then the ellipsis (`...`, or
/// `max` dots below 3). Either way it never shows more than `max`
/// characters. Escape sequences are copied whole and not counted.
pub proof fn law_visible_truncate(s: Seq<char>, max: nat)
    ensures
        visible_width(s) <= vis_limit(max) ==> vis_trunc_from(s, vis_limit(max), 0, ellipsis(max))
            == s,
        visible_width(s) > vis_limit(max) ==> visible_text(
            vis_trunc_from(s, vis_limit(max), 0, ellipsis(max)),
        ) == visible_text(s).take(vis_limit(max) as int) + ellipsis(max),
        visible_width(vis_trunc_from(s, vis_limit(max), 0, ellipsis(max))) <= max,
{
    let limit = vis_limit(max);
    let m: nat = if max >= 3 {
        3
    } else {
        max
    };
    assert(dots().take(3) == dots());
    assert(ellipsis(max) == dots().take(m as int));
    lemma_vis_trunc_text(s, limit, seq![], 0, m);
    let rest = visible_text(s);
    let e = ellipsis(max);
    assert(Seq::<char>::empty() + rest.take(limit as int) + e == rest.take(limit as int) + e);
}

/// How many lines `wrap_ansi` still makes: `shown` visible characters
/// at `max` per line, or a single line of escape codes alone when there
/// is text but nothing visible.
pub open spec fn lines_needed(shown: nat, any_text: bool, max: nat) -> nat {
    if shown == 0 {
        if any_text {
            1
        } else {
            0
        }
    } else {
        ((shown + max - 1) / (max as int)) as nat
    }
}

proof fn lemma_wrap_from_count(
    s: Seq<char>,
    max: nat,
    lines: Seq<Seq<char>>,
    cur: Seq<char>,
    cur_vis: nat,
    active: Seq<char>,
)
    requires
        max > 0,
        cur_vis <= max,
        line_state_ok(cur, cur_vis, s),
        vis_scan(active, (seq![], 0)) == (Seq::<char>::empty(), 0nat),
    ensures
        wrap_from(s, max, lines, cur, cur_vis, active).len() == lines.len() + lines_needed(
            cur_vis + vis_scan(s, (seq![], vis_scan(cur, (seq![], 0)).1)).0.len(),
            cur.len() > 0 || s.len() > 0,
            max,
        ),
    decreases s.len(),
{
    let out = wrap_from(s, max, lines, cur, cur_vis, active);
    let acc = vis_scan(cur, (seq![], 0));
    let st = acc.1;
    let r = vis_scan(s, (seq![], st)).0.len();
    if s.len() == 0 {
        assert(r == 0);
        if cur.len() == 0 {
            assert(vis_scan(cur, (seq![], 0)) == (Seq::<char>::empty(), 0nat));
        } else if cur_vis > 0 {
            assert((cur_vis + max - 1) / (max as int) == 1) by (nonlinear_arith)
                requires
                    1 <= cur_vis <= max,
            ;
        }
    } else if s[0] == ESC {
        let n = esc_token_len(s);
        lemma_esc_token_len_bound(s);
        let tok = s.take(n as int);
        let s2 = s.skip(n as int);
        assert(s == tok + s2);
        lemma_token_scan(s, acc);
        lemma_token_scan(s, (seq![], st));
        lemma_vis_scan_concat(cur, tok, (seq![], 0));
        lemma_vis_scan_concat(tok, s2, (seq![], st));
        let act2 = next_active(active, tok);
        if tok.len() > 0 && tok.last() == 'm' && !sgr_is_reset(tok) {
            lemma_vis_scan_concat(active, tok, (seq![], 0));
            lemma_token_scan(s, (seq![], 0));
        }
        lemma_wrap_from_count(s2, max, lines, cur + tok, cur_vis, act2);
        assert(out == wrap_from(s2, max, lines, cur + tok, cur_vis, act2));
        assert((cur + tok).len() > 0);
    } else {
        let c = s[0];
        let s2 = s.skip(1);
        assert(s == seq![c] + s2);
        lemma_vis_scan_cons(c, s2, (seq![], st));
        assert(vis_step((seq![], st), c) == (seq![c], 0nat));
        lemma_vis_scan_prefix(s2, seq![c], 0);
        let r2 = vis_scan(s2, (seq![], 0)).0.len();
        assert(r == 1 + r2);
        if cur_vis >= max {
            let l2 = lines.push(close_line(cur));
            lemma_vis_scan_concat(active, seq![c], (seq![], 0));
            lemma_vis_scan_one(c, (seq![], 0));
            assert(active + seq![c] == active.push(c));
            lemma_wrap_from_count(s2, max, l2, active.push(c), 1, active);
            assert(out == wrap_from(s2, max, l2, active.push(c), 1, active));
            assert((max + r + max - 1) / (max as int) == (r + max - 1) / (max as int) + 1) by (nonlinear_arith)
                requires
                    max > 0,
                    r >= 1,
            ;
        } else {
            lemma_vis_scan_concat(cur, seq![c], (seq![], 0));
            lemma_vis_scan_one(c, acc);
            assert(cur + seq![c] == cur.push(c));
            lemma_wrap_from_count(s2, max, lines, cur.push(c), cur_vis + 1, active);
            assert(out == wrap_from(s2, max, lines, cur.push(c), cur_vis + 1, active));
        }
    }
}

/// `wrap_ansi(s, max)` makes as many lines as the visible characters of
/// `s` fill at `max` per line (rounded up), so the last line is never
/// empty of text; text made of escape codes alone makes one line, and
/// empty text none.
pub proof fn law_wrapped_line_count(s: Seq<char>, max: nat)
    requires
        max > 0,
    ensures
        wrapped(s, max).len() == lines_needed(visible_width(s), s.len() > 0, max),
        visible_width(s) > 0 ==> visible_width(wrapped(s, max).last()) > 0,
{
    assert(vis_scan(Seq::<char>::empty(), (seq![], 0)) == (Seq::<char>::empty(), 0nat));
    lemma_wrap_from_count(s, max, seq![], seq![], 0, seq![]);
    let w = visible_width(s);
    if w > 0 {
        let out = wrapped(s, max);
        law_wrapped_widths(s, max);
        law_wrapped_keeps_text(s, max);
        let k = out.len();
        assert(k == (w + max - 1) / (max as int));
        if visible_width(out.last()) == 0 {
            lemma_lines_text_len(out);
            assert(out.drop_last().len() == k - 1);
            assert forall|i: int| 0 <= i < out.drop_last().len() implies visible_width(
                #[trigger] out.drop_last()[i],
            ) == max by {
                assert(out.drop_last()[i] == out[i]);
            }
            lemma_total_of_full(out.drop_last(), max);
            assert(lines_text(out).len() == lines_text(out.drop_last()).len() + 0);
            assert((k - 1) * max < w) by (nonlinear_arith)
                requires
                    k == (w + max - 1) / (max as int),
                    max > 0,
                    w > 0,
            ;
        }
    }
}

proof fn lemma_lines_text_len(lines: Seq<Seq<char>>)
    requires
        lines.len() > 0,
    ensures
        lines_text(lines).len() == lines_text(lines.drop_last()).len() + visible_width(
            lines.last(),
        ),
{
}

proof fn lemma_total_of_full(lines: Seq<Seq<char>>, max: nat)
    requires
        forall|i: int| 0 <= i < lines.len() ==> visible_width(#[trigger] lines[i]) == max,
    ensures
        lines_text(lines).len() == lines.len() * max,
    decreases lines.len(),
{
    if lines.len() > 0 {
        let init = lines.drop_last();
        assert forall|i: int| 0 <= i < init.len() implies visible_width(#[trigger] init[i]) == max by {
            assert(init[i] == lines[i]);
        }
        lemma_total_of_full(init, max);
        assert(visible_width(lines[lines.len() - 1]) == max);
        assert((init.len() + 1) * max == init.len() * max + max) by (nonlinear_arith);
    }
}

} // verus!
