//! `decode-strap` subcommand: the register-index list of a pasted
//! memory strap.

use vstd::prelude::*;

use crate::cmd::{parse_u32_hex, skip_hex_prefix, strip_hex_prefix, u32_hex_arg, u32_hex_msg};
use crate::num::{dec, hex, is_digit, lemma_radix_str_value, parse_uint, parse_uint_range, push_dec};
use crate::textutil::{
    chars_of, joined, lemma_split_joined, piece_at, pieces_at, push_range, push_str_chars,
    split_bounds, split_on, string_of, trim, views, Sep,
};

verus! {

/// The message of a register index that `parse_indices` cannot read.
pub open spec fn index_msg(t: Seq<char>) -> Seq<char> {
    "cannot parse '"@ + t + "' as a hex register index"@
}

/// Reading the first `k` pieces of an index list: empty pieces are
/// skipped, the first piece that is no hex `u16` is an error.
pub open spec fn indices_prefix(parts: Seq<Seq<char>>, k: nat) -> Result<Seq<u16>, Seq<char>>
    decreases k,
{
    if k == 0 || k > parts.len() {
        Ok(seq![])
    } else {
        match indices_prefix(parts, (k - 1) as nat) {
            Err(e) => Err(e),
            Ok(l) => {
                let t = parts[k - 1];
                if t.len() == 0 {
                    Ok(l)
                } else {
                    match parse_uint(strip_hex_prefix(t), 16, u16::MAX as int) {
                        Some(x) => Ok(l.push(x as u16)),
                        None => Err(index_msg(t)),
                    }
                }
            },
        }
    }
}

/// What `parse_indices` makes of `s`: its pieces between commas and
/// whitespace, each a hex register index with an optional `0x`.
pub open spec fn index_list(s: Seq<char>) -> Result<Seq<u16>, Seq<char>> {
    let parts = split_on(s, Sep::CommaOrSpace);
    indices_prefix(parts, parts.len())
}

proof fn lemma_indices_err(parts: Seq<Seq<char>>, k: nat, n: nat)
    requires
        k <= n <= parts.len(),
        indices_prefix(parts, k) is Err,
    ensures
        indices_prefix(parts, n) == indices_prefix(parts, k),
    decreases n - k,
{
    if n > k {
        lemma_indices_err(parts, k, (n - 1) as nat);
    }
}

/// Parses a comma/space-separated list of hex register indices.
pub fn parse_indices(s: &str) -> (r: Result<Vec<u16>, String>)
    ensures
        match r {
            Ok(v) => index_list(s@) == Ok::<Seq<u16>, Seq<char>>(v@),
            Err(e) => index_list(s@) == Err::<Seq<u16>, Seq<char>>(e@),
        },
{
    let cs = chars_of(s);
    let bounds = split_bounds(&cs, &Sep::CommaOrSpace);
    let ghost parts = split_on(s@, Sep::CommaOrSpace);
    let mut out: Vec<u16> = Vec::new();
    let mut i: usize = 0;
    while i < bounds.len()
        invariant
            cs@ == s@,
            parts == split_on(s@, Sep::CommaOrSpace),
            i <= bounds@.len(),
            pieces_at(cs@, bounds@, parts),
            indices_prefix(parts, i as nat) == Ok::<Seq<u16>, Seq<char>>(out@),
        decreases bounds@.len() - i,
    {
        let (from, to) = bounds[i];
        assert(piece_at(cs@, bounds@[i as int], parts[i as int]));
        let ghost t = parts[i as int];
        assert(indices_prefix(parts, (i + 1) as nat) == match indices_prefix(parts, i as nat) {
            Err(e) => Err(e),
            Ok(l) => {
                if t.len() == 0 {
                    Ok(l)
                } else {
                    match parse_uint(strip_hex_prefix(t), 16, u16::MAX as int) {
                        Some(x) => Ok(l.push(x as u16)),
                        None => Err(index_msg(t)),
                    }
                }
            },
        });
        if from < to {
            let start = skip_hex_prefix(&cs, from, to);
            match parse_uint_range(&cs, start, to, 16, 0xffff) {
                Some(x) => {
                    out.push(x as u16);
                },
                None => {
                    proof {
                        lemma_indices_err(parts, (i + 1) as nat, parts.len());
                    }
                    let mut t_chars: Vec<char> = Vec::new();
                    push_range(&mut t_chars, &cs, from, to);
                    let mut msg = String::new();
                    msg.push_str("cannot parse '");
                    msg.push_str(string_of(&t_chars).as_str());
                    msg.push_str("' as a hex register index");
                    return Err(msg);
                },
            }
        }
        i = i + 1;
    }
    Ok(out)
}

/// Reading the first `k` pasted register values: each is a hex `u32`,
/// the first that is not is an error.
pub open spec fn values_prefix(vs: Seq<Seq<char>>, k: nat) -> Result<Seq<u32>, Seq<char>>
    decreases k,
{
    if k == 0 || k > vs.len() {
        Ok(seq![])
    } else {
        match values_prefix(vs, (k - 1) as nat) {
            Err(e) => Err(e),
            Ok(l) => match u32_hex_arg(vs[k - 1]) {
                Some(x) => Ok(l.push(x as u32)),
                None => Err(u32_hex_msg(trim(vs[k - 1]), "decode-strap"@)),
            },
        }
    }
}

proof fn lemma_values_err(vs: Seq<Seq<char>>, k: nat, n: nat)
    requires
        k <= n <= vs.len(),
        values_prefix(vs, k) is Err,
    ensures
        values_prefix(vs, n) == values_prefix(vs, k),
    decreases n - k,
{
    if n > k {
        lemma_values_err(vs, k, (n - 1) as nat);
    }
}

/// Parses the pasted register values of `decode-strap`, each a hex
/// `u32` with an optional `0x`.
pub fn parse_values(values: &[String]) -> (r: Result<Vec<u32>, String>)
    ensures
        match r {
            Ok(v) => values_prefix(views(values@), values@.len() as nat) == Ok::<Seq<u32>, Seq<char>>(
                v@,
            ),
            Err(e) => values_prefix(views(values@), values@.len() as nat) == Err::<
                Seq<u32>,
                Seq<char>,
            >(e@),
        },
{
    let ghost vs = views(values@);
    let mut out: Vec<u32> = Vec::new();
    let mut i: usize = 0;
    while i < values.len()
        invariant
            i <= values@.len(),
            vs == views(values@),
            values_prefix(vs, i as nat) == Ok::<Seq<u32>, Seq<char>>(out@),
        decreases values@.len() - i,
    {
        assert(vs[i as int] == values@[i as int]@);
        match parse_u32_hex(values[i].as_str(), "decode-strap") {
            Ok(x) => {
                out.push(x);
            },
            Err(e) => {
                proof {
                    lemma_values_err(vs, (i + 1) as nat, vs.len());
                }
                return Err(e);
            },
        }
        i = i + 1;
    }
    Ok(out)
}

/// The message of more register values than register slots.
pub open spec fn slots_msg(n_values: nat, n_slots: nat) -> Seq<char> {
    dec(n_values) + " register values but only "@ + dec(n_slots)
        + " register slots - give --indices with more slots or fewer values"@
}

/// Every pasted value needs a register slot to be decoded in.
pub fn check_slots(n_values: usize, n_slots: usize) -> (r: Result<(), String>)
    ensures
        match r {
            Ok(()) => n_values <= n_slots,
            Err(e) => n_values > n_slots && e@ == slots_msg(n_values as nat, n_slots as nat),
        },
{
    if n_values > n_slots {
        let mut out: Vec<char> = Vec::new();
        push_dec(&mut out, n_values as u64);
        push_str_chars(&mut out, " register values but only ");
        push_dec(&mut out, n_slots as u64);
        push_str_chars(&mut out, " register slots - give --indices with more slots or fewer values");
        Err(string_of(&out))
    } else {
        Ok(())
    }
}

/// The register indices `idx` written in hex (`{:X}`), one piece each.
pub open spec fn index_pieces(idx: Seq<u16>) -> Seq<Seq<char>> {
    idx.map_values(|x: u16| hex(x as nat))
}

proof fn lemma_index_piece(x: u16)
    ensures
        hex(x as nat).len() > 0,
        strip_hex_prefix(hex(x as nat)) == hex(x as nat),
        parse_uint(hex(x as nat), 16, u16::MAX as int) == Some(x as int),
        forall|i: int|
            0 <= i < hex(x as nat).len() ==> !Sep::CommaOrSpace.holds(#[trigger] hex(x as nat)[i]),
{
    let t = hex(x as nat);
    lemma_radix_str_value(x as nat, 16);
    crate::num::law_parse_render_roundtrip(x as nat, 16, u16::MAX as int);
    assert forall|i: int| 0 <= i < t.len() implies !Sep::CommaOrSpace.holds(#[trigger] t[i]) by {
        assert(is_digit(t[i], 16));
    }
    if t.len() >= 2 {
        assert(is_digit(t[1], 16));
    }
}

proof fn lemma_indices_ok(idx: Seq<u16>, k: nat)
    requires
        k <= idx.len(),
    ensures
        indices_prefix(index_pieces(idx), k) == Ok::<Seq<u16>, Seq<char>>(idx.take(k as int)),
    decreases k,
{
    if k > 0 {
        lemma_indices_ok(idx, (k - 1) as nat);
        let x = idx[k - 1];
        assert(index_pieces(idx)[k - 1] == hex(x as nat));
        lemma_index_piece(x);
        assert(idx.take(k - 1).push(x) == idx.take(k as int));
    } else {
        assert(idx.take(0) == Seq::<u16>::empty());
    }
}

/// Register indices written in hex (`{:X}`) and separated by spaces, or
/// by commas, read back as the same indices.
pub proof fn law_index_list_roundtrip(idx: Seq<u16>, d: char)
    requires
        d == ' ' || d == ',',
    ensures
        index_list(joined(index_pieces(idx), seq![d])) == Ok::<Seq<u16>, Seq<char>>(idx),
{
    let ps = index_pieces(idx);
    let text = joined(ps, seq![d]);
    if idx.len() == 0 {
        assert(text == Seq::<char>::empty());
        let parts = split_on(text, Sep::CommaOrSpace);
        assert(parts == seq![Seq::<char>::empty()]);
        assert(parts[0].len() == 0);
        assert(indices_prefix(parts, 0) == Ok::<Seq<u16>, Seq<char>>(Seq::<u16>::empty()));
        assert(indices_prefix(parts, 1) == Ok::<Seq<u16>, Seq<char>>(Seq::<u16>::empty()));
        assert(idx == Seq::<u16>::empty());
    } else {
        assert forall|k: int, i: int| 0 <= k < ps.len() && 0 <= i < ps[k].len() implies !Sep::CommaOrSpace.holds(
            #[trigger] ps[k][i],
        ) by {
            lemma_index_piece(idx[k]);
        }
        assert(Sep::CommaOrSpace.holds(d));
        lemma_split_joined(ps, d, Sep::CommaOrSpace);
        lemma_indices_ok(idx, idx.len());
        assert(idx.take(idx.len() as int) == idx);
        assert(ps.len() == idx.len());
    }
}

} // verus!
