//! The `patch` subcommand's decisions: the edit operations read from the
//! arguments, and the guards that run before anything is written.

use vstd::prelude::*;

use crate::cmd::{
    hex_bytes, num_arg, parse_hex_bytes, parse_num, parse_num_msg, parse_u32_hex, u32_hex_outcome,
};
use crate::textutil::{push_str_chars, string_of, trim};

verus! {

/// One edit of a ROM image.
#[derive(Debug)]
pub enum PatchOp {
    /// Set register slot `reg` of the strap at `clock_mhz`.
    SetStrap { clock_mhz: u32, reg: u32, value: u32 },
    /// Set the MC register at `reg_offset` in every strap block.
    SetStrapReg { reg_offset: u32, value: u32 },
    /// Tag the strap at `clock_mhz` with another clock.
    RetagStrap { clock_mhz: u32, new_clock_mhz: u32 },
    PpSclk { level: u32, mhz: u32 },
    PpMclk { level: u32, mhz: u32 },
    PpVddc { index: u32, mv: u32 },
    PpTdp { watts: u32 },
    /// Write raw bytes at a file offset.
    Hex { offset: usize, bytes: Vec<u8> },
}

/// An edit as plain values: its kind (in argument order), its numbers
/// and its bytes.
pub type OpV = (nat, Seq<int>, Seq<u8>);

pub open spec fn op_view(op: PatchOp) -> OpV {
    match op {
        PatchOp::SetStrap { clock_mhz, reg, value } => (
            0,
            seq![clock_mhz as int, reg as int, value as int],
            seq![],
        ),
        PatchOp::SetStrapReg { reg_offset, value } => (
            1,
            seq![reg_offset as int, value as int],
            seq![],
        ),
        PatchOp::RetagStrap { clock_mhz, new_clock_mhz } => (
            2,
            seq![clock_mhz as int, new_clock_mhz as int],
            seq![],
        ),
        PatchOp::PpSclk { level, mhz } => (3, seq![level as int, mhz as int], seq![]),
        PatchOp::PpMclk { level, mhz } => (4, seq![level as int, mhz as int], seq![]),
        PatchOp::PpVddc { index, mv } => (5, seq![index as int, mv as int], seq![]),
        PatchOp::PpTdp { watts } => (6, seq![watts as int], seq![]),
        PatchOp::Hex { offset, bytes } => (7, seq![offset as int], bytes@),
    }
}

/// A decimal (or `0x`-prefixed) `u32` argument, or its error.
pub open spec fn num_res(s: Seq<char>, what: Seq<char>) -> Result<int, Seq<char>> {
    match num_arg(s, u32::MAX as int) {
        Some(v) => Ok(v),
        None => Err(parse_num_msg(trim(s), what)),
    }
}

/// A hexadecimal `u32` argument, or its error.
pub open spec fn hex_res(s: Seq<char>, what: Seq<char>) -> Result<int, Seq<char>> {
    match u32_hex_outcome(s, what) {
        Ok(v) => Ok(v as int),
        Err(e) => Err(e),
    }
}

/// Two arguments read in order: the first error, or both values.
pub open spec fn both(x: Result<int, Seq<char>>, y: Result<int, Seq<char>>) -> Result<
    Seq<int>,
    Seq<char>,
> {
    match x {
        Err(e) => Err(e),
        Ok(u) => match y {
            Err(e) => Err(e),
            Ok(v) => Ok(seq![u, v]),
        },
    }
}

/// The edit of one argument group of kind `kind` (0 `--set-strap`,
/// 1 `--set-strap-reg`, 2 `--retag-strap`, 3 `--pp-sclk`, 4 `--pp-mclk`,
/// 5 `--pp-vddc`, 6 `--pp-tdp`, 7 `--hex`), or the first error.
pub open spec fn op_result(kind: nat, g: Seq<Seq<char>>) -> Result<OpV, Seq<char>> {
    if kind == 0 {
        match both(num_res(g[0], "clock (MHz)"@), num_res(g[1], "register index"@)) {
            Err(e) => Err(e),
            Ok(p) => match hex_res(g[2], "--set-strap"@) {
                Err(e) => Err(e),
                Ok(v) => Ok((0nat, p.push(v), seq![])),
            },
        }
    } else if kind == 1 {
        match both(hex_res(g[0], "--set-strap-reg"@), hex_res(g[1], "--set-strap-reg"@)) {
            Err(e) => Err(e),
            Ok(p) => Ok((1nat, p, seq![])),
        }
    } else if kind == 2 {
        match both(num_res(g[0], "clock (MHz)"@), num_res(g[1], "new clock (MHz)"@)) {
            Err(e) => Err(e),
            Ok(p) => Ok((2nat, p, seq![])),
        }
    } else if kind == 3 {
        match both(num_res(g[0], "SCLK level"@), num_res(g[1], "clock (MHz)"@)) {
            Err(e) => Err(e),
            Ok(p) => Ok((3nat, p, seq![])),
        }
    } else if kind == 4 {
        match both(num_res(g[0], "MCLK level"@), num_res(g[1], "clock (MHz)"@)) {
            Err(e) => Err(e),
            Ok(p) => Ok((4nat, p, seq![])),
        }
    } else if kind == 5 {
        match both(num_res(g[0], "LUT index"@), num_res(g[1], "voltage (mV)"@)) {
            Err(e) => Err(e),
            Ok(p) => Ok((5nat, p, seq![])),
        }
    } else if kind == 6 {
        match num_res(g[0], "TDP (W)"@) {
            Err(e) => Err(e),
            Ok(w) => Ok((6nat, seq![w], seq![])),
        }
    } else {
        match hex_bytes(g[1], "--hex"@) {
            Err(e) => Err(e),
            Ok(bytes) => if bytes.len() == 0 {
                Err("--hex needs at least one byte"@)
            } else {
                match hex_res(g[0], "--hex offset"@) {
                    Err(e) => Err(e),
                    Ok(o) => Ok((7nat, seq![o], bytes)),
                }
            },
        }
    }
}

/// The argument groups of `args` taken `n` at a time (a short rest is
/// dropped), tagged with `kind`.
pub open spec fn groups(args: Seq<Seq<char>>, n: nat, kind: nat) -> Seq<(nat, Seq<Seq<char>>)>
    recommends
        n > 0,
{
    Seq::new(args.len() / n, |k: int| (kind, args.subrange(k * n, k * n + n)))
}

/// The edits of the groups, in order, or the first error.
pub open spec fn ops_of(reqs: Seq<(nat, Seq<Seq<char>>)>) -> Result<Seq<OpV>, Seq<char>>
    decreases reqs.len(),
{
    if reqs.len() == 0 {
        Ok(seq![])
    } else {
        match ops_of(reqs.drop_last()) {
            Err(e) => Err(e),
            Ok(ops) => match op_result(reqs.last().0, reqs.last().1) {
                Err(e) => Err(e),
                Ok(op) => Ok(ops.push(op)),
            },
        }
    }
}

/// The patch arguments as argument groups, in the order they are read.
pub open spec fn patch_requests(
    set_strap: Seq<Seq<char>>,
    set_strap_reg: Seq<Seq<char>>,
    retag_strap: Seq<Seq<char>>,
    pp_sclk: Seq<Seq<char>>,
    pp_mclk: Seq<Seq<char>>,
    pp_vddc: Seq<Seq<char>>,
    pp_tdp: Seq<Seq<char>>,
    hex: Seq<Seq<char>>,
) -> Seq<(nat, Seq<Seq<char>>)> {
    groups(set_strap, 3, 0) + groups(set_strap_reg, 2, 1) + groups(retag_strap, 2, 2) + groups(
        pp_sclk,
        2,
        3,
    ) + groups(pp_mclk, 2, 4) + groups(pp_vddc, 2, 5) + groups(pp_tdp, 1, 6) + groups(hex, 2, 7)
}

fn num_u32(s: &str, what: &str) -> (r: Result<u32, String>)
    ensures
        match r {
            Ok(v) => num_res(s@, what@) == Ok::<int, Seq<char>>(v as int),
            Err(e) => num_res(s@, what@) == Err::<int, Seq<char>>(e@),
        },
{
    parse_num::<u32>(s, what)
}

fn hex_u32(s: &str, what: &str) -> (r: Result<u32, String>)
    ensures
        match r {
            Ok(v) => hex_res(s@, what@) == Ok::<int, Seq<char>>(v as int),
            Err(e) => hex_res(s@, what@) == Err::<int, Seq<char>>(e@),
        },
{
    parse_u32_hex(s, what)
}

fn text(s: &str) -> (r: String)
    ensures
        r@ == s@,
{
    let mut v: Vec<char> = Vec::new();
    push_str_chars(&mut v, s);
    string_of(&v)
}

/// Reads one argument group of kind `kind`.
fn read_op(kind: usize, g: &[String]) -> (r: Result<PatchOp, String>)
    requires
        kind < 8,
        g@.len() == if kind == 0 {
            3int
        } else if kind == 6 {
            1int
        } else {
            2int
        },
    ensures
        match r {
            Ok(op) => op_result(kind as nat, crate::textutil::views(g@)) == Ok::<OpV, Seq<char>>(
                op_view(op),
            ),
            Err(e) => op_result(kind as nat, crate::textutil::views(g@)) == Err::<OpV, Seq<char>>(
                e@,
            ),
        },
{
    let ghost gv = crate::textutil::views(g@);
    assert(forall|k: int| 0 <= k < g@.len() ==> gv[k] == (#[trigger] g@[k])@);
    if kind == 0 {
        let c = num_u32(g[0].as_str(), "clock (MHz)")?;
        let r = num_u32(g[1].as_str(), "register index")?;
        let v = hex_u32(g[2].as_str(), "--set-strap")?;
        assert(seq![c as int, r as int].push(v as int) =~= seq![c as int, r as int, v as int]);
        Ok(PatchOp::SetStrap { clock_mhz: c, reg: r, value: v })
    } else if kind == 1 {
        let o = hex_u32(g[0].as_str(), "--set-strap-reg")?;
        let v = hex_u32(g[1].as_str(), "--set-strap-reg")?;
        Ok(PatchOp::SetStrapReg { reg_offset: o, value: v })
    } else if kind == 2 {
        let c = num_u32(g[0].as_str(), "clock (MHz)")?;
        let n = num_u32(g[1].as_str(), "new clock (MHz)")?;
        Ok(PatchOp::RetagStrap { clock_mhz: c, new_clock_mhz: n })
    } else if kind == 3 {
        let l = num_u32(g[0].as_str(), "SCLK level")?;
        let m = num_u32(g[1].as_str(), "clock (MHz)")?;
        Ok(PatchOp::PpSclk { level: l, mhz: m })
    } else if kind == 4 {
        let l = num_u32(g[0].as_str(), "MCLK level")?;
        let m = num_u32(g[1].as_str(), "clock (MHz)")?;
        Ok(PatchOp::PpMclk { level: l, mhz: m })
    } else if kind == 5 {
        let i = num_u32(g[0].as_str(), "LUT index")?;
        let m = num_u32(g[1].as_str(), "voltage (mV)")?;
        Ok(PatchOp::PpVddc { index: i, mv: m })
    } else if kind == 6 {
        let w = num_u32(g[0].as_str(), "TDP (W)")?;
        Ok(PatchOp::PpTdp { watts: w })
    } else {
        let bytes = parse_hex_bytes(g[1].as_str(), "--hex")?;
        if bytes.len() == 0 {
            return Err(text("--hex needs at least one byte"));
        }
        let o = hex_u32(g[0].as_str(), "--hex offset")?;
        Ok(PatchOp::Hex { offset: o as usize, bytes })
    }
}

/// The arguments `args[from..from + n]`.
fn take_group(args: &Vec<String>, from: usize, n: usize) -> (r: Vec<String>)
    requires
        from + n <= args@.len(),
    ensures
        r@.len() == n,
        crate::textutil::views(r@) == crate::textutil::views(args@).subrange(
            from as int,
            from + n,
        ),
{
    let len = args.len();
    let mut g: Vec<String> = Vec::new();
    let mut m: usize = 0;
    while m < n
        invariant
            m <= n,
            len == args@.len(),
            from + n <= len,
            g@.len() == m,
            forall|t: int| 0 <= t < m ==> #[trigger] g@[t]@ == args@[from + t]@,
        decreases n - m,
    {
        g.push(args[from + m].clone());
        m = m + 1;
    }
    assert(crate::textutil::views(g@) =~= crate::textutil::views(args@).subrange(
        from as int,
        from + n,
    ));
    g
}

/// Appends the edits of the groups of `args` (`n` arguments each, kind
/// `kind`) to `ops`, or stops at the first error.
fn read_groups(
    ops: &mut Vec<PatchOp>,
    args: &Vec<String>,
    n: usize,
    kind: usize,
    Ghost(before): Ghost<Seq<(nat, Seq<Seq<char>>)>>,
) -> (r: Result<(), String>)
    requires
        kind < 8,
        n == if kind == 0 {
            3int
        } else if kind == 6 {
            1int
        } else {
            2int
        },
        ops_of(before) == Ok::<Seq<OpV>, Seq<char>>(old(ops)@.map_values(|o: PatchOp| op_view(o))),
    ensures
        match r {
            Ok(_) => ops_of(before + groups(crate::textutil::views(args@), n as nat, kind as nat))
                == Ok::<Seq<OpV>, Seq<char>>(final(ops)@.map_values(|o: PatchOp| op_view(o))),
            Err(e) => ops_of(before + groups(crate::textutil::views(args@), n as nat, kind as nat))
                == Err::<Seq<OpV>, Seq<char>>(e@),
        },
{
    let ghost av = crate::textutil::views(args@);
    let ghost gs = groups(av, n as nat, kind as nat);
    let total = args.len();
    let count = total / n;
    assert(gs.len() == count);
    let mut k: usize = 0;
    while k < count
        invariant
            kind < 8,
            n == if kind == 0 {
                3int
            } else if kind == 6 {
                1int
            } else {
                2int
            },
            total == args@.len(),
            count == args@.len() / (n as nat),
            av == crate::textutil::views(args@),
            gs == groups(av, n as nat, kind as nat),
            gs.len() == count,
            k <= count,
            ops_of(before + gs.take(k as int)) == Ok::<Seq<OpV>, Seq<char>>(
                ops@.map_values(|o: PatchOp| op_view(o)),
            ),
        decreases count - k,
    {
        assert(k * n + n <= count * n) by (nonlinear_arith)
            requires
                k < count,
                n > 0,
        ;
        assert(count * n <= total) by (nonlinear_arith)
            requires
                count == total / n,
                n > 0,
        ;
        let g = take_group(args, k * n, n);
        assert(crate::textutil::views(g@) =~= gs[k as int].1);
        let ghost pre = before + gs.take(k as int);
        assert((before + gs.take(k + 1)).drop_last() =~= pre);
        assert((before + gs.take(k + 1)).last() == gs[k as int]);
        match read_op(kind, g.as_slice()) {
            Ok(op) => {
                let ghost old_ops = ops@;
                ops.push(op);
                assert(ops@.map_values(|o: PatchOp| op_view(o)) =~= old_ops.map_values(
                    |o: PatchOp| op_view(o),
                ).push(op_view(op)));
            },
            Err(e) => {
                proof {
                    assert(before + gs.take(k + 1) =~= (before + gs).take(before.len() + k + 1));
                    lemma_ops_of_err(before + gs.take(k + 1), before + gs, e@);
                }
                return Err(e);
            },
        }
        k = k + 1;
    }
    assert(gs.take(count as int) =~= gs);
    Ok(())
}

/// Once the groups read so far fail, reading more keeps the first error.
proof fn lemma_ops_of_err(p: Seq<(nat, Seq<Seq<char>>)>, q: Seq<(nat, Seq<Seq<char>>)>, e: Seq<char>)
    requires
        p.len() <= q.len(),
        p == q.take(p.len() as int),
        ops_of(p) == Err::<Seq<OpV>, Seq<char>>(e),
    ensures
        ops_of(q) == Err::<Seq<OpV>, Seq<char>>(e),
    decreases q.len() - p.len(),
{
    if p.len() < q.len() {
        let p1 = q.take(p.len() + 1int);
        assert(p1.drop_last() =~= p);
        lemma_ops_of_err(p1, q, e);
    } else {
        assert(p =~= q);
    }
}

/// Reads every `--set-strap`, `--set-strap-reg`, `--retag-strap`,
/// `--pp-*` and `--hex` argument into edits, in that order, each group
/// of arguments read in order; the first argument that cannot be read
/// ends the reading with its error.
pub fn build_ops(
    set_strap: &Vec<String>,
    set_strap_reg: &Vec<String>,
    retag_strap: &Vec<String>,
    pp_sclk: &Vec<String>,
    pp_mclk: &Vec<String>,
    pp_vddc: &Vec<String>,
    pp_tdp: &Vec<String>,
    hex: &Vec<String>,
) -> (r: Result<Vec<PatchOp>, String>)
    ensures
        ({
            let reqs = patch_requests(
                crate::textutil::views(set_strap@),
                crate::textutil::views(set_strap_reg@),
                crate::textutil::views(retag_strap@),
                crate::textutil::views(pp_sclk@),
                crate::textutil::views(pp_mclk@),
                crate::textutil::views(pp_vddc@),
                crate::textutil::views(pp_tdp@),
                crate::textutil::views(hex@),
            );
            match r {
                Ok(ops) => ops_of(reqs) == Ok::<Seq<OpV>, Seq<char>>(
                    ops@.map_values(|o: PatchOp| op_view(o)),
                ),
                Err(e) => ops_of(reqs) == Err::<Seq<OpV>, Seq<char>>(e@),
            }
        }),
{
    let ghost g0 = groups(crate::textutil::views(set_strap@), 3, 0);
    let ghost g1 = g0 + groups(crate::textutil::views(set_strap_reg@), 2, 1);
    let ghost g2 = g1 + groups(crate::textutil::views(retag_strap@), 2, 2);
    let ghost g3 = g2 + groups(crate::textutil::views(pp_sclk@), 2, 3);
    let ghost g4 = g3 + groups(crate::textutil::views(pp_mclk@), 2, 4);
    let ghost g5 = g4 + groups(crate::textutil::views(pp_vddc@), 2, 5);
    let ghost g6 = g5 + groups(crate::textutil::views(pp_tdp@), 1, 6);
    let mut ops: Vec<PatchOp> = Vec::new();
    assert(ops@.map_values(|o: PatchOp| op_view(o)) =~= Seq::<OpV>::empty());
    assert(Seq::<(nat, Seq<Seq<char>>)>::empty() + g0 =~= g0);
    let ghost reqs = patch_requests(
        crate::textutil::views(set_strap@),
        crate::textutil::views(set_strap_reg@),
        crate::textutil::views(retag_strap@),
        crate::textutil::views(pp_sclk@),
        crate::textutil::views(pp_mclk@),
        crate::textutil::views(pp_vddc@),
        crate::textutil::views(pp_tdp@),
        crate::textutil::views(hex@),
    );
    let ghost g7 = reqs;
    assert(g7.take(g0.len() as int) =~= g0);
    assert(g7.take(g1.len() as int) =~= g1);
    assert(g7.take(g2.len() as int) =~= g2);
    assert(g7.take(g3.len() as int) =~= g3);
    assert(g7.take(g4.len() as int) =~= g4);
    assert(g7.take(g5.len() as int) =~= g5);
    assert(g7.take(g6.len() as int) =~= g6);
    if let Err(e) = read_groups(&mut ops, set_strap, 3, 0, Ghost(Seq::empty())) {
        proof {
            lemma_ops_of_err(g0, g7, e@);
        }
        return Err(e);
    }
    if let Err(e) = read_groups(&mut ops, set_strap_reg, 2, 1, Ghost(g0)) {
        proof {
            lemma_ops_of_err(g1, g7, e@);
        }
        return Err(e);
    }
    if let Err(e) = read_groups(&mut ops, retag_strap, 2, 2, Ghost(g1)) {
        proof {
            lemma_ops_of_err(g2, g7, e@);
        }
        return Err(e);
    }
    if let Err(e) = read_groups(&mut ops, pp_sclk, 2, 3, Ghost(g2)) {
        proof {
            lemma_ops_of_err(g3, g7, e@);
        }
        return Err(e);
    }
    if let Err(e) = read_groups(&mut ops, pp_mclk, 2, 4, Ghost(g3)) {
        proof {
            lemma_ops_of_err(g4, g7, e@);
        }
        return Err(e);
    }
    if let Err(e) = read_groups(&mut ops, pp_vddc, 2, 5, Ghost(g4)) {
        proof {
            lemma_ops_of_err(g5, g7, e@);
        }
        return Err(e);
    }
    if let Err(e) = read_groups(&mut ops, pp_tdp, 1, 6, Ghost(g5)) {
        proof {
            lemma_ops_of_err(g6, g7, e@);
        }
        return Err(e);
    }
    if let Err(e) = read_groups(&mut ops, hex, 2, 7, Ghost(g6)) {
        return Err(e);
    }
    Ok(ops)
}

/// The message when the patch has nothing to do.
pub open spec fn nothing_to_do_msg() -> Seq<char> {
    "nothing to do - add an edit (--set-strap, --pp-*, --hex...) or --fix-checksum"@
}

/// The message when the output names the source ROM.
pub open spec fn in_place_msg() -> Seq<char> {
    "--out must be a different file than the source ROM (never patch in place)"@
}

/// The message when the input's checksum is invalid and no repair was
/// asked for.
pub open spec fn corrupt_input_msg() -> Seq<char> {
    "input ROM checksum is invalid - refusing to patch a corrupt image (run with --fix-checksum to repair it)"@
}

/// The guards before the ROM is read: there must be an edit or a
/// checksum repair to do, and the output must be another file than the
/// source (`same_file`: the two paths name one file).
pub fn patch_precheck(n_ops: usize, fix_checksum: bool, same_file: bool) -> (r: Result<(), String>)
    ensures
        match r {
            Ok(_) => !(n_ops == 0 && !fix_checksum) && !same_file,
            Err(e) => if n_ops == 0 && !fix_checksum {
                e@ == nothing_to_do_msg()
            } else {
                same_file && e@ == in_place_msg()
            },
        },
{
    if n_ops == 0 && !fix_checksum {
        return Err(text(
            "nothing to do - add an edit (--set-strap, --pp-*, --hex...) or --fix-checksum",
        ));
    }
    if same_file {
        return Err(text("--out must be a different file than the source ROM (never patch in place)"));
    }
    Ok(())
}

/// The guard on the input's checksum: a corrupt image is refused unless
/// a repair was asked for; then `Ok(true)` says the checksum is repaired
/// before the edits are applied.
pub fn checksum_gate(input_valid: bool, fix_checksum: bool) -> (r: Result<bool, String>)
    ensures
        match r {
            Ok(repair_first) => (input_valid || fix_checksum) && repair_first == !input_valid,
            Err(e) => !input_valid && !fix_checksum && e@ == corrupt_input_msg(),
        },
{
    if !input_valid && !fix_checksum {
        return Err(text(
            "input ROM checksum is invalid - refusing to patch a corrupt image (run with --fix-checksum to repair it)",
        ));
    }
    Ok(!input_valid)
}

} // verus!
