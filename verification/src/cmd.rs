//! Shared helpers of the subcommands: exit codes and the parsers of
//! numeric command-line arguments.

pub mod check;
pub mod decode;
pub mod extract;
pub mod identify;
pub mod patch;
pub mod transplant;

use vstd::prelude::*;

use crate::num::{
    all_digits, digit_value, digits_value, hex, is_digit, zero_padded, lemma_radix_str_value, parse_uint, parse_uint_range, UnsignedNum,
};
use crate::textutil::{
    chars_of, joined, lemma_split_joined, piece_at, pieces_at, push_range, split_bounds, split_on,
    string_of, trim, trim_bounds, Sep,
};

verus! {

pub const EXIT_OK: u8 = 0;

pub const EXIT_ERROR: u8 = 1;

pub const EXIT_WARNINGS: u8 = 2;

/// The exit code of a run: an error wins over warnings, warnings over
/// success.
pub open spec fn exit_code_for(had_error: bool, had_warnings: bool) -> u8 {
    if had_error {
        EXIT_ERROR
    } else if had_warnings {
        EXIT_WARNINGS
    } else {
        EXIT_OK
    }
}

pub fn final_exit_code(had_error: bool, had_warnings: bool) -> (code: u8)
    ensures
        code == exit_code_for(had_error, had_warnings),
{
    if had_error {
        EXIT_ERROR
    } else if had_warnings {
        EXIT_WARNINGS
    } else {
        EXIT_OK
    }
}

/// The exit code of `compare` and `compare-all`: differing ROMs exit
/// like errors (a non-zero exit means "not identical"), identical ones
/// report their warnings.
pub open spec fn compare_exit_for(differs: bool, failed: bool, had_warnings: bool) -> u8 {
    if differs || failed {
        EXIT_ERROR
    } else {
        exit_code_for(false, had_warnings)
    }
}

/// Scriptable verdict of a comparison: `failed` is an error along the
/// way (a ROM that did not parse, output that could not be written).
pub fn compare_exit_code(differs: bool, failed: bool, had_warnings: bool) -> (code: u8)
    ensures
        code == compare_exit_for(differs, failed, had_warnings),
{
    if differs || failed {
        EXIT_ERROR
    } else {
        final_exit_code(false, had_warnings)
    }
}

/// A comparison that ran through exits 1 exactly when the ROMs differ;
/// identical ROMs exit 2 when they carry validation warnings, else 0.
pub proof fn law_compare_exit(differs: bool, had_warnings: bool)
    ensures
        (compare_exit_for(differs, false, had_warnings) == EXIT_ERROR) == differs,
        !differs ==> compare_exit_for(differs, false, had_warnings) == if had_warnings {
            EXIT_WARNINGS
        } else {
            EXIT_OK
        },
{
}

/// Some two neighbouring documents of `docs` differ.
pub open spec fn neighbours_differ(docs: Seq<Seq<char>>) -> bool {
    exists|k: int| 0 <= k < docs.len() - 1 && #[trigger] docs[k] != docs[k + 1]
}

/// Whether the serialized ROMs of a matrix comparison are not all the
/// same (some two neighbours differ).
pub fn documents_differ(docs: &[String]) -> (b: bool)
    ensures
        b == neighbours_differ(crate::textutil::views(docs@)),
{
    let ghost ds = crate::textutil::views(docs@);
    let mut k: usize = 1;
    while k < docs.len()
        invariant
            1 <= k,
            ds == crate::textutil::views(docs@),
            k <= docs@.len() || docs@.len() == 0,
            forall|m: int| 0 <= m < k - 1 && m < ds.len() - 1 ==> #[trigger] ds[m] == ds[m + 1],
        decreases docs@.len() - k,
    {
        assert(ds[k - 1] == docs@[k - 1]@ && ds[k as int] == docs@[k as int]@);
        if !crate::textutil::str_eq(docs[k - 1].as_str(), docs[k].as_str()) {
            assert(ds[k - 1] != ds[(k - 1) + 1]);
            return true;
        }
        k = k + 1;
    }
    false
}

/// `t` without one leading `0x` or `0X`.
pub open spec fn strip_hex_prefix(t: Seq<char>) -> Seq<char> {
    if t.len() >= 2 && t[0] == '0' && (t[1] == 'x' || t[1] == 'X') {
        t.skip(2)
    } else {
        t
    }
}

/// Start of `v[from..to]` once a leading `0x`/`0X` is skipped.
pub fn skip_hex_prefix(v: &Vec<char>, from: usize, to: usize) -> (start: usize)
    requires
        from <= to <= v@.len(),
    ensures
        from <= start <= to,
        v@.subrange(start as int, to as int) == strip_hex_prefix(
            v@.subrange(from as int, to as int),
        ),
{
    let ghost t = v@.subrange(from as int, to as int);
    if to - from >= 2 && v[from] == '0' && (v[from + 1] == 'x' || v[from + 1] == 'X') {
        assert(t[0] == v@[from as int] && t[1] == v@[from + 1]);
        assert(t.skip(2) == v@.subrange(from + 2, to as int));
        from + 2
    } else {
        proof {
            if t.len() >= 2 {
                assert(t[0] == v@[from as int] && t[1] == v@[from + 1]);
            }
        }
        from
    }
}

/// The message of a number that `parse_num` cannot read.
pub open spec fn parse_num_msg(s: Seq<char>, what: Seq<char>) -> Seq<char> {
    "cannot parse '"@ + s + "' as "@ + what
}

/// What `parse_num` reads from `s`: the trimmed text, with a leading
/// `0x` dropped, read as a decimal number of the target type.
pub open spec fn num_arg(s: Seq<char>, max: int) -> Option<int> {
    parse_uint(strip_hex_prefix(trim(s)), 10, max)
}

pub fn parse_num<T: UnsignedNum>(s: &str, what: &str) -> (r: Result<T, String>)
    ensures
        match r {
            Ok(v) => num_arg(s@, T::max_value()) == Some(v.value()),
            Err(e) => num_arg(s@, T::max_value()) is None && e@ == parse_num_msg(
                trim(s@),
                what@,
            ),
        },
{
    let cs = chars_of(s);
    let (a, b) = trim_bounds(&cs, 0, cs.len());
    assert(cs@.subrange(0, cs@.len() as int) == cs@);
    let start = skip_hex_prefix(&cs, a, b);
    match parse_uint_range(&cs, start, b, 10, T::max()) {
        Some(v) => Ok(T::from_u128(v)),
        None => {
            let mut msg = String::new();
            msg.push_str("cannot parse '");
            let mut t: Vec<char> = Vec::new();
            push_range(&mut t, &cs, a, b);
            msg.push_str(string_of(&t).as_str());
            msg.push_str("' as ");
            msg.push_str(what);
            Err(msg)
        },
    }
}

/// The message of a hex byte that `parse_hex_bytes` cannot read.
pub open spec fn hex_byte_msg(t: Seq<char>, what: Seq<char>) -> Seq<char> {
    "cannot parse '"@ + t + "' as a hex byte in "@ + what
}

/// Reading the first `k` pieces of a byte list: empty pieces are
/// skipped, the first piece that is no hex byte is an error.
pub open spec fn hex_bytes_prefix(parts: Seq<Seq<char>>, k: nat, what: Seq<char>) -> Result<
    Seq<u8>,
    Seq<char>,
>
    decreases k,
{
    if k == 0 || k > parts.len() {
        Ok(seq![])
    } else {
        match hex_bytes_prefix(parts, (k - 1) as nat, what) {
            Err(e) => Err(e),
            Ok(l) => {
                let t = parts[k - 1];
                if t.len() == 0 {
                    Ok(l)
                } else {
                    match parse_uint(strip_hex_prefix(t), 16, u8::MAX as int) {
                        Some(b) => Ok(l.push(b as u8)),
                        None => Err(hex_byte_msg(t, what)),
                    }
                }
            },
        }
    }
}

/// What `parse_hex_bytes` makes of `token`: its pieces between commas
/// and whitespace, each a hex byte with an optional `0x`.
pub open spec fn hex_bytes(token: Seq<char>, what: Seq<char>) -> Result<Seq<u8>, Seq<char>> {
    let parts = split_on(token, Sep::CommaOrSpace);
    hex_bytes_prefix(parts, parts.len(), what)
}

proof fn lemma_hex_bytes_err(parts: Seq<Seq<char>>, k: nat, n: nat, what: Seq<char>)
    requires
        k <= n <= parts.len(),
        hex_bytes_prefix(parts, k, what) is Err,
    ensures
        hex_bytes_prefix(parts, n, what) == hex_bytes_prefix(parts, k, what),
    decreases n - k,
{
    if n > k {
        lemma_hex_bytes_err(parts, k, (n - 1) as nat, what);
    }
}

pub fn parse_hex_bytes(token: &str, what: &str) -> (r: Result<Vec<u8>, String>)
    ensures
        match r {
            Ok(v) => hex_bytes(token@, what@) == Ok::<Seq<u8>, Seq<char>>(v@),
            Err(e) => hex_bytes(token@, what@) == Err::<Seq<u8>, Seq<char>>(e@),
        },
{
    let cs = chars_of(token);
    let bounds = split_bounds(&cs, &Sep::CommaOrSpace);
    let ghost parts = split_on(token@, Sep::CommaOrSpace);
    let mut out: Vec<u8> = Vec::new();
    let mut i: usize = 0;
    while i < bounds.len()
        invariant
            cs@ == token@,
            parts == split_on(token@, Sep::CommaOrSpace),
            i <= bounds@.len(),
            pieces_at(cs@, bounds@, parts),
            hex_bytes_prefix(parts, i as nat, what@) == Ok::<Seq<u8>, Seq<char>>(out@),
        decreases bounds@.len() - i,
    {
        let (from, to) = bounds[i];
        assert(piece_at(cs@, bounds@[i as int], parts[i as int]));
        let ghost t = parts[i as int];
        assert(hex_bytes_prefix(parts, (i + 1) as nat, what@) == match hex_bytes_prefix(
            parts,
            i as nat,
            what@,
        ) {
            Err(e) => Err(e),
            Ok(l) => {
                if t.len() == 0 {
                    Ok(l)
                } else {
                    match parse_uint(strip_hex_prefix(t), 16, u8::MAX as int) {
                        Some(b) => Ok(l.push(b as u8)),
                        None => Err(hex_byte_msg(t, what@)),
                    }
                }
            },
        });
        if from < to {
            let start = skip_hex_prefix(&cs, from, to);
            match parse_uint_range(&cs, start, to, 16, 255) {
                Some(b) => {
                    out.push(b as u8);
                },
                None => {
                    proof {
                        lemma_hex_bytes_err(parts, (i + 1) as nat, parts.len(), what@);
                    }
                    let mut t_chars: Vec<char> = Vec::new();
                    push_range(&mut t_chars, &cs, from, to);
                    let mut msg = String::new();
                    msg.push_str("cannot parse '");
                    msg.push_str(string_of(&t_chars).as_str());
                    msg.push_str("' as a hex byte in ");
                    msg.push_str(what);
                    return Err(msg);
                },
            }
        }
        i = i + 1;
    }
    Ok(out)
}

/// The message of a value that `parse_u32_hex` cannot read.
pub open spec fn u32_hex_msg(s: Seq<char>, what: Seq<char>) -> Seq<char> {
    "cannot parse '"@ + s + "' as a hex value for "@ + what
}

/// What `parse_u32_hex` reads from `s`: the trimmed text, with a
/// leading `0x` dropped, as a hexadecimal `u32`.
pub open spec fn u32_hex_arg(s: Seq<char>) -> Option<int> {
    parse_uint(strip_hex_prefix(trim(s)), 16, u32::MAX as int)
}

/// What `parse_u32_hex(s, what)` returns: the number, or the message
/// naming the trimmed text.
pub open spec fn u32_hex_outcome(s: Seq<char>, what: Seq<char>) -> Result<u32, Seq<char>> {
    match u32_hex_arg(s) {
        Some(v) => Ok(v as u32),
        None => Err(u32_hex_msg(trim(s), what)),
    }
}

pub fn parse_u32_hex(s: &str, what: &str) -> (r: Result<u32, String>)
    ensures
        match r {
            Ok(v) => u32_hex_arg(s@) == Some(v as int),
            Err(e) => u32_hex_arg(s@) is None && e@ == u32_hex_msg(trim(s@), what@),
        },
        match r {
            Ok(v) => u32_hex_outcome(s@, what@) == Ok::<u32, Seq<char>>(v),
            Err(e) => u32_hex_outcome(s@, what@) == Err::<u32, Seq<char>>(e@),
        },
{
    let cs = chars_of(s);
    let (a, b) = trim_bounds(&cs, 0, cs.len());
    assert(cs@.subrange(0, cs@.len() as int) == cs@);
    let start = skip_hex_prefix(&cs, a, b);
    match parse_uint_range(&cs, start, b, 16, 0xffff_ffff) {
        Some(v) => Ok(v as u32),
        None => {
            let mut msg = String::new();
            msg.push_str("cannot parse '");
            let mut t: Vec<char> = Vec::new();
            push_range(&mut t, &cs, a, b);
            msg.push_str(string_of(&t).as_str());
            msg.push_str("' as a hex value for ");
            msg.push_str(what);
            Err(msg)
        },
    }
}

/// The bytes `bytes` written in hex (`{:X}`), one piece each.
pub open spec fn hex_pieces(bytes: Seq<u8>) -> Seq<Seq<char>> {
    bytes.map_values(|b: u8| hex(b as nat))
}

proof fn lemma_hex_piece(b: u8)
    ensures
        hex(b as nat).len() > 0,
        strip_hex_prefix(hex(b as nat)) == hex(b as nat),
        parse_uint(hex(b as nat), 16, u8::MAX as int) == Some(b as int),
        forall|i: int|
            0 <= i < hex(b as nat).len() ==> !Sep::CommaOrSpace.holds(#[trigger] hex(b as nat)[i]),
{
    let t = hex(b as nat);
    lemma_radix_str_value(b as nat, 16);
    crate::num::law_parse_render_roundtrip(b as nat, 16, u8::MAX as int);
    assert forall|i: int| 0 <= i < t.len() implies !Sep::CommaOrSpace.holds(#[trigger] t[i]) by {
        assert(is_digit(t[i], 16));
    }
    if t.len() >= 2 {
        assert(is_digit(t[1], 16));
    }
}

proof fn lemma_hex_prefix_ok(bytes: Seq<u8>, k: nat, what: Seq<char>)
    requires
        k <= bytes.len(),
    ensures
        hex_bytes_prefix(hex_pieces(bytes), k, what) == Ok::<Seq<u8>, Seq<char>>(
            bytes.take(k as int),
        ),
    decreases k,
{
    if k > 0 {
        lemma_hex_prefix_ok(bytes, (k - 1) as nat, what);
        let b = bytes[k - 1];
        assert(hex_pieces(bytes)[k - 1] == hex(b as nat));
        lemma_hex_piece(b);
        assert(bytes.take(k - 1).push(b) == bytes.take(k as int));
    } else {
        assert(bytes.take(0) == Seq::<u8>::empty());
    }
}

/// Bytes written in hex (`{:X}`) and separated by spaces, or by commas,
/// read back as the same bytes.
pub proof fn law_hex_bytes_roundtrip(bytes: Seq<u8>, d: char, what: Seq<char>)
    requires
        d == ' ' || d == ',',
    ensures
        hex_bytes(joined(hex_pieces(bytes), seq![d]), what) == Ok::<Seq<u8>, Seq<char>>(bytes),
{
    let ps = hex_pieces(bytes);
    let token = joined(ps, seq![d]);
    if bytes.len() == 0 {
        assert(token == Seq::<char>::empty());
        let parts = split_on(token, Sep::CommaOrSpace);
        assert(parts == seq![Seq::<char>::empty()]);
        assert(parts[0].len() == 0);
        assert(hex_bytes_prefix(parts, 0, what) == Ok::<Seq<u8>, Seq<char>>(Seq::<u8>::empty()));
        assert(hex_bytes_prefix(parts, 1, what) == Ok::<Seq<u8>, Seq<char>>(Seq::<u8>::empty()));
        assert(bytes == Seq::<u8>::empty());
    } else {
        assert forall|k: int, i: int| 0 <= k < ps.len() && 0 <= i < ps[k].len() implies !Sep::CommaOrSpace.holds(
            #[trigger] ps[k][i],
        ) by {
            lemma_hex_piece(bytes[k]);
        }
        assert(Sep::CommaOrSpace.holds(d));
        lemma_split_joined(ps, d, Sep::CommaOrSpace);
        lemma_hex_prefix_ok(bytes, bytes.len(), what);
        assert(bytes.take(bytes.len() as int) == bytes);
        assert(ps.len() == bytes.len());
    }
}

/// `c` lower-cased if it is an ASCII capital.
pub open spec fn lower_char(c: char) -> char {
    if 'A' <= c && c <= 'Z' {
        ((c as u32) + 32) as char
    } else {
        c
    }
}

/// `d` with its ASCII capitals lower-cased.
pub open spec fn lowered_digits(d: Seq<char>) -> Seq<char> {
    d.map_values(|c: char| lower_char(c))
}

/// Lower-case hexadecimal rendering of `n` (`{:x}`).
pub open spec fn lower_hex(n: nat) -> Seq<char> {
    lowered_digits(hex(n))
}

/// The optional hex prefix: none, `0x` or `0X`.
pub open spec fn hex_prefix(which: nat) -> Seq<char> {
    if which == 1 {
        seq!['0', 'x']
    } else if which == 2 {
        seq!['0', 'X']
    } else {
        seq![]
    }
}

/// `n` spaces.
pub open spec fn blanks(n: nat) -> Seq<char> {
    Seq::new(n, |_i: int| ' ')
}

proof fn lemma_zeros_value(k: nat, d: Seq<char>)
    requires
        all_digits(d, 16),
    ensures
        all_digits(Seq::new(k, |_i: int| '0') + d, 16),
        digits_value(Seq::new(k, |_i: int| '0') + d, 16) == digits_value(d, 16),
    decreases d.len() + k,
{
    let z = Seq::new(k, |_i: int| '0');
    assert forall|i: int| 0 <= i < (z + d).len() implies is_digit(#[trigger] (z + d)[i], 16) by {
        if i >= k {
            assert((z + d)[i] == d[i - k]);
        }
    }
    if d.len() > 0 {
        lemma_zeros_value(k, d.drop_last());
        assert((z + d).drop_last() == z + d.drop_last());
        assert((z + d).last() == d.last());
        assert(all_digits(d.drop_last(), 16)) by {
            assert forall|i: int| 0 <= i < d.drop_last().len() implies is_digit(
                #[trigger] d.drop_last()[i],
                16,
            ) by {
                assert(d.drop_last()[i] == d[i]);
            }
        }
    } else if k > 0 {
        let z0 = Seq::new((k - 1) as nat, |_i: int| '0');
        lemma_zeros_value((k - 1) as nat, d);
        assert(z + d == z);
        assert(z0 + d == z0);
        assert(z.drop_last() == z0);
        assert(z.last() == '0');
    } else {
        assert(z + d == d);
    }
}

proof fn lemma_lower_value(d: Seq<char>)
    requires
        all_digits(d, 16),
    ensures
        all_digits(lowered_digits(d), 16),
        digits_value(lowered_digits(d), 16) == digits_value(d, 16),
        forall|i: int| 0 <= i < d.len() ==> #[trigger] lowered_digits(d)[i] != 'x',
    decreases d.len(),
{
    let l = lowered_digits(d);
    assert forall|i: int| 0 <= i < l.len() implies is_digit(#[trigger] l[i], 16) && l[i] != 'x' by {
        assert(is_digit(d[i], 16));
        assert(l[i] == lower_char(d[i]));
    }
    if d.len() > 0 {
        let d0 = d.drop_last();
        assert(all_digits(d0, 16)) by {
            assert forall|i: int| 0 <= i < d0.len() implies is_digit(#[trigger] d0[i], 16) by {
                assert(d0[i] == d[i]);
            }
        }
        lemma_lower_value(d0);
        assert(l.drop_last() == lowered_digits(d0));
        assert(l.last() == lower_char(d.last()));
        assert(is_digit(d.last(), 16));
        assert(digit_value(lower_char(d.last()), 16) == digit_value(d.last(), 16));
    }
}

proof fn lemma_trim_blanks(t: Seq<char>, a: nat, b: nat)
    requires
        t.len() > 0,
        !crate::textutil::is_ws(t[0]),
        !crate::textutil::is_ws(t.last()),
    ensures
        trim(blanks(a) + t + blanks(b)) == t,
{
    lemma_trim_start_blanks(t + blanks(b), a);
    assert((t + blanks(b))[0] == t[0]);
    assert(crate::textutil::trim_start(t + blanks(b)) == t + blanks(b));
    lemma_trim_end_blanks(t, b);
    assert(blanks(a) + t + blanks(b) == blanks(a) + (t + blanks(b)));
}

proof fn lemma_trim_start_blanks(u: Seq<char>, a: nat)
    ensures
        crate::textutil::trim_start(blanks(a) + u) == crate::textutil::trim_start(u),
    decreases a,
{
    if a > 0 {
        assert((blanks(a) + u).skip(1) == blanks((a - 1) as nat) + u);
        assert((blanks(a) + u)[0] == ' ');
        lemma_trim_start_blanks(u, (a - 1) as nat);
    } else {
        assert(blanks(0) + u == u);
    }
}

proof fn lemma_trim_end_blanks(t: Seq<char>, b: nat)
    requires
        t.len() > 0,
        !crate::textutil::is_ws(t.last()),
    ensures
        crate::textutil::trim_end(t + blanks(b)) == t,
    decreases b,
{
    if b > 0 {
        assert((t + blanks(b)).drop_last() == t + blanks((b - 1) as nat));
        assert((t + blanks(b)).last() == ' ');
        lemma_trim_end_blanks(t, (b - 1) as nat);
    } else {
        assert(t + blanks(0) == t);
    }
}

/// `parse_u32_hex` reads back any `u32` written in hex - upper or lower
/// case, with or without a `0x` or `0X` prefix, zero-padded to any width,
/// with spaces around - as the same number (`{n:X}`, `0x{n:X}` and
/// ` {n:08x} ` among them).
pub proof fn law_u32_hex_roundtrip(
    n: u32,
    lower: bool,
    prefix: nat,
    width: nat,
    before: nat,
    after: nat,
    what: Seq<char>,
)
    ensures
        ({
            let digits = if lower {
                lower_hex(n as nat)
            } else {
                hex(n as nat)
            };
            let text = blanks(before) + hex_prefix(prefix) + zero_padded(digits, width) + blanks(
                after,
            );
            &&& u32_hex_arg(text) == Some(n as int)
            &&& u32_hex_outcome(text, what) == Ok::<u32, Seq<char>>(n)
        }),
{
    let h = hex(n as nat);
    crate::num::lemma_radix_str_value(n as nat, 16);
    lemma_lower_value(h);
    let d = if lower {
        lower_hex(n as nat)
    } else {
        h
    };
    assert(all_digits(d, 16) && digits_value(d, 16) == n && d.len() > 0);
    assert forall|i: int| 0 <= i < d.len() implies d[i] != 'x' && d[i] != 'X' by {
        assert(is_digit(d[i], 16));
    }
    let k: nat = if d.len() >= width {
        0
    } else {
        (width - d.len()) as nat
    };
    let z = zero_padded(d, width);
    assert(z == Seq::new(k, |_i: int| '0') + d);
    lemma_zeros_value(k, d);
    let p = hex_prefix(prefix);
    let core = p + z;
    assert(core.last() == d.last());
    assert(is_digit(d.last(), 16));
    assert(is_digit(z[0], 16));
    assert(core[0] == '0' || core[0] == z[0]);
    lemma_trim_blanks(core, before, after);
    assert(blanks(before) + p + z + blanks(after) == blanks(before) + core + blanks(after));
    if prefix == 1 || prefix == 2 {
        assert(core.skip(2) == z);
    } else {
        assert(core == z);
        if z.len() >= 2 {
            assert(is_digit(z[1], 16));
        }
    }
    assert(strip_hex_prefix(core) == z);
    assert(z[0] != '+');
}

/// `parse_u32_hex` refuses a hex number above `u32::MAX`, whatever its
/// prefix, with the message naming the text as given (`0x100000000`
/// among them).
pub proof fn law_u32_hex_overflow(m: nat, prefix: nat, what: Seq<char>)
    requires
        m > u32::MAX,
    ensures
        u32_hex_arg(hex_prefix(prefix) + hex(m)) is None,
        u32_hex_outcome(hex_prefix(prefix) + hex(m), what) == Err::<u32, Seq<char>>(
            u32_hex_msg(hex_prefix(prefix) + hex(m), what),
        ),
{
    let h = hex(m);
    crate::num::lemma_radix_str_value(m, 16);
    let core = hex_prefix(prefix) + h;
    assert(core.last() == h.last());
    assert(is_digit(h.last(), 16));
    assert(is_digit(h[0], 16));
    assert(core[0] == '0' || core[0] == h[0]);
    lemma_trim_blanks(core, 0, 0);
    assert(blanks(0) + core + blanks(0) == core);
    if prefix == 1 || prefix == 2 {
        assert(core.skip(2) == h);
    } else {
        assert(core == h);
        if h.len() >= 2 {
            assert(is_digit(h[1], 16));
        }
    }
}

} // verus!
