//! Register annotation files (`--reg-names`): one `INDEX=NAME` per line.

use std::collections::HashMap;

use vstd::prelude::*;

use crate::cmd::{skip_hex_prefix, strip_hex_prefix};
use crate::num::{dec, parse_uint, parse_uint_range, push_dec};
use crate::textutil::{
    first_index_of, lemma_first_index_of, chars_of, piece_at, pieces_at, push_range, push_str_chars, split_bounds, split_on, string_of,
    trim, trim_bounds, Sep,
};

verus! {

broadcast use vstd::std_specs::hash::group_hash_axioms;

/// `format!("{:?}", s)`: `s` quoted, with its special characters escaped.
pub uninterp spec fn str_debug(s: Seq<char>) -> Seq<char>;

/// `<str as Debug>::fmt`, through `format!("{s:?}")`. Nothing is stated
/// of the escaping but that it depends on `s` alone.
#[verifier::external_body]
fn debug_str(s: &str) -> (r: String)
    ensures
        r@ == str_debug(s@),
{
    format!("{s:?}")
}

/// `line N of 'PATH'`, the start of every error message.
pub open spec fn line_prefix(lineno: nat, path: Seq<char>) -> Seq<char> {
    "line "@ + dec(lineno + 1) + " of '"@ + path + "'"@
}

/// The verdict on one line of an annotation file: nothing for a blank or
/// comment line, else the entry it declares, or the error message.
pub open spec fn reg_line(line: Seq<char>, lineno: nat, path: Seq<char>) -> Result<
    Option<(u16, Seq<char>)>,
    Seq<char>,
> {
    let l = trim(line);
    if l.len() == 0 || l[0] == '#' {
        Ok(None)
    } else {
        let eq = first_index_of(l, '=');
        if eq < 0 {
            Err(line_prefix(lineno, path) + " is invalid (expected 'INDEX=NAME'): "@ + str_debug(l))
        } else {
            let key = trim(l.take(eq));
            let name = trim(l.skip(eq + 1));
            let hex = key.len() >= 2 && key[0] == '0' && (key[1] == 'x' || key[1] == 'X');
            let index = if hex {
                parse_uint(strip_hex_prefix(key), 16, u16::MAX as int)
            } else {
                parse_uint(key, 10, u16::MAX as int)
            };
            match index {
                None => if hex {
                    Err(line_prefix(lineno, path) + ": invalid hex index: "@ + str_debug(key))
                } else {
                    Err(line_prefix(lineno, path) + ": invalid index (use decimal or 0xHEX): "@
                        + str_debug(key))
                },
                Some(i) => if name.len() == 0 {
                    Err(line_prefix(lineno, path) + ": empty name for index "@ + key)
                } else {
                    Ok(Some((i as u16, name)))
                },
            }
        }
    }
}

/// The annotations declared by the first `k` lines; the first bad line
/// is an error. A later line for the same index replaces the name.
pub open spec fn reg_lines(lines: Seq<Seq<char>>, k: nat, path: Seq<char>) -> Result<
    Map<u16, Seq<char>>,
    Seq<char>,
>
    decreases k,
{
    if k == 0 || k > lines.len() {
        Ok(Map::empty())
    } else {
        match reg_lines(lines, (k - 1) as nat, path) {
            Err(e) => Err(e),
            Ok(m) => match reg_line(lines[k - 1], (k - 1) as nat, path) {
                Err(e) => Err(e),
                Ok(None) => Ok(m),
                Ok(Some((i, name))) => Ok(m.insert(i, name)),
            },
        }
    }
}

/// What an annotation file with text `content`, read from `path`,
/// declares.
pub open spec fn reg_names_of(content: Seq<char>, path: Seq<char>) -> Result<
    Map<u16, Seq<char>>,
    Seq<char>,
> {
    let lines = split_on(content, Sep::Char('\n'));
    reg_lines(lines, lines.len(), path)
}

proof fn lemma_reg_lines_err(lines: Seq<Seq<char>>, k: nat, n: nat, path: Seq<char>)
    requires
        k <= n <= lines.len(),
        reg_lines(lines, k, path) is Err,
    ensures
        reg_lines(lines, n, path) == reg_lines(lines, k, path),
    decreases n - k,
{
    if n > k {
        lemma_reg_lines_err(lines, k, (n - 1) as nat, path);
    }
}

/// The names of `m`, as text.
pub open spec fn name_views(m: Map<u16, String>) -> Map<u16, Seq<char>> {
    m.map_values(|s: String| s@)
}

/// Reads the verdict on the line `cs[from..to]`.
fn parse_line(cs: &Vec<char>, from: usize, to: usize, lineno: usize, path: &str) -> (r: Result<
    Option<(u16, String)>,
    String,
>)
    requires
        from <= to <= cs@.len(),
        lineno < usize::MAX,
    ensures
        match reg_line(cs@.subrange(from as int, to as int), lineno as nat, path@) {
            Ok(None) => r == Ok::<Option<(u16, String)>, String>(None),
            Ok(Some((i, name))) => r matches Ok(Some((ri, rn))) && ri == i && rn@ == name,
            Err(e) => r matches Err(re) && re@ == e,
        },
{
    let (a, b) = trim_bounds(cs, from, to);
    let ghost l = trim(cs@.subrange(from as int, to as int));
    assert(cs@.subrange(a as int, b as int) == l);
    if a == b || cs[a] == '#' {
        proof {
            if a < b {
                assert(l[0] == cs@[a as int]);
            }
        }
        return Ok(None);
    }
    assert(l[0] == cs@[a as int]);
    // Find the first '='.
    let mut e = a;
    while e < b && cs[e] != '='
        invariant
            a <= e <= b <= cs@.len(),
            forall|k: int| a <= k < e ==> cs@[k] != '=',
        decreases b - e,
    {
        e = e + 1;
    }
    proof {
        lemma_first_index_of(l, '=');
        let f = first_index_of(l, '=');
        if e < b {
            assert(l[e - a] == cs@[e as int]);
            if f >= 0 && f < e - a {
                assert(l[f] == cs@[a + f]);
            }
            assert(f == e - a) by {
                if f < 0 {
                    assert(l[e - a] != '=');
                } else if f > e - a {
                    assert(l[e - a] != '=');
                }
            }
        } else {
            assert(f < 0) by {
                if f >= 0 {
                    assert(l[f] == cs@[a + f]);
                }
            }
        }
    }
    let mut prefix: Vec<char> = Vec::new();
    push_str_chars(&mut prefix, "line ");
    push_dec(&mut prefix, (lineno + 1) as u64);
    push_str_chars(&mut prefix, " of '");
    push_str_chars(&mut prefix, path);
    push_str_chars(&mut prefix, "'");
    if e == b {
        let mut lv: Vec<char> = Vec::new();
        push_range(&mut lv, cs, a, b);
        let mut m = prefix;
        push_str_chars(&mut m, " is invalid (expected 'INDEX=NAME'): ");
        push_str_chars(&mut m, debug_str(string_of(&lv).as_str()).as_str());
        return Err(string_of(&m));
    }
    let (ka, kb) = trim_bounds(cs, a, e);
    let (na, nb) = trim_bounds(cs, e + 1, b);
    assert(l.take(e - a) == cs@.subrange(a as int, e as int));
    assert(l.skip(e - a + 1) == cs@.subrange(e + 1, b as int));
    let ghost key = trim(l.take(e - a));
    assert(cs@.subrange(ka as int, kb as int) == key);
    let hex = kb - ka >= 2 && cs[ka] == '0' && (cs[ka + 1] == 'x' || cs[ka + 1] == 'X');
    proof {
        if key.len() >= 2 {
            assert(key[0] == cs@[ka as int] && key[1] == cs@[ka + 1]);
        }
    }
    let index = if hex {
        let start = skip_hex_prefix(cs, ka, kb);
        parse_uint_range(cs, start, kb, 16, 0xffff)
    } else {
        parse_uint_range(cs, ka, kb, 10, 0xffff)
    };
    let mut kv: Vec<char> = Vec::new();
    push_range(&mut kv, cs, ka, kb);
    match index {
        None => {
            let mut m = prefix;
            if hex {
                push_str_chars(&mut m, ": invalid hex index: ");
            } else {
                push_str_chars(&mut m, ": invalid index (use decimal or 0xHEX): ");
            }
            push_str_chars(&mut m, debug_str(string_of(&kv).as_str()).as_str());
            Err(string_of(&m))
        },
        Some(i) => {
            if na == nb {
                let mut m = prefix;
                push_str_chars(&mut m, ": empty name for index ");
                crate::textutil::push_all(&mut m, &kv);
                Err(string_of(&m))
            } else {
                let mut nv: Vec<char> = Vec::new();
                push_range(&mut nv, cs, na, nb);
                Ok(Some((i as u16, string_of(&nv))))
            }
        },
    }
}

/// Reads a register annotation file in the format:
///   0xA2F=MC_SEQ_CAS_TIMING
///   2608=MC_SEQ_CAS_TIMING2
///
/// Accepts hex (with 0x prefix) or decimal indices. Blank lines and
/// lines starting with '#' are ignored. `path` names the file in error
/// messages. The names are entirely what the user provides here, so any
/// name shown in the straps section when this file is used is explicitly
/// marked as a user annotation, not a fact confirmed by AMD.
pub fn parse(content: &str, path: &str) -> (r: Result<HashMap<u16, String>, String>)
    ensures
        match r {
            Ok(m) => reg_names_of(content@, path@) == Ok::<Map<u16, Seq<char>>, Seq<char>>(
                name_views(m@),
            ),
            Err(e) => reg_names_of(content@, path@) == Err::<Map<u16, Seq<char>>, Seq<char>>(e@),
        },
{
    let cs = chars_of(content);
    let bounds = split_bounds(&cs, &Sep::Char('\n'));
    let ghost lines = split_on(content@, Sep::Char('\n'));
    let mut map: HashMap<u16, String> = HashMap::new();
    let mut i: usize = 0;
    assert(name_views(map@) =~= Map::empty());
    while i < bounds.len()
        invariant
            cs@ == content@,
            lines == split_on(content@, Sep::Char('\n')),
            i <= bounds@.len(),
            pieces_at(cs@, bounds@, lines),
            reg_lines(lines, i as nat, path@) == Ok::<Map<u16, Seq<char>>, Seq<char>>(
                name_views(map@),
            ),
        decreases bounds@.len() - i,
    {
        let (from, to) = bounds[i];
        assert(piece_at(cs@, bounds@[i as int], lines[i as int]));
        match parse_line(&cs, from, to, i, path) {
            Ok(None) => {},
            Ok(Some((idx, name))) => {
                let ghost before = map@;
                let ghost nv = name@;
                map.insert(idx, name);
                assert(name_views(map@) =~= name_views(before).insert(idx, nv));
            },
            Err(e) => {
                proof {
                    lemma_reg_lines_err(lines, (i + 1) as nat, lines.len(), path@);
                }
                return Err(e);
            },
        }
        i = i + 1;
    }
    Ok(map)
}

} // verus!
