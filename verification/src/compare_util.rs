//! Helpers shared by the two-ROM and many-ROM comparisons.

use vstd::prelude::*;

use crate::render::color::{good_code, label_code, pad, padded, painted, warn_code, Palette};
use crate::num::{dec, hex, push_dec, push_hex, zero_padded};
use crate::textutil::{
    chars_of, first_index_of, joined, lemma_first_index_of, push_all, push_range, push_str_chars,
    string_of, views,
};

verus! {

pub fn note_push(buf: &mut String, any_row: &mut bool, s: &str)
    ensures
        final(buf)@ == old(buf)@ + s@ + "\n"@,
        *final(any_row),
{
    *any_row = true;
    buf.push_str(s);
    buf.push('\n');
    proof {
        reveal_strlit("\n");
    }
}

/// A finished table: the rows, or the empty-table message when there
/// was none.
pub open spec fn finished(buf: Seq<char>, any_row: bool, empty_message: Seq<char>) -> Seq<char> {
    if !any_row {
        buf + "  "@ + empty_message + "\n"@
    } else {
        buf
    }
}

pub fn finish_buf(buf: String, any_row: bool, empty_message: &str) -> (r: String)
    ensures
        r@ == finished(buf@, any_row, empty_message@),
{
    let mut buf = buf;
    if !any_row {
        buf.push_str("  ");
        buf.push_str(empty_message);
        buf.push_str("\n");
    }
    buf
}


/// One group of "other fields": register label (or "RAW") + its
/// (field, value) pairs.
pub type RegGroup = (String, Vec<(String, String)>);

/// A field as text: (name, value).
pub type FieldV = (Seq<char>, Seq<char>);

/// A group as text: (label, fields).
pub type GroupV = (Seq<char>, Seq<FieldV>);

/// The (field, value) pairs of a group, as text.
pub open spec fn fields_view(f: Seq<(String, String)>) -> Seq<FieldV> {
    f.map_values(|p: (String, String)| (p.0@, p.1@))
}

/// A group, as text.
pub open spec fn group_view(g: RegGroup) -> GroupV {
    (g.0@, fields_view(g.1@))
}

/// The groups of one ROM, as text.
pub open spec fn groups_view(gs: Seq<RegGroup>) -> Seq<GroupV> {
    gs.map_values(|g: RegGroup| group_view(g))
}

/// The groups of each ROM, as text.
pub open spec fn roms_view(per_rom: Seq<Vec<RegGroup>>) -> Seq<Seq<GroupV>> {
    per_rom.map_values(|gs: Vec<RegGroup>| groups_view(gs@))
}

/// `acc` with `x` appended unless already there.
pub open spec fn dedup_push(acc: Seq<Seq<char>>, x: Seq<char>) -> Seq<Seq<char>> {
    if acc.contains(x) {
        acc
    } else {
        acc.push(x)
    }
}

/// The distinct elements of `xs`, in order of first appearance.
pub open spec fn dedup(xs: Seq<Seq<char>>) -> Seq<Seq<char>>
    decreases xs.len(),
{
    if xs.len() == 0 {
        seq![]
    } else {
        dedup_push(dedup(xs.drop_last()), xs.last())
    }
}

/// The labels of the groups of `gs`, in order.
pub open spec fn group_labels(gs: Seq<GroupV>) -> Seq<Seq<char>> {
    gs.map_values(|g: GroupV| g.0)
}

/// The labels of all groups of all ROMs, ROM after ROM.
pub open spec fn all_labels(roms: Seq<Seq<GroupV>>) -> Seq<Seq<char>>
    decreases roms.len(),
{
    if roms.len() == 0 {
        seq![]
    } else {
        all_labels(roms.drop_last()) + group_labels(roms.last())
    }
}

/// The fields of the first group of `gs` labelled `label`.
pub open spec fn first_fields(gs: Seq<GroupV>, label: Seq<char>) -> Option<Seq<FieldV>>
    decreases gs.len(),
{
    if gs.len() == 0 {
        None
    } else if gs[0].0 == label {
        Some(gs[0].1)
    } else {
        first_fields(gs.skip(1), label)
    }
}

/// For each ROM, the fields of its group labelled `label`, if any.
pub open spec fn fields_per_rom(roms: Seq<Seq<GroupV>>, label: Seq<char>) -> Seq<
    Option<Seq<FieldV>>,
> {
    roms.map_values(|gs: Seq<GroupV>| first_fields(gs, label))
}

/// The field names of the present field lists, list after list.
pub open spec fn all_names(pf: Seq<Option<Seq<FieldV>>>) -> Seq<Seq<char>>
    decreases pf.len(),
{
    if pf.len() == 0 {
        seq![]
    } else {
        all_names(pf.drop_last()) + match pf.last() {
            Some(f) => f.map_values(|p: FieldV| p.0),
            None => seq![],
        }
    }
}

/// The value of the first field of `f` named `name`.
pub open spec fn first_value(f: Seq<FieldV>, name: Seq<char>) -> Option<Seq<char>>
    decreases f.len(),
{
    if f.len() == 0 {
        None
    } else if f[0].0 == name {
        Some(f[0].1)
    } else {
        first_value(f.skip(1), name)
    }
}

/// The value of the field `name` in each ROM, if present.
pub open spec fn values_of(pf: Seq<Option<Seq<FieldV>>>, name: Seq<char>) -> Seq<
    Option<Seq<char>>,
> {
    pf.map_values(
        |p: Option<Seq<FieldV>>|
            match p {
                Some(f) => first_value(f, name),
                None => None,
            },
    )
}

/// A field is present in every ROM, with the same value everywhere.
pub open spec fn all_equal(vals: Seq<Option<Seq<char>>>) -> bool {
    vals.len() > 0 && vals[0] is Some && forall|i: int| 0 <= i < vals.len() ==> #[trigger] vals[i] == vals[0]
}

/// The values of a field, `·` for an absent one.
pub open spec fn shown_values(vals: Seq<Option<Seq<char>>>) -> Seq<Seq<char>> {
    vals.map_values(
        |v: Option<Seq<char>>|
            match v {
                Some(s) => s,
                None => "·"@,
            },
    )
}

/// `name=v1/v2/...`, green when equal everywhere, yellow otherwise.
pub open spec fn field_part(on: bool, name: Seq<char>, vals: Seq<Option<Seq<char>>>) -> Seq<char> {
    painted(
        on,
        if all_equal(vals) {
            good_code()
        } else {
            warn_code()
        },
        name + "="@ + joined(shown_values(vals), "/"@),
    )
}

/// The parts of the line of one register.
pub open spec fn field_parts(on: bool, names: Seq<Seq<char>>, pf: Seq<Option<Seq<FieldV>>>) -> Seq<
    Seq<char>,
> {
    names.map_values(|n: Seq<char>| field_part(on, n, values_of(pf, n)))
}

/// The field names of the register `label`, across the ROMs.
pub open spec fn label_names(roms: Seq<Seq<GroupV>>, label: Seq<char>) -> Seq<Seq<char>> {
    dedup(all_names(fields_per_rom(roms, label)))
}

/// The line of the register `label`.
pub open spec fn label_line(on: bool, roms: Seq<Seq<GroupV>>, label: Seq<char>) -> Seq<char> {
    label + ": "@ + joined(
        field_parts(on, label_names(roms, label), fields_per_rom(roms, label)),
        " "@,
    )
}

/// The lines of the registers `labels` that have fields.
pub open spec fn other_lines(on: bool, roms: Seq<Seq<GroupV>>, labels: Seq<Seq<char>>) -> Seq<
    Seq<char>,
>
    decreases labels.len(),
{
    if labels.len() == 0 {
        seq![]
    } else {
        let init = other_lines(on, roms, labels.drop_last());
        if label_names(roms, labels.last()).len() > 0 {
            init.push(label_line(on, roms, labels.last()))
        } else {
            init
        }
    }
}

/// Every field of every register is present in all ROMs with one value.
pub open spec fn all_identical(roms: Seq<Seq<GroupV>>) -> bool {
    forall|l: Seq<char>, n: Seq<char>|
        #![trigger label_names(roms, l).contains(n)]
        dedup(all_labels(roms)).contains(l) && label_names(roms, l).contains(n) ==> all_equal(
            values_of(fields_per_rom(roms, l), n),
        )
}


/// Optional strings, as text.
pub open spec fn opt_views(v: Seq<Option<String>>) -> Seq<Option<Seq<char>>> {
    v.map_values(
        |o: Option<String>|
            match o {
                Some(s) => Some(s@),
                None => None,
            },
    )
}

/// Appends `x` to `list` unless an equal string is already there.
fn push_dedup(list: &mut Vec<String>, x: &String)
    ensures
        views(final(list)@) == dedup_push(views(old(list)@), x@),
{
    let ghost before = views(list@);
    let mut k: usize = 0;
    while k < list.len()
        invariant
            k <= list@.len(),
            before == views(list@),
            forall|m: int| 0 <= m < k ==> list@[m]@ != x@,
        decreases list@.len() - k,
    {
        if list[k] == *x {
            assert(before[k as int] == x@);
            return;
        }
        k = k + 1;
    }
    assert(!before.contains(x@)) by {
        if before.contains(x@) {
            let w = choose|w: int| 0 <= w < before.len() && before[w] == x@;
            assert(list@[w]@ == x@);
        }
    }
    list.push(x.clone());
    assert(views(list@) =~= before.push(x@));
}

/// Position of the first group of `gs` labelled `label`.
fn find_group(gs: &Vec<RegGroup>, label: &String) -> (r: Option<usize>)
    ensures
        match r {
            Some(k) => k < gs@.len() && first_fields(groups_view(gs@), label@) == Some(
                fields_view(gs@[k as int].1@),
            ),
            None => first_fields(groups_view(gs@), label@) is None,
        },
{
    let ghost g = groups_view(gs@);
    let mut k: usize = 0;
    assert(g.skip(0) == g);
    while k < gs.len()
        invariant
            k <= gs@.len(),
            g == groups_view(gs@),
            first_fields(g.skip(k as int), label@) == first_fields(g, label@),
        decreases gs@.len() - k,
    {
        let ghost rest = g.skip(k as int);
        assert(rest[0] == group_view(gs@[k as int]));
        assert(rest.skip(1) == g.skip(k + 1));
        if gs[k].0 == *label {
            return Some(k);
        }
        k = k + 1;
    }
    assert(g.skip(k as int).len() == 0);
    None
}

/// Position of the first field of `f` named `name`.
fn find_field(f: &Vec<(String, String)>, name: &String) -> (r: Option<usize>)
    ensures
        match r {
            Some(k) => k < f@.len() && first_value(fields_view(f@), name@) == Some(f@[k as int].1@),
            None => first_value(fields_view(f@), name@) is None,
        },
{
    let ghost g = fields_view(f@);
    let mut k: usize = 0;
    assert(g.skip(0) == g);
    while k < f.len()
        invariant
            k <= f@.len(),
            g == fields_view(f@),
            first_value(g.skip(k as int), name@) == first_value(g, name@),
        decreases f@.len() - k,
    {
        let ghost rest = g.skip(k as int);
        assert(rest[0] == (f@[k as int].0@, f@[k as int].1@));
        assert(rest.skip(1) == g.skip(k + 1));
        if f[k].0 == *name {
            return Some(k);
        }
        k = k + 1;
    }
    assert(g.skip(k as int).len() == 0);
    None
}

/// `gidx` picks, in each ROM, the group whose fields `pf` lists.
pub open spec fn picks(per_rom: Seq<Vec<RegGroup>>, gidx: Seq<Option<usize>>, pf: Seq<
    Option<Seq<FieldV>>,
>) -> bool {
    &&& gidx.len() == per_rom.len()
    &&& pf.len() == per_rom.len()
    &&& forall|r: int|
        0 <= r < per_rom.len() ==> match #[trigger] gidx[r] {
            Some(k) => k < per_rom[r]@.len() && pf[r] == Some(fields_view(per_rom[r]@[k as int].1@)),
            None => pf[r] is None,
        }
}

/// The group labelled `label` in each ROM.
fn pick_groups(per_rom: &[Vec<RegGroup>], label: &String) -> (r: Vec<Option<usize>>)
    ensures
        picks(per_rom@, r@, fields_per_rom(roms_view(per_rom@), label@)),
{
    let ghost pf = fields_per_rom(roms_view(per_rom@), label@);
    let mut r: Vec<Option<usize>> = Vec::new();
    let mut k: usize = 0;
    while k < per_rom.len()
        invariant
            k <= per_rom@.len(),
            pf == fields_per_rom(roms_view(per_rom@), label@),
            r@.len() == k,
            forall|m: int|
                0 <= m < k ==> match #[trigger] r@[m] {
                    Some(g) => g < per_rom@[m]@.len() && pf[m] == Some(
                        fields_view(per_rom@[m]@[g as int].1@),
                    ),
                    None => pf[m] is None,
                },
        decreases per_rom@.len() - k,
    {
        let f = find_group(&per_rom[k], label);
        assert(pf[k as int] == first_fields(groups_view(per_rom@[k as int]@), label@));
        r.push(f);
        k = k + 1;
    }
    r
}

/// The field names of the picked groups, in order of first appearance.
fn collect_names(per_rom: &[Vec<RegGroup>], gidx: &Vec<Option<usize>>, pf: Ghost<
    Seq<Option<Seq<FieldV>>>,
>) -> (names: Vec<String>)
    requires
        picks(per_rom@, gidx@, pf@),
    ensures
        views(names@) == dedup(all_names(pf@)),
{
    let mut names: Vec<String> = Vec::new();
    let mut r: usize = 0;
    assert(pf@.take(0) =~= seq![]);
    while r < per_rom.len()
        invariant
            r <= per_rom@.len(),
            picks(per_rom@, gidx@, pf@),
            views(names@) == dedup(all_names(pf@.take(r as int))),
        decreases per_rom@.len() - r,
    {
        let ghost pre = all_names(pf@.take(r as int));
        proof {
            let p = pf@.take(r + 1);
            assert(p.drop_last() == pf@.take(r as int));
            assert(p.last() == pf@[r as int]);
        }
        match gidx[r] {
            Some(g) => {
                let f = &per_rom[r][g].1;
                let ghost fv = fields_view(f@);
                assert(pf@[r as int] == Some(fv));
                let ghost fnames = fv.map_values(|p: FieldV| p.0);
                assert(all_names(pf@.take(r + 1)) == pre + fnames);
                let mut k: usize = 0;
                assert(pre + fnames.take(0) == pre);
                while k < f.len()
                    invariant
                        k <= f@.len(),
                        fnames == fields_view(f@).map_values(|p: FieldV| p.0),
                        views(names@) == dedup(pre + fnames.take(k as int)),
                    decreases f@.len() - k,
                {
                    push_dedup(&mut names, &f[k].0);
                    k = k + 1;
                    assert((pre + fnames.take(k as int)).drop_last() == pre + fnames.take(k - 1));
                    assert((pre + fnames.take(k as int)).last() == f@[k - 1].0@);
                }
                assert(fnames.take(k as int) == fnames);
            },
            None => {
                assert(pf@[r as int] is None);
                assert(all_names(pf@.take(r + 1)) =~= pre);
            },
        }
        r = r + 1;
    }
    assert(pf@.len() == per_rom@.len());
    assert(pf@.take(per_rom@.len() as int) =~= pf@);
    names
}

/// The value of `name` in each picked group.
fn collect_values(
    per_rom: &[Vec<RegGroup>],
    gidx: &Vec<Option<usize>>,
    pf: Ghost<Seq<Option<Seq<FieldV>>>>,
    name: &String,
) -> (vals: Vec<Option<String>>)
    requires
        picks(per_rom@, gidx@, pf@),
    ensures
        opt_views(vals@) == values_of(pf@, name@),
{
    let mut vals: Vec<Option<String>> = Vec::new();
    let mut r: usize = 0;
    while r < per_rom.len()
        invariant
            r <= per_rom@.len(),
            picks(per_rom@, gidx@, pf@),
            vals@.len() == r,
            forall|m: int| 0 <= m < r ==> #[trigger] opt_views(vals@)[m] == values_of(pf@, name@)[m],
        decreases per_rom@.len() - r,
    {
        let ghost want = values_of(pf@, name@)[r as int];
        let v = match gidx[r] {
            Some(g) => {
                let f = &per_rom[r][g].1;
                assert(pf@[r as int] == Some(fields_view(f@)));
                match find_field(f, name) {
                    Some(k) => {
                        let c = f[k].1.clone();
                        assert(want == Some(c@));
                        Some(c)
                    },
                    None => {
                        assert(want is None);
                        None
                    },
                }
            },
            None => {
                assert(pf@[r as int] is None);
                assert(want is None);
                None
            },
        };
        let ghost vv: Option<Seq<char>> = match &v {
            Some(s) => Some(s@),
            None => None,
        };
        assert(vv == want);
        let ghost before = vals@;
        vals.push(v);
        assert(opt_views(vals@)[r as int] == vv);
        assert forall|m: int| 0 <= m < r + 1 implies #[trigger] opt_views(vals@)[m] == values_of(
            pf@,
            name@,
        )[m] by {
            if m < r {
                assert(vals@[m] == before[m]);
                assert(opt_views(vals@)[m] == opt_views(before)[m]);
            } else {
                assert(vals@[m] == v);
                assert(values_of(pf@, name@)[m] == want);
            }
        }
        r = r + 1;
    }
    assert(opt_views(vals@) =~= values_of(pf@, name@));
    vals
}

/// Whether a field is present everywhere with one value.
fn values_equal(vals: &Vec<Option<String>>) -> (b: bool)
    ensures
        b == all_equal(opt_views(vals@)),
{
    let ghost v = opt_views(vals@);
    if vals.len() == 0 {
        return false;
    }
    match &vals[0] {
        None => false,
        Some(first) => {
            let mut k: usize = 1;
            while k < vals.len()
                invariant
                    1 <= k <= vals@.len(),
                    v == opt_views(vals@),
                    v[0] == Some(first@),
                    forall|m: int| 0 <= m < k ==> #[trigger] v[m] == v[0],
                decreases vals@.len() - k,
            {
                match &vals[k] {
                    Some(x) => {
                        if *x != *first {
                            assert(v[k as int] != v[0]);
                            return false;
                        }
                    },
                    None => {
                        assert(v[k as int] != v[0]);
                        return false;
                    },
                }
                k = k + 1;
            }
            true
        },
    }
}

/// Appends `joined(shown_values(vals), "/")`.
fn push_joined_values(out: &mut Vec<char>, vals: &Vec<Option<String>>)
    ensures
        final(out)@ == old(out)@ + joined(shown_values(opt_views(vals@)), "/"@),
{
    let ghost sv = shown_values(opt_views(vals@));
    let ghost start = out@;
    let mut k: usize = 0;
    assert(sv.take(0) =~= seq![]);
    while k < vals.len()
        invariant
            k <= vals@.len(),
            sv == shown_values(opt_views(vals@)),
            out@ == start + joined(sv.take(k as int), "/"@),
        decreases vals@.len() - k,
    {
        if k > 0 {
            push_str_chars(out, "/");
        }
        match &vals[k] {
            Some(x) => push_str_chars(out, x.as_str()),
            None => push_str_chars(out, "·"),
        }
        k = k + 1;
        proof {
            let p = sv.take(k as int);
            assert(p.drop_last() == sv.take(k - 1));
            assert(p.last() == sv[k - 1]);
            if k == 1 {
                assert(sv.take(0).len() == 0);
                assert(p[0] == sv[0]);
            }
        }
    }
    assert(sv.take(vals@.len() as int) == sv);
}

/// The line of one register (when it has fields) and whether all its
/// fields agree.
fn register_line(pal: &Palette, per_rom: &[Vec<RegGroup>], label: &String) -> (r: (
    bool,
    Option<String>,
))
    ensures
        ({
            let roms = roms_view(per_rom@);
            &&& r.0 == forall|n: Seq<char>|
                #![trigger label_names(roms, label@).contains(n)]
                label_names(roms, label@).contains(n) ==> all_equal(
                    values_of(fields_per_rom(roms, label@), n),
                )
            &&& match r.1 {
                Some(l) => label_names(roms, label@).len() > 0 && l@ == label_line(
                    pal.on,
                    roms,
                    label@,
                ),
                None => label_names(roms, label@).len() == 0,
            }
        }),
{
    let ghost roms = roms_view(per_rom@);
    let gidx = pick_groups(per_rom, label);
    let ghost pf = fields_per_rom(roms, label@);
    let fields = collect_names(per_rom, &gidx, Ghost(pf));
    let ghost names = views(fields@);
    let mut identical = true;
    let mut parts: Vec<char> = Vec::new();
    let mut k: usize = 0;
    assert(names.take(0) =~= seq![]);
    while k < fields.len()
        invariant
            k <= fields@.len(),
            picks(per_rom@, gidx@, pf),
            names == views(fields@),
            names == label_names(roms, label@),
            pf == fields_per_rom(roms, label@),
            identical == forall|m: int| 0 <= m < k ==> all_equal(values_of(pf, #[trigger] names[m])),
            parts@ == joined(field_parts(pal.on, names.take(k as int), pf), " "@),
        decreases fields@.len() - k,
    {
        let vals = collect_values(per_rom, &gidx, Ghost(pf), &fields[k]);
        let all_eq = values_equal(&vals);
        if !all_eq {
            identical = false;
        }
        let mut text: Vec<char> = Vec::new();
        push_str_chars(&mut text, fields[k].as_str());
        push_str_chars(&mut text, "=");
        push_joined_values(&mut text, &vals);
        let colored = if all_eq {
            pal.good(string_of(&text).as_str())
        } else {
            pal.warn(string_of(&text).as_str())
        };
        if k > 0 {
            push_str_chars(&mut parts, " ");
        }
        push_str_chars(&mut parts, colored.as_str());
        k = k + 1;
        proof {
            let fp = field_parts(pal.on, names.take(k as int), pf);
            assert(fp.drop_last() =~= field_parts(pal.on, names.take(k - 1), pf));
            assert(fp.last() == field_part(pal.on, names[k - 1], values_of(pf, names[k - 1])));
            if k == 1 {
                assert(fp[0] == fp.last());
            }
        }
    }
    proof {
        assert(names.take(fields@.len() as int) == names);
        assert(identical == forall|n: Seq<char>|
            #![trigger label_names(roms, label@).contains(n)]
            label_names(roms, label@).contains(n) ==> all_equal(values_of(pf, n))) by {
            if identical {
                assert forall|n: Seq<char>| #![trigger label_names(roms, label@).contains(n)]
                    label_names(roms, label@).contains(n) implies all_equal(values_of(pf, n)) by {
                    let w = choose|w: int| 0 <= w < names.len() && names[w] == n;
                    assert(all_equal(values_of(pf, names[w])));
                }
            } else {
                let w = choose|w: int| 0 <= w < fields@.len() && !all_equal(values_of(pf, #[trigger] names[w]));
                assert(label_names(roms, label@).contains(names[w]));
            }
        }
    }
    if fields.len() == 0 {
        return (identical, None);
    }
    let mut line: Vec<char> = Vec::new();
    push_str_chars(&mut line, label.as_str());
    push_str_chars(&mut line, ": ");
    push_all(&mut line, &parts);
    (identical, Some(string_of(&line)))
}

/// The distinct register labels of all ROMs, in order of first appearance.
fn collect_labels(per_rom: &[Vec<RegGroup>]) -> (labels: Vec<String>)
    ensures
        views(labels@) == dedup(all_labels(roms_view(per_rom@))),
{
    let ghost roms = roms_view(per_rom@);
    let mut labels: Vec<String> = Vec::new();
    let mut r: usize = 0;
    assert(roms.take(0) =~= seq![]);
    while r < per_rom.len()
        invariant
            r <= per_rom@.len(),
            roms == roms_view(per_rom@),
            views(labels@) == dedup(all_labels(roms.take(r as int))),
        decreases per_rom@.len() - r,
    {
        let gs = &per_rom[r];
        let ghost pre = all_labels(roms.take(r as int));
        let ghost gl = group_labels(groups_view(gs@));
        proof {
            let p = roms.take(r + 1);
            assert(p.drop_last() == roms.take(r as int));
            assert(p.last() == groups_view(gs@));
        }
        let mut k: usize = 0;
        assert(pre + gl.take(0) == pre);
        while k < gs.len()
            invariant
                k <= gs@.len(),
                gl == group_labels(groups_view(gs@)),
                views(labels@) == dedup(pre + gl.take(k as int)),
            decreases gs@.len() - k,
        {
            push_dedup(&mut labels, &gs[k].0);
            k = k + 1;
            assert((pre + gl.take(k as int)).drop_last() == pre + gl.take(k - 1));
            assert((pre + gl.take(k as int)).last() == gs@[k - 1].0@);
        }
        assert(gl.take(k as int) == gl);
        r = r + 1;
    }
    assert(roms.take(per_rom@.len() as int) == roms);
    labels
}

/// Builds the colored "other fields" lines of one clock from the
/// per-ROM group lists. Registers are paired by identity (label),
/// fields positionally within a register. Returns `(identical, lines)`:
/// `identical` is true when every field is equal and present in all
/// ROMs. Fields equal across ROMs are shown in `good`, differing ones
/// in `warn`, `·` = absent.
pub fn other_fields_lines(pal: &Palette, per_rom: &[Vec<RegGroup>]) -> (r: (bool, Vec<String>))
    ensures
        r.0 == all_identical(roms_view(per_rom@)),
        views(r.1@) == other_lines(
            pal.on,
            roms_view(per_rom@),
            dedup(all_labels(roms_view(per_rom@))),
        ),
{
    let ghost roms = roms_view(per_rom@);
    let labels = collect_labels(per_rom);
    let ghost ls = views(labels@);
    let mut lines: Vec<String> = Vec::new();
    let mut identical = true;
    let mut i: usize = 0;
    assert(ls.take(0) =~= seq![]);
    while i < labels.len()
        invariant
            i <= labels@.len(),
            roms == roms_view(per_rom@),
            ls == views(labels@),
            identical == forall|m: int, n: Seq<char>|
                #![trigger label_names(roms, ls[m]).contains(n)]
                0 <= m < i && label_names(roms, ls[m]).contains(n) ==> all_equal(
                    values_of(fields_per_rom(roms, ls[m]), n),
                ),
            views(lines@) == other_lines(pal.on, roms, ls.take(i as int)),
        decreases labels@.len() - i,
    {
        let (same, line) = register_line(pal, per_rom, &labels[i]);
        let ghost before_identical = identical;
        if !same {
            identical = false;
        }
        let ghost before = views(lines@);
        match line {
            Some(l) => {
                lines.push(l);
                assert(views(lines@) =~= before.push(label_line(pal.on, roms, ls[i as int])));
            },
            None => {},
        }
        i = i + 1;
        proof {
            let p = ls.take(i as int);
            assert(p.drop_last() == ls.take(i - 1));
            assert(p.last() == ls[i - 1]);
            assert(identical == forall|m: int, n: Seq<char>|
                #![trigger label_names(roms, ls[m]).contains(n)]
                0 <= m < i && label_names(roms, ls[m]).contains(n) ==> all_equal(
                    values_of(fields_per_rom(roms, ls[m]), n),
                )) by {
                if identical {
                    assert forall|m: int, n: Seq<char>|
                        #![trigger label_names(roms, ls[m]).contains(n)]
                        0 <= m < i && label_names(roms, ls[m]).contains(n) implies all_equal(
                            values_of(fields_per_rom(roms, ls[m]), n),
                        ) by {
                        if m == i - 1 {
                        } else {
                            assert(before_identical);
                        }
                    }
                } else if !same {
                    let n = choose|n: Seq<char>|
                        #![trigger label_names(roms, ls[i - 1]).contains(n)]
                        label_names(roms, ls[i - 1]).contains(n) && !all_equal(
                            values_of(fields_per_rom(roms, ls[i - 1]), n),
                        );
                    assert(label_names(roms, ls[i - 1]).contains(n));
                } else {
                    assert(!before_identical);
                    let (m, n) = choose|m: int, n: Seq<char>|
                        #![trigger label_names(roms, ls[m]).contains(n)]
                        0 <= m < i - 1 && label_names(roms, ls[m]).contains(n) && !all_equal(
                            values_of(fields_per_rom(roms, ls[m]), n),
                        );
                    assert(label_names(roms, ls[m]).contains(n));
                }
            }
        }
    }
    proof {
        assert(ls.take(labels@.len() as int) == ls);
        assert(identical == all_identical(roms)) by {
            if identical {
                assert forall|l: Seq<char>, n: Seq<char>|
                    #![trigger label_names(roms, l).contains(n)]
                    dedup(all_labels(roms)).contains(l) && label_names(roms, l).contains(n) implies all_equal(
                        values_of(fields_per_rom(roms, l), n),
                    ) by {
                    let m = choose|m: int| 0 <= m < ls.len() && ls[m] == l;
                    assert(label_names(roms, ls[m]).contains(n));
                }
            } else {
                let (m, n) = choose|m: int, n: Seq<char>|
                    #![trigger label_names(roms, ls[m]).contains(n)]
                    0 <= m < ls.len() && label_names(roms, ls[m]).contains(n) && !all_equal(
                        values_of(fields_per_rom(roms, ls[m]), n),
                    );
                assert(dedup(all_labels(roms)).contains(ls[m]));
                assert(label_names(roms, ls[m]).contains(n));
            }
        }
    }
    (identical, lines)
}


/// Bytes that UTF-8 takes for `c`.
pub open spec fn utf8_width(c: char) -> nat {
    if (c as u32) < 0x80 {
        1
    } else if (c as u32) < 0x800 {
        2
    } else if (c as u32) < 0x10000 {
        3
    } else {
        4
    }
}

/// Bytes that UTF-8 takes for `s`.
pub open spec fn utf8_len(s: Seq<char>) -> nat
    decreases s.len(),
{
    if s.len() == 0 {
        0
    } else {
        utf8_len(s.drop_last()) + utf8_width(s.last())
    }
}

/// Characters of a line up to and including its first `:` (all of it
/// when it has none): the label part.
pub open spec fn label_chars(l: Seq<char>) -> nat {
    if first_index_of(l, ':') < 0 {
        l.len()
    } else {
        (first_index_of(l, ':') + 1) as nat
    }
}

/// The label width of a line, in bytes (what `str::find` counts).
pub open spec fn label_bytes(l: Seq<char>) -> nat {
    utf8_len(l.take(label_chars(l) as int))
}

/// The widest label of `lines`.
pub open spec fn max_label(lines: Seq<Seq<char>>) -> nat
    decreases lines.len(),
{
    if lines.len() == 0 {
        0
    } else {
        let m = max_label(lines.drop_last());
        let w = label_bytes(lines.last());
        if w > m {
            w
        } else {
            m
        }
    }
}

/// A line with its label padded to `width` and dimmed.
pub open spec fn aligned_line(on: bool, l: Seq<char>, width: nat) -> Seq<char> {
    let c = label_chars(l) as int;
    "    "@ + painted(on, label_code(), padded(l.take(c), width)) + l.skip(c)
}

/// Bytes of the UTF-8 encoding of `c`.
fn char_width(c: char) -> (w: usize)
    ensures
        w == utf8_width(c),
{
    let u = c as u32;
    if u < 0x80 {
        1
    } else if u < 0x800 {
        2
    } else if u < 0x10000 {
        3
    } else {
        4
    }
}

/// Number of label characters of `v`, and their width in bytes.
fn label_split(v: &Vec<char>) -> (r: (usize, usize))
    requires
        v@.len() * 4 <= usize::MAX,
    ensures
        r.0 == label_chars(v@),
        r.0 <= v@.len(),
        r.1 == label_bytes(v@),
{
    proof {
        lemma_first_index_of(v@, ':');
    }
    let mut k: usize = 0;
    let mut bytes: usize = 0;
    let mut found = false;
    assert(v@.take(0) =~= seq![]);
    while k < v.len() && !found
        invariant
            k <= v@.len(),
            v@.len() * 4 <= usize::MAX,
            bytes == utf8_len(v@.take(k as int)),
            bytes <= 4 * k,
            !found ==> forall|m: int| 0 <= m < k ==> v@[m] != ':',
            found ==> k >= 1 && v@[k - 1] == ':' && forall|m: int| 0 <= m < k - 1 ==> v@[m] != ':',
        decreases v@.len() - k,
    {
        let c = v[k];
        bytes = bytes + char_width(c);
        k = k + 1;
        assert(v@.take(k as int).drop_last() == v@.take(k - 1));
        assert(v@.take(k as int).last() == c);
        if c == ':' {
            found = true;
        }
    }
    proof {
        lemma_first_index_of(v@, ':');
        let f = first_index_of(v@, ':');
        if found {
            assert(f == k - 1) by {
                if f < 0 {
                    assert(v@[k - 1] != ':');
                } else if f > k - 1 {
                    assert(v@[k - 1] != ':');
                }
            }
        } else {
            assert(f < 0) by {
                if f >= 0 {
                    assert(v@[f] == ':');
                }
            }
        }
    }
    (k, bytes)
}

/// Pads the register labels so the values of all lines start at the
/// same column, and colors the label area (padding is applied to the
/// plain text before coloring, so ANSI codes never skew the width).
pub fn align_other_lines(pal: &Palette, lines: &[String]) -> (r: Vec<String>)
    requires
        forall|k: int| 0 <= k < lines@.len() ==> #[trigger] lines@[k]@.len() * 4 <= usize::MAX,
    ensures
        views(r@) == views(lines@).map_values(
            |l: Seq<char>| aligned_line(pal.on, l, max_label(views(lines@))),
        ),
{
    let ghost ls = views(lines@);
    let mut max_w: usize = 0;
    let mut i: usize = 0;
    assert(ls.take(0) =~= seq![]);
    while i < lines.len()
        invariant
            i <= lines@.len(),
            ls == views(lines@),
            forall|k: int| 0 <= k < lines@.len() ==> #[trigger] lines@[k]@.len() * 4 <= usize::MAX,
            max_w == max_label(ls.take(i as int)),
        decreases lines@.len() - i,
    {
        let v = chars_of(lines[i].as_str());
        assert(lines@[i as int]@.len() * 4 <= usize::MAX);
        let (_, w) = label_split(&v);
        if w > max_w {
            max_w = w;
        }
        i = i + 1;
        proof {
            let p = ls.take(i as int);
            assert(p.drop_last() == ls.take(i - 1));
            assert(p.last() == lines@[i - 1]@);
        }
    }
    assert(ls.take(lines@.len() as int) == ls);
    let mut out: Vec<String> = Vec::new();
    let mut i: usize = 0;
    while i < lines.len()
        invariant
            i <= lines@.len(),
            ls == views(lines@),
            forall|k: int| 0 <= k < lines@.len() ==> #[trigger] lines@[k]@.len() * 4 <= usize::MAX,
            max_w == max_label(ls),
            out@.len() == i,
            forall|k: int| 0 <= k < i ==> #[trigger] out@[k]@ == aligned_line(pal.on, ls[k], max_w as nat),
        decreases lines@.len() - i,
    {
        let v = chars_of(lines[i].as_str());
        assert(lines@[i as int]@.len() * 4 <= usize::MAX);
        let (c, _) = label_split(&v);
        let mut label: Vec<char> = Vec::new();
        push_range(&mut label, &v, 0, c);
        let mut line: Vec<char> = Vec::new();
        push_str_chars(&mut line, "    ");
        push_str_chars(&mut line, pal.label(pad(string_of(&label).as_str(), max_w).as_str()).as_str());
        push_range(&mut line, &v, c, v.len());
        assert(v@.subrange(0, c as int) == v@.take(c as int));
        assert(v@.subrange(c as int, v@.len() as int) == v@.skip(c as int));
        out.push(string_of(&line));
        i = i + 1;
    }
    assert(views(out@) =~= ls.map_values(|l: Seq<char>| aligned_line(pal.on, l, max_label(ls))));
    out
}

proof fn lemma_utf8_len_at_least_chars(s: Seq<char>)
    ensures
        utf8_len(s) >= s.len(),
    decreases s.len(),
{
    if s.len() > 0 {
        lemma_utf8_len_at_least_chars(s.drop_last());
    }
}

proof fn lemma_max_label_bound(lines: Seq<Seq<char>>, k: int)
    requires
        0 <= k < lines.len(),
    ensures
        label_bytes(lines[k]) <= max_label(lines),
    decreases lines.len(),
{
    if k < lines.len() - 1 {
        lemma_max_label_bound(lines.drop_last(), k);
        assert(lines.drop_last()[k] == lines[k]);
    }
}

/// In the aligned lines (uncolored), the value part of every line - what
/// follows the label and its colon - starts at the same column: four
/// columns of indent plus the widest label.
pub proof fn law_aligned_values_column(lines: Seq<Seq<char>>)
    ensures
        forall|k: int|
            0 <= k < lines.len() ==> {
                let a = #[trigger] aligned_line(false, lines[k], max_label(lines));
                let m = max_label(lines);
                &&& a.len() >= 4 + m
                &&& a.skip(4 + m as int) == lines[k].skip(label_chars(lines[k]) as int)
            },
{
    let m = max_label(lines);
    assert forall|k: int| 0 <= k < lines.len() implies {
        let a = #[trigger] aligned_line(false, lines[k], m);
        &&& a.len() >= 4 + m
        &&& a.skip(4 + m as int) == lines[k].skip(label_chars(lines[k]) as int)
    } by {
        let l = lines[k];
        let c = label_chars(l) as int;
        lemma_first_index_of(l, ':');
        lemma_max_label_bound(lines, k);
        lemma_utf8_len_at_least_chars(l.take(c));
        let p = padded(l.take(c), m);
        assert(p.len() == m);
        let a = aligned_line(false, l, m);
        assert(a == "    "@ + p + l.skip(c));
        reveal_strlit("    ");
        assert(a.skip(4 + m as int) == l.skip(c));
    }
}

/// The part of a VRAM module entry that the summaries read.
pub struct VramModule {
    pub part_number: String,
}

/// The non-empty part numbers of `modules`, in order.
pub open spec fn part_numbers_of(modules: Seq<VramModule>) -> Seq<Seq<char>>
    decreases modules.len(),
{
    if modules.len() == 0 {
        seq![]
    } else {
        let init = part_numbers_of(modules.drop_last());
        if modules.last().part_number@.len() > 0 {
            init.push(modules.last().part_number@)
        } else {
            init
        }
    }
}

/// Collects non-empty part numbers from VRAM modules.
pub fn part_numbers(modules: &[VramModule]) -> (r: Vec<String>)
    ensures
        views(r@) == part_numbers_of(modules@),
{
    let mut r: Vec<String> = Vec::new();
    let mut i: usize = 0;
    assert(modules@.take(0) =~= seq![]);
    assert(views(r@) =~= seq![]);
    while i < modules.len()
        invariant
            i <= modules@.len(),
            views(r@) == part_numbers_of(modules@.take(i as int)),
        decreases modules@.len() - i,
    {
        let pn = &modules[i].part_number;
        let ghost before = views(r@);
        if !pn.as_str().is_empty() {
            r.push(pn.clone());
            assert(views(r@) =~= before.push(pn@));
        }
        i = i + 1;
        proof {
            let p = modules@.take(i as int);
            assert(p.drop_last() == modules@.take(i - 1));
            assert(p.last() == modules@[i - 1]);
        }
    }
    assert(modules@.take(modules@.len() as int) == modules@);
    r
}


/// One bit field of a memory timing register.
pub struct TimingField {
    pub name: &'static str,
    /// Position of the lowest bit.
    pub offset: u32,
    /// Number of bits.
    pub width: u32,
    /// Whether the field counts memory-clock cycles (shown in ns too).
    pub in_ns_set: bool,
}

/// A memory timing register with a known field layout.
pub struct TimingRegister {
    /// Register index, as found in the strap index table.
    pub index: u16,
    pub name: &'static str,
    pub fields: Vec<TimingField>,
}

/// The field `f` of the register value `v`.
pub open spec fn field_value(v: u32, f: TimingField) -> u32 {
    (v >> f.offset) & (((1u32 << f.width) - 1) as u32)
}

/// The fields of `regs` fit in a 32-bit register.
pub open spec fn layouts_fit(regs: Seq<TimingRegister>) -> bool {
    forall|k: int, m: int|
        0 <= k < regs.len() && 0 <= m < regs[k].fields@.len() ==> #[trigger] regs[k].fields@[m].offset
            < 32 && regs[k].fields@[m].width < 32
}

/// The first register of `regs` with index `idx` (the register table lookup).
pub open spec fn register_for(regs: Seq<TimingRegister>, idx: u16) -> Option<TimingRegister>
    decreases regs.len(),
{
    if regs.len() == 0 {
        None
    } else if regs[0].index == idx {
        Some(regs[0])
    } else {
        register_for(regs.skip(1), idx)
    }
}

/// The names of the core timings, as text.
pub open spec fn names_view(core: Seq<&str>) -> Seq<Seq<char>> {
    core.map_values(|s: &str| s@)
}

/// The non-core fields of `fields` for the register value `v`, as
/// `(name, decimal value)`.
pub open spec fn kept_fields(fields: Seq<TimingField>, v: u32, core: Seq<Seq<char>>) -> Seq<FieldV>
    decreases fields.len(),
{
    if fields.len() == 0 {
        seq![]
    } else {
        let init = kept_fields(fields.drop_last(), v, core);
        let f = fields.last();
        if core.contains(f.name@) {
            init
        } else {
            init.push((f.name@, dec(field_value(v, f) as nat)))
        }
    }
}

/// The label of a known register: `NAME (0xIDX)`.
pub open spec fn register_label(reg: TimingRegister, idx: u16) -> Seq<char> {
    reg.name@ + " (0x"@ + hex(idx as nat) + ")"@
}

/// The groups of the known registers among the first `n` strap slots.
pub open spec fn named_groups(
    values: Seq<u32>,
    indices: Seq<u16>,
    core: Seq<Seq<char>>,
    regs: Seq<TimingRegister>,
    n: nat,
) -> Seq<GroupV>
    decreases n,
{
    if n == 0 || n > values.len() {
        seq![]
    } else {
        let init = named_groups(values, indices, core, regs, (n - 1) as nat);
        let i = n - 1;
        if i >= indices.len() {
            init
        } else {
            match register_for(regs, indices[i]) {
                Some(reg) => {
                    let f = kept_fields(reg.fields@, values[i], core);
                    if f.len() > 0 {
                        init.push((register_label(reg, indices[i]), f))
                    } else {
                        init
                    }
                },
                None => init,
            }
        }
    }
}

/// The `(index, value)` of the strap slots among the first `n` whose
/// register has no known layout.
pub open spec fn raw_slots(values: Seq<u32>, indices: Seq<u16>, regs: Seq<TimingRegister>, n: nat) -> Seq<
    (u16, u32),
>
    decreases n,
{
    if n == 0 || n > values.len() {
        seq![]
    } else {
        let init = raw_slots(values, indices, regs, (n - 1) as nat);
        let i = n - 1;
        if i < indices.len() && register_for(regs, indices[i]) is None {
            init.push((indices[i], values[i]))
        } else {
            init
        }
    }
}

/// The register of `regs` with index `idx`, if any.
fn find_register(regs: &[TimingRegister], idx: u16) -> (r: Option<usize>)
    ensures
        match r {
            Some(k) => k < regs@.len() && register_for(regs@, idx) == Some(regs@[k as int]),
            None => register_for(regs@, idx) is None,
        },
{
    let mut k: usize = 0;
    assert(regs@.skip(0) == regs@);
    while k < regs.len()
        invariant
            k <= regs@.len(),
            register_for(regs@.skip(k as int), idx) == register_for(regs@, idx),
        decreases regs@.len() - k,
    {
        let ghost rest = regs@.skip(k as int);
        assert(rest[0] == regs@[k as int]);
        assert(rest.skip(1) == regs@.skip(k + 1));
        if regs[k].index == idx {
            return Some(k);
        }
        k = k + 1;
    }
    assert(regs@.skip(k as int).len() == 0);
    None
}

/// Whether `name` is one of `core`.
fn is_core(core: &[&str], name: &str) -> (b: bool)
    ensures
        b == names_view(core@).contains(name@),
{
    let nv = chars_of(name);
    let mut k: usize = 0;
    while k < core.len()
        invariant
            k <= core@.len(),
            nv@ == name@,
            forall|m: int| 0 <= m < k ==> core@[m]@ != name@,
        decreases core@.len() - k,
    {
        let cv = chars_of(core[k]);
        if crate::textutil::range_eq(&cv, 0, cv.len(), &nv) {
            assert(cv@.subrange(0, cv@.len() as int) == cv@);
            assert(names_view(core@)[k as int] == name@);
            return true;
        }
        assert(cv@.subrange(0, cv@.len() as int) == cv@);
        k = k + 1;
    }
    assert(!names_view(core@).contains(name@)) by {
        if names_view(core@).contains(name@) {
            let w = choose|w: int| 0 <= w < core@.len() && names_view(core@)[w] == name@;
            assert(core@[w]@ == name@);
        }
    }
    false
}

/// The field `f` of `v`.
fn extract_field(v: u32, f: &TimingField) -> (r: u32)
    requires
        f.offset < 32,
        f.width < 32,
    ensures
        r == field_value(v, *f),
{
    let w = f.width;
    assert(1u32 << w >= 1) by (bit_vector)
        requires
            w < 32,
    ;
    (v >> f.offset) & ((1u32 << f.width) - 1)
}

/// Groups the non-core timing fields of one strap into per-register
/// entries (register name + offset), plus a single "RAW" entry holding
/// the raw hex of registers with no known timing layout. `registers` is
/// the table of known register layouts; `unknown_label` resolves the
/// display label of one register without a known layout (e.g. a user
/// annotation from --reg-names).
pub fn strap_other_groups(
    values: &[u32],
    indices: &[u16],
    core_timings: &[&str],
    registers: &[TimingRegister],
    unknown_label: impl Fn(u16) -> String,
) -> (r: Vec<RegGroup>)
    requires
        layouts_fit(registers@),
        forall|i: u16| call_requires(unknown_label, (i,)),
    ensures
        ({
            let core = names_view(core_timings@);
            let named = named_groups(values@, indices@, core, registers@, values@.len());
            let raw = raw_slots(values@, indices@, registers@, values@.len());
            &&& r@.len() == named.len() + if raw.len() > 0 {
                1int
            } else {
                0int
            }
            &&& forall|k: int| 0 <= k < named.len() ==> #[trigger] group_view(r@[k]) == named[k]
            &&& raw.len() > 0 ==> {
                let g = r@.last();
                &&& g.0@ == "RAW"@
                &&& g.1@.len() == raw.len()
                &&& forall|j: int|
                    0 <= j < raw.len() ==> #[trigger] g.1@[j].1@ == "0x"@ + zero_padded(
                        hex(raw[j].1 as nat),
                        8,
                    ) && call_ensures(unknown_label, (raw[j].0,), g.1@[j].0)
            }
        }),
{
    let ghost core = names_view(core_timings@);
    let mut groups: Vec<RegGroup> = Vec::new();
    let mut raw: Vec<(String, String)> = Vec::new();
    let mut i: usize = 0;
    while i < values.len()
        invariant
            i <= values@.len(),
            layouts_fit(registers@),
            forall|x: u16| call_requires(unknown_label, (x,)),
            core == names_view(core_timings@),
            groups@.len() == named_groups(values@, indices@, core, registers@, i as nat).len(),
            forall|k: int|
                0 <= k < groups@.len() ==> #[trigger] group_view(groups@[k]) == named_groups(
                    values@,
                    indices@,
                    core,
                    registers@,
                    i as nat,
                )[k],
            raw@.len() == raw_slots(values@, indices@, registers@, i as nat).len(),
            forall|j: int|
                0 <= j < raw@.len() ==> {
                    let s = #[trigger] raw_slots(values@, indices@, registers@, i as nat)[j];
                    raw@[j].1@ == "0x"@ + zero_padded(hex(s.1 as nat), 8) && call_ensures(
                        unknown_label,
                        (s.0,),
                        raw@[j].0,
                    )
                },
        decreases values@.len() - i,
    {
        let v = values[i];
        let ghost named0 = named_groups(values@, indices@, core, registers@, i as nat);
        let ghost raw0 = raw_slots(values@, indices@, registers@, i as nat);
        let ghost old_groups = groups@;
        let ghost old_raw = raw@;
        if i < indices.len() {
            let idx = indices[i];
            match find_register(registers, idx) {
                Some(rk) => {
                    let reg = &registers[rk];
                    let mut fields: Vec<(String, String)> = Vec::new();
                    let mut m: usize = 0;
                    assert(reg.fields@.take(0) =~= seq![]);
                    while m < reg.fields.len()
                        invariant
                            m <= reg.fields@.len(),
                            rk < registers@.len(),
                            *reg == registers@[rk as int],
                            layouts_fit(registers@),
                            fields_view(fields@) == kept_fields(reg.fields@.take(m as int), v, core),
                            core == names_view(core_timings@),
                        decreases reg.fields@.len() - m,
                    {
                        let f = &reg.fields[m];
                        assert(registers@[rk as int].fields@[m as int].offset < 32
                            && registers@[rk as int].fields@[m as int].width < 32);
                        let ghost before = fields_view(fields@);
                        if !is_core(core_timings, f.name) {
                            let mut dv: Vec<char> = Vec::new();
                            push_dec(&mut dv, extract_field(v, f) as u64);
                            fields.push((f.name.to_owned(), string_of(&dv)));
                            assert(fields_view(fields@) =~= before.push((f.name@, dec(field_value(v, *f) as nat))));
                        }
                        m = m + 1;
                        proof {
                            let p = reg.fields@.take(m as int);
                            assert(p.drop_last() == reg.fields@.take(m - 1));
                            assert(p.last() == *f);
                        }
                    }
                    assert(reg.fields@.take(m as int) == reg.fields@);
                    if fields.len() > 0 {
                        let mut lv: Vec<char> = Vec::new();
                        push_str_chars(&mut lv, reg.name);
                        push_str_chars(&mut lv, " (0x");
                        push_hex(&mut lv, idx as u64, 0);
                        push_str_chars(&mut lv, ")");
                        assert(zero_padded(hex(idx as nat), 0) == hex(idx as nat));
                        let ghost gv = (lv@, fields_view(fields@));
                        groups.push((string_of(&lv), fields));
                        assert(group_view(groups@.last()) == gv);
                    }
                },
                None => {
                    let label = unknown_label(idx);
                    let mut hv: Vec<char> = Vec::new();
                    push_str_chars(&mut hv, "0x");
                    push_hex(&mut hv, v as u64, 8);
                    raw.push((label, string_of(&hv)));
                },
            }
        }
        i = i + 1;
        proof {
            let named1 = named_groups(values@, indices@, core, registers@, i as nat);
            let raw1 = raw_slots(values@, indices@, registers@, i as nat);
            assert forall|k: int| 0 <= k < groups@.len() implies #[trigger] group_view(groups@[k]) == named1[k] by {
                if k < old_groups.len() {
                    assert(groups@[k] == old_groups[k]);
                    assert(named1[k] == named0[k]);
                }
            }
            assert forall|j: int| 0 <= j < raw@.len() implies {
                let s = #[trigger] raw1[j];
                raw@[j].1@ == "0x"@ + zero_padded(hex(s.1 as nat), 8) && call_ensures(
                    unknown_label,
                    (s.0,),
                    raw@[j].0,
                )
            } by {
                if j < old_raw.len() {
                    assert(raw@[j] == old_raw[j]);
                    assert(raw1[j] == raw0[j]);
                }
            }
        }
    }
    let ghost named = named_groups(values@, indices@, core, registers@, values@.len());
    let ghost rs = raw_slots(values@, indices@, registers@, values@.len());
    if raw.len() > 0 {
        let ghost before = groups@;
        let ghost raw_v = raw@;
        groups.push(("RAW".to_owned(), raw));
        assert forall|k: int| 0 <= k < named.len() implies #[trigger] group_view(groups@[k]) == named[k] by {
            assert(groups@[k] == before[k]);
        }
        assert(groups@.last().1@ == raw_v);
    }
    groups
}

/// The register values of one memory strap, with the strap's clock
/// rounded to whole MHz.
pub struct StrapValues {
    pub clock_mhz: i64,
    pub values: Vec<u32>,
}

/// The first strap of `straps` tagged with the (rounded) clock `clk`.
pub open spec fn strap_at(straps: Seq<StrapValues>, clk: i64) -> Option<StrapValues>
    decreases straps.len(),
{
    if straps.len() == 0 {
        None
    } else if straps[0].clock_mhz == clk {
        Some(straps[0])
    } else {
        strap_at(straps.skip(1), clk)
    }
}

/// The first field of `fields` named `name`.
pub open spec fn field_named(fields: Seq<TimingField>, name: Seq<char>) -> Option<TimingField>
    decreases fields.len(),
{
    if fields.len() == 0 {
        None
    } else if fields[0].name@ == name {
        Some(fields[0])
    } else {
        field_named(fields.skip(1), name)
    }
}

/// The value of the timing field `name` in the strap slots from `i` on:
/// the first slot whose register has a known layout with such a field.
pub open spec fn field_in_slots(
    values: Seq<u32>,
    indices: Seq<u16>,
    regs: Seq<TimingRegister>,
    name: Seq<char>,
    i: nat,
) -> Option<u32>
    decreases values.len() - i,
{
    if i >= values.len() {
        None
    } else {
        let here = if i < indices.len() {
            match register_for(regs, indices[i as int]) {
                Some(reg) => match field_named(reg.fields@, name) {
                    Some(f) => Some(field_value(values[i as int], f)),
                    None => None,
                },
                None => None,
            }
        } else {
            None
        };
        if here is Some {
            here
        } else {
            field_in_slots(values, indices, regs, name, i + 1)
        }
    }
}

/// Decoded value of one timing field at one clock: `None` when no strap
/// is tagged with that clock or no slot holds the field.
pub open spec fn field_at_clock(
    straps: Seq<StrapValues>,
    indices: Seq<u16>,
    regs: Seq<TimingRegister>,
    clk: i64,
    name: Seq<char>,
) -> Option<u32> {
    match strap_at(straps, clk) {
        Some(s) => field_in_slots(s.values@, indices, regs, name, 0),
        None => None,
    }
}

pub fn find_strap(straps: &[StrapValues], clk: i64) -> (r: Option<usize>)
    ensures
        match r {
            Some(k) => k < straps@.len() && strap_at(straps@, clk) == Some(straps@[k as int]),
            None => strap_at(straps@, clk) is None,
        },
{
    let mut k: usize = 0;
    assert(straps@.skip(0) == straps@);
    while k < straps.len()
        invariant
            k <= straps@.len(),
            strap_at(straps@.skip(k as int), clk) == strap_at(straps@, clk),
        decreases straps@.len() - k,
    {
        let ghost rest = straps@.skip(k as int);
        assert(rest[0] == straps@[k as int]);
        assert(rest.skip(1) == straps@.skip(k + 1));
        if straps[k].clock_mhz == clk {
            return Some(k);
        }
        k = k + 1;
    }
    assert(straps@.skip(k as int).len() == 0);
    None
}

fn find_timing_field(fields: &Vec<TimingField>, name: &str) -> (r: Option<usize>)
    ensures
        match r {
            Some(k) => k < fields@.len() && field_named(fields@, name@) == Some(fields@[k as int]),
            None => field_named(fields@, name@) is None,
        },
{
    let mut k: usize = 0;
    assert(fields@.skip(0) == fields@);
    while k < fields.len()
        invariant
            k <= fields@.len(),
            field_named(fields@.skip(k as int), name@) == field_named(fields@, name@),
        decreases fields@.len() - k,
    {
        let ghost rest = fields@.skip(k as int);
        assert(rest[0] == fields@[k as int]);
        assert(rest.skip(1) == fields@.skip(k + 1));
        if crate::textutil::str_eq(fields[k].name, name) {
            return Some(k);
        }
        k = k + 1;
    }
    assert(fields@.skip(k as int).len() == 0);
    None
}

/// Decoded value of one timing field of one ROM at one clock, when the
/// strap list contains a strap at that clock. `indices` are the register
/// indices of the strap slots, `registers` the known register layouts.
pub fn field_at(
    straps: &[StrapValues],
    indices: &[u16],
    registers: &[TimingRegister],
    clk: i64,
    field: &str,
) -> (r: Option<u32>)
    requires
        layouts_fit(registers@),
    ensures
        r == field_at_clock(straps@, indices@, registers@, clk, field@),
{
    let s = match find_strap(straps, clk) {
        Some(k) => &straps[k],
        None => return None,
    };
    let mut i: usize = 0;
    while i < s.values.len()
        invariant
            i <= s.values@.len(),
            layouts_fit(registers@),
            strap_at(straps@, clk) == Some(*s),
            field_in_slots(s.values@, indices@, registers@, field@, i as nat) == field_in_slots(
                s.values@,
                indices@,
                registers@,
                field@,
                0,
            ),
        decreases s.values@.len() - i,
    {
        if i < indices.len() {
            if let Some(rk) = find_register(registers, indices[i]) {
                let reg = &registers[rk];
                if let Some(fk) = find_timing_field(&reg.fields, field) {
                    let f = &reg.fields[fk];
                    assert(registers@[rk as int].fields@[fk as int].offset < 32);
                    let v = extract_field(s.values[i], f);
                    assert(field_in_slots(s.values@, indices@, registers@, field@, i as nat) == Some(
                        v,
                    ));
                    return Some(v);
                }
            }
        }
        i = i + 1;
    }
    None
}

} // verus!
