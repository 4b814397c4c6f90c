//! Comparison sections of the video outputs and of the PCI option-ROM
//! image chain of two ROMs.

use vstd::prelude::*;

use crate::compare_power::{count_strings, one_row_section};
use crate::compare::row_text;
use crate::compare_sections::{
    lemma_pair_shows, matrix_section_text, pair_section, pair_section_text, rows_view, RowV,
};
use crate::num::{dec, hex, push_dec, push_hex, zero_padded};
use crate::render::chain::{DisplayPath, PciImage};
use crate::render::color::Palette;
use crate::render::header::join_strings;
use crate::render::sections::{label_of, Section};
use crate::textutil::{contains_text, joined, push_str_chars, string_of, views};

verus! {

fn text(s: &str) -> (r: String)
    ensures
        r@ == s@,
{
    let mut v: Vec<char> = Vec::new();
    push_str_chars(&mut v, s);
    string_of(&v)
}

fn dec_string(n: u64) -> (r: String)
    ensures
        r@ == dec(n as nat),
{
    let mut v: Vec<char> = Vec::new();
    push_dec(&mut v, n);
    string_of(&v)
}

/// The connector chip of path `i`, `-` where it names none or there is
/// no such path.
pub open spec fn path_chip(ps: Seq<DisplayPath>, i: int) -> Seq<char> {
    if 0 <= i < ps.len() {
        match ps[i].connector_chip {
            Some(c) => c@,
            None => "-"@,
        }
    } else {
        "-"@
    }
}

/// The connector rows of the first `n` paths.
pub open spec fn path_rows(a: Seq<DisplayPath>, b: Seq<DisplayPath>, n: int) -> Seq<RowV>
    decreases n,
{
    if n <= 0 {
        seq![]
    } else {
        path_rows(a, b, n - 1).push(
            (
                "  path "@ + dec((n - 1) as nat) + " connector"@,
                path_chip(a, n - 1),
                path_chip(b, n - 1),
            ),
        )
    }
}

/// The logical devices of the paths, comma-separated.
pub open spec fn device_list(ps: Seq<DisplayPath>) -> Seq<char> {
    joined(ps.map_values(|p: DisplayPath| p.device_tag_name@), ", "@)
}

/// The rows of the video-output section of two ROMs: the number of
/// paths, their logical devices, and the connector of each path.
pub open spec fn display_rows(a: Seq<DisplayPath>, b: Seq<DisplayPath>) -> Seq<RowV> {
    seq![
        ("Video paths (count)"@, dec(a.len()), dec(b.len())),
        ("Logical devices"@, device_list(a), device_list(b)),
    ] + path_rows(a, b, if a.len() >= b.len() {
        a.len() as int
    } else {
        b.len() as int
    })
}

fn device_string(ps: &[DisplayPath]) -> (r: String)
    ensures
        r@ == device_list(ps@),
{
    let mut names: Vec<String> = Vec::new();
    let mut i: usize = 0;
    while i < ps.len()
        invariant
            i <= ps@.len(),
            names@.len() == i,
            forall|k: int| 0 <= k < i ==> #[trigger] names@[k]@ == ps@[k].device_tag_name@,
        decreases ps@.len() - i,
    {
        names.push(ps[i].device_tag_name.clone());
        i = i + 1;
    }
    assert(views(names@) =~= ps@.map_values(|p: DisplayPath| p.device_tag_name@));
    join_strings(&names, ", ")
}

fn chip_string(ps: &[DisplayPath], i: usize) -> (r: String)
    ensures
        r@ == path_chip(ps@, i as int),
{
    if i < ps.len() {
        match &ps[i].connector_chip {
            Some(c) => c.clone(),
            None => text("-"),
        }
    } else {
        text("-")
    }
}

/// Compares the video outputs of two ROMs: the number of paths, their
/// logical devices, and the connector chip of each path by position.
pub fn compare_display(
    a: &[DisplayPath],
    b: &[DisplayPath],
    name_a: &str,
    name_b: &str,
    pal: &Palette,
    diff_only: bool,
) -> (r: String)
    ensures
        r@ == pair_section_text(
            pal.on,
            label_of(Section::Display),
            name_a@,
            name_b@,
            display_rows(a@, b@),
            diff_only,
        ),
{
    let mut rows = vec![
        (text("Video paths (count)"), dec_string(a.len() as u64), dec_string(b.len() as u64)),
        (text("Logical devices"), device_string(a), device_string(b)),
    ];
    let ghost start = rows_view(rows@);
    let n = if a.len() >= b.len() {
        a.len()
    } else {
        b.len()
    };
    let mut i: usize = 0;
    while i < n
        invariant
            i <= n,
            rows_view(rows@) == start + path_rows(a@, b@, i as int),
        decreases n - i,
    {
        let mut l: Vec<char> = Vec::new();
        push_str_chars(&mut l, "  path ");
        push_dec(&mut l, i as u64);
        push_str_chars(&mut l, " connector");
        let ghost before = rows_view(rows@);
        rows.push((string_of(&l), chip_string(a, i), chip_string(b, i)));
        assert(rows_view(rows@) =~= before.push(
            ("  path "@ + dec(i as nat) + " connector"@, path_chip(a@, i as int), path_chip(b@, i as int)),
        ));
        assert(start + path_rows(a@, b@, i + 1) =~= (start + path_rows(a@, b@, i as int)).push(
            ("  path "@ + dec(i as nat) + " connector"@, path_chip(a@, i as int), path_chip(b@, i as int)),
        ));
        i = i + 1;
    }
    assert(start =~= seq![
        ("Video paths (count)"@, dec(a@.len()), dec(b@.len())),
        ("Logical devices"@, device_list(a@), device_list(b@)),
    ]);
    pair_section(pal, Section::Display.label(), name_a, name_b, &rows, diff_only)
}

/// Image `i` of the chain as `type (N bytes)`, `-` where there is none.
pub open spec fn image_text(ps: Seq<PciImage>, i: int) -> Seq<char> {
    if 0 <= i < ps.len() {
        ps[i].code_type_name@ + " ("@ + dec(ps[i].declared_size_bytes as nat) + " bytes)"@
    } else {
        "-"@
    }
}

/// The device ID of an image, as `0xNNNN`.
pub open spec fn device_id_text(id: u16) -> Seq<char> {
    "0x"@ + zero_padded(hex(id as nat), 4)
}

/// The rows of the first `n` chain positions: the image at each, and,
/// where both ROMs have one there, the two device IDs.
pub open spec fn image_rows(a: Seq<PciImage>, b: Seq<PciImage>, n: int) -> Seq<RowV>
    decreases n,
{
    if n <= 0 {
        seq![]
    } else {
        let k = n - 1;
        let base = image_rows(a, b, k).push(
            ("image "@ + dec(k as nat), image_text(a, k), image_text(b, k)),
        );
        if k < a.len() && k < b.len() {
            base.push(
                (
                    "  device ID (img. "@ + dec(k as nat) + ")"@,
                    device_id_text(a[k].device_id),
                    device_id_text(b[k].device_id),
                ),
            )
        } else {
            base
        }
    }
}

/// The rows of the option-ROM chain section of two ROMs.
pub open spec fn pcir_rows(a: Seq<PciImage>, b: Seq<PciImage>) -> Seq<RowV> {
    seq![("Chain images (count)"@, dec(a.len()), dec(b.len()))] + image_rows(
        a,
        b,
        if a.len() >= b.len() {
            a.len() as int
        } else {
            b.len() as int
        },
    )
}

fn image_string(ps: &[PciImage], i: usize) -> (r: String)
    ensures
        r@ == image_text(ps@, i as int),
{
    if i < ps.len() {
        let mut v: Vec<char> = Vec::new();
        push_str_chars(&mut v, ps[i].code_type_name.as_str());
        push_str_chars(&mut v, " (");
        push_dec(&mut v, ps[i].declared_size_bytes);
        push_str_chars(&mut v, " bytes)");
        string_of(&v)
    } else {
        text("-")
    }
}

fn device_id_string(id: u16) -> (r: String)
    ensures
        r@ == device_id_text(id),
{
    let mut v: Vec<char> = Vec::new();
    push_str_chars(&mut v, "0x");
    push_hex(&mut v, id as u64, 4);
    string_of(&v)
}

/// Compares the option-ROM image chains of two ROMs: the number of
/// images, each image's code type and declared size by position, and
/// the device IDs of the positions both chains fill.
pub fn compare_pcir_chain(
    a: &[PciImage],
    b: &[PciImage],
    name_a: &str,
    name_b: &str,
    pal: &Palette,
    diff_only: bool,
) -> (r: String)
    ensures
        r@ == pair_section_text(
            pal.on,
            label_of(Section::PcirChain),
            name_a@,
            name_b@,
            pcir_rows(a@, b@),
            diff_only,
        ),
{
    let mut rows = vec![
        (text("Chain images (count)"), dec_string(a.len() as u64), dec_string(b.len() as u64)),
    ];
    let ghost start = rows_view(rows@);
    let n = if a.len() >= b.len() {
        a.len()
    } else {
        b.len()
    };
    let mut i: usize = 0;
    while i < n
        invariant
            i <= n,
            rows_view(rows@) == start + image_rows(a@, b@, i as int),
        decreases n - i,
    {
        let mut l: Vec<char> = Vec::new();
        push_str_chars(&mut l, "image ");
        push_dec(&mut l, i as u64);
        let ghost before = rows_view(rows@);
        let ghost img_row = ("image "@ + dec(i as nat), image_text(a@, i as int), image_text(b@, i as int));
        rows.push((string_of(&l), image_string(a, i), image_string(b, i)));
        assert(rows_view(rows@) =~= before.push(img_row));
        if i < a.len() && i < b.len() {
            let mut d: Vec<char> = Vec::new();
            push_str_chars(&mut d, "  device ID (img. ");
            push_dec(&mut d, i as u64);
            push_str_chars(&mut d, ")");
            let ghost mid = rows_view(rows@);
            rows.push((string_of(&d), device_id_string(a[i].device_id), device_id_string(b[i].device_id)));
            assert(rows_view(rows@) =~= mid.push(
                (
                    "  device ID (img. "@ + dec(i as nat) + ")"@,
                    device_id_text(a@[i as int].device_id),
                    device_id_text(b@[i as int].device_id),
                ),
            ));
        }
        i = i + 1;
    }
    assert(start =~= seq![("Chain images (count)"@, dec(a@.len()), dec(b@.len()))]);
    pair_section(pal, Section::PcirChain.label(), name_a, name_b, &rows, diff_only)
}

/// Compares the video outputs of several ROMs: their numbers of paths.
pub fn display_section(path_counts: &[usize], names: &[String], pal: &Palette, diff_only: bool) -> (r:
    String)
    requires
        names@.len() * 27 + 26 <= usize::MAX,
    ensures
        r@ == matrix_section_text(
            pal.on,
            label_of(Section::Display),
            views(names@),
            path_counts@.len(),
            seq![("Video paths (count)"@, path_counts@.map_values(|c: usize| dec(c as nat)))],
            diff_only,
        ),
{
    one_row_section(pal, Section::Display, "Video paths (count)", names, count_strings(path_counts), diff_only)
}

/// Compares the option-ROM chains of several ROMs: their numbers of
/// images.
pub fn pcir_section(image_counts: &[usize], names: &[String], pal: &Palette, diff_only: bool) -> (r:
    String)
    requires
        names@.len() * 27 + 26 <= usize::MAX,
    ensures
        r@ == matrix_section_text(
            pal.on,
            label_of(Section::PcirChain),
            views(names@),
            image_counts@.len(),
            seq![("Chain images (count)"@, image_counts@.map_values(|c: usize| dec(c as nat)))],
            diff_only,
        ),
{
    one_row_section(pal, Section::PcirChain, "Chain images (count)", names, count_strings(image_counts), diff_only)
}

proof fn lemma_path_rows_at(a: Seq<DisplayPath>, b: Seq<DisplayPath>, n: int, i: int)
    requires
        0 <= i < n,
    ensures
        path_rows(a, b, n).len() == n,
        path_rows(a, b, n)[i] == ("  path "@ + dec(i as nat) + " connector"@, path_chip(a, i), path_chip(b, i)),
    decreases n,
{
    let init = path_rows(a, b, n - 1);
    if n - 1 > 0 {
        lemma_path_rows_at(a, b, n - 1, if i < n - 1 { i } else { n - 2 });
    } else {
        assert(init == Seq::<RowV>::empty());
    }
    assert(path_rows(a, b, n) == init.push(
        ("  path "@ + dec((n - 1) as nat) + " connector"@, path_chip(a, n - 1), path_chip(b, n - 1)),
    ));
}

/// The video-output comparison shows, for ROM A under A and ROM B under
/// B (whenever the row is shown): the number of paths, their logical
/// devices, and for every position below the larger count the connector
/// of each ROM's path there (`-` where it names none or has no path).
pub proof fn law_display_columns(
    a: Seq<DisplayPath>,
    b: Seq<DisplayPath>,
    on: bool,
    name_a: Seq<char>,
    name_b: Seq<char>,
    diff_only: bool,
    i: int,
)
    ensures
        ({
            let t = pair_section_text(on, label_of(Section::Display), name_a, name_b, display_rows(a, b), diff_only);
            let tags = |ps: Seq<DisplayPath>| joined(ps.map_values(|p: DisplayPath| p.device_tag_name@), ", "@);
            let chip = |ps: Seq<DisplayPath>, j: int| if 0 <= j < ps.len() && ps[j].connector_chip is Some {
                ps[j].connector_chip->0@
            } else {
                "-"@
            };
            &&& (!diff_only || dec(a.len()) != dec(b.len())) ==> contains_text(
                t,
                row_text(on, "Video paths (count)"@, dec(a.len()), dec(b.len())),
            )
            &&& (!diff_only || tags(a) != tags(b)) ==> contains_text(
                t,
                row_text(on, "Logical devices"@, tags(a), tags(b)),
            )
            &&& (0 <= i < a.len() || 0 <= i < b.len()) && (!diff_only || chip(a, i) != chip(b, i))
                ==> contains_text(t, row_text(on, "  path "@ + dec(i as nat) + " connector"@, chip(a, i), chip(b, i)))
        }),
{
    let rows = display_rows(a, b);
    let t = label_of(Section::Display);
    lemma_pair_shows(on, t, name_a, name_b, rows, diff_only, 0);
    lemma_pair_shows(on, t, name_a, name_b, rows, diff_only, 1);
    let n: int = if a.len() >= b.len() {
        a.len() as int
    } else {
        b.len() as int
    };
    if 0 <= i < n {
        lemma_path_rows_at(a, b, n, i);
        assert(rows[i + 2] == path_rows(a, b, n)[i]);
        lemma_pair_shows(on, t, name_a, name_b, rows, diff_only, i + 2);
    }
}

proof fn lemma_image_rows_has(a: Seq<PciImage>, b: Seq<PciImage>, n: int, i: int)
    requires
        0 <= i < n,
    ensures
        image_rows(a, b, n).contains(("image "@ + dec(i as nat), image_text(a, i), image_text(b, i))),
        i < a.len() && i < b.len() ==> image_rows(a, b, n).contains(
            (
                "  device ID (img. "@ + dec(i as nat) + ")"@,
                device_id_text(a[i].device_id),
                device_id_text(b[i].device_id),
            ),
        ),
    decreases n,
{
    let init = image_rows(a, b, n - 1);
    let r1 = ("image "@ + dec(i as nat), image_text(a, i), image_text(b, i));
    let r2 = (
        "  device ID (img. "@ + dec(i as nat) + ")"@,
        device_id_text(a[i].device_id),
        device_id_text(b[i].device_id),
    );
    let base = init.push(("image "@ + dec((n - 1) as nat), image_text(a, n - 1), image_text(b, n - 1)));
    if i == n - 1 {
        assert(base[init.len() as int] == r1);
        if i < a.len() && i < b.len() {
            assert(image_rows(a, b, n)[init.len() as int] == r1);
            assert(image_rows(a, b, n)[init.len() as int + 1] == r2);
        } else {
            assert(image_rows(a, b, n)[init.len() as int] == r1);
        }
    } else {
        lemma_image_rows_has(a, b, n - 1, i);
        let k1 = choose|k: int| 0 <= k < init.len() && init[k] == r1;
        assert(image_rows(a, b, n)[k1] == r1);
        if i < a.len() && i < b.len() {
            let k2 = choose|k: int| 0 <= k < init.len() && init[k] == r2;
            assert(image_rows(a, b, n)[k2] == r2);
        }
    }
}

/// The option-ROM chain comparison shows, for ROM A under A and ROM B
/// under B (whenever the row is shown): the number of images, for every
/// position below the larger count each ROM's image there (`type (N
/// bytes)`, `-` past its end), and where both have an image there, the
/// two device IDs in hex.
pub proof fn law_pcir_columns(
    a: Seq<PciImage>,
    b: Seq<PciImage>,
    on: bool,
    name_a: Seq<char>,
    name_b: Seq<char>,
    diff_only: bool,
    i: int,
)
    ensures
        ({
            let t = pair_section_text(on, label_of(Section::PcirChain), name_a, name_b, pcir_rows(a, b), diff_only);
            let img = |ps: Seq<PciImage>, j: int| if 0 <= j < ps.len() {
                ps[j].code_type_name@ + " ("@ + dec(ps[j].declared_size_bytes as nat) + " bytes)"@
            } else {
                "-"@
            };
            let id = |ps: Seq<PciImage>, j: int| "0x"@ + zero_padded(hex(ps[j].device_id as nat), 4);
            &&& (!diff_only || dec(a.len()) != dec(b.len())) ==> contains_text(
                t,
                row_text(on, "Chain images (count)"@, dec(a.len()), dec(b.len())),
            )
            &&& (0 <= i < a.len() || 0 <= i < b.len()) && (!diff_only || img(a, i) != img(b, i)) ==> contains_text(
                t,
                row_text(on, "image "@ + dec(i as nat), img(a, i), img(b, i)),
            )
            &&& (0 <= i < a.len() && 0 <= i < b.len()) && (!diff_only || id(a, i) != id(b, i)) ==> contains_text(
                t,
                row_text(on, "  device ID (img. "@ + dec(i as nat) + ")"@, id(a, i), id(b, i)),
            )
        }),
{
    let rows = pcir_rows(a, b);
    let tl = label_of(Section::PcirChain);
    lemma_pair_shows(on, tl, name_a, name_b, rows, diff_only, 0);
    let n: int = if a.len() >= b.len() {
        a.len() as int
    } else {
        b.len() as int
    };
    if 0 <= i < n {
        lemma_image_rows_has(a, b, n, i);
        let irows = image_rows(a, b, n);
        let r1 = ("image "@ + dec(i as nat), image_text(a, i), image_text(b, i));
        let k1 = choose|k: int| 0 <= k < irows.len() && irows[k] == r1;
        assert(rows[k1 + 1] == r1);
        lemma_pair_shows(on, tl, name_a, name_b, rows, diff_only, k1 + 1);
        if i < a.len() && i < b.len() {
            let r2 = (
                "  device ID (img. "@ + dec(i as nat) + ")"@,
                device_id_text(a[i].device_id),
                device_id_text(b[i].device_id),
            );
            let k2 = choose|k: int| 0 <= k < irows.len() && irows[k] == r2;
            assert(rows[k2 + 1] == r2);
            lemma_pair_shows(on, tl, name_a, name_b, rows, diff_only, k2 + 1);
        }
    }
}

} // verus!
