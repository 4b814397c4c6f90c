//! The dump sections of the PCI option-ROM image chain and of the video
//! outputs.

use vstd::prelude::*;

use crate::num::{dec, hex, push_dec, push_hex, zero_padded};
use crate::render::color::{good_code, label_code, painted, value_code, warn_code, Palette};
use crate::render::header::join_strings;
use crate::render::sections::{label_of, Section};
use crate::render::text::{heading, heading_text, kv, kv_text};
use crate::textutil::{
    contains_text, joined, lemma_contains_left, lemma_contains_right, lemma_contains_self,
    lemma_contains_trans, push_str_chars, string_of, views,
};

verus! {

/// One image of the PCI option-ROM chain.
pub struct PciImage {
    /// Position of the image in the chain.
    pub index: u64,
    /// Where the image starts in the file.
    pub file_offset: u64,
    /// The code type (`x86 BIOS`, `EFI`, ...).
    pub code_type_name: String,
    /// The image size that its PCI data structure declares.
    pub declared_size_bytes: u64,
    pub vendor_id: u16,
    pub device_id: u16,
    pub class_code: u32,
    /// The name of the class code, where it is a known one.
    pub class_name: Option<String>,
    pub is_last_image: bool,
    /// The image holds a valid AtomBIOS.
    pub is_atom_bios: bool,
    /// The identity string found in the image, if any.
    pub identity_string: Option<String>,
}

/// One encoder of a video path.
pub struct Encoder {
    /// The encoder's name, where the object ID is a known one.
    pub chip_name: Option<String>,
    pub object_type_name: String,
    /// The raw object ID.
    pub raw: u16,
}

/// One video output path of the display object table.
pub struct DisplayPath {
    /// The logical device the path drives (`CRT1`, `DFP1`, ...).
    pub device_tag_name: String,
    /// The name of the connector, where its object ID is a known one.
    pub connector_chip: Option<String>,
    /// The raw connector object ID.
    pub connector_raw: u16,
    /// The connector's enum instance.
    pub connector_instance: u8,
    /// The encoders from the GPU to the connector.
    pub encoder_chain: Vec<Encoder>,
}

/// The video output information of a ROM.
pub struct DisplayInfo {
    pub paths: Vec<DisplayPath>,
    /// The older supported-devices bitmap, where the ROM has it.
    pub supported_devices_bitmap: Option<u16>,
    pub supported_devices_names: Vec<String>,
}

/// `n` as `0x` and at least `w` upper-case hex digits.
pub open spec fn hex_w(n: nat, w: nat) -> Seq<char> {
    "0x"@ + zero_padded(hex(n), w)
}

pub open spec fn pcir_note() -> Seq<char> {
    "Standard PCI Firmware Specification structure - allows more than one firmware image on the same flash chip, one per boot environment. Most modern VBIOS have a legacy (x86) image (with the AtomBIOS that the rest of this program reads) followed by an EFI image (GOP driver for pure UEFI boot).\n"@
}

/// The first line of a chain image: position, offset, size, code type.
pub open spec fn image_head(on: bool, img: PciImage) -> Seq<char> {
    "\n"@ + "  "@ + painted(on, value_code(), "▸"@) + " image "@ + dec(img.index as nat)
        + " - offset 0x"@ + hex(img.file_offset as nat) + " · "@ + dec(img.declared_size_bytes as nat)
        + " bytes · "@ + img.code_type_name@ + (if img.is_last_image {
        painted(on, label_code(), " (last image)"@)
    } else {
        seq![]
    }) + "\n"@
}

/// The ID line of a chain image: vendor and device, class code and name.
pub open spec fn image_ids(img: PciImage) -> Seq<char> {
    "      PCI vendor:device = "@ + zero_padded(hex(img.vendor_id as nat), 4) + ":"@ + zero_padded(
        hex(img.device_id as nat),
        4,
    ) + " · class code "@ + hex_w(img.class_code as nat, 6) + (match img.class_name {
        Some(c) => " ("@ + c@ + ")"@,
        None => seq![],
    }) + "\n"@
}

/// The closing lines of a chain image: the AtomBIOS mark and the
/// identity string, where there are any.
pub open spec fn image_tail(on: bool, img: PciImage) -> Seq<char> {
    (if img.is_atom_bios {
        "      "@ + painted(on, good_code(), "✓"@)
            + " contains a valid AtomBIOS (this is what this program analyzes in detail)\n"@
    } else {
        seq![]
    }) + (match img.identity_string {
        Some(id) => "      identity string found: \""@ + id@ + "\"\n"@,
        None => seq![],
    })
}

/// The lines of one chain image.
pub open spec fn image_text(on: bool, img: PciImage) -> Seq<char> {
    image_head(on, img) + image_ids(img) + image_tail(on, img)
}

/// The lines of the images, in order.
pub open spec fn images_text(on: bool, imgs: Seq<PciImage>) -> Seq<char>
    decreases imgs.len(),
{
    if imgs.len() == 0 {
        seq![]
    } else {
        images_text(on, imgs.drop_last()) + image_text(on, imgs.last())
    }
}

/// The option-ROM chain section of the dump.
pub open spec fn pcir_chain_text(on: bool, imgs: Seq<PciImage>) -> Seq<char> {
    heading_text(on, label_of(Section::PcirChain)) + if imgs.len() == 0 {
        "\n  (no valid PCIR image found)"@
    } else {
        "\n"@ + painted(on, label_code(), pcir_note()) + images_text(on, imgs)
    }
}

fn push_image_head(out: &mut Vec<char>, img: &PciImage, pal: &Palette)
    ensures
        final(out)@ == old(out)@ + image_head(pal.on, *img),
{
    let ghost start = out@;
    push_str_chars(out, "\n");
    push_str_chars(out, "  ");
    push_str_chars(out, pal.value("▸").as_str());
    push_str_chars(out, " image ");
    push_dec(out, img.index);
    push_str_chars(out, " - offset 0x");
    push_hex(out, img.file_offset, 0);
    proof {
        assert(zero_padded(hex(img.file_offset as nat), 0) == hex(img.file_offset as nat));
    }
    push_str_chars(out, " · ");
    push_dec(out, img.declared_size_bytes);
    push_str_chars(out, " bytes · ");
    push_str_chars(out, img.code_type_name.as_str());
    if img.is_last_image {
        push_str_chars(out, pal.label(" (last image)").as_str());
    }
    push_str_chars(out, "\n");
    proof {
        assert(out@ =~= start + image_head(pal.on, *img));
    }
}

fn push_image_ids(out: &mut Vec<char>, img: &PciImage)
    ensures
        final(out)@ == old(out)@ + image_ids(*img),
{
    let ghost start = out@;
    push_str_chars(out, "      PCI vendor:device = ");
    push_hex(out, img.vendor_id as u64, 4);
    push_str_chars(out, ":");
    push_hex(out, img.device_id as u64, 4);
    push_str_chars(out, " · class code ");
    push_str_chars(out, "0x");
    push_hex(out, img.class_code as u64, 6);
    match &img.class_name {
        Some(c) => {
            push_str_chars(out, " (");
            push_str_chars(out, c.as_str());
            push_str_chars(out, ")");
        },
        None => {},
    }
    push_str_chars(out, "\n");
    proof {
        assert(out@ =~= start + image_ids(*img));
    }
}

fn push_image_tail(out: &mut Vec<char>, img: &PciImage, pal: &Palette)
    ensures
        final(out)@ == old(out)@ + image_tail(pal.on, *img),
{
    let ghost start = out@;
    if img.is_atom_bios {
        push_str_chars(out, "      ");
        push_str_chars(out, pal.good("✓").as_str());
        push_str_chars(
            out,
            " contains a valid AtomBIOS (this is what this program analyzes in detail)\n",
        );
    }
    let ghost mid = out@;
    match &img.identity_string {
        Some(id) => {
            push_str_chars(out, "      identity string found: \"");
            push_str_chars(out, id.as_str());
            push_str_chars(out, "\"\n");
        },
        None => {},
    }
    proof {
        assert(out@ =~= start + image_tail(pal.on, *img));
    }
}

fn push_image(out: &mut Vec<char>, img: &PciImage, pal: &Palette)
    ensures
        final(out)@ == old(out)@ + image_text(pal.on, *img),
{
    let ghost start = out@;
    push_image_head(out, img, pal);
    push_image_ids(out, img);
    push_image_tail(out, img, pal);
    proof {
        assert(out@ =~= start + image_text(pal.on, *img));
    }
}

/// Renders the option-ROM chain section: each image's position, offset,
/// size, code type, IDs and class, whether it holds the AtomBIOS, and its
/// identity string.
pub fn render_pcir_chain(imgs: &[PciImage], pal: &Palette) -> (r: String)
    ensures
        r@ == pcir_chain_text(pal.on, imgs@),
{
    let mut out: Vec<char> = Vec::new();
    push_str_chars(&mut out, heading(pal, Section::PcirChain.label()).as_str());
    if imgs.len() == 0 {
        push_str_chars(&mut out, "\n  (no valid PCIR image found)");
        return string_of(&out);
    }
    push_str_chars(&mut out, "\n");
    push_str_chars(
        &mut out,
        pal.label(
            "Standard PCI Firmware Specification structure - allows more than one firmware image on the same flash chip, one per boot environment. Most modern VBIOS have a legacy (x86) image (with the AtomBIOS that the rest of this program reads) followed by an EFI image (GOP driver for pure UEFI boot).\n",
        ).as_str(),
    );
    let ghost start = out@;
    let mut i: usize = 0;
    while i < imgs.len()
        invariant
            i <= imgs@.len(),
            out@ == start + images_text(pal.on, imgs@.take(i as int)),
        decreases imgs@.len() - i,
    {
        push_image(&mut out, &imgs[i], pal);
        proof {
            let p = imgs@.take(i + 1);
            assert(p.drop_last() == imgs@.take(i as int));
            assert(p.last() == imgs@[i as int]);
        }
        i = i + 1;
    }
    assert(imgs@.take(imgs@.len() as int) == imgs@);
    string_of(&out)
}

pub open spec fn display_note() -> Seq<char> {
    "Read from ATOM_OBJECT_HEADER → video path table (the modern and authoritative source since the GCN era). Connector/encoder names come verbatim from the official amdgpu driver's ObjectID.h, not from reverse engineering.\n"@
}

pub open spec fn bitmap_note() -> Seq<char> {
    "Did not find the modern video path table - showing the older SupportedDevicesInfo bitmap (no physical connector detail):\n"@
}

/// The connector of a path: its name, or its raw type byte.
pub open spec fn connector_text(p: DisplayPath) -> Seq<char> {
    match p.connector_chip {
        Some(c) => c@,
        None => "unknown type ("@ + hex_w((p.connector_raw % 256) as nat, 2) + ")"@,
    }
}

/// An encoder: its name, or its object type and raw type byte.
pub open spec fn encoder_text(e: Encoder) -> Seq<char> {
    match e.chip_name {
        Some(c) => c@,
        None => e.object_type_name@ + " ("@ + hex_w((e.raw % 256) as nat, 2) + ")"@,
    }
}

/// The first line of path `i`: logical device and connector.
pub open spec fn path_head(on: bool, i: nat, p: DisplayPath) -> Seq<char> {
    "\n"@ + "  "@ + painted(on, value_code(), "▸"@) + " path "@ + dec(i) + " - logical device "@
        + painted(on, good_code(), p.device_tag_name@) + " · connector: "@ + connector_text(p) + (
    if p.connector_instance > 0 {
        " (instance "@ + dec(p.connector_instance as nat) + ")"@
    } else {
        seq![]
    }) + "\n"@
}

/// The encoder line of a path, where it has encoders.
pub open spec fn path_encoders(p: DisplayPath) -> Seq<char> {
    if p.encoder_chain@.len() > 0 {
        "      encoder chain (GPU → connector): "@ + joined(
            p.encoder_chain@.map_values(|e: Encoder| encoder_text(e)),
            " → "@,
        ) + "\n"@
    } else {
        seq![]
    }
}

/// The lines of path `i`.
pub open spec fn path_text(on: bool, i: nat, p: DisplayPath) -> Seq<char> {
    path_head(on, i, p) + path_encoders(p)
}

/// The lines of the first `n` paths.
pub open spec fn paths_text(on: bool, ps: Seq<DisplayPath>, n: int) -> Seq<char>
    decreases n,
{
    if n <= 0 {
        seq![]
    } else {
        paths_text(on, ps, n - 1) + path_text(on, (n - 1) as nat, ps[n - 1])
    }
}

/// The video-output section of the dump: each path with its logical
/// device, connector and encoders; else the older bitmap of supported
/// devices; else a note that there is no such information.
pub open spec fn display_text(on: bool, d: DisplayInfo) -> Seq<char> {
    heading_text(on, label_of(Section::Display)) + "\n"@ + painted(on, label_code(), display_note()) + if d.paths@.len()
        > 0 {
        paths_text(on, d.paths@, d.paths@.len() as int)
    } else {
        match d.supported_devices_bitmap {
            Some(bm) => "\n"@ + painted(on, warn_code(), bitmap_note()) + kv_text(
                on,
                "Supported devices (bitmap)"@,
                hex_w(bm as nat, 4),
            ) + "\n"@ + kv_text(on, "Device names"@, joined(views(d.supported_devices_names@), ", "@)),
            None => "\n  (no video output information found in this ROM)"@,
        }
    }
}

fn hex_w_string(n: u64, w: usize) -> (r: String)
    ensures
        r@ == hex_w(n as nat, w as nat),
{
    let mut v: Vec<char> = Vec::new();
    push_str_chars(&mut v, "0x");
    push_hex(&mut v, n, w);
    proof {
        assert(v@ =~= hex_w(n as nat, w as nat));
    }
    string_of(&v)
}

fn encoder_string(e: &Encoder) -> (r: String)
    ensures
        r@ == encoder_text(*e),
{
    match &e.chip_name {
        Some(c) => c.clone(),
        None => {
            let mut v: Vec<char> = Vec::new();
            push_str_chars(&mut v, e.object_type_name.as_str());
            push_str_chars(&mut v, " (");
            push_str_chars(&mut v, hex_w_string((e.raw % 256) as u64, 2).as_str());
            push_str_chars(&mut v, ")");
            string_of(&v)
        },
    }
}

fn connector_string(p: &DisplayPath) -> (r: String)
    ensures
        r@ == connector_text(*p),
{
    match &p.connector_chip {
        Some(c) => c.clone(),
        None => {
            let mut v: Vec<char> = Vec::new();
            push_str_chars(&mut v, "unknown type (");
            push_str_chars(&mut v, hex_w_string((p.connector_raw % 256) as u64, 2).as_str());
            push_str_chars(&mut v, ")");
            string_of(&v)
        },
    }
}

fn chain_string(es: &Vec<Encoder>) -> (r: String)
    ensures
        r@ == joined(es@.map_values(|e: Encoder| encoder_text(e)), " → "@),
{
    let mut parts: Vec<String> = Vec::new();
    let mut i: usize = 0;
    while i < es.len()
        invariant
            i <= es@.len(),
            parts@.len() == i,
            forall|k: int| 0 <= k < i ==> #[trigger] parts@[k]@ == encoder_text(es@[k]),
        decreases es@.len() - i,
    {
        parts.push(encoder_string(&es[i]));
        i = i + 1;
    }
    assert(views(parts@) =~= es@.map_values(|e: Encoder| encoder_text(e)));
    join_strings(&parts, " → ")
}

fn push_path_head(out: &mut Vec<char>, i: usize, p: &DisplayPath, pal: &Palette)
    ensures
        final(out)@ == old(out)@ + path_head(pal.on, i as nat, *p),
{
    let ghost start = out@;
    push_str_chars(out, "\n");
    push_str_chars(out, "  ");
    push_str_chars(out, pal.value("▸").as_str());
    push_str_chars(out, " path ");
    push_dec(out, i as u64);
    push_str_chars(out, " - logical device ");
    push_str_chars(out, pal.good(p.device_tag_name.as_str()).as_str());
    push_str_chars(out, " · connector: ");
    push_str_chars(out, connector_string(p).as_str());
    if p.connector_instance > 0 {
        push_str_chars(out, " (instance ");
        push_dec(out, p.connector_instance as u64);
        push_str_chars(out, ")");
    }
    push_str_chars(out, "\n");
    proof {
        assert(out@ =~= start + path_head(pal.on, i as nat, *p));
    }
}

fn push_path(out: &mut Vec<char>, i: usize, p: &DisplayPath, pal: &Palette)
    ensures
        final(out)@ == old(out)@ + path_text(pal.on, i as nat, *p),
{
    let ghost start = out@;
    push_path_head(out, i, p, pal);
    let ghost mid = out@;
    if p.encoder_chain.len() > 0 {
        push_str_chars(out, "      encoder chain (GPU → connector): ");
        push_str_chars(out, chain_string(&p.encoder_chain).as_str());
        push_str_chars(out, "\n");
    }
    proof {
        assert(out@ =~= mid + path_encoders(*p));
        assert(out@ =~= start + path_text(pal.on, i as nat, *p));
    }
}

/// Renders the video-output section: each path with its logical device,
/// connector and encoder chain; without a path table, the older bitmap
/// of supported devices; else a note that the ROM has neither.
pub fn render_display(d: &DisplayInfo, pal: &Palette) -> (r: String)
    ensures
        r@ == display_text(pal.on, *d),
{
    let mut out: Vec<char> = Vec::new();
    push_str_chars(&mut out, heading(pal, Section::Display.label()).as_str());
    push_str_chars(&mut out, "\n");
    push_str_chars(
        &mut out,
        pal.label(
            "Read from ATOM_OBJECT_HEADER → video path table (the modern and authoritative source since the GCN era). Connector/encoder names come verbatim from the official amdgpu driver's ObjectID.h, not from reverse engineering.\n",
        ).as_str(),
    );
    let ghost start = out@;
    if d.paths.len() > 0 {
        let mut i: usize = 0;
        while i < d.paths.len()
            invariant
                i <= d.paths@.len(),
                out@ == start + paths_text(pal.on, d.paths@, i as int),
            decreases d.paths@.len() - i,
        {
            push_path(&mut out, i, &d.paths[i], pal);
            i = i + 1;
        }
    } else {
        match d.supported_devices_bitmap {
            Some(bm) => {
                push_str_chars(&mut out, "\n");
                push_str_chars(
                    &mut out,
                    pal.warn(
                        "Did not find the modern video path table - showing the older SupportedDevicesInfo bitmap (no physical connector detail):\n",
                    ).as_str(),
                );
                push_str_chars(
                    &mut out,
                    kv(pal, "Supported devices (bitmap)", hex_w_string(bm as u64, 4).as_str()).as_str(),
                );
                push_str_chars(&mut out, "\n");
                push_str_chars(
                    &mut out,
                    kv(pal, "Device names", join_strings(&d.supported_devices_names, ", ").as_str()).as_str(),
                );
            },
            None => {
                push_str_chars(&mut out, "\n  (no video output information found in this ROM)");
            },
        }
    }
    proof {
        assert(out@ =~= display_text(pal.on, *d));
    }
    string_of(&out)
}

proof fn lemma_images_has(on: bool, imgs: Seq<PciImage>, i: int)
    requires
        0 <= i < imgs.len(),
    ensures
        contains_text(images_text(on, imgs), image_text(on, imgs[i])),
    decreases imgs.len(),
{
    let init = images_text(on, imgs.drop_last());
    let last = image_text(on, imgs.last());
    if i == imgs.len() - 1 {
        lemma_contains_self(last);
        lemma_contains_right(init, last, last);
    } else {
        assert(imgs.drop_last()[i] == imgs[i]);
        lemma_images_has(on, imgs.drop_last(), i);
        lemma_contains_left(init, last, image_text(on, imgs[i]));
    }
}

/// The option-ROM chain dump shows every image of the chain with its own
/// position, offset, size and code type, and its vendor and device IDs
/// (vendor first) and class code.
pub proof fn law_pcir_dump_images(imgs: Seq<PciImage>, on: bool, i: int)
    requires
        0 <= i < imgs.len(),
    ensures
        contains_text(pcir_chain_text(on, imgs), image_line_body(imgs[i])),
        contains_text(pcir_chain_text(on, imgs), image_ids_body(imgs[i])),
{
    let img = imgs[i];
    lemma_images_has(on, imgs, i);
    let it = image_text(on, img);
    let m1 = image_line_body(img);
    let m2 = image_ids_body(img);
    lemma_image_head_has(on, img);
    lemma_image_ids_has(img);
    lemma_contains_left(image_head(on, img), image_ids(img), m1);
    lemma_contains_left(image_head(on, img) + image_ids(img), image_tail(on, img), m1);
    lemma_contains_right(image_head(on, img), image_ids(img), m2);
    lemma_contains_left(image_head(on, img) + image_ids(img), image_tail(on, img), m2);
    let pre = heading_text(on, label_of(Section::PcirChain)) + ("\n"@ + painted(on, label_code(), pcir_note()));
    assert(pcir_chain_text(on, imgs) =~= pre + images_text(on, imgs));
    lemma_contains_right(pre, images_text(on, imgs), it);
    lemma_contains_trans(pcir_chain_text(on, imgs), it, m1);
    lemma_contains_trans(pcir_chain_text(on, imgs), it, m2);
}

/// An image's position, offset, size and code type as the dump shows them.
pub open spec fn image_line_body(img: PciImage) -> Seq<char> {
    " image "@ + dec(img.index as nat) + " - offset 0x"@ + hex(img.file_offset as nat) + " · "@ + dec(
        img.declared_size_bytes as nat,
    ) + " bytes · "@ + img.code_type_name@
}

/// An image's vendor and device IDs and class code as the dump shows them.
pub open spec fn image_ids_body(img: PciImage) -> Seq<char> {
    "      PCI vendor:device = "@ + zero_padded(hex(img.vendor_id as nat), 4) + ":"@ + zero_padded(
        hex(img.device_id as nat),
        4,
    ) + " · class code 0x"@ + zero_padded(hex(img.class_code as nat), 6)
}

#[verifier::spinoff_prover]
proof fn lemma_image_head_has(on: bool, img: PciImage)
    ensures
        contains_text(image_head(on, img), image_line_body(img)),
{
    let a1 = "\n"@ + "  "@ + painted(on, value_code(), "▸"@);
    let m1 = image_line_body(img);
    let z1: Seq<char> = (if img.is_last_image {
        painted(on, label_code(), " (last image)"@)
    } else {
        seq![]
    }) + "\n"@;
    assert(image_head(on, img) =~= a1 + m1 + z1);
    lemma_contains_self(m1);
    crate::textutil::lemma_contains_around(a1, m1, z1, m1);
}

#[verifier::spinoff_prover]
proof fn lemma_image_ids_has(img: PciImage)
    ensures
        contains_text(image_ids(img), image_ids_body(img)),
{
    let m2 = image_ids_body(img);
    let z2: Seq<char> = (match img.class_name {
        Some(c) => " ("@ + c@ + ")"@,
        None => seq![],
    }) + "\n"@;
    assert(image_ids(img) =~= seq![] + m2 + z2) by {
        reveal_strlit(" · class code ");
        reveal_strlit("0x");
        reveal_strlit(" · class code 0x");
        assert(" · class code "@ + "0x"@ =~= " · class code 0x"@);
    }
    lemma_contains_self(m2);
    crate::textutil::lemma_contains_around(seq![], m2, z2, m2);
}

proof fn lemma_paths_has(on: bool, ps: Seq<DisplayPath>, n: int, i: int)
    requires
        0 <= i < n <= ps.len(),
    ensures
        contains_text(paths_text(on, ps, n), path_text(on, i as nat, ps[i])),
    decreases n,
{
    let init = paths_text(on, ps, n - 1);
    let last = path_text(on, (n - 1) as nat, ps[n - 1]);
    if i == n - 1 {
        lemma_contains_self(last);
        lemma_contains_right(init, last, last);
    } else {
        lemma_paths_has(on, ps, n - 1, i);
        lemma_contains_left(init, last, path_text(on, i as nat, ps[i]));
    }
}

/// A path's number, logical device and connector as the dump shows them:
/// the connector's name, else its raw type byte.
pub open spec fn path_line_body(on: bool, i: nat, p: DisplayPath) -> Seq<char> {
    " path "@ + dec(i) + " - logical device "@ + painted(on, good_code(), p.device_tag_name@) + " · connector: "@
        + match p.connector_chip {
        Some(c) => c@,
        None => "unknown type (0x"@ + zero_padded(hex((p.connector_raw % 256) as nat), 2) + ")"@,
    }
}

#[verifier::spinoff_prover]
proof fn lemma_path_head_has(on: bool, i: nat, p: DisplayPath)
    ensures
        contains_text(path_text(on, i, p), path_line_body(on, i, p)),
{
    let a1 = "\n"@ + "  "@ + painted(on, value_code(), "▸"@);
    let m = path_line_body(on, i, p);
    let z: Seq<char> = (if p.connector_instance > 0 {
        " (instance "@ + dec(p.connector_instance as nat) + ")"@
    } else {
        seq![]
    }) + "\n"@ + path_encoders(p);
    assert(connector_text(p) == match p.connector_chip {
        Some(c) => c@,
        None => "unknown type (0x"@ + zero_padded(hex((p.connector_raw % 256) as nat), 2) + ")"@,
    }) by {
        reveal_strlit("unknown type (");
        reveal_strlit("0x");
        reveal_strlit("unknown type (0x");
        assert("unknown type ("@ + "0x"@ =~= "unknown type (0x"@);
    }
    assert(path_text(on, i, p) =~= a1 + m + z);
    lemma_contains_self(m);
    crate::textutil::lemma_contains_around(a1, m, z, m);
}

/// The video-output dump of a ROM with a path table shows every path
/// with its own number, logical device and connector.
pub proof fn law_display_dump_paths(d: DisplayInfo, on: bool, i: int)
    requires
        0 <= i < d.paths@.len(),
    ensures
        contains_text(display_text(on, d), path_line_body(on, i as nat, d.paths@[i])),
{
    let ps = d.paths@;
    lemma_paths_has(on, ps, ps.len() as int, i);
    lemma_path_head_has(on, i as nat, ps[i]);
    let pt = paths_text(on, ps, ps.len() as int);
    lemma_contains_trans(pt, path_text(on, i as nat, ps[i]), path_line_body(on, i as nat, ps[i]));
    let pre = heading_text(on, label_of(Section::Display)) + "\n"@ + painted(on, label_code(), display_note());
    assert(display_text(on, d) == pre + pt);
    lemma_contains_right(pre, pt, path_line_body(on, i as nat, ps[i]));
}

} // verus!
