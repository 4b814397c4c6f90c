//! `extract` subcommand: which PCIR chip images (EFI/legacy) to write, and
//! the files they go to.

use vstd::prelude::*;

use crate::cmd::transplant::PciImage;
use crate::num::{dec, push_dec};
use crate::render::sections::ascii_lower;
use crate::textutil::{chars_of, push_all, push_str_chars, string_of};

verus! {

/// `s` with its ASCII capitals lower-cased (`str::to_ascii_lowercase`).
pub open spec fn lowered(s: Seq<char>) -> Seq<char> {
    s.map_values(|c: char| ascii_lower(c))
}

fn lower_char(c: char) -> (r: char)
    ensures
        r == ascii_lower(c),
{
    if 'A' <= c && c <= 'Z' {
        ((c as u8) + 32) as char
    } else {
        c
    }
}

fn lowercase(s: &str) -> (r: Vec<char>)
    ensures
        r@ == lowered(s@),
{
    let cs = chars_of(s);
    let mut out: Vec<char> = Vec::new();
    let mut i: usize = 0;
    while i < cs.len()
        invariant
            i <= cs@.len(),
            cs@ == s@,
            out@ == lowered(s@).take(i as int),
        decreases cs@.len() - i,
    {
        out.push(lower_char(cs[i]));
        i = i + 1;
        assert(out@ =~= lowered(s@).take(i as int));
    }
    assert(lowered(s@).take(i as int) =~= lowered(s@));
    out
}

/// The images of `images` with code type `t`, in order.
pub open spec fn of_type(images: Seq<PciImage>, t: u8) -> Seq<PciImage>
    decreases images.len(),
{
    if images.len() == 0 {
        seq![]
    } else {
        let init = of_type(images.drop_last(), t);
        if images.last().code_type == t {
            init.push(images.last())
        } else {
            init
        }
    }
}

/// The message of an `--image` that is none of the three choices.
pub open spec fn unknown_image_msg(sel: Seq<char>) -> Seq<char> {
    "unknown --image '"@ + sel + "' (use 'efi', 'legacy' or 'all')"@
}

/// The images that `--image sel` selects, in chain order: `all` of them,
/// the `efi` ones (code type 0x03) or the `legacy` ones (code type 0x00),
/// the choice read in any ASCII case.
pub open spec fn selection(images: Seq<PciImage>, sel: Seq<char>) -> Result<
    Seq<PciImage>,
    Seq<char>,
> {
    let s = lowered(sel);
    if s == "all"@ {
        Ok(images)
    } else if s == "efi"@ {
        Ok(of_type(images, 0x03))
    } else if s == "legacy"@ {
        Ok(of_type(images, 0x00))
    } else {
        Err(unknown_image_msg(s))
    }
}

fn chars_eq(a: &Vec<char>, b: &str) -> (r: bool)
    ensures
        r == (a@ == b@),
{
    let bc = chars_of(b);
    assert(a@.subrange(0, a@.len() as int) == a@);
    crate::textutil::range_eq(a, 0, a.len(), &bc)
}

fn images_of_type(images: &[PciImage], t: u8) -> (r: Vec<PciImage>)
    ensures
        r@ == of_type(images@, t),
{
    let mut out: Vec<PciImage> = Vec::new();
    let mut i: usize = 0;
    assert(images@.take(0) =~= seq![]);
    while i < images.len()
        invariant
            i <= images@.len(),
            out@ == of_type(images@.take(i as int), t),
        decreases images@.len() - i,
    {
        if images[i].code_type == t {
            out.push(images[i].clone());
        }
        i = i + 1;
        proof {
            let p = images@.take(i as int);
            assert(p.drop_last() == images@.take(i - 1));
            assert(p.last() == images@[i - 1]);
        }
    }
    assert(images@.take(images@.len() as int) == images@);
    out
}

/// The images that `--image` selects (`efi`, `legacy` or `all`).
pub fn select_images(images: &[PciImage], sel: &str) -> (r: Result<Vec<PciImage>, String>)
    ensures
        match r {
            Ok(v) => selection(images@, sel@) == Ok::<Seq<PciImage>, Seq<char>>(v@),
            Err(e) => selection(images@, sel@) == Err::<Seq<PciImage>, Seq<char>>(e@),
        },
{
    let s = lowercase(sel);
    if chars_eq(&s, "all") {
        let mut out: Vec<PciImage> = Vec::new();
        let mut i: usize = 0;
        while i < images.len()
            invariant
                i <= images@.len(),
                out@ == images@.take(i as int),
            decreases images@.len() - i,
        {
            out.push(images[i].clone());
            i = i + 1;
            assert(out@ =~= images@.take(i as int));
        }
        assert(images@.take(images@.len() as int) == images@);
        Ok(out)
    } else if chars_eq(&s, "efi") {
        Ok(images_of_type(images, 0x03))
    } else if chars_eq(&s, "legacy") {
        Ok(images_of_type(images, 0x00))
    } else {
        let mut out: Vec<char> = Vec::new();
        push_str_chars(&mut out, "unknown --image '");
        push_all(&mut out, &s);
        push_str_chars(&mut out, "' (use 'efi', 'legacy' or 'all')");
        Err(string_of(&out))
    }
}

/// The file-name tag of a code type.
pub open spec fn type_tag(code_type: u8) -> Seq<char> {
    if code_type == 0x00 {
        "legacy"@
    } else if code_type == 0x03 {
        "efi"@
    } else {
        "image"@
    }
}

/// The file an image is written to: `STEM.INDEX-TYPE.bin`.
pub open spec fn image_file(stem: Seq<char>, img: PciImage) -> Seq<char> {
    stem + "."@ + dec(img.index as nat) + "-"@ + type_tag(img.code_type) + ".bin"@
}

/// The name of the file that `img` is extracted to, for a ROM whose file
/// stem is `stem`.
pub fn image_file_name(stem: &str, img: &PciImage) -> (r: String)
    ensures
        r@ == image_file(stem@, *img),
{
    let tag = match img.code_type {
        0x00 => "legacy",
        0x03 => "efi",
        _ => "image",
    };
    let mut out: Vec<char> = Vec::new();
    push_str_chars(&mut out, stem);
    push_str_chars(&mut out, ".");
    push_dec(&mut out, img.index as u64);
    push_str_chars(&mut out, "-");
    push_str_chars(&mut out, tag);
    push_str_chars(&mut out, ".bin");
    string_of(&out)
}

/// The end of the bytes of `img` in a file of `len` bytes: the declared
/// end, cut at the end of the file.
pub open spec fn image_end_in(img: PciImage, len: nat) -> nat {
    let end = img.file_offset + img.declared_size_bytes;
    if end <= len {
        end as nat
    } else {
        len
    }
}

/// Where the bytes of `img` end in a file of `len` bytes.
pub fn image_end(img: &PciImage, len: usize) -> (r: usize)
    requires
        img.file_offset + img.declared_size_bytes <= usize::MAX,
    ensures
        r == image_end_in(*img, len as nat),
{
    let end = img.file_offset + img.declared_size_bytes;
    if end <= len {
        end
    } else {
        len
    }
}

} // verus!
