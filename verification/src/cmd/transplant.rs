//! `transplant` subcommand: transplant PCI ROM images (Legacy/EFI)
//! between VBIOS files with safety guardrails.

use vstd::prelude::*;

use crate::num::{dec, hex, push_dec, push_hex, zero_padded};
use crate::textutil::{push_str_chars, string_of, views};

verus! {

/// One image of the PCI option-ROM chain of a VBIOS file.
pub struct PciImage {
    /// Position of the image in the chain.
    pub index: usize,
    /// Offset of the image (its `55 AA` header) in the file.
    pub file_offset: usize,
    /// Offset of the image's PCI data structure (`PCIR`) in the file.
    pub pcir_offset: usize,
    /// PCIR code type: 0x00 Legacy (x86), 0x03 EFI.
    pub code_type: u8,
    /// Display name of the code type.
    pub code_type_name: String,
    pub vendor_id: u16,
    pub device_id: u16,
    /// Image size declared in the PCIR structure.
    pub declared_size_bytes: usize,
}

impl Clone for PciImage {
    fn clone(&self) -> (r: Self)
        ensures
            r == *self,
    {
        PciImage {
            index: self.index,
            file_offset: self.file_offset,
            pcir_offset: self.pcir_offset,
            code_type: self.code_type,
            code_type_name: self.code_type_name.clone(),
            vendor_id: self.vendor_id,
            device_id: self.device_id,
            declared_size_bytes: self.declared_size_bytes,
        }
    }
}

/// Human-readable label of a PCI code type.
pub open spec fn type_label(code_type: u8) -> Seq<char> {
    if code_type == 0x03 {
        "EFI"@
    } else {
        "Legacy"@
    }
}

/// Human-readable label for a PCI code type.
fn code_type_label(code_type: u8) -> (r: &'static str)
    ensures
        r@ == type_label(code_type),
{
    if code_type == 0x03 {
        "EFI"
    } else {
        "Legacy"
    }
}

/// The little-endian 16-bit word at `at`.
pub open spec fn le_u16(data: Seq<u8>, at: int) -> int {
    data[at] as int + 256 * (data[at + 1] as int)
}

/// The bytes of the ATOM signature.
pub open spec fn atom_magic() -> Seq<u8> {
    seq![0x41u8, 0x54u8, 0x4Fu8, 0x4Du8]
}

/// The items of `{:?}` of a list of bytes, separated by `, `.
pub open spec fn debug_items(b: Seq<u8>) -> Seq<char>
    decreases b.len(),
{
    if b.len() == 0 {
        seq![]
    } else if b.len() == 1 {
        dec(b[0] as nat)
    } else {
        debug_items(b.drop_last()) + ", "@ + dec(b.last() as nat)
    }
}

/// `{:?}` of a list of bytes: `[a, b, c]`.
pub open spec fn debug_bytes(b: Seq<u8>) -> Seq<char> {
    "["@ + debug_items(b) + "]"@
}

/// The verdict on the ATOM signature of `img` in `data`: only Legacy
/// images are checked; the ATOM header, found through the pointer at
/// offset 0x48 of the image, must carry `ATOM` at its offset 4.
pub open spec fn atom_check(data: Seq<u8>, img: PciImage, label: Seq<char>) -> Result<
    (),
    Seq<char>,
> {
    if img.code_type != 0x00 {
        Ok(())
    } else {
        let field = img.file_offset + 0x48;
        if field + 2 > data.len() {
            Err(label + " Legacy image too small to contain ATOM pointer"@)
        } else {
            let abs = img.file_offset + le_u16(data, field);
            if abs + 8 > data.len() {
                Err(label + " ATOM pointer points past end of file"@)
            } else if data.subrange(abs + 4, abs + 8) != atom_magic() {
                Err(label + " Legacy image has no valid ATOM signature (found "@ + debug_bytes(
                    data.subrange(abs + 4, abs + 8),
                ) + " at 0x"@ + hex((abs + 4) as nat) + ")"@)
            } else {
                Ok(())
            }
        }
    }
}

/// Appends `{:?}` of `b` to `out`.
fn push_debug_bytes(out: &mut Vec<char>, b: &[u8])
    ensures
        final(out)@ == old(out)@ + debug_bytes(b@),
{
    let ghost start = out@;
    push_str_chars(out, "[");
    let mut i: usize = 0;
    assert(b@.take(0) =~= seq![]);
    while i < b.len()
        invariant
            i <= b@.len(),
            out@ == start + "["@ + debug_items(b@.take(i as int)),
        decreases b@.len() - i,
    {
        if i > 0 {
            push_str_chars(out, ", ");
        }
        push_dec(out, b[i] as u64);
        i = i + 1;
        proof {
            let p = b@.take(i as int);
            assert(p.drop_last() == b@.take(i - 1));
            assert(p.last() == b@[i - 1]);
            if i == 1 {
                assert(b@.take(0) =~= seq![]);
                assert(p[0] == b@[0]);
            }
        }
    }
    assert(b@.take(b@.len() as int) == b@);
    push_str_chars(out, "]");
}

/// Validates that a Legacy image contains a valid ATOM BIOS signature.
/// Returns Ok(()) if valid, Err(message) if invalid.
fn validate_atom_signature(data: &[u8], img: &PciImage, label: &str) -> (r: Result<(), String>)
    requires
        img.file_offset + 0x1_0050 <= usize::MAX,
    ensures
        match r {
            Ok(()) => atom_check(data@, *img, label@) == Ok::<(), Seq<char>>(()),
            Err(e) => atom_check(data@, *img, label@) == Err::<(), Seq<char>>(e@),
        },
{
    if img.code_type != 0x00 {
        return Ok(());  // Only validate Legacy images
    }
    let atom_ptr_field = img.file_offset + 0x48;
    if atom_ptr_field + 2 > data.len() {
        let mut m: Vec<char> = Vec::new();
        push_str_chars(&mut m, label);
        push_str_chars(&mut m, " Legacy image too small to contain ATOM pointer");
        return Err(string_of(&m));
    }
    let atom_offset: u16 = (data[atom_ptr_field] as u16) + 256 * (data[atom_ptr_field + 1] as u16);
    let abs = img.file_offset + atom_offset as usize;
    if abs + 8 > data.len() {
        let mut m: Vec<char> = Vec::new();
        push_str_chars(&mut m, label);
        push_str_chars(&mut m, " ATOM pointer points past end of file");
        return Err(string_of(&m));
    }
    let ok = data[abs + 4] == 0x41 && data[abs + 5] == 0x54 && data[abs + 6] == 0x4F && data[abs
        + 7] == 0x4D;
    let ghost sig = data@.subrange(abs + 4, abs + 8);
    proof {
        if ok {
            assert(sig =~= atom_magic());
        } else {
            assert(sig != atom_magic()) by {
                if sig == atom_magic() {
                    assert(sig[0] == data@[abs + 4]);
                    assert(sig[1] == data@[abs + 5]);
                    assert(sig[2] == data@[abs + 6]);
                    assert(sig[3] == data@[abs + 7]);
                }
            }
        }
    }
    if !ok {
        let mut m: Vec<char> = Vec::new();
        push_str_chars(&mut m, label);
        push_str_chars(&mut m, " Legacy image has no valid ATOM signature (found ");
        let sig_bytes = [data[abs + 4], data[abs + 5], data[abs + 6], data[abs + 7]];
        assert(sig_bytes@ =~= sig);
        push_debug_bytes(&mut m, &sig_bytes);
        push_str_chars(&mut m, " at 0x");
        push_hex(&mut m, (abs + 4) as u64, 0);
        push_str_chars(&mut m, ")");
        proof {
            assert(zero_padded(hex((abs + 4) as nat), 0) == hex((abs + 4) as nat));
        }
        return Err(string_of(&m));
    }
    Ok(())
}


/// Mode of transplantation.
#[derive(Debug, Clone, Copy, PartialEq, Eq, Structural)]
pub enum TransplantMode {
    /// Transplant EFI image only.
    Efi,
    /// Transplant Legacy image only.
    Legacy,
    /// Transplant both Legacy and EFI images.
    Both,
}

/// Position of the first image of `chain` with `code_type`, or -1.
pub open spec fn first_of_type(chain: Seq<PciImage>, code_type: u8) -> int
    decreases chain.len(),
{
    if chain.len() == 0 {
        -1
    } else if chain[0].code_type == code_type {
        0
    } else {
        let r = first_of_type(chain.skip(1), code_type);
        if r < 0 {
            -1
        } else {
            r + 1
        }
    }
}

proof fn lemma_first_of_type(chain: Seq<PciImage>, code_type: u8)
    ensures
        first_of_type(chain, code_type) < chain.len(),
        first_of_type(chain, code_type) >= 0 ==> chain[first_of_type(chain, code_type)].code_type
            == code_type,
        first_of_type(chain, code_type) >= 0 ==> forall|k: int|
            0 <= k < first_of_type(chain, code_type) ==> chain[k].code_type != code_type,
        first_of_type(chain, code_type) < 0 ==> forall|k: int|
            0 <= k < chain.len() ==> chain[k].code_type != code_type,
    decreases chain.len(),
{
    if chain.len() > 0 && chain[0].code_type != code_type {
        lemma_first_of_type(chain.skip(1), code_type);
        assert forall|k: int| 1 <= k < chain.len() implies chain[k] == chain.skip(1)[k - 1] by {}
    }
}

/// The message of an image index past the end of the chain.
pub open spec fn out_of_range_msg(idx: usize, len: nat) -> Seq<char> {
    "index "@ + dec(idx as nat) + " out of range (chain has "@ + dec(len) + " images)"@
}

/// The message of an image index whose image has the wrong code type.
pub open spec fn wrong_type_msg(idx: usize, img: PciImage, code_type: u8) -> Seq<char> {
    "index "@ + dec(idx as nat) + " is "@ + img.code_type_name@ + " (code_type=0x"@
        + zero_padded(hex(img.code_type as nat), 2) + "), expected "@ + type_label(code_type)
        + " (code_type=0x"@ + zero_padded(hex(code_type as nat), 2) + ")"@
}

/// The message of a chain without an image of the wanted type.
pub open spec fn no_image_msg(code_type: u8) -> Seq<char> {
    "no "@ + type_label(code_type) + " image found in chain"@
}

/// The image of `chain` with `code_type`: the one at `index` when it is
/// given, else the first of that type.
pub open spec fn image_choice(chain: Seq<PciImage>, code_type: u8, index: Option<usize>) -> Result<
    int,
    Seq<char>,
> {
    match index {
        Some(idx) => if idx >= chain.len() {
            Err(out_of_range_msg(idx, chain.len()))
        } else if chain[idx as int].code_type != code_type {
            Err(wrong_type_msg(idx, chain[idx as int], code_type))
        } else {
            Ok(idx as int)
        },
        None => if first_of_type(chain, code_type) < 0 {
            Err(no_image_msg(code_type))
        } else {
            Ok(first_of_type(chain, code_type))
        },
    }
}

/// Find an image in the chain by code type, optionally at a specific index.
fn find_image(chain: &[PciImage], code_type: u8, index: Option<usize>) -> (r: Result<
    &PciImage,
    String,
>)
    ensures
        match r {
            Ok(img) => image_choice(chain@, code_type, index) matches Ok(k) && 0 <= k
                < chain@.len() && *img == chain@[k],
            Err(e) => image_choice(chain@, code_type, index) == Err::<int, Seq<char>>(e@),
        },
{
    let label = code_type_label(code_type);
    if let Some(idx) = index {
        if idx >= chain.len() {
            let mut m: Vec<char> = Vec::new();
            push_str_chars(&mut m, "index ");
            push_dec(&mut m, idx as u64);
            push_str_chars(&mut m, " out of range (chain has ");
            push_dec(&mut m, chain.len() as u64);
            push_str_chars(&mut m, " images)");
            return Err(string_of(&m));
        }
        let img = &chain[idx];
        if img.code_type != code_type {
            let mut m: Vec<char> = Vec::new();
            push_str_chars(&mut m, "index ");
            push_dec(&mut m, idx as u64);
            push_str_chars(&mut m, " is ");
            push_str_chars(&mut m, img.code_type_name.as_str());
            push_str_chars(&mut m, " (code_type=0x");
            push_hex(&mut m, img.code_type as u64, 2);
            push_str_chars(&mut m, "), expected ");
            push_str_chars(&mut m, label);
            push_str_chars(&mut m, " (code_type=0x");
            push_hex(&mut m, code_type as u64, 2);
            push_str_chars(&mut m, ")");
            return Err(string_of(&m));
        }
        Ok(img)
    } else {
        proof {
            lemma_first_of_type(chain@, code_type);
        }
        let mut k: usize = 0;
        while k < chain.len()
            invariant
                index is None,
                k <= chain@.len(),
                forall|m: int| 0 <= m < k ==> chain@[m].code_type != code_type,
            decreases chain@.len() - k,
        {
            if chain[k].code_type == code_type {
                assert(first_of_type(chain@, code_type) == k as int) by {
                    lemma_first_of_type(chain@, code_type);
                }
                return Ok(&chain[k]);
            }
            k = k + 1;
        }
        assert(first_of_type(chain@, code_type) < 0) by {
            let f = first_of_type(chain@, code_type);
            if f >= 0 {
                assert(chain@[f].code_type == code_type);
            }
        }
        let mut m: Vec<char> = Vec::new();
        push_str_chars(&mut m, "no ");
        push_str_chars(&mut m, label);
        push_str_chars(&mut m, " image found in chain");
        Err(string_of(&m))
    }
}

/// The images that `find_image_pair` picks, or the error it records
/// (the target's first).
pub open spec fn pair_choice(
    target_chain: Seq<PciImage>,
    donor_chain: Seq<PciImage>,
    code_type: u8,
    target_index: Option<usize>,
    donor_index: Option<usize>,
) -> Result<(PciImage, PciImage), Seq<char>> {
    match image_choice(target_chain, code_type, target_index) {
        Err(e) => Err(e),
        Ok(t) => match image_choice(donor_chain, code_type, donor_index) {
            Err(e) => Err(e),
            Ok(d) => Ok((target_chain[t], donor_chain[d])),
        },
    }
}

/// Find target and donor images for a given code type, collecting errors.
fn find_image_pair(
    target_chain: &[PciImage],
    donor_chain: &[PciImage],
    code_type: u8,
    target_index: Option<usize>,
    donor_index: Option<usize>,
    all_errors: &mut Vec<String>,
) -> (r: (Option<PciImage>, Option<PciImage>))
    ensures
        match pair_choice(target_chain@, donor_chain@, code_type, target_index, donor_index) {
            Ok((t, d)) => r == (Some(t), Some(d)) && final(all_errors)@ == old(all_errors)@,
            Err(e) => r == (None::<PciImage>, None::<PciImage>) && views(final(all_errors)@)
                == views(old(all_errors)@).push(e),
        },
{
    let t = find_image(target_chain, code_type, target_index);
    let d = find_image(donor_chain, code_type, donor_index);
    match (t, d) {
        (Ok(t), Ok(d)) => (Some(t.clone()), Some(d.clone())),
        (Err(e), _) | (_, Err(e)) => {
            let ghost before = all_errors@;
            all_errors.push(e);
            assert(views(all_errors@) =~= views(before).push(e@));
            (None, None)
        },
    }
}

/// `[msg]` when `cond` holds, else nothing.
pub open spec fn msg_if(cond: bool, msg: Seq<char>) -> Seq<Seq<char>> {
    if cond {
        seq![msg]
    } else {
        seq![]
    }
}

/// The message of an ATOM check that failed, if it did.
pub open spec fn atom_msgs(r: Result<(), Seq<char>>) -> Seq<Seq<char>> {
    match r {
        Ok(()) => seq![],
        Err(e) => seq![e],
    }
}

/// The message of a donor image larger than the target's.
pub open spec fn larger_msg(label: Seq<char>, donor: PciImage, target: PciImage) -> Seq<char> {
    "donor "@ + label + " ("@ + dec(donor.declared_size_bytes as nat) + " bytes) is larger than target "@
        + label + " ("@ + dec(target.declared_size_bytes as nat)
        + " bytes); cannot expand without corrupting the PCI ROM chain"@
}

/// The warning of differing device IDs.
pub open spec fn device_msg(label: Seq<char>, donor: PciImage, target: PciImage) -> Seq<char> {
    label + " device ID mismatch: donor=0x"@ + zero_padded(hex(donor.device_id as nat), 4)
        + ", target=0x"@ + zero_padded(hex(target.device_id as nat), 4)
        + " (use --force to override)"@
}

/// The warning of differing vendor IDs.
pub open spec fn vendor_msg(label: Seq<char>, donor: PciImage, target: PciImage) -> Seq<char> {
    label + " vendor ID mismatch: donor=0x"@ + zero_padded(hex(donor.vendor_id as nat), 4)
        + ", target=0x"@ + zero_padded(hex(target.vendor_id as nat), 4)
}

/// The message of a donor image of size zero.
pub open spec fn zero_size_msg(label: Seq<char>) -> Seq<char> {
    "donor "@ + label + " image has zero declared size"@
}

/// The errors of an image pair, in the order they are checked.
pub open spec fn pair_errors(
    target: PciImage,
    donor: PciImage,
    donor_data: Seq<u8>,
    target_data: Seq<u8>,
    label: Seq<char>,
) -> Seq<Seq<char>> {
    msg_if(donor.declared_size_bytes > target.declared_size_bytes, larger_msg(label, donor, target))
        + msg_if(donor.declared_size_bytes == 0, zero_size_msg(label)) + atom_msgs(
        atom_check(donor_data, donor, "donor"@),
    ) + atom_msgs(atom_check(target_data, target, "target"@))
}

/// The ID checks of an image pair: device and vendor ID mismatches,
/// unless forced.
pub open spec fn pair_warnings(target: PciImage, donor: PciImage, force: bool, label: Seq<char>) -> Seq<
    Seq<char>,
> {
    msg_if(donor.device_id != target.device_id && !force, device_msg(label, donor, target))
        + msg_if(donor.vendor_id != target.vendor_id && !force, vendor_msg(label, donor, target))
}

/// The verdict on an image pair: refused with the errors followed by the
/// ID mismatches when there is any of either; `force` lets differing IDs
/// through.
pub open spec fn pair_verdict(
    target: PciImage,
    donor: PciImage,
    donor_data: Seq<u8>,
    target_data: Seq<u8>,
    force: bool,
    label: Seq<char>,
) -> Result<(), Seq<Seq<char>>> {
    let all = pair_errors(target, donor, donor_data, target_data, label) + pair_warnings(
        target,
        donor,
        force,
        label,
    );
    if all.len() == 0 {
        Ok(())
    } else {
        Err(all)
    }
}

/// Pushes `m` (as a `String`) to `list`.
fn push_msg(list: &mut Vec<String>, m: &Vec<char>)
    ensures
        views(final(list)@) == views(old(list)@).push(m@),
{
    let ghost before = list@;
    list.push(string_of(m));
    assert(views(list@) =~= views(before).push(m@));
}

/// Validate a single image pair (target vs donor) for size, device/vendor ID
/// (unless forced), zero-size, and ATOM signature. Returns `Ok(())` or a
/// list of errors.
fn validate_image_pair(
    target: &PciImage,
    donor: &PciImage,
    donor_data: &[u8],
    target_data: &[u8],
    force: bool,
    label: &str,
) -> (r: Result<(), Vec<String>>)
    requires
        target.file_offset + 0x1_0050 <= usize::MAX,
        donor.file_offset + 0x1_0050 <= usize::MAX,
    ensures
        match r {
            Ok(()) => pair_verdict(*target, *donor, donor_data@, target_data@, force, label@)
                == Ok::<(), Seq<Seq<char>>>(()),
            Err(errs) => pair_verdict(*target, *donor, donor_data@, target_data@, force, label@)
                == Err::<(), Seq<Seq<char>>>(views(errs@)),
        },
{
    let mut errors: Vec<String> = Vec::new();
    let mut warnings: Vec<String> = Vec::new();
    let ghost lbl = label@;

    if donor.declared_size_bytes > target.declared_size_bytes {
        let mut m: Vec<char> = Vec::new();
        push_str_chars(&mut m, "donor ");
        push_str_chars(&mut m, label);
        push_str_chars(&mut m, " (");
        push_dec(&mut m, donor.declared_size_bytes as u64);
        push_str_chars(&mut m, " bytes) is larger than target ");
        push_str_chars(&mut m, label);
        push_str_chars(&mut m, " (");
        push_dec(&mut m, target.declared_size_bytes as u64);
        push_str_chars(&mut m, " bytes); cannot expand without corrupting the PCI ROM chain");
        push_msg(&mut errors, &m);
    }
    let ghost e1 = views(errors@);
    assert(e1 == msg_if(
        donor.declared_size_bytes > target.declared_size_bytes,
        larger_msg(lbl, *donor, *target),
    ));
    if donor.device_id != target.device_id && !force {
        let mut m: Vec<char> = Vec::new();
        push_str_chars(&mut m, label);
        push_str_chars(&mut m, " device ID mismatch: donor=0x");
        push_hex(&mut m, donor.device_id as u64, 4);
        push_str_chars(&mut m, ", target=0x");
        push_hex(&mut m, target.device_id as u64, 4);
        push_str_chars(&mut m, " (use --force to override)");
        push_msg(&mut warnings, &m);
    }
    let ghost w1 = views(warnings@);
    if donor.vendor_id != target.vendor_id && !force {
        let mut m: Vec<char> = Vec::new();
        push_str_chars(&mut m, label);
        push_str_chars(&mut m, " vendor ID mismatch: donor=0x");
        push_hex(&mut m, donor.vendor_id as u64, 4);
        push_str_chars(&mut m, ", target=0x");
        push_hex(&mut m, target.vendor_id as u64, 4);
        push_msg(&mut warnings, &m);
    }
    assert(views(warnings@) == pair_warnings(*target, *donor, force, lbl));
    if donor.declared_size_bytes == 0 {
        let mut m: Vec<char> = Vec::new();
        push_str_chars(&mut m, "donor ");
        push_str_chars(&mut m, label);
        push_str_chars(&mut m, " image has zero declared size");
        push_msg(&mut errors, &m);
    }
    let ghost e2 = views(errors@);
    assert(e2 == e1 + msg_if(donor.declared_size_bytes == 0, zero_size_msg(lbl)));
    let ghost donor_check = atom_check(donor_data@, *donor, "donor"@);
    if let Err(e) = validate_atom_signature(donor_data, donor, "donor") {
        let ghost before = errors@;
        errors.push(e);
        assert(views(errors@) =~= views(before).push(e@));
    }
    let ghost e3 = views(errors@);
    assert(e3 == e2 + atom_msgs(donor_check));
    let ghost target_check = atom_check(target_data@, *target, "target"@);
    if let Err(e) = validate_atom_signature(target_data, target, "target") {
        let ghost before = errors@;
        errors.push(e);
        assert(views(errors@) =~= views(before).push(e@));
    }
    assert(views(errors@) == e3 + atom_msgs(target_check));
    assert(views(errors@) == pair_errors(*target, *donor, donor_data@, target_data@, lbl));

    let ghost before = views(errors@);
    errors.append(&mut warnings);
    assert(views(errors@) =~= before + pair_warnings(*target, *donor, force, lbl));
    if errors.len() == 0 {
        Ok(())
    } else {
        Err(errors)
    }
}


/// The transplant plan: the two chains and the images to swap.
pub struct TransplantPlan {
    pub target_chain: Vec<PciImage>,
    pub donor_chain: Vec<PciImage>,
    pub target_legacy: Option<PciImage>,
    pub source_legacy: Option<PciImage>,
    pub target_efi: Option<PciImage>,
    pub source_efi: Option<PciImage>,
    pub warnings: Vec<String>,
}

/// Arguments for validating a transplant operation.
pub struct TransplantArgs<'a> {
    pub target_data: &'a [u8],
    pub donor_data: &'a [u8],
    pub target_chain: &'a [PciImage],
    pub donor_chain: &'a [PciImage],
    pub mode: TransplantMode,
    pub target_index: Option<usize>,
    pub donor_index: Option<usize>,
    pub force: bool,
}

/// The file offsets of `chain` leave room for the ATOM pointer and
/// header reads without overflowing.
pub open spec fn offsets_fit(chain: Seq<PciImage>) -> bool {
    forall|k: int| 0 <= k < chain.len() ==> #[trigger] chain[k].file_offset + 0x1_0050 <= usize::MAX
}

/// The error messages of a pair verdict.
pub open spec fn verdict_msgs(r: Result<(), Seq<Seq<char>>>) -> Seq<Seq<char>> {
    match r {
        Ok(()) => seq![],
        Err(l) => l,
    }
}

/// The messages of the pair checks, for a pair that was found.
pub open spec fn checked_msgs(
    pair: Result<(PciImage, PciImage), Seq<char>>,
    donor_data: Seq<u8>,
    target_data: Seq<u8>,
    force: bool,
    label: Seq<char>,
) -> Seq<Seq<char>> {
    match pair {
        Ok((t, d)) => verdict_msgs(pair_verdict(t, d, donor_data, target_data, force, label)),
        Err(_) => seq![],
    }
}

/// The verdict on a transplant: the first image that cannot be found,
/// else all errors of the pair checks, else the images to swap
/// `(target Legacy, donor Legacy, target EFI, donor EFI)`.
pub open spec fn transplant_verdict(
    target_data: Seq<u8>,
    donor_data: Seq<u8>,
    target_chain: Seq<PciImage>,
    donor_chain: Seq<PciImage>,
    mode: TransplantMode,
    target_index: Option<usize>,
    donor_index: Option<usize>,
    force: bool,
) -> Result<
    (Option<PciImage>, Option<PciImage>, Option<PciImage>, Option<PciImage>),
    Seq<Seq<char>>,
> {
    let need_legacy = mode != TransplantMode::Efi;
    let need_efi = mode != TransplantMode::Legacy;
    let legacy = pair_choice(target_chain, donor_chain, 0x00, target_index, donor_index);
    let efi = pair_choice(target_chain, donor_chain, 0x03, target_index, donor_index);
    if need_legacy && legacy is Err {
        Err(seq![legacy->Err_0])
    } else if need_efi && efi is Err {
        Err(seq![efi->Err_0])
    } else {
        let errors = (if need_legacy {
            checked_msgs(legacy, donor_data, target_data, force, "Legacy"@)
        } else {
            seq![]
        }) + (if need_efi {
            checked_msgs(efi, donor_data, target_data, force, "EFI"@)
        } else {
            seq![]
        });
        if errors.len() > 0 {
            Err(errors)
        } else {
            Ok(
                (
                    if need_legacy {
                        Some(legacy->Ok_0.0)
                    } else {
                        None
                    },
                    if need_legacy {
                        Some(legacy->Ok_0.1)
                    } else {
                        None
                    },
                    if need_efi {
                        Some(efi->Ok_0.0)
                    } else {
                        None
                    },
                    if need_efi {
                        Some(efi->Ok_0.1)
                    } else {
                        None
                    },
                ),
            )
        }
    }
}

proof fn lemma_pair_choice_in_chain(
    target_chain: Seq<PciImage>,
    donor_chain: Seq<PciImage>,
    code_type: u8,
    target_index: Option<usize>,
    donor_index: Option<usize>,
)
    requires
        offsets_fit(target_chain),
        offsets_fit(donor_chain),
    ensures
        pair_choice(target_chain, donor_chain, code_type, target_index, donor_index) matches Ok(
            (t, d),
        ) ==> t.file_offset + 0x1_0050 <= usize::MAX && d.file_offset + 0x1_0050 <= usize::MAX,
{
    lemma_first_of_type(target_chain, code_type);
    lemma_first_of_type(donor_chain, code_type);
    match image_choice(target_chain, code_type, target_index) {
        Ok(t) => {
            assert(0 <= t < target_chain.len());
            match image_choice(donor_chain, code_type, donor_index) {
                Ok(d) => {
                    assert(0 <= d < donor_chain.len());
                    assert(target_chain[t].file_offset + 0x1_0050 <= usize::MAX);
                    assert(donor_chain[d].file_offset + 0x1_0050 <= usize::MAX);
                },
                Err(_) => {},
            }
        },
        Err(_) => {},
    }
}

/// Validate a transplant operation and build a plan.
pub fn validate_transplant(args: &TransplantArgs<'_>) -> (r: Result<TransplantPlan, Vec<String>>)
    requires
        offsets_fit(args.target_chain@),
        offsets_fit(args.donor_chain@),
    ensures
        match transplant_verdict(
            args.target_data@,
            args.donor_data@,
            args.target_chain@,
            args.donor_chain@,
            args.mode,
            args.target_index,
            args.donor_index,
            args.force,
        ) {
            Ok((tl, sl, te, se)) => r matches Ok(plan) && plan.target_chain@ == args.target_chain@
                && plan.donor_chain@ == args.donor_chain@ && plan.target_legacy == tl
                && plan.source_legacy == sl && plan.target_efi == te && plan.source_efi == se
                && plan.warnings@.len() == 0,
            Err(errs) => r matches Err(e) && views(e@) == errs,
        },
{
    let mut all_errors: Vec<String> = Vec::new();

    let need_legacy = args.mode != TransplantMode::Efi;
    let need_efi = args.mode != TransplantMode::Legacy;
    let ghost legacy = pair_choice(
        args.target_chain@,
        args.donor_chain@,
        0x00,
        args.target_index,
        args.donor_index,
    );
    let ghost efi = pair_choice(
        args.target_chain@,
        args.donor_chain@,
        0x03,
        args.target_index,
        args.donor_index,
    );
    proof {
        lemma_pair_choice_in_chain(
            args.target_chain@,
            args.donor_chain@,
            0x00,
            args.target_index,
            args.donor_index,
        );
        lemma_pair_choice_in_chain(
            args.target_chain@,
            args.donor_chain@,
            0x03,
            args.target_index,
            args.donor_index,
        );
    }

    let (target_legacy, source_legacy) = if need_legacy {
        let (t, d) = find_image_pair(
            args.target_chain,
            args.donor_chain,
            0x00,
            args.target_index,
            args.donor_index,
            &mut all_errors,
        );
        if all_errors.len() != 0 {
            assert(views(all_errors@) =~= seq![legacy->Err_0]);
            return Err(all_errors);
        }
        (t, d)
    } else {
        (None, None)
    };

    let (target_efi, source_efi) = if need_efi {
        let (t, d) = find_image_pair(
            args.target_chain,
            args.donor_chain,
            0x03,
            args.target_index,
            args.donor_index,
            &mut all_errors,
        );
        if all_errors.len() != 0 {
            assert(views(all_errors@) =~= seq![efi->Err_0]);
            return Err(all_errors);
        }
        (t, d)
    } else {
        (None, None)
    };
    assert(views(all_errors@) =~= seq![]);

    if let (Some(t), Some(d)) = (&target_legacy, &source_legacy) {
        match validate_image_pair(t, d, args.donor_data, args.target_data, args.force, "Legacy") {
            Ok(()) => {},
            Err(errs) => {
                let mut errs = errs;
                let ghost before = views(all_errors@);
                let ghost added = views(errs@);
                all_errors.append(&mut errs);
                assert(views(all_errors@) =~= before + added);
            },
        }
    }
    let ghost after_legacy = views(all_errors@);
    assert(after_legacy == (if need_legacy {
        checked_msgs(legacy, args.donor_data@, args.target_data@, args.force, "Legacy"@)
    } else {
        seq![]
    }));
    if let (Some(t), Some(d)) = (&target_efi, &source_efi) {
        match validate_image_pair(t, d, args.donor_data, args.target_data, args.force, "EFI") {
            Ok(()) => {},
            Err(errs) => {
                let mut errs = errs;
                let ghost before = views(all_errors@);
                let ghost added = views(errs@);
                all_errors.append(&mut errs);
                assert(views(all_errors@) =~= before + added);
            },
        }
    }
    assert(views(all_errors@) =~= after_legacy + (if need_efi {
        checked_msgs(efi, args.donor_data@, args.target_data@, args.force, "EFI"@)
    } else {
        seq![]
    }));

    if all_errors.len() != 0 {
        return Err(all_errors);
    }

    let mut target_chain: Vec<PciImage> = Vec::new();
    let mut k: usize = 0;
    while k < args.target_chain.len()
        invariant
            k <= args.target_chain@.len(),
            target_chain@ == args.target_chain@.take(k as int),
        decreases args.target_chain@.len() - k,
    {
        target_chain.push(args.target_chain[k].clone());
        k = k + 1;
        assert(target_chain@ == args.target_chain@.take(k as int));
    }
    assert(args.target_chain@.take(k as int) == args.target_chain@);
    let mut donor_chain: Vec<PciImage> = Vec::new();
    let mut k: usize = 0;
    while k < args.donor_chain.len()
        invariant
            k <= args.donor_chain@.len(),
            donor_chain@ == args.donor_chain@.take(k as int),
        decreases args.donor_chain@.len() - k,
    {
        donor_chain.push(args.donor_chain[k].clone());
        k = k + 1;
        assert(donor_chain@ == args.donor_chain@.take(k as int));
    }
    assert(args.donor_chain@.take(k as int) == args.donor_chain@);

    Ok(
        TransplantPlan {
            target_chain,
            donor_chain,
            target_legacy,
            source_legacy,
            target_efi,
            source_efi,
            warnings: Vec::new(),
        },
    )
}

/// `s` with `[from, to)` set to `b`.
pub open spec fn filled(s: Seq<u8>, from: int, to: int, b: u8) -> Seq<u8> {
    Seq::new(s.len(), |i: int| if from <= i < to { b } else { s[i] })
}

/// `s` with `src` copied over it from `at` on.
pub open spec fn copied_into(s: Seq<u8>, at: int, src: Seq<u8>) -> Seq<u8> {
    Seq::new(s.len(), |i: int| if at <= i < at + src.len() { src[i - at] } else { s[i] })
}

/// The message of a donor image that runs past the donor file.
pub open spec fn donor_past_end_msg(src_end: nat, len: nat) -> Seq<char> {
    "donor image extends past end of file (src_end=0x"@ + hex(src_end) + ", file_len=0x"@ + hex(
        len,
    ) + ")"@
}

/// The message of a target image that runs past the output.
pub open spec fn target_past_end_msg(dst_end: nat, len: nat) -> Seq<char> {
    "target image extends past end of file (dst_end=0x"@ + hex(dst_end) + ", file_len=0x"@ + hex(
        len,
    ) + ")"@
}

/// The bytes copied: as many as both images declare.
pub open spec fn copy_size(target: PciImage, donor: PciImage) -> int {
    if donor.declared_size_bytes <= target.declared_size_bytes {
        donor.declared_size_bytes as int
    } else {
        target.declared_size_bytes as int
    }
}

/// The message of an indicator byte that lies past the output.
pub open spec fn indicator_past_end_msg(at: nat, len: nat) -> Seq<char> {
    "target indicator byte lies past end of file (offset=0x"@ + hex(at) + ", file_len=0x"@ + hex(
        len,
    ) + ")"@
}

/// The outcome of transplanting `donor` over `target` in `out`: the
/// donor image is copied to the target's offset, the target's
/// indicator byte (PCIR + 0x15) is restored, and a shorter donor is
/// padded with 0xFF to the target's size. Any of these places that lies
/// outside the files refuses the transplant, before anything is written.
pub open spec fn transplanted(
    out: Seq<u8>,
    donor_data: Seq<u8>,
    target: PciImage,
    donor: PciImage,
    indicator: u8,
) -> Result<Seq<u8>, Seq<char>> {
    let n = copy_size(target, donor);
    let src_end = donor.file_offset + n;
    let dst_end = target.file_offset + n;
    let ind = target.pcir_offset + 0x15;
    let pads = donor.declared_size_bytes < target.declared_size_bytes;
    let target_end = target.file_offset + target.declared_size_bytes;
    if src_end > donor_data.len() {
        Err(donor_past_end_msg(src_end as nat, donor_data.len()))
    } else if dst_end > out.len() {
        Err(target_past_end_msg(dst_end as nat, out.len()))
    } else if ind >= out.len() {
        Err(indicator_past_end_msg(ind as nat, out.len()))
    } else if pads && target_end > out.len() {
        Err(target_past_end_msg(target_end as nat, out.len()))
    } else {
        let s1 = copied_into(
            out,
            target.file_offset as int,
            donor_data.subrange(donor.file_offset as int, src_end),
        );
        let s2 = s1.update(ind, indicator);
        Ok(
            if pads {
                filled(s2, target.file_offset + donor.declared_size_bytes, target_end, 0xFF)
            } else {
                s2
            },
        )
    }
}

/// The ends of both images and the indicator byte's offset fit in `usize`.
pub open spec fn offsets_in_range(target: PciImage, donor: PciImage) -> bool {
    &&& donor.file_offset + donor.declared_size_bytes <= usize::MAX
    &&& target.file_offset + target.declared_size_bytes <= usize::MAX
    &&& target.pcir_offset + 0x15 <= usize::MAX
}

/// Transplant a single image from donor into output at the target's offset.
/// Returns Err, with the output untouched, if a bounds check fails (fatal --
/// do not write output).
pub fn transplant_image(
    output: &mut [u8],
    donor_data: &[u8],
    target_img: &PciImage,
    donor_img: &PciImage,
    target_data_indicator: u8,
) -> (r: Result<(), String>)
    requires
        offsets_in_range(*target_img, *donor_img),
    ensures
        match r {
            Ok(()) => transplanted(
                old(output)@,
                donor_data@,
                *target_img,
                *donor_img,
                target_data_indicator,
            ) == Ok::<Seq<u8>, Seq<char>>(final(output)@),
            Err(e) => transplanted(
                old(output)@,
                donor_data@,
                *target_img,
                *donor_img,
                target_data_indicator,
            ) == Err::<Seq<u8>, Seq<char>>(e@) && final(output)@ == old(output)@,
        },
{
    let copy_size = if donor_img.declared_size_bytes <= target_img.declared_size_bytes {
        donor_img.declared_size_bytes
    } else {
        target_img.declared_size_bytes
    };
    let src_start = donor_img.file_offset;
    let src_end = src_start + copy_size;
    let dst_start = target_img.file_offset;
    let dst_end = dst_start + copy_size;

    if src_end > donor_data.len() {
        let mut m: Vec<char> = Vec::new();
        push_str_chars(&mut m, "donor image extends past end of file (src_end=0x");
        push_hex(&mut m, src_end as u64, 0);
        push_str_chars(&mut m, ", file_len=0x");
        push_hex(&mut m, donor_data.len() as u64, 0);
        push_str_chars(&mut m, ")");
        assert(zero_padded(hex(src_end as nat), 0) == hex(src_end as nat));
        assert(zero_padded(hex(donor_data@.len()), 0) == hex(donor_data@.len()));
        return Err(string_of(&m));
    }
    if dst_end > output.len() {
        let mut m: Vec<char> = Vec::new();
        push_str_chars(&mut m, "target image extends past end of file (dst_end=0x");
        push_hex(&mut m, dst_end as u64, 0);
        push_str_chars(&mut m, ", file_len=0x");
        push_hex(&mut m, output.len() as u64, 0);
        push_str_chars(&mut m, ")");
        assert(zero_padded(hex(dst_end as nat), 0) == hex(dst_end as nat));
        assert(zero_padded(hex(old(output)@.len()), 0) == hex(old(output)@.len()));
        return Err(string_of(&m));
    }
    let ind = target_img.pcir_offset + 0x15;
    if ind >= output.len() {
        let mut m: Vec<char> = Vec::new();
        push_str_chars(&mut m, "target indicator byte lies past end of file (offset=0x");
        push_hex(&mut m, ind as u64, 0);
        push_str_chars(&mut m, ", file_len=0x");
        push_hex(&mut m, output.len() as u64, 0);
        push_str_chars(&mut m, ")");
        assert(zero_padded(hex(ind as nat), 0) == hex(ind as nat));
        assert(zero_padded(hex(old(output)@.len()), 0) == hex(old(output)@.len()));
        return Err(string_of(&m));
    }
    let target_end = dst_start + target_img.declared_size_bytes;
    if donor_img.declared_size_bytes < target_img.declared_size_bytes && target_end > output.len() {
        let mut m: Vec<char> = Vec::new();
        push_str_chars(&mut m, "target image extends past end of file (dst_end=0x");
        push_hex(&mut m, target_end as u64, 0);
        push_str_chars(&mut m, ", file_len=0x");
        push_hex(&mut m, output.len() as u64, 0);
        push_str_chars(&mut m, ")");
        assert(zero_padded(hex(target_end as nat), 0) == hex(target_end as nat));
        assert(zero_padded(hex(old(output)@.len()), 0) == hex(old(output)@.len()));
        return Err(string_of(&m));
    }

    let ghost src = donor_data@.subrange(src_start as int, src_end as int);
    let mut k: usize = 0;
    while k < copy_size
        invariant
            k <= copy_size,
            src_end == src_start + copy_size <= donor_data@.len(),
            dst_end == dst_start + copy_size <= output@.len(),
            output@.len() == old(output)@.len(),
            src == donor_data@.subrange(src_start as int, src_end as int),
            output@ == copied_into(old(output)@, dst_start as int, src.take(k as int)),
        decreases copy_size - k,
    {
        output[dst_start + k] = donor_data[src_start + k];
        k = k + 1;
        assert(output@ =~= copied_into(old(output)@, dst_start as int, src.take(k as int)));
    }
    assert(src.take(copy_size as int) == src);

    // Preserve the target's original indicator byte.
    output[ind] = target_data_indicator;

    // Pad with 0xFF if donor is smaller than target.
    if donor_img.declared_size_bytes < target_img.declared_size_bytes {
        let pad_start = dst_start + donor_img.declared_size_bytes;
        let pad_end = dst_start + target_img.declared_size_bytes;
        let ghost s2 = output@;
        let mut p = pad_start;
        while p < pad_end
            invariant
                pad_start <= p <= pad_end <= output@.len(),
                output@.len() == s2.len(),
                output@ == filled(s2, pad_start as int, p as int, 0xFF),
            decreases pad_end - p,
        {
            output[p] = 0xFF;
            p = p + 1;
            assert(output@ =~= filled(s2, pad_start as int, p as int, 0xFF));
        }
    }
    Ok(())
}

/// The message of a failed transplant of one pair.
pub open spec fn pair_failed_msg(label: Seq<char>, e: Seq<char>) -> Seq<char> {
    label + " transplant failed: "@ + e
}

/// Transplant one image pair (target + donor), returning a labeled error on
/// failure so the caller can decide whether to abort.
pub fn transplant_pair(
    output: &mut [u8],
    donor_data: &[u8],
    target_data: &[u8],
    target_img: &PciImage,
    donor_img: &PciImage,
    label: &str,
) -> (r: Result<(), String>)
    requires
        target_img.pcir_offset + 0x15 < target_data@.len(),
        offsets_in_range(*target_img, *donor_img),
    ensures
        ({
            let ind = target_data@[target_img.pcir_offset + 0x15];
            match r {
                Ok(()) => transplanted(old(output)@, donor_data@, *target_img, *donor_img, ind)
                    == Ok::<Seq<u8>, Seq<char>>(final(output)@),
                Err(e) => (transplanted(old(output)@, donor_data@, *target_img, *donor_img, ind) matches Err(
                    inner,
                ) && e@ == pair_failed_msg(label@, inner)) && final(output)@ == old(output)@,
            }
        }),
{
    assert(target_data@.len() == target_data.len());
    let target_indicator = target_data[target_img.pcir_offset + 0x15];
    match transplant_image(output, donor_data, target_img, donor_img, target_indicator) {
        Ok(()) => Ok(()),
        Err(e) => {
            let mut m: Vec<char> = Vec::new();
            push_str_chars(&mut m, label);
            push_str_chars(&mut m, " transplant failed: ");
            push_str_chars(&mut m, e.as_str());
            Err(string_of(&m))
        },
    }
}

/// A transplant changes nothing outside the target image but the
/// indicator byte: every byte before the target's offset or past its
/// declared end keeps its value.
pub proof fn law_transplant_confined(
    out: Seq<u8>,
    donor_data: Seq<u8>,
    target: PciImage,
    donor: PciImage,
    indicator: u8,
    i: int,
)
    requires
        0 <= i < out.len(),
        i < target.file_offset || i >= target.file_offset + target.declared_size_bytes,
        i != target.pcir_offset + 0x15,
        offsets_in_range(target, donor),
    ensures
        transplanted(out, donor_data, target, donor, indicator) matches Ok(res) ==> res.len()
            == out.len() && res[i] == out[i],
{
    let n = copy_size(target, donor);
    let src_end = donor.file_offset + n;
    let dst_end = target.file_offset + n;
    let ind = target.pcir_offset + 0x15;
    let target_end = target.file_offset + target.declared_size_bytes;
    let pads = donor.declared_size_bytes < target.declared_size_bytes;
    if src_end <= donor_data.len() && dst_end <= out.len() && ind < out.len() && !(pads
        && target_end > out.len()) {
        let src = donor_data.subrange(donor.file_offset as int, src_end);
        let s1 = copied_into(out, target.file_offset as int, src);
        let s2 = s1.update(target.pcir_offset + 0x15, indicator);
        assert(s1[i] == out[i]);
        assert(s2[i] == s1[i]);
        if donor.declared_size_bytes < target.declared_size_bytes {
            let s3 = filled(
                s2,
                target.file_offset + donor.declared_size_bytes,
                target.file_offset + target.declared_size_bytes,
                0xFF,
            );
            assert(s3[i] == s2[i]);
        }
    }
}

/// A transplant that succeeds leaves the donor's bytes at the target's
/// offset (except the indicator byte) and 0xFF in the rest of a larger
/// target image.
pub proof fn law_transplant_copies_donor(
    out: Seq<u8>,
    donor_data: Seq<u8>,
    target: PciImage,
    donor: PciImage,
    indicator: u8,
    j: int,
)
    requires
        0 <= j < target.declared_size_bytes,
        target.file_offset + target.declared_size_bytes <= out.len(),
        target.file_offset + j != target.pcir_offset + 0x15,
        offsets_in_range(target, donor),
    ensures
        transplanted(out, donor_data, target, donor, indicator) matches Ok(res) ==> res[target.file_offset + j]
            == if j < donor.declared_size_bytes {
            donor_data[donor.file_offset + j]
        } else {
            0xFFu8
        },
{
    let n = copy_size(target, donor);
    let src_end = donor.file_offset + n;
    let dst_end = target.file_offset + n;
    let i = target.file_offset + j;
    let ind = target.pcir_offset + 0x15;
    let target_end = target.file_offset + target.declared_size_bytes;
    let pads = donor.declared_size_bytes < target.declared_size_bytes;
    if src_end <= donor_data.len() && dst_end <= out.len() && ind < out.len() && !(pads
        && target_end > out.len()) {
        let src = donor_data.subrange(donor.file_offset as int, src_end);
        let s1 = copied_into(out, target.file_offset as int, src);
        let s2 = s1.update(target.pcir_offset + 0x15, indicator);
        if j < n {
            assert(s1[i] == src[j]);
            assert(src[j] == donor_data[donor.file_offset + j]);
        }
        assert(s2[i] == s1[i]);
        if donor.declared_size_bytes < target.declared_size_bytes {
            let s3 = filled(
                s2,
                target.file_offset + donor.declared_size_bytes,
                target.file_offset + target.declared_size_bytes,
                0xFF,
            );
            if j >= donor.declared_size_bytes {
                assert(s3[i] == 0xFFu8);
            } else {
                assert(s3[i] == s2[i]);
            }
        }
    }
}


/// `donor - target` as a signed decimal number.
pub open spec fn signed_diff(donor: nat, target: nat) -> Seq<char> {
    if donor < target {
        "-"@ + dec((target - donor) as nat)
    } else {
        dec((donor - target) as nat)
    }
}

/// The device-ID verdict line of an image pair.
pub open spec fn device_check_text(target: PciImage, donor: PciImage, label: Seq<char>) -> Seq<char> {
    if donor.device_id == target.device_id {
        "  "@ + label + " device IDs match (0x"@ + zero_padded(hex(donor.device_id as nat), 4)
            + ")\n"@
    } else {
        "  WARNING: "@ + label + " device IDs differ (donor=0x"@ + zero_padded(
            hex(donor.device_id as nat),
            4,
        ) + ", target=0x"@ + zero_padded(hex(target.device_id as nat), 4) + ")\n"@
    }
}

/// The size comparison and device-ID verdict of an image pair.
pub open spec fn image_status_text(target: PciImage, donor: PciImage, label: Seq<char>) -> Seq<char> {
    let d = donor.declared_size_bytes as nat;
    let t = target.declared_size_bytes as nat;
    "  "@ + label + ": donor["@ + dec(donor.index as nat) + "] ("@ + dec(d) + "B) -> target["@
        + dec(target.index as nat) + "] ("@ + dec(t) + "B) diff="@ + size_verdict_text(d, t)
        + device_check_text(target, donor, label)
}

/// `f` of a found image pair, nothing otherwise.
pub open spec fn pair_text(
    target: Option<PciImage>,
    donor: Option<PciImage>,
    label: Seq<char>,
    status: bool,
) -> Seq<char> {
    match (target, donor) {
        (Some(t), Some(d)) => if status {
            image_status_text(t, d, label)
        } else {
            device_check_text(t, d, label)
        },
        _ => seq![],
    }
}

/// One line per image of a chain.
pub open spec fn chain_text(chain: Seq<PciImage>) -> Seq<char>
    decreases chain.len(),
{
    if chain.len() == 0 {
        seq![]
    } else {
        let img = chain.last();
        chain_text(chain.drop_last()) + "  ["@ + dec(img.index as nat) + "] "@
            + img.code_type_name@ + " @ 0x"@ + zero_padded(hex(img.file_offset as nat), 5) + " ("@
            + dec(img.declared_size_bytes as nat) + "B) dev=0x"@ + zero_padded(
            hex(img.device_id as nat),
            4,
        ) + "\n"@
    }
}

/// One `WARNING:` line per plan warning.
pub open spec fn warnings_text(ws: Seq<Seq<char>>) -> Seq<char>
    decreases ws.len(),
{
    if ws.len() == 0 {
        seq![]
    } else {
        warnings_text(ws.drop_last()) + "  WARNING: "@ + ws.last() + "\n"@
    }
}

/// The option that selects `mode`.
pub open spec fn mode_flag(mode: TransplantMode) -> Seq<char> {
    match mode {
        TransplantMode::Efi => "--efi"@,
        TransplantMode::Legacy => "--legacy"@,
        TransplantMode::Both => "--both"@,
    }
}

/// The dry-run report of a transplant plan.
pub open spec fn plan_report(
    plan: TransplantPlan,
    mode: TransplantMode,
    target_path: Seq<char>,
    donor_path: Seq<char>,
    out_path: Seq<char>,
    target_size: nat,
) -> Seq<char> {
    "=== Transplant Plan ===\n\n"@ + "Target: "@ + target_path + "\n"@ + chain_text(
        plan.target_chain@,
    ) + "\nDonor: "@ + donor_path + "\n"@ + chain_text(plan.donor_chain@) + "\nOperation: "@
        + mode_flag(mode) + "\n"@ + pair_text(plan.target_legacy, plan.source_legacy, "Legacy"@, true)
        + pair_text(plan.target_efi, plan.source_efi, "EFI"@, true) + "\nGuardrails:\n"@ + pair_text(
        plan.target_legacy,
        plan.source_legacy,
        "Legacy"@,
        false,
    ) + pair_text(plan.target_efi, plan.source_efi, "EFI"@, false) + warnings_text(
        views(plan.warnings@),
    ) + "\nOutput: "@ + out_path + " ("@ + dec(target_size) + " bytes)\n"@
}

fn push_device_check(out: &mut Vec<char>, target: &PciImage, donor: &PciImage, label: &str)
    ensures
        final(out)@ == old(out)@ + device_check_text(*target, *donor, label@),
{
    if donor.device_id == target.device_id {
        push_str_chars(out, "  ");
        push_str_chars(out, label);
        push_str_chars(out, " device IDs match (0x");
        push_hex(out, donor.device_id as u64, 4);
        push_str_chars(out, ")\n");
    } else {
        push_str_chars(out, "  WARNING: ");
        push_str_chars(out, label);
        push_str_chars(out, " device IDs differ (donor=0x");
        push_hex(out, donor.device_id as u64, 4);
        push_str_chars(out, ", target=0x");
        push_hex(out, target.device_id as u64, 4);
        push_str_chars(out, ")\n");
    }
}

/// The size diff and device-ID status for one image pair.
fn push_image_status(out: &mut Vec<char>, target: &PciImage, donor: &PciImage, label: &str)
    ensures
        final(out)@ == old(out)@ + image_status_text(*target, *donor, label@),
{
    let d = donor.declared_size_bytes;
    let t = target.declared_size_bytes;
    push_str_chars(out, "  ");
    push_str_chars(out, label);
    push_str_chars(out, ": donor[");
    push_dec(out, donor.index as u64);
    push_str_chars(out, "] (");
    push_dec(out, d as u64);
    push_str_chars(out, "B) -> target[");
    push_dec(out, target.index as u64);
    push_str_chars(out, "] (");
    push_dec(out, t as u64);
    push_str_chars(out, "B) diff=");
    push_size_verdict(out, d, t);
    push_device_check(out, target, donor, label);
}

/// The signed size difference and the note on padding of an image pair.
pub open spec fn size_verdict_text(d: nat, t: nat) -> Seq<char> {
    signed_diff(d, t) + "B\n"@ + (if d < t {
        "    (donor smaller, will pad with 0xFF)\n"@
    } else if d == t {
        "    (exact match)\n"@
    } else {
        seq![]
    })
}

fn push_size_verdict(out: &mut Vec<char>, d: usize, t: usize)
    ensures
        final(out)@ == old(out)@ + size_verdict_text(d as nat, t as nat),
{
    if d < t {
        push_str_chars(out, "-");
        push_dec(out, (t - d) as u64);
    } else {
        push_dec(out, (d - t) as u64);
    }
    push_str_chars(out, "B\n");
    if d < t {
        push_str_chars(out, "    (donor smaller, will pad with 0xFF)\n");
    } else if d == t {
        push_str_chars(out, "    (exact match)\n");
    }
}

#[verifier::rlimit(50)]
fn push_chain(out: &mut Vec<char>, chain: &Vec<PciImage>)
    ensures
        final(out)@ == old(out)@ + chain_text(chain@),
{
    let ghost start = out@;
    let mut k: usize = 0;
    assert(chain@.take(0) =~= seq![]);
    while k < chain.len()
        invariant
            k <= chain@.len(),
            out@ == start + chain_text(chain@.take(k as int)),
        decreases chain@.len() - k,
    {
        let img = &chain[k];
        push_str_chars(out, "  [");
        push_dec(out, img.index as u64);
        push_str_chars(out, "] ");
        push_str_chars(out, img.code_type_name.as_str());
        push_str_chars(out, " @ 0x");
        push_hex(out, img.file_offset as u64, 5);
        push_str_chars(out, " (");
        push_dec(out, img.declared_size_bytes as u64);
        push_str_chars(out, "B) dev=0x");
        push_hex(out, img.device_id as u64, 4);
        push_str_chars(out, "\n");
        k = k + 1;
        proof {
            let p = chain@.take(k as int);
            assert(p.drop_last() == chain@.take(k - 1));
            assert(p.last() == *img);
        }
    }
    assert(chain@.take(chain@.len() as int) == chain@);
}

/// The transplant plan as the dry-run report shows it.
pub fn plan_text(
    plan: &TransplantPlan,
    mode: TransplantMode,
    target_path: &str,
    donor_path: &str,
    out_path: &str,
    target_size: usize,
) -> (r: String)
    ensures
        r@ == plan_report(*plan, mode, target_path@, donor_path@, out_path@, target_size as nat),
{
    let mut out: Vec<char> = Vec::new();
    push_str_chars(&mut out, "=== Transplant Plan ===\n\n");
    push_str_chars(&mut out, "Target: ");
    push_str_chars(&mut out, target_path);
    push_str_chars(&mut out, "\n");
    push_chain(&mut out, &plan.target_chain);
    push_str_chars(&mut out, "\nDonor: ");
    push_str_chars(&mut out, donor_path);
    push_str_chars(&mut out, "\n");
    push_chain(&mut out, &plan.donor_chain);
    let op_str = match mode {
        TransplantMode::Efi => "--efi",
        TransplantMode::Legacy => "--legacy",
        TransplantMode::Both => "--both",
    };
    push_str_chars(&mut out, "\nOperation: ");
    push_str_chars(&mut out, op_str);
    push_str_chars(&mut out, "\n");
    if let (Some(t), Some(d)) = (&plan.target_legacy, &plan.source_legacy) {
        push_image_status(&mut out, t, d, "Legacy");
    }
    if let (Some(t), Some(d)) = (&plan.target_efi, &plan.source_efi) {
        push_image_status(&mut out, t, d, "EFI");
    }
    push_str_chars(&mut out, "\nGuardrails:\n");
    if let (Some(t), Some(d)) = (&plan.target_legacy, &plan.source_legacy) {
        push_device_check(&mut out, t, d, "Legacy");
    }
    if let (Some(t), Some(d)) = (&plan.target_efi, &plan.source_efi) {
        push_device_check(&mut out, t, d, "EFI");
    }
    let ghost ws = views(plan.warnings@);
    let ghost before_w = out@;
    let mut k: usize = 0;
    assert(ws.take(0) =~= seq![]);
    while k < plan.warnings.len()
        invariant
            k <= plan.warnings@.len(),
            ws == views(plan.warnings@),
            out@ == before_w + warnings_text(ws.take(k as int)),
        decreases plan.warnings@.len() - k,
    {
        push_str_chars(&mut out, "  WARNING: ");
        push_str_chars(&mut out, plan.warnings[k].as_str());
        push_str_chars(&mut out, "\n");
        k = k + 1;
        proof {
            let p = ws.take(k as int);
            assert(p.drop_last() == ws.take(k - 1));
            assert(p.last() == plan.warnings@[k - 1]@);
        }
    }
    assert(ws.take(plan.warnings@.len() as int) == ws);
    push_str_chars(&mut out, "\nOutput: ");
    push_str_chars(&mut out, out_path);
    push_str_chars(&mut out, " (");
    push_dec(&mut out, target_size as u64);
    push_str_chars(&mut out, " bytes)\n");
    string_of(&out)
}

/// The images of `plan` can be transplanted into `target_data` from
/// `donor_data` without reading or writing out of bounds.
pub open spec fn plan_in_bounds(plan: TransplantPlan, target_data: Seq<u8>, donor_data: Seq<u8>) -> bool {
    &&& pair_in_bounds(plan.target_legacy, plan.source_legacy, target_data, donor_data)
    &&& pair_in_bounds(plan.target_efi, plan.source_efi, target_data, donor_data)
}

/// Whether a transplant of the donor image into the target image stays
/// inside both files, where both images were found.
pub open spec fn pair_in_bounds(
    target: Option<PciImage>,
    donor: Option<PciImage>,
    target_data: Seq<u8>,
    donor_data: Seq<u8>,
) -> bool {
    match (target, donor) {
        (Some(t), Some(d)) => {
            &&& t.pcir_offset + 0x15 < target_data.len()
            &&& offsets_in_range(t, d)
        },
        _ => true,
    }
}

/// The outcome of a transplant of one image pair into `out`, keeping the
/// indicator byte of the original target file.
pub open spec fn pair_outcome(
    out: Seq<u8>,
    target_data: Seq<u8>,
    donor_data: Seq<u8>,
    target: Option<PciImage>,
    donor: Option<PciImage>,
    label: Seq<char>,
) -> Result<Seq<u8>, Seq<char>> {
    match (target, donor) {
        (Some(t), Some(d)) => match transplanted(
            out,
            donor_data,
            t,
            d,
            target_data[t.pcir_offset + 0x15],
        ) {
            Ok(o) => Ok(o),
            Err(e) => Err(pair_failed_msg(label, e)),
        },
        _ => Ok(out),
    }
}

/// The new image of a transplant: the Legacy pair, then the EFI pair,
/// transplanted into a copy of the target file.
pub open spec fn plan_outcome(plan: TransplantPlan, target_data: Seq<u8>, donor_data: Seq<u8>) -> Result<
    Seq<u8>,
    Seq<char>,
> {
    match pair_outcome(
        target_data,
        target_data,
        donor_data,
        plan.target_legacy,
        plan.source_legacy,
        "legacy"@,
    ) {
        Err(e) => Err(e),
        Ok(o) => pair_outcome(o, target_data, donor_data, plan.target_efi, plan.source_efi, "EFI"@),
    }
}

/// The transplanted image (before the checksum is fixed): the plan's
/// image pairs transplanted into a copy of the target file.
pub fn transplant_output(target_data: &[u8], donor_data: &[u8], plan: &TransplantPlan) -> (r:
    Result<Vec<u8>, String>)
    requires
        plan_in_bounds(*plan, target_data@, donor_data@),
    ensures
        match r {
            Ok(o) => plan_outcome(*plan, target_data@, donor_data@) == Ok::<Seq<u8>, Seq<char>>(o@),
            Err(e) => plan_outcome(*plan, target_data@, donor_data@) == Err::<Seq<u8>, Seq<char>>(
                e@,
            ),
        },
{
    let mut output: Vec<u8> = Vec::new();
    let mut k: usize = 0;
    while k < target_data.len()
        invariant
            k <= target_data@.len(),
            output@ == target_data@.take(k as int),
        decreases target_data@.len() - k,
    {
        output.push(target_data[k]);
        k = k + 1;
        assert(output@ == target_data@.take(k as int));
    }
    assert(target_data@.take(k as int) == target_data@);
    if let (Some(t), Some(d)) = (&plan.target_legacy, &plan.source_legacy) {
        match transplant_pair(output.as_mut_slice(), donor_data, target_data, t, d, "legacy") {
            Ok(()) => {},
            Err(e) => {
                return Err(e);
            },
        }
    }
    let ghost mid = output@;
    assert(pair_outcome(
        target_data@,
        target_data@,
        donor_data@,
        plan.target_legacy,
        plan.source_legacy,
        "legacy"@,
    ) == Ok::<Seq<u8>, Seq<char>>(mid));
    proof {
        reveal_strlit("legacy");
    }
    if let (Some(t), Some(d)) = (&plan.target_efi, &plan.source_efi) {
        assert(mid.len() == target_data@.len()) by {
            if let (Some(lt), Some(ld)) = (plan.target_legacy, plan.source_legacy) {
                law_transplant_length(target_data@, donor_data@, lt, ld, target_data@[lt.pcir_offset + 0x15]);
            }
        }
        match transplant_pair(output.as_mut_slice(), donor_data, target_data, t, d, "EFI") {
            Ok(()) => {},
            Err(e) => {
                return Err(e);
            },
        }
    }
    Ok(output)
}

/// A transplant keeps the size of the file it writes into.
pub proof fn law_transplant_length(
    out: Seq<u8>,
    donor_data: Seq<u8>,
    target: PciImage,
    donor: PciImage,
    indicator: u8,
)
    requires
        offsets_in_range(target, donor),
    ensures
        transplanted(out, donor_data, target, donor, indicator) matches Ok(res) ==> res.len()
            == out.len(),
{
    let n = copy_size(target, donor);
    let src_end = donor.file_offset + n;
    let dst_end = target.file_offset + n;
    let ind = target.pcir_offset + 0x15;
    let target_end = target.file_offset + target.declared_size_bytes;
    let pads = donor.declared_size_bytes < target.declared_size_bytes;
    if src_end <= donor_data.len() && dst_end <= out.len() && ind < out.len() && !(pads
        && target_end > out.len()) {
        let s1 = copied_into(
            out,
            target.file_offset as int,
            donor_data.subrange(donor.file_offset as int, src_end),
        );
        assert(s1.len() == out.len());
        let s2 = s1.update(target.pcir_offset + 0x15, indicator);
        assert(s2.len() == out.len());
    }
}

} // verus!
