//! The identification section of the dump: file size, ATOM header,
//! PowerPlay revision, subsystem IDs, checksum and the build strings.

use vstd::prelude::*;

use crate::num::{dec, hex, push_dec, push_hex, zero_padded};
use crate::render::color::{bad_code, good_code, label_code, pad, padded, painted, Palette};
use crate::render::sections::{label_of, Section};
use crate::render::text::{div_round_even, heading, heading_text, kv, kv_text};
use crate::textutil::{
    contains_text, joined, lemma_contains_left, lemma_contains_right, lemma_contains_self,
    push_str_chars, string_of, views,
};

verus! {

/// What the identification section shows of a ROM image.
pub struct HeaderInfo {
    pub file_size: u32,
    pub atom_header_offset: u64,
    pub atom_fmt_rev: u8,
    pub atom_cont_rev: u8,
    pub master_data_table_offset: u64,
    pub master_cmd_table_offset: u64,
    pub pp_table_revision: u64,
    pub pp_fmt_rev: u8,
    pub pp_cont_rev: u8,
    pub subsystem_vendor_id: u16,
    pub subsystem_device_id: u16,
    /// The catalogued name of the subsystem vendor, when known.
    pub subsystem_vendor_name: Option<String>,
    pub checksum_valid: bool,
    pub checksum_checked_bytes: u64,
    pub checksum_computed_sum: u8,
    pub bios_bootup_message: Option<String>,
    pub config_filename: Option<String>,
    pub build_date_candidates: Vec<String>,
    /// Names of the command tables the ROM provides.
    pub command_tables_present: Vec<String>,
    /// How many command tables the ATOM layout knows of.
    pub command_table_count: u64,
}

/// `0x` and the upper-case hex digits of `n`.
pub open spec fn hex0x(n: nat) -> Seq<char> {
    "0x"@ + hex(n)
}

/// The family note of a PowerPlay header format revision.
pub open spec fn pp_family(fmt_rev: u8) -> Seq<char> {
    if fmt_rev == 7 {
        "Tonga/Fiji/Polaris family"@
    } else {
        "unusual format for Polaris - check the warnings"@
    }
}

/// The value of the subsystem line: `VVVV:DDDD (name)`.
pub open spec fn subsystem_text(h: HeaderInfo) -> Seq<char> {
    zero_padded(hex(h.subsystem_vendor_id as nat), 4) + ":"@ + zero_padded(
        hex(h.subsystem_device_id as nat),
        4,
    ) + match h.subsystem_vendor_name {
        Some(name) => " ("@ + name@ + ")"@,
        None => " (uncatalogued vendor)"@,
    }
}

/// The value of the file size line: bytes and rounded KiB.
pub open spec fn file_size_text(size: u32) -> Seq<char> {
    dec(size as nat) + " bytes ("@ + dec(div_round_even(size as nat, 1024)) + " KiB)"@
}

/// The value of the PowerPlay line: revision, format and family note.
pub open spec fn powerplay_text(h: HeaderInfo) -> Seq<char> {
    dec(h.pp_table_revision as nat) + " (format "@ + dec(h.pp_fmt_rev as nat) + "."@ + dec(
        h.pp_cont_rev as nat,
    ) + ") - "@ + pp_family(h.pp_fmt_rev)
}

/// `major.minor`.
pub open spec fn rev_text(major: u8, minor: u8) -> Seq<char> {
    dec(major as nat) + "."@ + dec(minor as nat)
}

/// A key/value line followed by a line break.
pub open spec fn kv_line(on: bool, k: Seq<char>, v: Seq<char>) -> Seq<char> {
    kv_text(on, k, v) + "\n"@
}

/// The fixed lines of the section, from the heading to the subsystem line
/// (each followed by a line break).
pub open spec fn header_core_text(h: HeaderInfo, on: bool) -> Seq<char> {
    heading_text(on, label_of(Section::Header)) + "\n"@ + kv_line(
        on,
        "File size"@,
        file_size_text(h.file_size),
    ) + kv_line(on, "ATOM header at"@, hex0x(h.atom_header_offset as nat)) + kv_line(
        on,
        "ATOM format/revision"@,
        rev_text(h.atom_fmt_rev, h.atom_cont_rev),
    ) + kv_line(on, "Master Data Table"@, hex0x(h.master_data_table_offset as nat)) + kv_line(
        on,
        "Master Command Table"@,
        hex0x(h.master_cmd_table_offset as nat),
    ) + kv_line(on, "PowerPlay table rev."@, powerplay_text(h)) + kv_line(
        on,
        "Subsystem vendor:device"@,
        subsystem_text(h),
    )
}

/// The checksum line: OK in green, or INVALID in red with the byte sum.
pub open spec fn checksum_text(h: HeaderInfo, on: bool) -> Seq<char> {
    "  "@ + painted(on, label_code(), padded("Checksum"@, 28)) + "  "@ + if h.checksum_valid {
        painted(
            on,
            good_code(),
            "OK (sum 0x00 over "@ + dec(h.checksum_checked_bytes as nat) + " bytes)"@,
        )
    } else {
        painted(
            on,
            bad_code(),
            "INVALID (sum 0x"@ + zero_padded(hex(h.checksum_computed_sum as nat), 2)
                + ", expected 0x00, over "@ + dec(h.checksum_checked_bytes as nat)
                + " declared bytes)"@,
        )
    }
}

/// The bullet list of the command tables present.
pub open spec fn bullet_lines(names: Seq<Seq<char>>) -> Seq<char>
    decreases names.len(),
{
    if names.len() == 0 {
        seq![]
    } else {
        bullet_lines(names.drop_last()) + "    • "@ + names.last() + "\n"@
    }
}

/// The command table count line and list, when the ROM has any.
pub open spec fn command_tables_text(h: HeaderInfo, on: bool) -> Seq<char> {
    let tables = views(h.command_tables_present@);
    if tables.len() == 0 {
        seq![]
    } else {
        "\n  "@ + painted(on, label_code(), "Command tables"@) + " ("@ + dec(tables.len()) + " of "@
            + dec(h.command_table_count as nat) + " present)\n"@ + bullet_lines(tables)
    }
}

/// The optional lines after the checksum line: boot message, config file
/// name, build date candidates and the command table list.
pub open spec fn header_tail_text(h: HeaderInfo, on: bool) -> Seq<char> {
    (match h.bios_bootup_message {
        Some(m) => "\n"@ + kv_text(on, "BIOS bootup message"@, m@),
        None => seq![],
    }) + (match h.config_filename {
        Some(c) => "\n"@ + kv_text(on, "Config filename (BIOS build)"@, c@),
        None => seq![],
    }) + (if h.build_date_candidates@.len() == 0 {
        seq![]
    } else {
        "\n"@ + kv_text(
            on,
            "Build date (heuristic)"@,
            joined(views(h.build_date_candidates@), " · "@),
        )
    }) + command_tables_text(h, on)
}

/// The whole identification section.
pub open spec fn header_text(h: HeaderInfo, on: bool) -> Seq<char> {
    header_core_text(h, on) + checksum_text(h, on) + header_tail_text(h, on)
}

fn push_kv(out: &mut Vec<char>, pal: &Palette, k: &str, v: &Vec<char>)
    ensures
        final(out)@ == old(out)@ + kv_line(pal.on, k@, v@),
{
    push_str_chars(out, kv(pal, k, string_of(v).as_str()).as_str());
    push_str_chars(out, "\n");
}

fn hex0x_chars(n: u64) -> (r: Vec<char>)
    ensures
        r@ == hex0x(n as nat),
{
    let mut v: Vec<char> = Vec::new();
    push_str_chars(&mut v, "0x");
    push_hex(&mut v, n, 0);
    v
}

fn file_size_chars(size: u32) -> (r: Vec<char>)
    ensures
        r@ == file_size_text(size),
{
    let mut v: Vec<char> = Vec::new();
    push_dec(&mut v, size as u64);
    push_str_chars(&mut v, " bytes (");
    let q = size / 1024;
    let rem = size % 1024;
    let kib = if 2 * (rem as u64) > 1024 {
        q + 1
    } else if 2 * (rem as u64) < 1024 {
        q
    } else if q % 2 == 0 {
        q
    } else {
        q + 1
    };
    assert(kib == div_round_even(size as nat, 1024));
    push_dec(&mut v, kib as u64);
    push_str_chars(&mut v, " KiB)");
    v
}

fn rev_chars(major: u8, minor: u8) -> (r: Vec<char>)
    ensures
        r@ == rev_text(major, minor),
{
    let mut v: Vec<char> = Vec::new();
    push_dec(&mut v, major as u64);
    push_str_chars(&mut v, ".");
    push_dec(&mut v, minor as u64);
    v
}

fn powerplay_chars(h: &HeaderInfo) -> (r: Vec<char>)
    ensures
        r@ == powerplay_text(*h),
{
    let mut v: Vec<char> = Vec::new();
    push_dec(&mut v, h.pp_table_revision);
    push_str_chars(&mut v, " (format ");
    push_dec(&mut v, h.pp_fmt_rev as u64);
    push_str_chars(&mut v, ".");
    push_dec(&mut v, h.pp_cont_rev as u64);
    push_str_chars(&mut v, ") - ");
    if h.pp_fmt_rev == 7 {
        push_str_chars(&mut v, "Tonga/Fiji/Polaris family");
    } else {
        push_str_chars(&mut v, "unusual format for Polaris - check the warnings");
    }
    v
}

fn subsystem_chars(h: &HeaderInfo) -> (r: Vec<char>)
    ensures
        r@ == subsystem_text(*h),
{
    let mut v: Vec<char> = Vec::new();
    push_hex(&mut v, h.subsystem_vendor_id as u64, 4);
    push_str_chars(&mut v, ":");
    push_hex(&mut v, h.subsystem_device_id as u64, 4);
    match &h.subsystem_vendor_name {
        Some(name) => {
            push_str_chars(&mut v, " (");
            push_str_chars(&mut v, name.as_str());
            push_str_chars(&mut v, ")");
        },
        None => {
            push_str_chars(&mut v, " (uncatalogued vendor)");
        },
    }
    v
}

#[verifier::rlimit(40)]
#[verifier::spinoff_prover]
fn push_header_core(out: &mut Vec<char>, h: &HeaderInfo, pal: &Palette)
    ensures
        final(out)@ == old(out)@ + header_core_text(*h, pal.on),
{
    let ghost on = pal.on;
    let ghost s0 = out@;
    push_str_chars(out, heading(pal, Section::Header.label()).as_str());
    push_str_chars(out, "\n");
    let ghost s1 = out@;
    push_kv(out, pal, "File size", &file_size_chars(h.file_size));
    let ghost s2 = out@;
    push_kv(out, pal, "ATOM header at", &hex0x_chars(h.atom_header_offset));
    let ghost s3 = out@;
    push_kv(out, pal, "ATOM format/revision", &rev_chars(h.atom_fmt_rev, h.atom_cont_rev));
    let ghost s4 = out@;
    push_kv(out, pal, "Master Data Table", &hex0x_chars(h.master_data_table_offset));
    let ghost s5 = out@;
    push_kv(out, pal, "Master Command Table", &hex0x_chars(h.master_cmd_table_offset));
    let ghost s6 = out@;
    push_kv(out, pal, "PowerPlay table rev.", &powerplay_chars(h));
    let ghost s7 = out@;
    push_kv(out, pal, "Subsystem vendor:device", &subsystem_chars(h));
    assert(out@ =~= s0 + header_core_text(*h, pal.on));
}

#[verifier::spinoff_prover]
fn push_checksum(out: &mut Vec<char>, h: &HeaderInfo, pal: &Palette)
    ensures
        final(out)@ == old(out)@ + checksum_text(*h, pal.on),
{
    push_str_chars(out, "  ");
    push_str_chars(out, pal.label(pad("Checksum", 28).as_str()).as_str());
    push_str_chars(out, "  ");
    let mut v: Vec<char> = Vec::new();
    if h.checksum_valid {
        push_str_chars(&mut v, "OK (sum 0x00 over ");
        push_dec(&mut v, h.checksum_checked_bytes);
        push_str_chars(&mut v, " bytes)");
        push_str_chars(out, pal.good(string_of(&v).as_str()).as_str());
    } else {
        push_str_chars(&mut v, "INVALID (sum 0x");
        push_hex(&mut v, h.checksum_computed_sum as u64, 2);
        push_str_chars(&mut v, ", expected 0x00, over ");
        push_dec(&mut v, h.checksum_checked_bytes);
        push_str_chars(&mut v, " declared bytes)");
        push_str_chars(out, pal.bad(string_of(&v).as_str()).as_str());
    }
}

/// Appends the bullet line of each name.
pub fn push_bullets(out: &mut Vec<char>, names: &Vec<String>)
    ensures
        final(out)@ == old(out)@ + bullet_lines(views(names@)),
{
    let ghost start = out@;
    let mut i: usize = 0;
    while i < names.len()
        invariant
            i <= names@.len(),
            out@ == start + bullet_lines(views(names@).take(i as int)),
        decreases names@.len() - i,
    {
        push_str_chars(out, "    • ");
        push_str_chars(out, names[i].as_str());
        push_str_chars(out, "\n");
        proof {
            let t = views(names@).take(i + 1);
            assert(t.drop_last() == views(names@).take(i as int));
            assert(t.last() == names@[i as int]@);
        }
        i = i + 1;
    }
    assert(views(names@).take(names@.len() as int) == views(names@));
}

/// Joins the strings with `sep`.
pub fn join_strings(parts: &Vec<String>, sep: &str) -> (r: String)
    ensures
        r@ == joined(views(parts@), sep@),
{
    let mut out: Vec<char> = Vec::new();
    let mut i: usize = 0;
    while i < parts.len()
        invariant
            i <= parts@.len(),
            out@ == joined(views(parts@).take(i as int), sep@),
        decreases parts@.len() - i,
    {
        if i > 0 {
            push_str_chars(&mut out, sep);
        }
        push_str_chars(&mut out, parts[i].as_str());
        proof {
            let t = views(parts@).take(i + 1);
            assert(t.drop_last() == views(parts@).take(i as int));
            assert(t.last() == parts@[i as int]@);
        }
        i = i + 1;
    }
    assert(views(parts@).take(parts@.len() as int) == views(parts@));
    string_of(&out)
}

#[verifier::rlimit(40)]
#[verifier::spinoff_prover]
fn push_header_tail(out: &mut Vec<char>, h: &HeaderInfo, pal: &Palette)
    ensures
        final(out)@ == old(out)@ + header_tail_text(*h, pal.on),
{
    let ghost s0 = out@;
    if let Some(m) = &h.bios_bootup_message {
        push_str_chars(out, "\n");
        push_str_chars(out, kv(pal, "BIOS bootup message", m.as_str()).as_str());
    }
    let ghost s1 = out@;
    if let Some(c) = &h.config_filename {
        push_str_chars(out, "\n");
        push_str_chars(out, kv(pal, "Config filename (BIOS build)", c.as_str()).as_str());
    }
    let ghost s2 = out@;
    if h.build_date_candidates.len() > 0 {
        push_str_chars(out, "\n");
        let j = join_strings(&h.build_date_candidates, " · ");
        push_str_chars(out, kv(pal, "Build date (heuristic)", j.as_str()).as_str());
    }
    let ghost s3 = out@;
    push_command_tables(out, h, pal);
    assert(out@ =~= s0 + header_tail_text(*h, pal.on));
}

fn push_command_tables(out: &mut Vec<char>, h: &HeaderInfo, pal: &Palette)
    ensures
        final(out)@ == old(out)@ + command_tables_text(*h, pal.on),
{
    let ghost s0 = out@;
    if h.command_tables_present.len() > 0 {
        push_str_chars(out, "\n  ");
        push_str_chars(out, pal.label("Command tables").as_str());
        push_str_chars(out, " (");
        push_dec(out, h.command_tables_present.len() as u64);
        push_str_chars(out, " of ");
        push_dec(out, h.command_table_count);
        push_str_chars(out, " present)\n");
        push_bullets(out, &h.command_tables_present);
    }
    assert(out@ =~= s0 + command_tables_text(*h, pal.on));
}

/// Renders the identification section of a dump.
pub fn render_header(h: &HeaderInfo, pal: &Palette) -> (r: String)
    ensures
        r@ == header_text(*h, pal.on),
{
    let mut out: Vec<char> = Vec::new();
    push_header_core(&mut out, h, pal);
    push_checksum(&mut out, h, pal);
    push_header_tail(&mut out, h, pal);
    string_of(&out)
}

/// The identification dump shows each value of the ROM on the line
/// named for it: file size in bytes and rounded KiB, ATOM header offset,
/// ATOM format and revision, the master data and command table offsets,
/// the PowerPlay table revision with its format, and the subsystem vendor
/// and device IDs with the vendor's name.
#[verifier::spinoff_prover]
pub proof fn law_header_dump_lines(h: HeaderInfo, on: bool)
    ensures
        contains_text(header_text(h, on), (kv_text(on, "File size"@, dec(h.file_size as nat) + " bytes ("@ + dec(div_round_even(h.file_size as nat, 1024)) + " KiB)"@) + "\n"@)),
        contains_text(header_text(h, on), (kv_text(on, "ATOM header at"@, "0x"@ + hex(h.atom_header_offset as nat)) + "\n"@)),
        contains_text(header_text(h, on), (kv_text(on, "ATOM format/revision"@, dec(h.atom_fmt_rev as nat) + "."@ + dec(h.atom_cont_rev as nat)) + "\n"@)),
        contains_text(header_text(h, on), (kv_text(on, "Master Data Table"@, "0x"@ + hex(h.master_data_table_offset as nat)) + "\n"@)),
        contains_text(header_text(h, on), (kv_text(on, "Master Command Table"@, "0x"@ + hex(h.master_cmd_table_offset as nat)) + "\n"@)),
        contains_text(header_text(h, on), (kv_text(on, "PowerPlay table rev."@, dec(h.pp_table_revision as nat) + " (format "@ + dec(h.pp_fmt_rev as nat) + "."@ + dec(h.pp_cont_rev as nat) + ") - "@ + pp_family(h.pp_fmt_rev)) + "\n"@)),
        contains_text(header_text(h, on), (kv_text(on, "Subsystem vendor:device"@, zero_padded(hex(h.subsystem_vendor_id as nat), 4) + ":"@ + zero_padded(hex(h.subsystem_device_id as nat), 4) + match h.subsystem_vendor_name { Some(name) => " ("@ + name@ + ")"@, None => " (uncatalogued vendor)"@ }) + "\n"@)),
{
    let c0 = heading_text(on, label_of(Section::Header)) + "\n"@;
    let l0 = (kv_text(on, "File size"@, dec(h.file_size as nat) + " bytes ("@ + dec(div_round_even(h.file_size as nat, 1024)) + " KiB)"@) + "\n"@);
    let l1 = (kv_text(on, "ATOM header at"@, "0x"@ + hex(h.atom_header_offset as nat)) + "\n"@);
    let l2 = (kv_text(on, "ATOM format/revision"@, dec(h.atom_fmt_rev as nat) + "."@ + dec(h.atom_cont_rev as nat)) + "\n"@);
    let l3 = (kv_text(on, "Master Data Table"@, "0x"@ + hex(h.master_data_table_offset as nat)) + "\n"@);
    let l4 = (kv_text(on, "Master Command Table"@, "0x"@ + hex(h.master_cmd_table_offset as nat)) + "\n"@);
    let l5 = (kv_text(on, "PowerPlay table rev."@, dec(h.pp_table_revision as nat) + " (format "@ + dec(h.pp_fmt_rev as nat) + "."@ + dec(h.pp_cont_rev as nat) + ") - "@ + pp_family(h.pp_fmt_rev)) + "\n"@);
    let l6 = (kv_text(on, "Subsystem vendor:device"@, zero_padded(hex(h.subsystem_vendor_id as nat), 4) + ":"@ + zero_padded(hex(h.subsystem_device_id as nat), 4) + match h.subsystem_vendor_name { Some(name) => " ("@ + name@ + ")"@, None => " (uncatalogued vendor)"@ }) + "\n"@);
    let c1 = c0 + l0;
    let c2 = c1 + l1;
    let c3 = c2 + l2;
    let c4 = c3 + l3;
    let c5 = c4 + l4;
    let c6 = c5 + l5;
    let c7 = c6 + l6;
    assert(header_core_text(h, on) == c7);
    let ck = checksum_text(h, on);
    let tl = header_tail_text(h, on);
    lemma_contains_self(l0);
    lemma_contains_right(c0, l0, l0);
    lemma_contains_left(c1, l1, l0);
    lemma_contains_left(c2, l2, l0);
    lemma_contains_left(c3, l3, l0);
    lemma_contains_left(c4, l4, l0);
    lemma_contains_left(c5, l5, l0);
    lemma_contains_left(c6, l6, l0);
    lemma_contains_left(c7, ck, l0);
    lemma_contains_left(c7 + ck, tl, l0);
    lemma_contains_self(l1);
    lemma_contains_right(c1, l1, l1);
    lemma_contains_left(c2, l2, l1);
    lemma_contains_left(c3, l3, l1);
    lemma_contains_left(c4, l4, l1);
    lemma_contains_left(c5, l5, l1);
    lemma_contains_left(c6, l6, l1);
    lemma_contains_left(c7, ck, l1);
    lemma_contains_left(c7 + ck, tl, l1);
    lemma_contains_self(l2);
    lemma_contains_right(c2, l2, l2);
    lemma_contains_left(c3, l3, l2);
    lemma_contains_left(c4, l4, l2);
    lemma_contains_left(c5, l5, l2);
    lemma_contains_left(c6, l6, l2);
    lemma_contains_left(c7, ck, l2);
    lemma_contains_left(c7 + ck, tl, l2);
    lemma_contains_self(l3);
    lemma_contains_right(c3, l3, l3);
    lemma_contains_left(c4, l4, l3);
    lemma_contains_left(c5, l5, l3);
    lemma_contains_left(c6, l6, l3);
    lemma_contains_left(c7, ck, l3);
    lemma_contains_left(c7 + ck, tl, l3);
    lemma_contains_self(l4);
    lemma_contains_right(c4, l4, l4);
    lemma_contains_left(c5, l5, l4);
    lemma_contains_left(c6, l6, l4);
    lemma_contains_left(c7, ck, l4);
    lemma_contains_left(c7 + ck, tl, l4);
    lemma_contains_self(l5);
    lemma_contains_right(c5, l5, l5);
    lemma_contains_left(c6, l6, l5);
    lemma_contains_left(c7, ck, l5);
    lemma_contains_left(c7 + ck, tl, l5);
    lemma_contains_self(l6);
    lemma_contains_right(c6, l6, l6);
    lemma_contains_left(c7, ck, l6);
    lemma_contains_left(c7 + ck, tl, l6);
}

/// The checksum line of the identification dump says OK, with the number
/// of bytes summed, exactly when the checksum is valid, and otherwise
/// INVALID with the byte sum found.
pub proof fn law_header_dump_checksum(h: HeaderInfo, on: bool)
    ensures
        h.checksum_valid ==> contains_text(
            header_text(h, on),
            painted(on, good_code(), "OK (sum 0x00 over "@ + dec(h.checksum_checked_bytes as nat) + " bytes)"@),
        ),
        !h.checksum_valid ==> contains_text(
            header_text(h, on),
            painted(
                on,
                bad_code(),
                "INVALID (sum 0x"@ + zero_padded(hex(h.checksum_computed_sum as nat), 2) + ", expected 0x00, over "@
                    + dec(h.checksum_checked_bytes as nat) + " declared bytes)"@,
            ),
        ),
{
    let pre = "  "@ + painted(on, label_code(), padded("Checksum"@, 28)) + "  "@;
    let v = if h.checksum_valid {
        painted(on, good_code(), "OK (sum 0x00 over "@ + dec(h.checksum_checked_bytes as nat) + " bytes)"@)
    } else {
        painted(
            on,
            bad_code(),
            "INVALID (sum 0x"@ + zero_padded(hex(h.checksum_computed_sum as nat), 2) + ", expected 0x00, over "@
                + dec(h.checksum_checked_bytes as nat) + " declared bytes)"@,
        )
    };
    assert(checksum_text(h, on) == pre + v);
    lemma_contains_self(v);
    lemma_contains_right(pre, v, v);
    lemma_contains_right(header_core_text(h, on), checksum_text(h, on), v);
    lemma_contains_left(header_core_text(h, on) + checksum_text(h, on), header_tail_text(h, on), v);
}

} // verus!
