//! The dump sections of the VRAM table and of the PCIe link levels.

use vstd::prelude::*;

use crate::compare_power::VddEntry;
use crate::compare_sections::VramInfo;
use crate::csv_table::{PcieRow, VramRow};
use crate::num::{dec, hex, push_dec, push_hex, zero_padded};
use crate::render::color::{good_code, label_code, painted, Palette};
use crate::render::sections::{label_of, Section};
use crate::render::text::{heading, heading_text, kv, kv_text};
use crate::render::header::join_strings;
use crate::textutil::{
    contains_text, joined, lemma_contains_left, lemma_contains_right, lemma_contains_self,
    push_str_chars, string_of, views,
};

verus! {

/// The line of one VRAM module.
pub open spec fn module_text(on: bool, m: VramRow) -> Seq<char> {
    "\n"@ + "  module "@ + dec(m.index as nat) + ": "@ + (if m.part_number@.len() == 0 {
        painted(on, label_code(), "(empty / placeholder)"@)
    } else {
        painted(on, good_code(), m.part_number@)
    }) + "  ·  "@ + dec(m.memory_size_mb as nat) + " MB  ·  "@ + m.memory_type_name@ + "  ·  "@
        + dec(m.channel_num as nat) + " channel(s)  ·  vendor_id raw="@ + dec(m.vendor_id_raw as nat)
}

/// The lines of the modules, in order.
pub open spec fn modules_text(on: bool, ms: Seq<VramRow>) -> Seq<char>
    decreases ms.len(),
{
    if ms.len() == 0 {
        seq![]
    } else {
        modules_text(on, ms.drop_last()) + module_text(on, ms.last())
    }
}

/// An optional number, 0 where absent.
pub open spec fn or_zero(o: Option<u32>) -> nat {
    match o {
        Some(n) => n as nat,
        None => 0,
    }
}

/// The VRAM section of the dump: the declared module count, a line per
/// module, and the memory controller microcode where there is one.
pub open spec fn vram_dump_text(on: bool, v: VramInfo) -> Seq<char> {
    heading_text(on, label_of(Section::Vram)) + "\n"@ + kv_text(
        on,
        "Modules declared in ROM"@,
        dec(v.num_modules as nat),
    ) + modules_text(on, v.modules@) + match v.mcu_code_version {
        Some(ver) => "\n"@ + kv_text(
            on,
            "MC ucode version"@,
            dec(ver as nat) + " (rom start 0x"@ + hex(or_zero(v.mcu_code_rom_start_addr))
                + ", length "@ + dec(or_zero(v.mcu_code_length)) + " bytes)"@,
        ),
        None => seq![],
    }
}

fn dec_string(n: u64) -> (r: String)
    ensures
        r@ == dec(n as nat),
{
    let mut v: Vec<char> = Vec::new();
    push_dec(&mut v, n);
    string_of(&v)
}

fn push_module(out: &mut Vec<char>, m: &VramRow, pal: &Palette)
    ensures
        final(out)@ == old(out)@ + module_text(pal.on, *m),
{
    let ghost start = out@;
    push_str_chars(out, "\n");
    push_str_chars(out, "  module ");
    push_dec(out, m.index);
    push_str_chars(out, ": ");
    if m.part_number.as_str().unicode_len() == 0 {
        push_str_chars(out, pal.label("(empty / placeholder)").as_str());
    } else {
        push_str_chars(out, pal.good(m.part_number.as_str()).as_str());
    }
    push_str_chars(out, "  ·  ");
    push_dec(out, m.memory_size_mb);
    push_str_chars(out, " MB  ·  ");
    push_str_chars(out, m.memory_type_name.as_str());
    push_str_chars(out, "  ·  ");
    push_dec(out, m.channel_num);
    push_str_chars(out, " channel(s)  ·  vendor_id raw=");
    push_dec(out, m.vendor_id_raw);
    proof {
        assert(out@ =~= start + module_text(pal.on, *m));
    }
}

/// Renders the VRAM section of the dump.
pub fn render_vram(v: &VramInfo, pal: &Palette) -> (r: String)
    ensures
        r@ == vram_dump_text(pal.on, *v),
{
    let mut out: Vec<char> = Vec::new();
    push_str_chars(&mut out, heading(pal, Section::Vram.label()).as_str());
    push_str_chars(&mut out, "\n");
    push_str_chars(&mut out, kv(pal, "Modules declared in ROM", dec_string(v.num_modules).as_str()).as_str());
    let ghost start = out@;
    let mut i: usize = 0;
    while i < v.modules.len()
        invariant
            i <= v.modules@.len(),
            out@ == start + modules_text(pal.on, v.modules@.take(i as int)),
        decreases v.modules@.len() - i,
    {
        push_module(&mut out, &v.modules[i], pal);
        proof {
            let t = v.modules@.take(i + 1);
            assert(t.drop_last() == v.modules@.take(i as int));
            assert(t.last() == v.modules@[i as int]);
        }
        i = i + 1;
    }
    assert(v.modules@.take(v.modules@.len() as int) == v.modules@);
    let ghost mid = out@;
    match v.mcu_code_version {
        Some(ver) => {
            let start_addr: u32 = match v.mcu_code_rom_start_addr {
                Some(a) => a,
                None => 0,
            };
            let len: u32 = match v.mcu_code_length {
                Some(l) => l,
                None => 0,
            };
            let mut t: Vec<char> = Vec::new();
            push_dec(&mut t, ver as u64);
            push_str_chars(&mut t, " (rom start 0x");
            push_hex(&mut t, start_addr as u64, 0);
            push_str_chars(&mut t, ", length ");
            push_dec(&mut t, len as u64);
            push_str_chars(&mut t, " bytes)");
            proof {
                assert(zero_padded(hex(start_addr as nat), 0) == hex(start_addr as nat));
            }
            push_str_chars(&mut out, "\n");
            push_str_chars(&mut out, kv(pal, "MC ucode version", string_of(&t).as_str()).as_str());
        },
        None => {},
    }
    proof {
        assert(out@ =~= vram_dump_text(pal.on, *v));
    }
    string_of(&out)
}

/// The line of PCIe level `i`.
pub open spec fn pcie_level_text(i: nat, e: PcieRow) -> Seq<char> {
    "  level "@ + dec(i) + ": gen index "@ + dec(e.pcie_gen as nat) + ", bus width "@ + dec(
        e.pcie_lane_width as nat,
    ) + " lane(s)\n"@
}

/// The lines of the first `n` PCIe levels.
pub open spec fn pcie_levels_text(ls: Seq<PcieRow>, n: int) -> Seq<char>
    decreases n,
{
    if n <= 0 {
        seq![]
    } else {
        pcie_levels_text(ls, n - 1) + pcie_level_text((n - 1) as nat, ls[n - 1])
    }
}

/// The PCIe section of the dump: a line per link level and the level
/// that VR-hot forces, or a note that the table is missing.
pub open spec fn pcie_dump_text(on: bool, ls: Seq<PcieRow>, vrhot: Option<u8>) -> Seq<char> {
    heading_text(on, label_of(Section::Pcie)) + if ls.len() == 0 {
        "\n  (table not present in this ROM)"@
    } else {
        "\n"@ + pcie_levels_text(ls, ls.len() as int) + match vrhot {
            Some(idx) => kv_text(on, "VRHot forces DPM SCLK to level"@, dec(idx as nat)),
            None => seq![],
        }
    }
}

/// Renders the PCIe section of the dump; `vrhot` is the SCLK level that
/// a VR-hot signal forces, where the table names one.
pub fn render_pcie(levels: &[PcieRow], vrhot: Option<u8>, pal: &Palette) -> (r: String)
    ensures
        r@ == pcie_dump_text(pal.on, levels@, vrhot),
{
    let mut out: Vec<char> = Vec::new();
    push_str_chars(&mut out, heading(pal, Section::Pcie.label()).as_str());
    if levels.len() == 0 {
        push_str_chars(&mut out, "\n  (table not present in this ROM)");
        return string_of(&out);
    }
    push_str_chars(&mut out, "\n");
    let ghost start = out@;
    let mut i: usize = 0;
    while i < levels.len()
        invariant
            i <= levels@.len(),
            out@ == start + pcie_levels_text(levels@, i as int),
        decreases levels@.len() - i,
    {
        let ghost before = out@;
        push_str_chars(&mut out, "  level ");
        push_dec(&mut out, i as u64);
        push_str_chars(&mut out, ": gen index ");
        push_dec(&mut out, levels[i].pcie_gen);
        push_str_chars(&mut out, ", bus width ");
        push_dec(&mut out, levels[i].pcie_lane_width);
        push_str_chars(&mut out, " lane(s)\n");
        assert(out@ =~= before + pcie_level_text(i as nat, levels@[i as int]));
        i = i + 1;
    }
    match vrhot {
        Some(idx) => {
            push_str_chars(&mut out, kv(pal, "VRHot forces DPM SCLK to level", dec_string(idx as u64).as_str()).as_str());
        },
        None => {},
    }
    proof {
        assert(out@ =~= pcie_dump_text(pal.on, levels@, vrhot));
    }
    string_of(&out)
}

/// The valid slots of a voltage table as `idx I = V mV`.
pub open spec fn valid_slots(lut: Seq<VddEntry>) -> Seq<Seq<char>>
    decreases lut.len(),
{
    if lut.len() == 0 {
        seq![]
    } else {
        let init = valid_slots(lut.drop_last());
        let e = lut.last();
        if e.valid {
            init.push("idx "@ + dec(e.index as nat) + " = "@ + dec(e.vdd_mv as nat) + " mV"@)
        } else {
            init
        }
    }
}

/// How many slots of a voltage table are placeholders.
pub open spec fn invalid_count(lut: Seq<VddEntry>) -> nat
    decreases lut.len(),
{
    if lut.len() == 0 {
        0
    } else {
        invalid_count(lut.drop_last()) + if lut.last().valid {
            0nat
        } else {
            1nat
        }
    }
}

/// The lines of one voltage table: nothing for an empty table, else its
/// valid slots and the number of placeholder slots left out.
pub open spec fn lut_text(on: bool, name: Seq<char>, lut: Seq<VddEntry>) -> Seq<char> {
    if lut.len() == 0 {
        seq![]
    } else {
        "\n"@ + painted(on, label_code(), name + " - valid slots: "@) + joined(valid_slots(lut), ", "@)
            + (if invalid_count(lut) > 0 {
            "\n"@ + painted(
                on,
                label_code(),
                "  ("@ + dec(invalid_count(lut)) + " reserved/placeholder slot(s) from the ROM itself, ignored)"@,
            )
        } else {
            seq![]
        }) + "\n"@
    }
}

/// The voltage section of the dump: the VDDC table, then the VDDGFX table.
pub open spec fn voltages_dump_text(on: bool, vddc: Seq<VddEntry>, vddgfx: Seq<VddEntry>) -> Seq<char> {
    heading_text(on, label_of(Section::Voltages)) + lut_text(on, "VDDC"@, vddc) + lut_text(
        on,
        "VDDGFX"@,
        vddgfx,
    )
}

fn push_lut(out: &mut Vec<char>, name: &str, lut: &[VddEntry], pal: &Palette)
    ensures
        final(out)@ == old(out)@ + lut_text(pal.on, name@, lut@),
{
    if lut.len() == 0 {
        proof {
            assert(old(out)@ + lut_text(pal.on, name@, lut@) =~= old(out)@);
        }
        return;
    }
    let ghost start = out@;
    let mut parts: Vec<String> = Vec::new();
    let mut invalid: usize = 0;
    let mut i: usize = 0;
    while i < lut.len()
        invariant
            i <= lut@.len(),
            invalid <= i,
            views(parts@) == valid_slots(lut@.take(i as int)),
            invalid == invalid_count(lut@.take(i as int)),
        decreases lut@.len() - i,
    {
        proof {
            let t = lut@.take(i + 1);
            assert(t.drop_last() == lut@.take(i as int));
            assert(t.last() == lut@[i as int]);
        }
        if lut[i].valid {
            let mut v: Vec<char> = Vec::new();
            push_str_chars(&mut v, "idx ");
            push_dec(&mut v, lut[i].index as u64);
            push_str_chars(&mut v, " = ");
            push_dec(&mut v, lut[i].vdd_mv as u64);
            push_str_chars(&mut v, " mV");
            let ghost before = views(parts@);
            parts.push(string_of(&v));
            assert(views(parts@) =~= before.push(v@));
        } else {
            invalid = invalid + 1;
        }
        i = i + 1;
    }
    assert(lut@.take(lut@.len() as int) == lut@);
    let mut head: Vec<char> = Vec::new();
    push_str_chars(&mut head, name);
    push_str_chars(&mut head, " - valid slots: ");
    push_str_chars(out, "\n");
    push_str_chars(out, pal.label(string_of(&head).as_str()).as_str());
    push_str_chars(out, join_strings(&parts, ", ").as_str());
    if invalid > 0 {
        let mut n: Vec<char> = Vec::new();
        push_str_chars(&mut n, "  (");
        push_dec(&mut n, invalid as u64);
        push_str_chars(&mut n, " reserved/placeholder slot(s) from the ROM itself, ignored)");
        push_str_chars(out, "\n");
        push_str_chars(out, pal.label(string_of(&n).as_str()).as_str());
    }
    push_str_chars(out, "\n");
    proof {
        assert(out@ =~= start + lut_text(pal.on, name@, lut@));
    }
}

/// Renders the voltage section of the dump: for the VDDC and the VDDGFX
/// table, where not empty, its valid slots and how many placeholder
/// slots it has.
pub fn render_voltages(vddc: &[VddEntry], vddgfx: &[VddEntry], pal: &Palette) -> (r: String)
    ensures
        r@ == voltages_dump_text(pal.on, vddc@, vddgfx@),
{
    let mut out: Vec<char> = Vec::new();
    push_str_chars(&mut out, heading(pal, Section::Voltages.label()).as_str());
    push_lut(&mut out, "VDDC", vddc, pal);
    push_lut(&mut out, "VDDGFX", vddgfx, pal);
    string_of(&out)
}

proof fn lemma_pcie_levels_has(ls: Seq<PcieRow>, n: int, i: int)
    requires
        0 <= i < n <= ls.len(),
    ensures
        contains_text(pcie_levels_text(ls, n), pcie_level_text(i as nat, ls[i])),
    decreases n,
{
    let init = pcie_levels_text(ls, n - 1);
    let last = pcie_level_text((n - 1) as nat, ls[n - 1]);
    if i == n - 1 {
        lemma_contains_self(last);
        lemma_contains_right(init, last, last);
    } else {
        lemma_pcie_levels_has(ls, n - 1, i);
        lemma_contains_left(init, last, pcie_level_text(i as nat, ls[i]));
    }
}

/// The PCIe dump shows every link level `i` of the table as its own line
/// with that level's generation index and lane count, in that order.
pub proof fn law_pcie_dump_levels(ls: Seq<PcieRow>, vrhot: Option<u8>, on: bool, i: int)
    requires
        0 <= i < ls.len(),
    ensures
        contains_text(
            pcie_dump_text(on, ls, vrhot),
            "  level "@ + dec(i as nat) + ": gen index "@ + dec(ls[i].pcie_gen as nat) + ", bus width "@ + dec(
                ls[i].pcie_lane_width as nat,
            ) + " lane(s)\n"@,
        ),
{
    lemma_pcie_levels_has(ls, ls.len() as int, i);
    let body = pcie_levels_text(ls, ls.len() as int);
    let v = match vrhot {
        Some(idx) => kv_text(on, "VRHot forces DPM SCLK to level"@, dec(idx as nat)),
        None => seq![],
    };
    let line = pcie_level_text(i as nat, ls[i]);
    lemma_contains_right("\n"@, body, line);
    lemma_contains_left("\n"@ + body, v, line);
    lemma_contains_right(heading_text(on, label_of(Section::Pcie)), "\n"@ + body + v, line);
}

proof fn lemma_modules_has(on: bool, ms: Seq<VramRow>, i: int)
    requires
        0 <= i < ms.len(),
    ensures
        contains_text(modules_text(on, ms), module_text(on, ms[i])),
    decreases ms.len(),
{
    let init = modules_text(on, ms.drop_last());
    let last = module_text(on, ms.last());
    if i == ms.len() - 1 {
        lemma_contains_self(last);
        lemma_contains_right(init, last, last);
    } else {
        assert(ms.drop_last()[i] == ms[i]);
        lemma_modules_has(on, ms.drop_last(), i);
        lemma_contains_left(init, last, module_text(on, ms[i]));
    }
}

/// The VRAM dump shows every module of the table as a line with its
/// index, part number (or a placeholder note), size in MB, memory type,
/// channel count and raw vendor ID, in that order.
pub proof fn law_vram_dump_modules(v: VramInfo, on: bool, i: int)
    requires
        0 <= i < v.modules@.len(),
    ensures
        ({
            let m = v.modules@[i];
            contains_text(
                vram_dump_text(on, v),
                "\n  module "@ + dec(m.index as nat) + ": "@ + (if m.part_number@.len() == 0 {
                    painted(on, label_code(), "(empty / placeholder)"@)
                } else {
                    painted(on, good_code(), m.part_number@)
                }) + "  ·  "@ + dec(m.memory_size_mb as nat) + " MB  ·  "@ + m.memory_type_name@ + "  ·  "@
                    + dec(m.channel_num as nat) + " channel(s)  ·  vendor_id raw="@ + dec(m.vendor_id_raw as nat),
            )
        }),
{
    let m = v.modules@[i];
    lemma_modules_has(on, v.modules@, i);
    let line = module_text(on, m);
    assert(line =~= "\n  module "@ + dec(m.index as nat) + ": "@ + (if m.part_number@.len() == 0 {
        painted(on, label_code(), "(empty / placeholder)"@)
    } else {
        painted(on, good_code(), m.part_number@)
    }) + "  ·  "@ + dec(m.memory_size_mb as nat) + " MB  ·  "@ + m.memory_type_name@ + "  ·  "@
        + dec(m.channel_num as nat) + " channel(s)  ·  vendor_id raw="@ + dec(m.vendor_id_raw as nat)) by {
        reveal_strlit("\n");
        reveal_strlit("  module ");
        reveal_strlit("\n  module ");
    }
    let pre = heading_text(on, label_of(Section::Vram)) + "\n"@ + kv_text(
        on,
        "Modules declared in ROM"@,
        dec(v.num_modules as nat),
    );
    let mc = match v.mcu_code_version {
        Some(ver) => "\n"@ + kv_text(
            on,
            "MC ucode version"@,
            dec(ver as nat) + " (rom start 0x"@ + hex(or_zero(v.mcu_code_rom_start_addr)) + ", length "@
                + dec(or_zero(v.mcu_code_length)) + " bytes)"@,
        ),
        None => seq![],
    };
    lemma_contains_right(pre, modules_text(on, v.modules@), line);
    lemma_contains_left(pre + modules_text(on, v.modules@), mc, line);
}

proof fn lemma_valid_slots_has(lut: Seq<VddEntry>, k: int)
    requires
        0 <= k < lut.len(),
        lut[k].valid,
    ensures
        valid_slots(lut).contains("idx "@ + dec(lut[k].index as nat) + " = "@ + dec(lut[k].vdd_mv as nat) + " mV"@),
    decreases lut.len(),
{
    let e = "idx "@ + dec(lut[k].index as nat) + " = "@ + dec(lut[k].vdd_mv as nat) + " mV"@;
    let init = valid_slots(lut.drop_last());
    if k == lut.len() - 1 {
        assert(valid_slots(lut) == init.push(e));
        assert(valid_slots(lut)[init.len() as int] == e);
    } else {
        assert(lut.drop_last()[k] == lut[k]);
        lemma_valid_slots_has(lut.drop_last(), k);
        let j = choose|j: int| 0 <= j < init.len() && init[j] == e;
        if lut.last().valid {
            assert(valid_slots(lut)[j] == e);
        } else {
            assert(valid_slots(lut) == init);
        }
    }
}

/// The voltage dump shows every valid slot of the VDDC and VDDGFX tables
/// as `idx I = V mV` with the slot's own index and voltage.
pub proof fn law_voltages_dump_slots(vddc: Seq<VddEntry>, vddgfx: Seq<VddEntry>, on: bool, k: int)
    ensures
        (0 <= k < vddc.len() && vddc[k].valid) ==> contains_text(
            voltages_dump_text(on, vddc, vddgfx),
            "idx "@ + dec(vddc[k].index as nat) + " = "@ + dec(vddc[k].vdd_mv as nat) + " mV"@,
        ),
        (0 <= k < vddgfx.len() && vddgfx[k].valid) ==> contains_text(
            voltages_dump_text(on, vddc, vddgfx),
            "idx "@ + dec(vddgfx[k].index as nat) + " = "@ + dec(vddgfx[k].vdd_mv as nat) + " mV"@,
        ),
{
    let h = heading_text(on, label_of(Section::Voltages));
    if 0 <= k < vddc.len() && vddc[k].valid {
        lemma_lut_slot(on, "VDDC"@, vddc, k);
        lemma_contains_right(h, lut_text(on, "VDDC"@, vddc), "idx "@ + dec(vddc[k].index as nat) + " = "@ + dec(vddc[k].vdd_mv as nat) + " mV"@);
        lemma_contains_left(h + lut_text(on, "VDDC"@, vddc), lut_text(on, "VDDGFX"@, vddgfx), "idx "@ + dec(vddc[k].index as nat) + " = "@ + dec(vddc[k].vdd_mv as nat) + " mV"@);
    }
    if 0 <= k < vddgfx.len() && vddgfx[k].valid {
        lemma_lut_slot(on, "VDDGFX"@, vddgfx, k);
        lemma_contains_right(h + lut_text(on, "VDDC"@, vddc), lut_text(on, "VDDGFX"@, vddgfx), "idx "@ + dec(vddgfx[k].index as nat) + " = "@ + dec(vddgfx[k].vdd_mv as nat) + " mV"@);
    }
}

proof fn lemma_lut_slot(on: bool, name: Seq<char>, lut: Seq<VddEntry>, k: int)
    requires
        0 <= k < lut.len(),
        lut[k].valid,
    ensures
        contains_text(lut_text(on, name, lut), "idx "@ + dec(lut[k].index as nat) + " = "@ + dec(lut[k].vdd_mv as nat) + " mV"@),
{
    let e = "idx "@ + dec(lut[k].index as nat) + " = "@ + dec(lut[k].vdd_mv as nat) + " mV"@;
    lemma_valid_slots_has(lut, k);
    let slots = valid_slots(lut);
    let j = choose|j: int| 0 <= j < slots.len() && slots[j] == e;
    crate::textutil::lemma_joined_contains(slots, ", "@, j);
    let pre = "\n"@ + painted(on, label_code(), name + " - valid slots: "@);
    let post: Seq<char> = (if invalid_count(lut) > 0 {
        "\n"@ + painted(
            on,
            label_code(),
            "  ("@ + dec(invalid_count(lut)) + " reserved/placeholder slot(s) from the ROM itself, ignored)"@,
        )
    } else {
        seq![]
    }) + "\n"@;
    assert(lut_text(on, name, lut) =~= pre + joined(slots, ", "@) + post);
    crate::textutil::lemma_contains_around(pre, joined(slots, ", "@), post, e);
}

} // verus!
