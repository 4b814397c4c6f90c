//! The VRM section of the dump: the voltage objects of the
//! VoltageObjectInfo table and how each rail is controlled.

use vstd::prelude::*;

use crate::num::{dec, hex, push_dec, push_hex, zero_padded};
use crate::render::color::{good_code, label_code, painted, value_code, warn_code, Palette};
use crate::render::sections::{label_of, Section};
use crate::render::text::{heading, heading_text};
use crate::textutil::{
    contains_text, joined, lemma_contains_left, lemma_contains_right, lemma_contains_self,
    push_str_chars, string_of,
};

verus! {

/// One EVV level: the engine clock it applies to and its voltage offset.
pub struct EvvLevel {
    /// The engine clock in MHz, rounded for display.
    pub sclk_mhz: String,
    /// Whether the level is in use (its engine clock is above zero).
    pub active: bool,
    pub v_adj_offset_mv: i16,
    pub dpm_v_index: u8,
    pub dpm_state: u8,
}

/// How a voltage object drives its rail.
pub enum VoltageObjectDetail {
    GpioLut { gpio_cntl_id: u8, phase_delay_us: u8, lut_mv: Vec<u16> },
    I2cInitSeq {
        regulator_id: u8,
        regulator_name: Option<String>,
        i2c_line: u8,
        i2c_address: u8,
        init_pairs: Vec<(u16, u16)>,
    },
    Svid2 { svd_gpio_id: u8, svc_gpio_id: u8, load_line_psi_raw: u16 },
    Evv { entries: Vec<EvvLevel> },
    LeakageLut { entries_count: u8 },
    Unknown,
}

/// One voltage object of the table.
pub struct VoltageObject {
    pub voltage_type_name: String,
    pub mode_name: String,
    pub mode_raw: u8,
    pub detail: VoltageObjectDetail,
}

/// What the VRM section shows of a ROM.
pub struct VrmInfo {
    /// The table has the layout this parser knows (revision 3.1).
    pub recognized_format: bool,
    pub fmt_rev: u8,
    pub cont_rev: u8,
    pub objects: Vec<VoltageObject>,
}

/// The closing note on regulator names and init pairs.
pub open spec fn vrm_note() -> Seq<char> {
    "Note: voltage regulator names (when shown) come from the official atombios.h comments in the amdgpu driver - not reverse engineering. The I2C \"init pairs\" are not always voltages in mV (the header names the field that way, but real data sometimes shows register writes to the regulator) - hence they appear as raw values without assuming a unit."@
}

/// A signed number with its sign always shown (`{:+}`).
pub open spec fn signed_text(n: int) -> Seq<char> {
    if n < 0 {
        "-"@ + dec((-n) as nat)
    } else {
        "+"@ + dec(n as nat)
    }
}

/// The voltages of a GPIO lookup table, as `800mV, 900mV`.
pub open spec fn lut_texts(lut: Seq<u16>) -> Seq<Seq<char>> {
    lut.map_values(|v: u16| dec(v as nat) + "mV"@)
}

/// The lines of the I2C init pairs.
pub open spec fn pair_lines(pairs: Seq<(u16, u16)>) -> Seq<char>
    decreases pairs.len(),
{
    if pairs.len() == 0 {
        seq![]
    } else {
        pair_lines(pairs.drop_last()) + "      0x"@ + zero_padded(hex(pairs.last().0 as nat), 4)
            + " → "@ + dec(pairs.last().1 as nat) + "\n"@
    }
}

/// How many EVV levels are in use.
pub open spec fn active_count(es: Seq<EvvLevel>) -> nat
    decreases es.len(),
{
    if es.len() == 0 {
        0
    } else {
        active_count(es.drop_last()) + if es.last().active {
            1nat
        } else {
            0nat
        }
    }
}

/// The lines of the EVV levels in use.
pub open spec fn evv_lines(es: Seq<EvvLevel>) -> Seq<char>
    decreases es.len(),
{
    if es.len() == 0 {
        seq![]
    } else {
        let e = es.last();
        evv_lines(es.drop_last()) + if e.active {
            "      "@ + e.sclk_mhz@ + " MHz → offset "@ + signed_text(e.v_adj_offset_mv as int)
                + " mV (table index "@ + dec(e.dpm_v_index as nat) + ", state "@ + dec(
                e.dpm_state as nat,
            ) + ")\n"@
        } else {
            seq![]
        }
    }
}

/// The regulator line of an I2C-controlled object.
pub open spec fn i2c_head_text(
    on: bool,
    regulator_id: u8,
    regulator_name: Option<String>,
    i2c_line: u8,
    i2c_address: u8,
) -> Seq<char> {
    let name = match regulator_name {
        Some(n) => n@,
        None => "uncatalogued"@,
    };
    "    regulator: "@ + painted(on, good_code(), name) + " (id 0x"@ + zero_padded(
        hex(regulator_id as nat),
        2,
    ) + ") · i2c line "@ + dec(i2c_line as nat) + " address 0x"@ + zero_padded(
        hex(i2c_address as nat),
        2,
    ) + "\n"@
}

/// The init pairs of an I2C-controlled object, when it has any.
pub open spec fn i2c_pairs_text(on: bool, init_pairs: Seq<(u16, u16)>) -> Seq<char> {
    if init_pairs.len() == 0 {
        seq![]
    } else {
        "    "@ + dec(init_pairs.len()) + " init pair(s) (code→raw value, "@ + painted(
            on,
            label_code(),
            "not confirmed to be voltage in mV - see note below"@,
        ) + "):\n"@ + pair_lines(init_pairs)
    }
}

/// The detail lines of one voltage object.
pub open spec fn detail_text(on: bool, o: VoltageObject) -> Seq<char> {
    match o.detail {
        VoltageObjectDetail::GpioLut { gpio_cntl_id, phase_delay_us, lut_mv } => "    GPIO cntl id "@
            + dec(gpio_cntl_id as nat) + " · phase delay "@ + dec(phase_delay_us as nat) + "µs · "@
            + dec(lut_mv@.len()) + " voltage step(s): "@ + joined(lut_texts(lut_mv@), ", "@)
            + "\n"@,
        VoltageObjectDetail::I2cInitSeq {
            regulator_id,
            regulator_name,
            i2c_line,
            i2c_address,
            init_pairs,
        } => i2c_head_text(on, regulator_id, regulator_name, i2c_line, i2c_address)
            + i2c_pairs_text(on, init_pairs@),
        VoltageObjectDetail::Svid2 { svd_gpio_id, svc_gpio_id, load_line_psi_raw } => "    GPIO SVD "@
            + dec(svd_gpio_id as nat) + " / SVC "@ + dec(svc_gpio_id as nat)
            + " · load-line/PSI (raw) 0x"@ + zero_padded(hex(load_line_psi_raw as nat), 4) + "\n"@,
        VoltageObjectDetail::Evv { entries } => "    "@ + dec(active_count(entries@))
            + " EVV level(s) (SCLK → leakage-based voltage adjust):\n"@ + evv_lines(entries@),
        VoltageObjectDetail::LeakageLut { entries_count } => "    leakage table with "@ + dec(
            entries_count as nat,
        ) + " entry(ies) (not detailed)\n"@,
        VoltageObjectDetail::Unknown => "    "@ + painted(on, warn_code(), "⚠"@)
            + " unrecognized object mode (0x"@ + zero_padded(hex(o.mode_raw as nat), 2) + ")\n"@,
    }
}

/// The lines of one voltage object.
pub open spec fn object_text(on: bool, o: VoltageObject) -> Seq<char> {
    "  "@ + painted(on, value_code(), o.voltage_type_name@) + " controlled via "@ + o.mode_name@
        + "\n"@ + detail_text(on, o)
}

/// The lines of the voltage objects.
pub open spec fn objects_text(on: bool, os: Seq<VoltageObject>) -> Seq<char>
    decreases os.len(),
{
    if os.len() == 0 {
        seq![]
    } else {
        objects_text(on, os.drop_last()) + object_text(on, os.last())
    }
}

/// The whole VRM section.
pub open spec fn vrm_text(v: VrmInfo, on: bool) -> Seq<char> {
    heading_text(on, label_of(Section::Vrm)) + if !v.recognized_format {
        "\n  "@ + painted(on, warn_code(), "⚠"@)
            + " unrecognized VoltageObjectInfo format (revision "@ + dec(v.fmt_rev as nat) + "."@
            + dec(v.cont_rev as nat)
            + ", expected 3.1) - skipped detailed parsing to avoid misinterpreting data."@
    } else if v.objects@.len() == 0 {
        "\n  (no voltage objects found)"@
    } else {
        "\n"@ + objects_text(on, v.objects@) + "\n"@ + painted(on, label_code(), vrm_note())
    }
}

fn push_signed(out: &mut Vec<char>, n: i16)
    ensures
        final(out)@ == old(out)@ + signed_text(n as int),
{
    if n < 0 {
        out.push('-');
        push_dec(out, (0i32 - n as i32) as u64);
        proof {
            reveal_strlit("-");
        }
    } else {
        out.push('+');
        push_dec(out, n as u64);
        proof {
            reveal_strlit("+");
        }
    }
}

fn push_lut(out: &mut Vec<char>, lut: &Vec<u16>)
    ensures
        final(out)@ == old(out)@ + joined(lut_texts(lut@), ", "@),
{
    let ghost start = out@;
    let ghost ts = lut_texts(lut@);
    let mut k: usize = 0;
    while k < lut.len()
        invariant
            k <= lut@.len(),
            ts == lut_texts(lut@),
            out@ == start + joined(ts.take(k as int), ", "@),
        decreases lut@.len() - k,
    {
        let ghost before = out@;
        if k > 0 {
            push_str_chars(out, ", ");
        }
        push_dec(out, lut[k] as u64);
        push_str_chars(out, "mV");
        proof {
            let t = ts.take(k + 1);
            assert(t.drop_last() == ts.take(k as int));
            assert(t.last() == dec(lut@[k as int] as nat) + "mV"@);
            if k > 0 {
                assert(out@ =~= start + (joined(ts.take(k as int), ", "@) + ", "@ + t.last()));
            } else {
                assert(out@ =~= start + t.last());
            }
        }
        k = k + 1;
    }
    assert(ts.take(lut@.len() as int) == ts);
}

fn push_pairs(out: &mut Vec<char>, pairs: &Vec<(u16, u16)>)
    ensures
        final(out)@ == old(out)@ + pair_lines(pairs@),
{
    let ghost start = out@;
    let mut k: usize = 0;
    while k < pairs.len()
        invariant
            k <= pairs@.len(),
            out@ == start + pair_lines(pairs@.take(k as int)),
        decreases pairs@.len() - k,
    {
        let (code, val) = pairs[k];
        push_str_chars(out, "      0x");
        push_hex(out, code as u64, 4);
        push_str_chars(out, " → ");
        push_dec(out, val as u64);
        push_str_chars(out, "\n");
        proof {
            let t = pairs@.take(k + 1);
            assert(t.drop_last() == pairs@.take(k as int));
            assert(t.last() == pairs@[k as int]);
        }
        k = k + 1;
    }
    assert(pairs@.take(pairs@.len() as int) == pairs@);
}

fn push_evv(out: &mut Vec<char>, entries: &Vec<EvvLevel>)
    ensures
        final(out)@ == old(out)@ + "    "@ + dec(active_count(entries@))
            + " EVV level(s) (SCLK → leakage-based voltage adjust):\n"@ + evv_lines(entries@),
{
    let mut n: u64 = 0;
    let mut lines: Vec<char> = Vec::new();
    let mut k: usize = 0;
    while k < entries.len()
        invariant
            k <= entries@.len(),
            n == active_count(entries@.take(k as int)),
            n <= k,
            lines@ == evv_lines(entries@.take(k as int)),
        decreases entries@.len() - k,
    {
        let e = &entries[k];
        if e.active {
            n = n + 1;
            push_str_chars(&mut lines, "      ");
            push_str_chars(&mut lines, e.sclk_mhz.as_str());
            push_str_chars(&mut lines, " MHz → offset ");
            push_signed(&mut lines, e.v_adj_offset_mv);
            push_str_chars(&mut lines, " mV (table index ");
            push_dec(&mut lines, e.dpm_v_index as u64);
            push_str_chars(&mut lines, ", state ");
            push_dec(&mut lines, e.dpm_state as u64);
            push_str_chars(&mut lines, ")\n");
        }
        proof {
            let t = entries@.take(k + 1);
            assert(t.drop_last() == entries@.take(k as int));
            assert(t.last() == entries@[k as int]);
        }
        k = k + 1;
    }
    assert(entries@.take(entries@.len() as int) == entries@);
    push_str_chars(out, "    ");
    push_dec(out, n);
    push_str_chars(out, " EVV level(s) (SCLK → leakage-based voltage adjust):\n");
    crate::textutil::push_all(out, &lines);
}

#[verifier::spinoff_prover]
fn push_i2c_head(
    out: &mut Vec<char>,
    pal: &Palette,
    regulator_id: u8,
    regulator_name: &Option<String>,
    i2c_line: u8,
    i2c_address: u8,
)
    ensures
        final(out)@ == old(out)@ + i2c_head_text(
            pal.on,
            regulator_id,
            *regulator_name,
            i2c_line,
            i2c_address,
        ),
{
    let ghost s0 = out@;
    push_str_chars(out, "    regulator: ");
    match regulator_name {
        Some(n) => push_str_chars(out, pal.good(n.as_str()).as_str()),
        None => push_str_chars(out, pal.good("uncatalogued").as_str()),
    }
    push_str_chars(out, " (id 0x");
    push_hex(out, regulator_id as u64, 2);
    push_str_chars(out, ") · i2c line ");
    push_dec(out, i2c_line as u64);
    push_str_chars(out, " address 0x");
    push_hex(out, i2c_address as u64, 2);
    push_str_chars(out, "\n");
    assert(out@ =~= s0 + i2c_head_text(pal.on, regulator_id, *regulator_name, i2c_line, i2c_address));
}

fn push_i2c_pairs(out: &mut Vec<char>, pal: &Palette, init_pairs: &Vec<(u16, u16)>)
    ensures
        final(out)@ == old(out)@ + i2c_pairs_text(pal.on, init_pairs@),
{
    let ghost s0 = out@;
    if init_pairs.len() > 0 {
        push_str_chars(out, "    ");
        push_dec(out, init_pairs.len() as u64);
        push_str_chars(out, " init pair(s) (code→raw value, ");
        push_str_chars(
            out,
            pal.label("not confirmed to be voltage in mV - see note below").as_str(),
        );
        push_str_chars(out, "):\n");
        push_pairs(out, init_pairs);
    }
    assert(out@ =~= s0 + i2c_pairs_text(pal.on, init_pairs@));
}

#[verifier::spinoff_prover]
fn push_detail(out: &mut Vec<char>, pal: &Palette, o: &VoltageObject)
    ensures
        final(out)@ == old(out)@ + detail_text(pal.on, *o),
{
    let ghost s0 = out@;
    match &o.detail {
        VoltageObjectDetail::GpioLut { gpio_cntl_id, phase_delay_us, lut_mv } => {
            push_str_chars(out, "    GPIO cntl id ");
            push_dec(out, *gpio_cntl_id as u64);
            push_str_chars(out, " · phase delay ");
            push_dec(out, *phase_delay_us as u64);
            push_str_chars(out, "µs · ");
            push_dec(out, lut_mv.len() as u64);
            push_str_chars(out, " voltage step(s): ");
            push_lut(out, lut_mv);
            push_str_chars(out, "\n");
        },
        VoltageObjectDetail::I2cInitSeq {
            regulator_id,
            regulator_name,
            i2c_line,
            i2c_address,
            init_pairs,
        } => {
            push_i2c_head(out, pal, *regulator_id, regulator_name, *i2c_line, *i2c_address);
            push_i2c_pairs(out, pal, init_pairs);
        },
        VoltageObjectDetail::Svid2 { svd_gpio_id, svc_gpio_id, load_line_psi_raw } => {
            push_str_chars(out, "    GPIO SVD ");
            push_dec(out, *svd_gpio_id as u64);
            push_str_chars(out, " / SVC ");
            push_dec(out, *svc_gpio_id as u64);
            push_str_chars(out, " · load-line/PSI (raw) 0x");
            push_hex(out, *load_line_psi_raw as u64, 4);
            push_str_chars(out, "\n");
        },
        VoltageObjectDetail::Evv { entries } => {
            push_evv(out, entries);
        },
        VoltageObjectDetail::LeakageLut { entries_count } => {
            push_str_chars(out, "    leakage table with ");
            push_dec(out, *entries_count as u64);
            push_str_chars(out, " entry(ies) (not detailed)\n");
        },
        VoltageObjectDetail::Unknown => {
            push_str_chars(out, "    ");
            push_str_chars(out, pal.warn("⚠").as_str());
            push_str_chars(out, " unrecognized object mode (0x");
            push_hex(out, o.mode_raw as u64, 2);
            push_str_chars(out, ")\n");
        },
    }
}

fn push_objects(out: &mut Vec<char>, pal: &Palette, os: &Vec<VoltageObject>)
    ensures
        final(out)@ == old(out)@ + objects_text(pal.on, os@),
{
    let ghost start = out@;
    let mut k: usize = 0;
    while k < os.len()
        invariant
            k <= os@.len(),
            out@ == start + objects_text(pal.on, os@.take(k as int)),
        decreases os@.len() - k,
    {
        let o = &os[k];
        let ghost s0 = out@;
        push_str_chars(out, "  ");
        push_str_chars(out, pal.value(o.voltage_type_name.as_str()).as_str());
        push_str_chars(out, " controlled via ");
        push_str_chars(out, o.mode_name.as_str());
        push_str_chars(out, "\n");
        push_detail(out, pal, o);
        assert(out@ =~= s0 + object_text(pal.on, *o));
        proof {
            let t = os@.take(k + 1);
            assert(t.drop_last() == os@.take(k as int));
            assert(t.last() == os@[k as int]);
        }
        k = k + 1;
    }
    assert(os@.take(os@.len() as int) == os@);
}

/// Renders the VRM section: each voltage object with how its rail is
/// controlled, or a note when the table's format is not the known one or
/// it holds no object.
#[verifier::spinoff_prover]
pub fn render_vrm(v: &VrmInfo, pal: &Palette) -> (r: String)
    ensures
        r@ == vrm_text(*v, pal.on),
{
    let mut out: Vec<char> = Vec::new();
    push_str_chars(&mut out, heading(pal, Section::Vrm.label()).as_str());
    let ghost s0 = out@;
    if !v.recognized_format {
        push_str_chars(&mut out, "\n  ");
        push_str_chars(&mut out, pal.warn("⚠").as_str());
        push_str_chars(&mut out, " unrecognized VoltageObjectInfo format (revision ");
        push_dec(&mut out, v.fmt_rev as u64);
        push_str_chars(&mut out, ".");
        push_dec(&mut out, v.cont_rev as u64);
        push_str_chars(
            &mut out,
            ", expected 3.1) - skipped detailed parsing to avoid misinterpreting data.",
        );
    } else if v.objects.len() == 0 {
        push_str_chars(&mut out, "\n  (no voltage objects found)");
    } else {
        push_str_chars(&mut out, "\n");
        push_objects(&mut out, pal, &v.objects);
        push_str_chars(&mut out, "\n");
        push_str_chars(
            &mut out,
            pal.label(
                "Note: voltage regulator names (when shown) come from the official atombios.h comments in the amdgpu driver - not reverse engineering. The I2C \"init pairs\" are not always voltages in mV (the header names the field that way, but real data sometimes shows register writes to the regulator) - hence they appear as raw values without assuming a unit.",
            ).as_str(),
        );
    }
    assert(out@ =~= vrm_text(*v, pal.on));
    string_of(&out)
}

proof fn lemma_objects_has(on: bool, os: Seq<VoltageObject>, i: int)
    requires
        0 <= i < os.len(),
    ensures
        contains_text(objects_text(on, os), object_text(on, os[i])),
    decreases os.len(),
{
    let init = objects_text(on, os.drop_last());
    let last = object_text(on, os.last());
    if i == os.len() - 1 {
        lemma_contains_self(last);
        lemma_contains_right(init, last, last);
    } else {
        assert(os.drop_last()[i] == os[i]);
        lemma_objects_has(on, os.drop_last(), i);
        lemma_contains_left(init, last, object_text(on, os[i]));
    }
}

/// The VRM dump of a ROM whose table it reads shows every voltage object
/// with its own rail name and control mode; for a table of another
/// revision it names the revision found.
pub proof fn law_vrm_dump_objects(v: VrmInfo, on: bool, i: int)
    ensures
        (v.recognized_format && 0 <= i < v.objects@.len()) ==> contains_text(
            vrm_text(v, on),
            "  "@ + painted(on, value_code(), v.objects@[i].voltage_type_name@) + " controlled via "@
                + v.objects@[i].mode_name@ + "\n"@,
        ),
        !v.recognized_format ==> contains_text(
            vrm_text(v, on),
            " unrecognized VoltageObjectInfo format (revision "@ + dec(v.fmt_rev as nat) + "."@ + dec(
                v.cont_rev as nat,
            ),
        ),
{
    let h = heading_text(on, label_of(Section::Vrm));
    if v.recognized_format && 0 <= i < v.objects@.len() {
        let o = v.objects@[i];
        lemma_objects_has(on, v.objects@, i);
        let head = "  "@ + painted(on, value_code(), o.voltage_type_name@) + " controlled via "@ + o.mode_name@
            + "\n"@;
        assert(object_text(on, o) == head + detail_text(on, o));
        lemma_contains_self(head);
        lemma_contains_left(head, detail_text(on, o), head);
        let ot = objects_text(on, v.objects@);
        crate::textutil::lemma_contains_trans(ot, object_text(on, o), head);
        let rest = "\n"@ + painted(on, label_code(), vrm_note());
        assert(vrm_text(v, on) == h + ("\n"@ + ot + rest));
        lemma_contains_right("\n"@, ot, head);
        lemma_contains_left("\n"@ + ot, rest, head);
        lemma_contains_right(h, "\n"@ + ot + rest, head);
    }
    if !v.recognized_format {
        let w = "\n  "@ + painted(on, warn_code(), "⚠"@);
        let m = " unrecognized VoltageObjectInfo format (revision "@ + dec(v.fmt_rev as nat) + "."@ + dec(
            v.cont_rev as nat,
        );
        let e = ", expected 3.1) - skipped detailed parsing to avoid misinterpreting data."@;
        assert(vrm_text(v, on) =~= (h + w) + m + e);
        lemma_contains_self(m);
        crate::textutil::lemma_contains_around(h + w, m, e, m);
    }
}

} // verus!
