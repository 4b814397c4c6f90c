//! The ASIC profiling section of the dump: die voltage envelope, efuse
//! addresses and the per-DPM current and voltage limits.

use vstd::prelude::*;

use crate::num::{dec, push_dec};
use crate::render::color::{label_code, painted, value_code, Palette};
use crate::render::sections::Section;
use crate::render::text::{kv, kv_text, optional_heading, optional_heading_text};
use crate::textutil::{
    contains_text, lemma_contains_left, lemma_contains_right, lemma_contains_self, push_str_chars,
    string_of,
};

verus! {

/// What the ASIC profiling table holds, as the dump shows it.
pub struct ProfilingInfo {
    /// Die voltage limits, in units of 0.01 mV.
    pub max_vddc_mv: u32,
    pub min_vddc_mv: u32,
    pub max_voltage_0_25mv: u16,
    pub load_line_slop: u32,
    pub lkg_euse_index: u16,
    pub lkg_efuse_bit_lsb: u8,
    pub lkg_efuse_length: u8,
    pub ro_efuse_index: u16,
    pub ro_efuse_bit_lsb: u8,
    pub ro_efuse_length: u8,
    pub ro_efuse_encode_range: u32,
    pub ro_efuse_min: u32,
    /// The default EVV voltage in volts, with three decimals.
    pub evv_default_vddc_volts: String,
    /// The EVV voltage used without calculation, in volts, three decimals.
    pub evv_no_calc_vddc_volts: String,
    /// TDC limit of each DPM level, in units of 0.1 A.
    pub tdc_limit_per_dpm_a10: Vec<u32>,
    /// VDDC of each DPM level when EVV fails, in units of 1 µV.
    pub no_calc_vddc_per_dpm_v1000000: Vec<u32>,
    pub enable_gb_vdroop_cksoff: u8,
    pub enable_gb_vdroop_ckson: u8,
    pub enable_gb_fuse_cksoff: u8,
    pub enable_gb_fuse_ckson: u8,
}

/// One `▸ DPMi: value unit` line per entry of `vals`, each value divided
/// by `div`.
pub open spec fn dpm_lines(on: bool, vals: Seq<u32>, div: nat, unit: Seq<char>) -> Seq<char>
    decreases vals.len(),
{
    if vals.len() == 0 {
        seq![]
    } else {
        dpm_lines(on, vals.drop_last(), div, unit) + "    "@ + painted(on, value_code(), "▸"@)
            + " DPM"@ + dec((vals.len() - 1) as nat) + ": "@ + dec(vals.last() as nat / div) + unit
            + "\n"@
    }
}

/// A labelled list of DPM values, when there is any.
pub open spec fn dpm_block(
    on: bool,
    label: Seq<char>,
    note: Seq<char>,
    vals: Seq<u32>,
    div: nat,
    unit: Seq<char>,
) -> Seq<char> {
    if vals.len() == 0 {
        seq![]
    } else {
        "\n  "@ + painted(on, label_code(), label) + note + dpm_lines(on, vals, div, unit)
    }
}

/// The voltage envelope lines, from the heading to the load line.
pub open spec fn profiling_limits_text(p: ProfilingInfo, on: bool) -> Seq<char> {
    optional_heading_text(on, Section::Profiling, true) + "\n"@ + kv_text(
        on,
        "Max VDDC (die limit)"@,
        dec(p.max_vddc_mv as nat / 100) + " mV"@,
    ) + "\n"@ + kv_text(on, "Min VDDC (die limit)"@, dec(p.min_vddc_mv as nat / 100) + " mV"@)
        + "\n"@ + kv_text(
        on,
        "Max voltage (0.25 mV units)"@,
        dec(p.max_voltage_0_25mv as nat) + " ("@ + dec(p.max_voltage_0_25mv as nat * 25 / 100)
            + " mV)"@,
    ) + "\n"@ + kv_text(on, "Load line slope"@, dec(p.load_line_slop as nat)) + "\n"@
}

/// The two efuse lines.
pub open spec fn profiling_efuse_text(p: ProfilingInfo, on: bool) -> Seq<char> {
    "  "@ + painted(on, label_code(), "Leakage efuse"@) + " leakage efuse · dword idx "@ + dec(
        p.lkg_euse_index as nat,
    ) + " · bit lsb "@ + dec(p.lkg_efuse_bit_lsb as nat) + " · length "@ + dec(
        p.lkg_efuse_length as nat,
    ) + "\n"@ + "  "@ + painted(on, label_code(), "RO (ring osc) efuse"@) + " dword idx "@ + dec(
        p.ro_efuse_index as nat,
    ) + " · bit lsb "@ + dec(p.ro_efuse_bit_lsb as nat) + " · length "@ + dec(
        p.ro_efuse_length as nat,
    ) + " · encode range "@ + dec(p.ro_efuse_encode_range as nat) + " · min "@ + dec(
        p.ro_efuse_min as nat,
    ) + "\n"@
}

/// The EVV voltage lines.
pub open spec fn profiling_evv_text(p: ProfilingInfo, on: bool) -> Seq<char> {
    "\n"@ + kv_text(on, "EVV default VDDC"@, p.evv_default_vddc_volts@ + " V"@) + "\n"@ + kv_text(
        on,
        "EVV no-calc VDDC"@,
        p.evv_no_calc_vddc_volts@ + " V"@,
    )
}

/// The per-DPM lists and the AVFS enable line.
pub open spec fn profiling_dpm_text(p: ProfilingInfo, on: bool) -> Seq<char> {
    dpm_block(
        on,
        "TDC limit per DPM"@,
        " (0.1 A per unit)\n"@,
        p.tdc_limit_per_dpm_a10@,
        10,
        " A"@,
    ) + dpm_block(
        on,
        "No-calc VDDC per DPM"@,
        " (VDDC to use when EVV fails)\n"@,
        p.no_calc_vddc_per_dpm_v1000000@,
        1000,
        " mV"@,
    ) + "\n"@ + "  "@ + painted(on, label_code(), "AVFS enables"@) + " GB droop: cksoff "@ + dec(
        p.enable_gb_vdroop_cksoff as nat,
    ) + " · ckson "@ + dec(p.enable_gb_vdroop_ckson as nat) + " · fuse cksoff "@ + dec(
        p.enable_gb_fuse_cksoff as nat,
    ) + " · fuse ckson "@ + dec(p.enable_gb_fuse_ckson as nat) + "\n"@
}

/// The whole profiling section of a ROM that has the table.
pub open spec fn profiling_text(p: ProfilingInfo, on: bool) -> Seq<char> {
    profiling_limits_text(p, on) + profiling_efuse_text(p, on) + profiling_evv_text(p, on)
        + profiling_dpm_text(p, on)
}

#[verifier::spinoff_prover]
fn push_dpm_block(
    out: &mut Vec<char>,
    pal: &Palette,
    label: &str,
    note: &str,
    vals: &Vec<u32>,
    div: u32,
    unit: &str,
)
    requires
        div > 0,
    ensures
        final(out)@ == old(out)@ + dpm_block(pal.on, label@, note@, vals@, div as nat, unit@),
{
    if vals.len() == 0 {
        return ;
    }
    let ghost s0 = out@;
    push_str_chars(out, "\n  ");
    push_str_chars(out, pal.label(label).as_str());
    push_str_chars(out, note);
    let ghost s1 = out@;
    let mut i: usize = 0;
    while i < vals.len()
        invariant
            i <= vals@.len(),
            div > 0,
            out@ == s1 + dpm_lines(pal.on, vals@.take(i as int), div as nat, unit@),
        decreases vals@.len() - i,
    {
        push_str_chars(out, "    ");
        push_str_chars(out, pal.value("▸").as_str());
        push_str_chars(out, " DPM");
        push_dec(out, i as u64);
        push_str_chars(out, ": ");
        push_dec(out, (vals[i] / div) as u64);
        push_str_chars(out, unit);
        push_str_chars(out, "\n");
        proof {
            let t = vals@.take(i + 1);
            assert(t.drop_last() == vals@.take(i as int));
            assert(t.last() == vals@[i as int]);
        }
        i = i + 1;
    }
    assert(vals@.take(vals@.len() as int) == vals@);
    assert(out@ =~= s0 + dpm_block(pal.on, label@, note@, vals@, div as nat, unit@));
}

#[verifier::spinoff_prover]
fn push_limits(out: &mut Vec<char>, p: &ProfilingInfo, pal: &Palette)
    ensures
        final(out)@ == old(out)@ + profiling_limits_text(*p, pal.on),
{
    let ghost s0 = out@;
    push_str_chars(out, optional_heading(pal, Section::Profiling, true).as_str());
    push_str_chars(out, "\n");
    let mut v: Vec<char> = Vec::new();
    push_dec(&mut v, (p.max_vddc_mv / 100) as u64);
    push_str_chars(&mut v, " mV");
    push_str_chars(out, kv(pal, "Max VDDC (die limit)", string_of(&v).as_str()).as_str());
    push_str_chars(out, "\n");
    let ghost s1 = out@;
    let mut v: Vec<char> = Vec::new();
    push_dec(&mut v, (p.min_vddc_mv / 100) as u64);
    push_str_chars(&mut v, " mV");
    push_str_chars(out, kv(pal, "Min VDDC (die limit)", string_of(&v).as_str()).as_str());
    push_str_chars(out, "\n");
    let ghost s2 = out@;
    let mut v: Vec<char> = Vec::new();
    push_dec(&mut v, p.max_voltage_0_25mv as u64);
    push_str_chars(&mut v, " (");
    push_dec(&mut v, (p.max_voltage_0_25mv as u32 * 25 / 100) as u64);
    push_str_chars(&mut v, " mV)");
    push_str_chars(out, kv(pal, "Max voltage (0.25 mV units)", string_of(&v).as_str()).as_str());
    push_str_chars(out, "\n");
    let ghost s3 = out@;
    let mut v: Vec<char> = Vec::new();
    push_dec(&mut v, p.load_line_slop as u64);
    push_str_chars(out, kv(pal, "Load line slope", string_of(&v).as_str()).as_str());
    push_str_chars(out, "\n");
    assert(out@ =~= s0 + profiling_limits_text(*p, pal.on));
}

#[verifier::spinoff_prover]
fn push_efuses(out: &mut Vec<char>, p: &ProfilingInfo, pal: &Palette)
    ensures
        final(out)@ == old(out)@ + profiling_efuse_text(*p, pal.on),
{
    let ghost s0 = out@;
    push_str_chars(out, "  ");
    push_str_chars(out, pal.label("Leakage efuse").as_str());
    push_str_chars(out, " leakage efuse · dword idx ");
    push_dec(out, p.lkg_euse_index as u64);
    push_str_chars(out, " · bit lsb ");
    push_dec(out, p.lkg_efuse_bit_lsb as u64);
    push_str_chars(out, " · length ");
    push_dec(out, p.lkg_efuse_length as u64);
    push_str_chars(out, "\n");
    let ghost s1 = out@;
    push_str_chars(out, "  ");
    push_str_chars(out, pal.label("RO (ring osc) efuse").as_str());
    push_str_chars(out, " dword idx ");
    push_dec(out, p.ro_efuse_index as u64);
    push_str_chars(out, " · bit lsb ");
    push_dec(out, p.ro_efuse_bit_lsb as u64);
    push_str_chars(out, " · length ");
    push_dec(out, p.ro_efuse_length as u64);
    push_str_chars(out, " · encode range ");
    push_dec(out, p.ro_efuse_encode_range as u64);
    push_str_chars(out, " · min ");
    push_dec(out, p.ro_efuse_min as u64);
    push_str_chars(out, "\n");
    assert(out@ =~= s0 + profiling_efuse_text(*p, pal.on));
}

#[verifier::spinoff_prover]
fn push_evv(out: &mut Vec<char>, p: &ProfilingInfo, pal: &Palette)
    ensures
        final(out)@ == old(out)@ + profiling_evv_text(*p, pal.on),
{
    let ghost s0 = out@;
    push_str_chars(out, "\n");
    let mut v: Vec<char> = Vec::new();
    push_str_chars(&mut v, p.evv_default_vddc_volts.as_str());
    push_str_chars(&mut v, " V");
    push_str_chars(out, kv(pal, "EVV default VDDC", string_of(&v).as_str()).as_str());
    push_str_chars(out, "\n");
    let ghost s1 = out@;
    let mut v: Vec<char> = Vec::new();
    push_str_chars(&mut v, p.evv_no_calc_vddc_volts.as_str());
    push_str_chars(&mut v, " V");
    push_str_chars(out, kv(pal, "EVV no-calc VDDC", string_of(&v).as_str()).as_str());
    assert(out@ =~= s0 + profiling_evv_text(*p, pal.on));
}

#[verifier::spinoff_prover]
fn push_dpm_and_avfs(out: &mut Vec<char>, p: &ProfilingInfo, pal: &Palette)
    ensures
        final(out)@ == old(out)@ + profiling_dpm_text(*p, pal.on),
{
    let ghost s0 = out@;
    push_dpm_block(
        out,
        pal,
        "TDC limit per DPM",
        " (0.1 A per unit)\n",
        &p.tdc_limit_per_dpm_a10,
        10,
        " A",
    );
    push_dpm_block(
        out,
        pal,
        "No-calc VDDC per DPM",
        " (VDDC to use when EVV fails)\n",
        &p.no_calc_vddc_per_dpm_v1000000,
        1000,
        " mV",
    );
    let ghost s1 = out@;
    push_str_chars(out, "\n");
    push_str_chars(out, "  ");
    push_str_chars(out, pal.label("AVFS enables").as_str());
    push_str_chars(out, " GB droop: cksoff ");
    push_dec(out, p.enable_gb_vdroop_cksoff as u64);
    push_str_chars(out, " · ckson ");
    push_dec(out, p.enable_gb_vdroop_ckson as u64);
    push_str_chars(out, " · fuse cksoff ");
    push_dec(out, p.enable_gb_fuse_cksoff as u64);
    push_str_chars(out, " · fuse ckson ");
    push_dec(out, p.enable_gb_fuse_ckson as u64);
    push_str_chars(out, "\n");
    assert(out@ =~= s0 + profiling_dpm_text(*p, pal.on));
}

/// Renders the ASIC profiling section; a ROM without the table gets the
/// heading and the "table not present" note.
pub fn render_profiling(p: Option<&ProfilingInfo>, pal: &Palette) -> (r: String)
    ensures
        r@ == match p {
            Some(q) => profiling_text(*q, pal.on),
            None => optional_heading_text(pal.on, Section::Profiling, false),
        },
{
    let p = match p {
        Some(q) => q,
        None => return optional_heading(pal, Section::Profiling, false),
    };
    let mut out: Vec<char> = Vec::new();
    push_limits(&mut out, p, pal);
    push_efuses(&mut out, p, pal);
    push_evv(&mut out, p, pal);
    push_dpm_and_avfs(&mut out, p, pal);
    string_of(&out)
}

/// The profiling dump shows the ROM's highest and lowest die voltage in
/// whole mV, its maximum voltage in 0.25 mV units with the mV it makes,
/// and its load line slope, each on the line named for it.
#[verifier::spinoff_prover]
pub proof fn law_profiling_dump_lines(p: ProfilingInfo, on: bool)
    ensures
        contains_text(profiling_text(p, on), kv_text(on, "Max VDDC (die limit)"@, dec(p.max_vddc_mv as nat / 100) + " mV"@)),
        contains_text(profiling_text(p, on), kv_text(on, "Min VDDC (die limit)"@, dec(p.min_vddc_mv as nat / 100) + " mV"@)),
        contains_text(profiling_text(p, on), kv_text(on, "Max voltage (0.25 mV units)"@, dec(p.max_voltage_0_25mv as nat) + " ("@ + dec(p.max_voltage_0_25mv as nat * 25 / 100) + " mV)"@)),
        contains_text(profiling_text(p, on), kv_text(on, "Load line slope"@, dec(p.load_line_slop as nat))),
{
    let x0 = optional_heading_text(on, Section::Profiling, true);
    let x1 = "\n"@;
    let x2 = kv_text(on, "Max VDDC (die limit)"@, dec(p.max_vddc_mv as nat / 100) + " mV"@);
    let x3 = "\n"@;
    let x4 = kv_text(on, "Min VDDC (die limit)"@, dec(p.min_vddc_mv as nat / 100) + " mV"@);
    let x5 = "\n"@;
    let x6 = kv_text(on, "Max voltage (0.25 mV units)"@, dec(p.max_voltage_0_25mv as nat) + " ("@ + dec(p.max_voltage_0_25mv as nat * 25 / 100) + " mV)"@);
    let x7 = "\n"@;
    let x8 = kv_text(on, "Load line slope"@, dec(p.load_line_slop as nat));
    let x9 = "\n"@;
    let p0 = x0;
    let p1 = p0 + x1;
    let p2 = p1 + x2;
    let p3 = p2 + x3;
    let p4 = p3 + x4;
    let p5 = p4 + x5;
    let p6 = p5 + x6;
    let p7 = p6 + x7;
    let p8 = p7 + x8;
    let p9 = p8 + x9;
    assert(profiling_limits_text(p, on) == p9);
    lemma_contains_self(x2);
    lemma_contains_right(p1, x2, x2);
    lemma_contains_left(p2, x3, x2);
    lemma_contains_left(p3, x4, x2);
    lemma_contains_left(p4, x5, x2);
    lemma_contains_left(p5, x6, x2);
    lemma_contains_left(p6, x7, x2);
    lemma_contains_left(p7, x8, x2);
    lemma_contains_left(p8, x9, x2);
    lemma_contains_self(x4);
    lemma_contains_right(p3, x4, x4);
    lemma_contains_left(p4, x5, x4);
    lemma_contains_left(p5, x6, x4);
    lemma_contains_left(p6, x7, x4);
    lemma_contains_left(p7, x8, x4);
    lemma_contains_left(p8, x9, x4);
    lemma_contains_self(x6);
    lemma_contains_right(p5, x6, x6);
    lemma_contains_left(p6, x7, x6);
    lemma_contains_left(p7, x8, x6);
    lemma_contains_left(p8, x9, x6);
    lemma_contains_self(x8);
    lemma_contains_right(p7, x8, x8);
    lemma_contains_left(p8, x9, x8);
    lemma_contains_left(profiling_limits_text(p, on), profiling_efuse_text(p, on), x2);
    lemma_contains_left(profiling_limits_text(p, on) + profiling_efuse_text(p, on), profiling_evv_text(p, on), x2);
    lemma_contains_left(profiling_limits_text(p, on) + profiling_efuse_text(p, on) + profiling_evv_text(p, on), profiling_dpm_text(p, on), x2);
    lemma_contains_left(profiling_limits_text(p, on), profiling_efuse_text(p, on), x4);
    lemma_contains_left(profiling_limits_text(p, on) + profiling_efuse_text(p, on), profiling_evv_text(p, on), x4);
    lemma_contains_left(profiling_limits_text(p, on) + profiling_efuse_text(p, on) + profiling_evv_text(p, on), profiling_dpm_text(p, on), x4);
    lemma_contains_left(profiling_limits_text(p, on), profiling_efuse_text(p, on), x6);
    lemma_contains_left(profiling_limits_text(p, on) + profiling_efuse_text(p, on), profiling_evv_text(p, on), x6);
    lemma_contains_left(profiling_limits_text(p, on) + profiling_efuse_text(p, on) + profiling_evv_text(p, on), profiling_dpm_text(p, on), x6);
    lemma_contains_left(profiling_limits_text(p, on), profiling_efuse_text(p, on), x8);
    lemma_contains_left(profiling_limits_text(p, on) + profiling_efuse_text(p, on), profiling_evv_text(p, on), x8);
    lemma_contains_left(profiling_limits_text(p, on) + profiling_efuse_text(p, on) + profiling_evv_text(p, on), profiling_dpm_text(p, on), x8);
}

} // verus!
