//! The platform capabilities section of the dump: the PowerPlay
//! capability flags, overdrive limits and the thermal controller.

use vstd::prelude::*;

use crate::num::{dec, hex, push_dec, push_hex};
use crate::render::color::Palette;
use crate::render::sections::{label_of, Section};
use crate::render::text::{heading, heading_text, kv, kv_text};
use crate::textutil::{push_str_chars, string_of, views, contains_text, lemma_contains_left, lemma_contains_right, lemma_contains_self};

verus! {

/// The thermal controller named by the PowerPlay table.
pub struct ThermalController {
    pub kind: u8,
    pub kind_name: String,
    pub i2c_line: u8,
    pub i2c_addr: u8,
}

/// What the capabilities section shows of a ROM.
pub struct CapsInfo {
    pub platform_caps: u32,
    /// The names of the capability flags that are set.
    pub platform_caps_decoded: Vec<String>,
    /// The engine overdrive limit in MHz, rounded for display.
    pub max_overdrive_engine_mhz: String,
    /// The memory overdrive limit in MHz, rounded for display.
    pub max_overdrive_memory_mhz: String,
    pub power_control_limit_pct: u16,
    pub thermal_controller: Option<ThermalController>,
}

/// The flag lines: one `• flag` line each, or a note when none is set.
pub open spec fn flag_lines(flags: Seq<Seq<char>>) -> Seq<char>
    decreases flags.len(),
{
    if flags.len() == 0 {
        seq![]
    } else {
        flag_lines(flags.drop_last()) + "\n  • "@ + flags.last()
    }
}

/// The whole capabilities section.
pub open spec fn caps_text(c: CapsInfo, on: bool) -> Seq<char> {
    let flags = views(c.platform_caps_decoded@);
    heading_text(on, label_of(Section::Caps)) + "\n"@ + kv_text(
        on,
        "platform_caps (raw)"@,
        "0x"@ + hex(c.platform_caps as nat),
    ) + (if flags.len() == 0 {
        "\n  (no recognized flags active)"@
    } else {
        flag_lines(flags)
    }) + "\n"@ + kv_text(on, "Max engine overdrive"@, c.max_overdrive_engine_mhz@ + " MHz"@)
        + "\n"@ + kv_text(on, "Max memory overdrive"@, c.max_overdrive_memory_mhz@ + " MHz"@)
        + "\n"@ + kv_text(
        on,
        "Power control limit"@,
        dec(c.power_control_limit_pct as nat) + "%"@,
    ) + match c.thermal_controller {
        Some(tc) => "\n"@ + kv_text(
            on,
            "Thermal controller"@,
            "type "@ + dec(tc.kind as nat) + " ("@ + tc.kind_name@ + ") · i2c line "@ + dec(
                tc.i2c_line as nat,
            ) + " address 0x"@ + hex(tc.i2c_addr as nat),
        ),
        None => seq![],
    }
}

fn push_flags(out: &mut Vec<char>, flags: &Vec<String>)
    ensures
        final(out)@ == old(out)@ + flag_lines(views(flags@)),
{
    let ghost start = out@;
    let mut k: usize = 0;
    while k < flags.len()
        invariant
            k <= flags@.len(),
            out@ == start + flag_lines(views(flags@).take(k as int)),
        decreases flags@.len() - k,
    {
        push_str_chars(out, "\n  • ");
        push_str_chars(out, flags[k].as_str());
        proof {
            let t = views(flags@).take(k + 1);
            assert(t.drop_last() == views(flags@).take(k as int));
            assert(t.last() == flags@[k as int]@);
        }
        k = k + 1;
    }
    assert(views(flags@).take(flags@.len() as int) == views(flags@));
}

fn push_kv_line(out: &mut Vec<char>, pal: &Palette, k: &str, v: &Vec<char>)
    ensures
        final(out)@ == old(out)@ + kv_text(pal.on, k@, v@),
{
    push_str_chars(out, kv(pal, k, string_of(v).as_str()).as_str());
}

/// Renders the platform capabilities section.
#[verifier::spinoff_prover]
pub fn render_caps(c: &CapsInfo, pal: &Palette) -> (r: String)
    ensures
        r@ == caps_text(*c, pal.on),
{
    let mut out: Vec<char> = Vec::new();
    push_str_chars(&mut out, heading(pal, Section::Caps.label()).as_str());
    push_str_chars(&mut out, "\n");
    let ghost s0 = out@;
    let mut v: Vec<char> = Vec::new();
    push_str_chars(&mut v, "0x");
    push_hex(&mut v, c.platform_caps as u64, 0);
    assert(crate::num::zero_padded(hex(c.platform_caps as nat), 0) == hex(c.platform_caps as nat));
    push_kv_line(&mut out, pal, "platform_caps (raw)", &v);
    let ghost s1 = out@;
    if c.platform_caps_decoded.len() == 0 {
        push_str_chars(&mut out, "\n  (no recognized flags active)");
    } else {
        push_flags(&mut out, &c.platform_caps_decoded);
    }
    let ghost s2 = out@;
    push_str_chars(&mut out, "\n");
    let mut v: Vec<char> = Vec::new();
    push_str_chars(&mut v, c.max_overdrive_engine_mhz.as_str());
    push_str_chars(&mut v, " MHz");
    push_kv_line(&mut out, pal, "Max engine overdrive", &v);
    push_str_chars(&mut out, "\n");
    let mut v: Vec<char> = Vec::new();
    push_str_chars(&mut v, c.max_overdrive_memory_mhz.as_str());
    push_str_chars(&mut v, " MHz");
    push_kv_line(&mut out, pal, "Max memory overdrive", &v);
    push_str_chars(&mut out, "\n");
    let mut v: Vec<char> = Vec::new();
    push_dec(&mut v, c.power_control_limit_pct as u64);
    push_str_chars(&mut v, "%");
    push_kv_line(&mut out, pal, "Power control limit", &v);
    let ghost s3 = out@;
    if let Some(tc) = &c.thermal_controller {
        push_str_chars(&mut out, "\n");
        let mut v: Vec<char> = Vec::new();
        push_str_chars(&mut v, "type ");
        push_dec(&mut v, tc.kind as u64);
        push_str_chars(&mut v, " (");
        push_str_chars(&mut v, tc.kind_name.as_str());
        push_str_chars(&mut v, ") · i2c line ");
        push_dec(&mut v, tc.i2c_line as u64);
        push_str_chars(&mut v, " address 0x");
        push_hex(&mut v, tc.i2c_addr as u64, 0);
        assert(crate::num::zero_padded(hex(tc.i2c_addr as nat), 0) == hex(tc.i2c_addr as nat));
        push_kv_line(&mut out, pal, "Thermal controller", &v);
    }
    assert(out@ =~= caps_text(*c, pal.on));
    string_of(&out)
}

/// The capabilities dump shows the ROM's raw capability flags in hex,
/// its engine and memory overdrive limits in MHz and its power control
/// limit in percent, each on the line named for it.
#[verifier::spinoff_prover]
pub proof fn law_caps_dump_lines(c: CapsInfo, on: bool)
    ensures
        contains_text(caps_text(c, on), kv_text(on, "platform_caps (raw)"@, "0x"@ + hex(c.platform_caps as nat))),
        contains_text(caps_text(c, on), kv_text(on, "Max engine overdrive"@, c.max_overdrive_engine_mhz@ + " MHz"@)),
        contains_text(caps_text(c, on), kv_text(on, "Max memory overdrive"@, c.max_overdrive_memory_mhz@ + " MHz"@)),
        contains_text(caps_text(c, on), kv_text(on, "Power control limit"@, dec(c.power_control_limit_pct as nat) + "%"@)),
{
    let flags = views(c.platform_caps_decoded@);
    let x0 = heading_text(on, label_of(Section::Caps));
    let x1 = "\n"@;
    let x2 = kv_text(on, "platform_caps (raw)"@, "0x"@ + hex(c.platform_caps as nat));
    let x3 = (if views(c.platform_caps_decoded@).len() == 0 { "\n  (no recognized flags active)"@ } else { flag_lines(views(c.platform_caps_decoded@)) });
    let x4 = "\n"@;
    let x5 = kv_text(on, "Max engine overdrive"@, c.max_overdrive_engine_mhz@ + " MHz"@);
    let x6 = "\n"@;
    let x7 = kv_text(on, "Max memory overdrive"@, c.max_overdrive_memory_mhz@ + " MHz"@);
    let x8 = "\n"@;
    let x9 = kv_text(on, "Power control limit"@, dec(c.power_control_limit_pct as nat) + "%"@);
    let x10 = match c.thermal_controller {
        Some(tc) => "\n"@ + kv_text(
            on,
            "Thermal controller"@,
            "type "@ + dec(tc.kind as nat) + " ("@ + tc.kind_name@ + ") · i2c line "@ + dec(
                tc.i2c_line as nat,
            ) + " address 0x"@ + hex(tc.i2c_addr as nat),
        ),
        None => seq![],
    };
    let p0 = x0;
    let p1 = p0 + x1;
    let p2 = p1 + x2;
    let p3 = p2 + x3;
    let p4 = p3 + x4;
    let p5 = p4 + x5;
    let p6 = p5 + x6;
    let p7 = p6 + x7;
    let p8 = p7 + x8;
    let p9 = p8 + x9;
    let p10 = p9 + x10;
    assert(caps_text(c, on) == p10);
    lemma_contains_self(x2);
    lemma_contains_right(p1, x2, x2);
    lemma_contains_left(p2, x3, x2);
    lemma_contains_left(p3, x4, x2);
    lemma_contains_left(p4, x5, x2);
    lemma_contains_left(p5, x6, x2);
    lemma_contains_left(p6, x7, x2);
    lemma_contains_left(p7, x8, x2);
    lemma_contains_left(p8, x9, x2);
    lemma_contains_left(p9, x10, x2);
    lemma_contains_self(x5);
    lemma_contains_right(p4, x5, x5);
    lemma_contains_left(p5, x6, x5);
    lemma_contains_left(p6, x7, x5);
    lemma_contains_left(p7, x8, x5);
    lemma_contains_left(p8, x9, x5);
    lemma_contains_left(p9, x10, x5);
    lemma_contains_self(x7);
    lemma_contains_right(p6, x7, x7);
    lemma_contains_left(p7, x8, x7);
    lemma_contains_left(p8, x9, x7);
    lemma_contains_left(p9, x10, x7);
    lemma_contains_self(x9);
    lemma_contains_right(p8, x9, x9);
    lemma_contains_left(p9, x10, x9);
}

} // verus!
