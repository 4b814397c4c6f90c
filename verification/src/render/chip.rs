//! The dump sections of the GFX configuration and of the GPIO pin roles.

use vstd::prelude::*;

use crate::compare_chip::{cus, ip_string, ip_text, total_cus, AsicInfo};
use crate::num::{dec, hex, push_dec, push_hex, zero_padded};
use crate::render::color::{good_code, label_code, painted, value_code, Palette};
use crate::render::sections::Section;
use crate::render::text::{optional_heading, optional_heading_text};
use crate::textutil::{
    contains_text, lemma_contains_left, lemma_contains_right, lemma_contains_self, push_str_chars,
    string_of,
};

verus! {

/// A line `  LABEL value` with the label in the label colour.
pub open spec fn labelled(on: bool, label: Seq<char>, v: Seq<char>) -> Seq<char> {
    "  "@ + painted(on, label_code(), label) + " "@ + v + "\n"@
}

/// The lines of the GFX configuration.
pub open spec fn asic_lines(on: bool, a: AsicInfo) -> Seq<char> {
    labelled(on, "GFX IP version"@, "GFX IP "@ + ip_text(a)) + labelled(
        on,
        "Shader engines (SE)"@,
        dec(a.max_shader_engines as nat),
    ) + labelled(on, "Shader arrays per SE"@, dec(a.max_sh_per_se as nat)) + labelled(
        on,
        "Compute units per SH"@,
        dec(a.max_cu_per_sh as nat),
    ) + labelled(on, "Total CUs (max)"@, dec(total_cus(a))) + labelled(
        on,
        "Render backends per SE"@,
        dec(a.max_backends_per_se as nat),
    ) + labelled(on, "Tile pipes"@, dec(a.max_tile_pipes as nat)) + labelled(
        on,
        "Texture channel caches"@,
        dec(a.max_texture_channel_caches as nat),
    ) + match a.hi_lo_leakage_threshold {
        Some(lt) => labelled(on, "Hi/Lo leakage threshold"@, "0x"@ + hex(lt as nat)),
        None => seq![],
    }
}

/// The GFX section of the dump: the note that the table is missing, or
/// its layout counts, their product and the leakage threshold.
pub open spec fn asic_dump_text(on: bool, a: Option<AsicInfo>) -> Seq<char> {
    match a {
        None => optional_heading_text(on, Section::Asic, false),
        Some(x) => optional_heading_text(on, Section::Asic, true) + "\n"@ + asic_lines(on, x),
    }
}

fn push_labelled(out: &mut Vec<char>, pal: &Palette, label: &str, v: &str)
    ensures
        final(out)@ == old(out)@ + labelled(pal.on, label@, v@),
{
    let ghost start = out@;
    push_str_chars(out, "  ");
    push_str_chars(out, pal.label(label).as_str());
    push_str_chars(out, " ");
    push_str_chars(out, v);
    push_str_chars(out, "\n");
    proof {
        assert(out@ =~= start + labelled(pal.on, label@, v@));
    }
}

fn dec_string(n: u64) -> (r: String)
    ensures
        r@ == dec(n as nat),
{
    let mut v: Vec<char> = Vec::new();
    push_dec(&mut v, n);
    string_of(&v)
}

/// Renders the GFX section of the dump.
#[verifier::spinoff_prover]
pub fn render_asic(a: Option<&AsicInfo>, pal: &Palette) -> (r: String)
    ensures
        r@ == asic_dump_text(
            pal.on,
            match a {
                Some(x) => Some(*x),
                None => None,
            },
        ),
{
    let x = match a {
        None => {
            return optional_heading(pal, Section::Asic, false);
        },
        Some(x) => x,
    };
    let mut out: Vec<char> = Vec::new();
    push_str_chars(&mut out, optional_heading(pal, Section::Asic, true).as_str());
    push_str_chars(&mut out, "\n");
    let ghost s0 = out@;
    let mut ip: Vec<char> = Vec::new();
    push_str_chars(&mut ip, "GFX IP ");
    push_str_chars(&mut ip, ip_string(x).as_str());
    push_labelled(&mut out, pal, "GFX IP version", string_of(&ip).as_str());
    push_labelled(&mut out, pal, "Shader engines (SE)", dec_string(x.max_shader_engines as u64).as_str());
    push_labelled(&mut out, pal, "Shader arrays per SE", dec_string(x.max_sh_per_se as u64).as_str());
    push_labelled(&mut out, pal, "Compute units per SH", dec_string(x.max_cu_per_sh as u64).as_str());
    push_labelled(&mut out, pal, "Total CUs (max)", dec_string(cus(x)).as_str());
    push_labelled(
        &mut out,
        pal,
        "Render backends per SE",
        dec_string(x.max_backends_per_se as u64).as_str(),
    );
    push_labelled(&mut out, pal, "Tile pipes", dec_string(x.max_tile_pipes as u64).as_str());
    push_labelled(
        &mut out,
        pal,
        "Texture channel caches",
        dec_string(x.max_texture_channel_caches as u64).as_str(),
    );
    match x.hi_lo_leakage_threshold {
        Some(lt) => {
            let mut v: Vec<char> = Vec::new();
            push_str_chars(&mut v, "0x");
            push_hex(&mut v, lt as u64, 0);
            proof {
                assert(zero_padded(hex(lt as nat), 0) == hex(lt as nat));
                assert(v@ =~= "0x"@ + hex(lt as nat));
            }
            push_labelled(&mut out, pal, "Hi/Lo leakage threshold", string_of(&v).as_str());
        },
        None => {},
    }
    proof {
        assert(out@ =~= s0 + asic_lines(pal.on, *x));
    }
    string_of(&out)
}

/// One pin of the GPIO pin table.
pub struct GpioPin {
    pub gpio_id: u8,
    /// The pin's role, where its ID is a known one.
    pub gpio_id_name: Option<String>,
    pub gpio_pin_a_index: u16,
    pub pin_bit_shift: u8,
}

/// The line of one pin.
pub open spec fn pin_text(on: bool, p: GpioPin) -> Seq<char> {
    "\n  "@ + painted(on, value_code(), "▸"@) + " pin id "@ + dec(p.gpio_id as nat) + " (0x"@
        + zero_padded(hex(p.gpio_id as nat), 2) + ") · GPIO index "@ + dec(p.gpio_pin_a_index as nat)
        + " bit shift "@ + dec(p.pin_bit_shift as nat) + " · "@ + painted(
        on,
        good_code(),
        match p.gpio_id_name {
            Some(n) => n@,
            None => "reserved/unused"@,
        },
    )
}

/// The lines of the pins, in order.
pub open spec fn pins_text(on: bool, ps: Seq<GpioPin>) -> Seq<char>
    decreases ps.len(),
{
    if ps.len() == 0 {
        seq![]
    } else {
        pins_text(on, ps.drop_last()) + pin_text(on, ps.last())
    }
}

/// The GPIO section of the dump: the note that the table is missing, a
/// note that it assigns no pin, or a line per pin.
pub open spec fn gpio_dump_text(on: bool, pins: Option<Seq<GpioPin>>) -> Seq<char> {
    match pins {
        None => optional_heading_text(on, Section::Gpio, false),
        Some(ps) => optional_heading_text(on, Section::Gpio, true) + if ps.len() == 0 {
            "\n  (no GPIO pin assignments)"@
        } else {
            pins_text(on, ps)
        },
    }
}

fn push_pin(out: &mut Vec<char>, p: &GpioPin, pal: &Palette)
    ensures
        final(out)@ == old(out)@ + pin_text(pal.on, *p),
{
    let ghost start = out@;
    push_str_chars(out, "\n  ");
    push_str_chars(out, pal.value("▸").as_str());
    push_str_chars(out, " pin id ");
    push_dec(out, p.gpio_id as u64);
    push_str_chars(out, " (0x");
    push_hex(out, p.gpio_id as u64, 2);
    push_str_chars(out, ") · GPIO index ");
    push_dec(out, p.gpio_pin_a_index as u64);
    push_str_chars(out, " bit shift ");
    push_dec(out, p.pin_bit_shift as u64);
    push_str_chars(out, " · ");
    match &p.gpio_id_name {
        Some(n) => push_str_chars(out, pal.good(n.as_str()).as_str()),
        None => push_str_chars(out, pal.good("reserved/unused").as_str()),
    }
    proof {
        assert(out@ =~= start + pin_text(pal.on, *p));
    }
}

/// Renders the GPIO section of the dump: each pin's ID, GPIO index, bit
/// shift and role.
pub fn render_gpio(pins: Option<&Vec<GpioPin>>, pal: &Palette) -> (r: String)
    ensures
        r@ == gpio_dump_text(
            pal.on,
            match pins {
                Some(v) => Some(v@),
                None => None,
            },
        ),
{
    let ps = match pins {
        None => {
            return optional_heading(pal, Section::Gpio, false);
        },
        Some(ps) => ps,
    };
    let mut out: Vec<char> = Vec::new();
    push_str_chars(&mut out, optional_heading(pal, Section::Gpio, true).as_str());
    if ps.len() == 0 {
        push_str_chars(&mut out, "\n  (no GPIO pin assignments)");
        return string_of(&out);
    }
    let ghost start = out@;
    let mut i: usize = 0;
    while i < ps.len()
        invariant
            i <= ps@.len(),
            out@ == start + pins_text(pal.on, ps@.take(i as int)),
        decreases ps@.len() - i,
    {
        push_pin(&mut out, &ps[i], pal);
        proof {
            let t = ps@.take(i + 1);
            assert(t.drop_last() == ps@.take(i as int));
            assert(t.last() == ps@[i as int]);
        }
        i = i + 1;
    }
    assert(ps@.take(ps@.len() as int) == ps@);
    string_of(&out)
}

/// One power source of the power source table.
pub struct PowerSource {
    pub source_name: String,
    /// The sensed power in watts, 0 where the table gives none.
    pub sensed_power_w: u16,
    pub sensor_type_name: String,
    /// The raw sensor type: 1 for a GPIO, 2 for an I2C sensor.
    pub sensor_type_raw: u8,
    pub sensor_id: u8,
    pub sensor_slave_addr: u8,
    pub sensor_reg_index: u8,
    pub sensor_reg_bit_mask: u8,
    pub sensor_active_state: u8,
}

/// The lines of one power source.
pub open spec fn source_text(on: bool, o: PowerSource) -> Seq<char> {
    "\n"@ + "  "@ + painted(on, value_code(), "▸"@) + " "@ + painted(on, good_code(), o.source_name@) + (
    if o.sensed_power_w > 0 {
        " - sensed "@ + dec(o.sensed_power_w as nat) + " W"@
    } else {
        seq![]
    }) + "\n"@ + "      detection: "@ + o.sensor_type_name@ + "\n"@ + if o.sensor_type_raw == 2 {
        "      i2c id "@ + dec(o.sensor_id as nat) + " · slave addr 0x"@ + zero_padded(
            hex(o.sensor_slave_addr as nat),
            2,
        ) + " · reg index 0x"@ + zero_padded(hex(o.sensor_reg_index as nat), 2) + " · bitmask 0x"@
            + zero_padded(hex(o.sensor_reg_bit_mask as nat), 2) + " · active state "@ + dec(
            o.sensor_active_state as nat,
        ) + "\n"@
    } else if o.sensor_type_raw == 1 {
        "      gpio id "@ + dec(o.sensor_id as nat) + " · active state "@ + dec(o.sensor_active_state as nat)
            + "\n"@
    } else {
        seq![]
    }
}

/// The lines of the sources, in order.
pub open spec fn sources_text(on: bool, os: Seq<PowerSource>) -> Seq<char>
    decreases os.len(),
{
    if os.len() == 0 {
        seq![]
    } else {
        sources_text(on, os.drop_last()) + source_text(on, os.last())
    }
}

/// The power source section of the dump: the note that the table is
/// missing, a note that it lists no source, or each source with its
/// sensor.
pub open spec fn power_dump_text(on: bool, sources: Option<Seq<PowerSource>>) -> Seq<char> {
    match sources {
        None => optional_heading_text(on, Section::Power, false),
        Some(os) => optional_heading_text(on, Section::Power, true) + if os.len() == 0 {
            "\n  (no power source objects)"@
        } else {
            sources_text(on, os)
        },
    }
}

fn push_sensor(out: &mut Vec<char>, o: &PowerSource)
    ensures
        final(out)@ == old(out)@ + (if o.sensor_type_raw == 2 {
            "      i2c id "@ + dec(o.sensor_id as nat) + " · slave addr 0x"@ + zero_padded(
                hex(o.sensor_slave_addr as nat),
                2,
            ) + " · reg index 0x"@ + zero_padded(hex(o.sensor_reg_index as nat), 2) + " · bitmask 0x"@
                + zero_padded(hex(o.sensor_reg_bit_mask as nat), 2) + " · active state "@ + dec(
                o.sensor_active_state as nat,
            ) + "\n"@
        } else if o.sensor_type_raw == 1 {
            "      gpio id "@ + dec(o.sensor_id as nat) + " · active state "@ + dec(
                o.sensor_active_state as nat,
            ) + "\n"@
        } else {
            seq![]
        }),
{
    let ghost start = out@;
    if o.sensor_type_raw == 2 {
        push_str_chars(out, "      i2c id ");
        push_dec(out, o.sensor_id as u64);
        push_str_chars(out, " · slave addr 0x");
        push_hex(out, o.sensor_slave_addr as u64, 2);
        push_str_chars(out, " · reg index 0x");
        push_hex(out, o.sensor_reg_index as u64, 2);
        push_str_chars(out, " · bitmask 0x");
        push_hex(out, o.sensor_reg_bit_mask as u64, 2);
        push_str_chars(out, " · active state ");
        push_dec(out, o.sensor_active_state as u64);
        push_str_chars(out, "\n");
    } else if o.sensor_type_raw == 1 {
        push_str_chars(out, "      gpio id ");
        push_dec(out, o.sensor_id as u64);
        push_str_chars(out, " · active state ");
        push_dec(out, o.sensor_active_state as u64);
        push_str_chars(out, "\n");
    }
    proof {
        if o.sensor_type_raw != 2 && o.sensor_type_raw != 1 {
            assert(out@ =~= start + Seq::<char>::empty());
        }
    }
}

#[verifier::spinoff_prover]
#[verifier::rlimit(50)]
fn push_source(out: &mut Vec<char>, o: &PowerSource, pal: &Palette)
    ensures
        final(out)@ == old(out)@ + source_text(pal.on, *o),
{
    let ghost start = out@;
    push_str_chars(out, "\n");
    push_str_chars(out, "  ");
    push_str_chars(out, pal.value("▸").as_str());
    push_str_chars(out, " ");
    push_str_chars(out, pal.good(o.source_name.as_str()).as_str());
    if o.sensed_power_w > 0 {
        push_str_chars(out, " - sensed ");
        push_dec(out, o.sensed_power_w as u64);
        push_str_chars(out, " W");
    }
    push_str_chars(out, "\n");
    push_str_chars(out, "      detection: ");
    push_str_chars(out, o.sensor_type_name.as_str());
    push_str_chars(out, "\n");
    let ghost mid = out@;
    push_sensor(out, o);
    proof {
        assert(out@ =~= start + source_text(pal.on, *o));
    }
}

/// Renders the power source section of the dump: each source with its
/// sensed power and the sensor that detects it.
pub fn render_power(sources: Option<&Vec<PowerSource>>, pal: &Palette) -> (r: String)
    ensures
        r@ == power_dump_text(
            pal.on,
            match sources {
                Some(v) => Some(v@),
                None => None,
            },
        ),
{
    let os = match sources {
        None => {
            return optional_heading(pal, Section::Power, false);
        },
        Some(os) => os,
    };
    let mut out: Vec<char> = Vec::new();
    push_str_chars(&mut out, optional_heading(pal, Section::Power, true).as_str());
    if os.len() == 0 {
        push_str_chars(&mut out, "\n  (no power source objects)");
        return string_of(&out);
    }
    let ghost start = out@;
    let mut i: usize = 0;
    while i < os.len()
        invariant
            i <= os@.len(),
            out@ == start + sources_text(pal.on, os@.take(i as int)),
        decreases os@.len() - i,
    {
        push_source(&mut out, &os[i], pal);
        proof {
            let t = os@.take(i + 1);
            assert(t.drop_last() == os@.take(i as int));
            assert(t.last() == os@[i as int]);
        }
        i = i + 1;
    }
    assert(os@.take(os@.len() as int) == os@);
    string_of(&out)
}

/// A line of the dump: the label in the label colour, a space, the value.
pub open spec fn dump_line(on: bool, label: Seq<char>, v: Seq<char>) -> Seq<char> {
    "  "@ + painted(on, label_code(), label) + " "@ + v + "\n"@
}

/// The GFX dump of a ROM with the table shows each quantity of the ROM in
/// the line named for it: IP version, shader engines, shader arrays per
/// engine, units per array, their product, render backends, tile pipes
/// and texture channel caches.
#[verifier::spinoff_prover]
pub proof fn law_asic_dump_lines(a: AsicInfo, on: bool)
    ensures
        contains_text(asic_dump_text(on, Some(a)), dump_line(on, "GFX IP version"@, "GFX IP "@ + dec(a.gfx_ip_maj_ver as nat) + "."@ + dec(a.gfx_ip_min_ver as nat))),
        contains_text(asic_dump_text(on, Some(a)), dump_line(on, "Shader engines (SE)"@, dec(a.max_shader_engines as nat))),
        contains_text(asic_dump_text(on, Some(a)), dump_line(on, "Shader arrays per SE"@, dec(a.max_sh_per_se as nat))),
        contains_text(asic_dump_text(on, Some(a)), dump_line(on, "Compute units per SH"@, dec(a.max_cu_per_sh as nat))),
        contains_text(asic_dump_text(on, Some(a)), dump_line(on, "Total CUs (max)"@, dec((a.max_shader_engines * a.max_sh_per_se * a.max_cu_per_sh) as nat))),
        contains_text(asic_dump_text(on, Some(a)), dump_line(on, "Render backends per SE"@, dec(a.max_backends_per_se as nat))),
        contains_text(asic_dump_text(on, Some(a)), dump_line(on, "Tile pipes"@, dec(a.max_tile_pipes as nat))),
        contains_text(asic_dump_text(on, Some(a)), dump_line(on, "Texture channel caches"@, dec(a.max_texture_channel_caches as nat))),
{
    let h = optional_heading_text(on, Section::Asic, true) + "\n"@;
    let opt = match a.hi_lo_leakage_threshold {
        Some(lt) => labelled(on, "Hi/Lo leakage threshold"@, "0x"@ + hex(lt as nat)),
        None => seq![],
    };
    let l0 = dump_line(on, "GFX IP version"@, "GFX IP "@ + dec(a.gfx_ip_maj_ver as nat) + "."@ + dec(a.gfx_ip_min_ver as nat));
    let l1 = dump_line(on, "Shader engines (SE)"@, dec(a.max_shader_engines as nat));
    let l2 = dump_line(on, "Shader arrays per SE"@, dec(a.max_sh_per_se as nat));
    let l3 = dump_line(on, "Compute units per SH"@, dec(a.max_cu_per_sh as nat));
    let l4 = dump_line(on, "Total CUs (max)"@, dec((a.max_shader_engines * a.max_sh_per_se * a.max_cu_per_sh) as nat));
    let l5 = dump_line(on, "Render backends per SE"@, dec(a.max_backends_per_se as nat));
    let l6 = dump_line(on, "Tile pipes"@, dec(a.max_tile_pipes as nat));
    let l7 = dump_line(on, "Texture channel caches"@, dec(a.max_texture_channel_caches as nat));
    let c0 = l0;
    let c1 = c0 + l1;
    let c2 = c1 + l2;
    let c3 = c2 + l3;
    let c4 = c3 + l4;
    let c5 = c4 + l5;
    let c6 = c5 + l6;
    let c7 = c6 + l7;
    assert(ip_text(a) == dec(a.gfx_ip_maj_ver as nat) + "."@ + dec(a.gfx_ip_min_ver as nat));
    assert(asic_lines(on, a) == c7 + opt);
    assert(asic_dump_text(on, Some(a)) == h + (c7 + opt));
    lemma_contains_self(l0);
    lemma_contains_left(c0, l1, l0);
    lemma_contains_left(c1, l2, l0);
    lemma_contains_left(c2, l3, l0);
    lemma_contains_left(c3, l4, l0);
    lemma_contains_left(c4, l5, l0);
    lemma_contains_left(c5, l6, l0);
    lemma_contains_left(c6, l7, l0);
    lemma_contains_left(c7, opt, l0);
    lemma_contains_right(h, c7 + opt, l0);
    lemma_contains_self(l1);
    lemma_contains_right(c0, l1, l1);
    lemma_contains_left(c1, l2, l1);
    lemma_contains_left(c2, l3, l1);
    lemma_contains_left(c3, l4, l1);
    lemma_contains_left(c4, l5, l1);
    lemma_contains_left(c5, l6, l1);
    lemma_contains_left(c6, l7, l1);
    lemma_contains_left(c7, opt, l1);
    lemma_contains_right(h, c7 + opt, l1);
    lemma_contains_self(l2);
    lemma_contains_right(c1, l2, l2);
    lemma_contains_left(c2, l3, l2);
    lemma_contains_left(c3, l4, l2);
    lemma_contains_left(c4, l5, l2);
    lemma_contains_left(c5, l6, l2);
    lemma_contains_left(c6, l7, l2);
    lemma_contains_left(c7, opt, l2);
    lemma_contains_right(h, c7 + opt, l2);
    lemma_contains_self(l3);
    lemma_contains_right(c2, l3, l3);
    lemma_contains_left(c3, l4, l3);
    lemma_contains_left(c4, l5, l3);
    lemma_contains_left(c5, l6, l3);
    lemma_contains_left(c6, l7, l3);
    lemma_contains_left(c7, opt, l3);
    lemma_contains_right(h, c7 + opt, l3);
    lemma_contains_self(l4);
    lemma_contains_right(c3, l4, l4);
    lemma_contains_left(c4, l5, l4);
    lemma_contains_left(c5, l6, l4);
    lemma_contains_left(c6, l7, l4);
    lemma_contains_left(c7, opt, l4);
    lemma_contains_right(h, c7 + opt, l4);
    lemma_contains_self(l5);
    lemma_contains_right(c4, l5, l5);
    lemma_contains_left(c5, l6, l5);
    lemma_contains_left(c6, l7, l5);
    lemma_contains_left(c7, opt, l5);
    lemma_contains_right(h, c7 + opt, l5);
    lemma_contains_self(l6);
    lemma_contains_right(c5, l6, l6);
    lemma_contains_left(c6, l7, l6);
    lemma_contains_left(c7, opt, l6);
    lemma_contains_right(h, c7 + opt, l6);
    lemma_contains_self(l7);
    lemma_contains_right(c6, l7, l7);
    lemma_contains_left(c7, opt, l7);
    lemma_contains_right(h, c7 + opt, l7);
}

proof fn lemma_pins_has(on: bool, ps: Seq<GpioPin>, i: int)
    requires
        0 <= i < ps.len(),
    ensures
        contains_text(pins_text(on, ps), pin_text(on, ps[i])),
    decreases ps.len(),
{
    let init = pins_text(on, ps.drop_last());
    let last = pin_text(on, ps.last());
    if i == ps.len() - 1 {
        lemma_contains_self(last);
        lemma_contains_right(init, last, last);
    } else {
        assert(ps.drop_last()[i] == ps[i]);
        lemma_pins_has(on, ps.drop_last(), i);
        lemma_contains_left(init, last, pin_text(on, ps[i]));
    }
}

/// The GPIO dump shows every pin of the table as a line with its ID in
/// decimal and hex, its GPIO index, its bit shift and its role
/// (`reserved/unused` where the ID names none), in that order.
pub proof fn law_gpio_dump_pins(ps: Seq<GpioPin>, on: bool, i: int)
    requires
        0 <= i < ps.len(),
    ensures
        ({
            let p = ps[i];
            contains_text(
                gpio_dump_text(on, Some(ps)),
                " pin id "@ + dec(p.gpio_id as nat) + " (0x"@ + zero_padded(hex(p.gpio_id as nat), 2)
                    + ") · GPIO index "@ + dec(p.gpio_pin_a_index as nat) + " bit shift "@ + dec(
                    p.pin_bit_shift as nat,
                ) + " · "@ + painted(
                    on,
                    good_code(),
                    match p.gpio_id_name {
                        Some(n) => n@,
                        None => "reserved/unused"@,
                    },
                ),
            )
        }),
{
    let p = ps[i];
    lemma_pins_has(on, ps, i);
    let line = pin_text(on, p);
    let pre = "\n  "@ + painted(on, value_code(), "▸"@);
    let rest = " pin id "@ + dec(p.gpio_id as nat) + " (0x"@ + zero_padded(hex(p.gpio_id as nat), 2)
        + ") · GPIO index "@ + dec(p.gpio_pin_a_index as nat) + " bit shift "@ + dec(p.pin_bit_shift as nat)
        + " · "@ + painted(
        on,
        good_code(),
        match p.gpio_id_name {
            Some(n) => n@,
            None => "reserved/unused"@,
        },
    );
    assert(line =~= pre + rest);
    lemma_contains_self(rest);
    lemma_contains_right(pre, rest, rest);
    let (a, b) = choose|a: Seq<char>, b: Seq<char>| pins_text(on, ps) == a + line + b;
    assert(pins_text(on, ps) =~= (a + pre) + rest + b);
    lemma_contains_right(optional_heading_text(on, Section::Gpio, true), pins_text(on, ps), rest);
}

proof fn lemma_sources_has(on: bool, os: Seq<PowerSource>, i: int)
    requires
        0 <= i < os.len(),
    ensures
        contains_text(sources_text(on, os), source_text(on, os[i])),
    decreases os.len(),
{
    let init = sources_text(on, os.drop_last());
    let last = source_text(on, os.last());
    if i == os.len() - 1 {
        lemma_contains_self(last);
        lemma_contains_right(init, last, last);
    } else {
        assert(os.drop_last()[i] == os[i]);
        lemma_sources_has(on, os.drop_last(), i);
        lemma_contains_left(init, last, source_text(on, os[i]));
    }
}

/// The power-source dump shows, for every source of the table, its
/// detection line with its own sensor type name, and for an I2C sensor
/// its ID, slave address, register index, bit mask and active state, for
/// a GPIO sensor its ID and active state, in that order.
pub proof fn law_power_dump_sensors(os: Seq<PowerSource>, on: bool, i: int)
    requires
        0 <= i < os.len(),
    ensures
        ({
            let o = os[i];
            let t = power_dump_text(on, Some(os));
            &&& contains_text(t, "      detection: "@ + o.sensor_type_name@ + "\n"@)
            &&& o.sensor_type_raw == 2 ==> contains_text(
                t,
                "      i2c id "@ + dec(o.sensor_id as nat) + " · slave addr 0x"@ + zero_padded(
                    hex(o.sensor_slave_addr as nat),
                    2,
                ) + " · reg index 0x"@ + zero_padded(hex(o.sensor_reg_index as nat), 2) + " · bitmask 0x"@
                    + zero_padded(hex(o.sensor_reg_bit_mask as nat), 2) + " · active state "@ + dec(
                    o.sensor_active_state as nat,
                ) + "\n"@,
            )
            &&& o.sensor_type_raw == 1 ==> contains_text(
                t,
                "      gpio id "@ + dec(o.sensor_id as nat) + " · active state "@ + dec(o.sensor_active_state as nat)
                    + "\n"@,
            )
        }),
{
    let o = os[i];
    lemma_sources_has(on, os, i);
    let line = source_text(on, o);
    let head = "\n"@ + "  "@ + painted(on, value_code(), "▸"@) + " "@ + painted(on, good_code(), o.source_name@) + (
    if o.sensed_power_w > 0 {
        " - sensed "@ + dec(o.sensed_power_w as nat) + " W"@
    } else {
        seq![]
    }) + "\n"@;
    let det = "      detection: "@ + o.sensor_type_name@ + "\n"@;
    let sensor = if o.sensor_type_raw == 2 {
        "      i2c id "@ + dec(o.sensor_id as nat) + " · slave addr 0x"@ + zero_padded(
            hex(o.sensor_slave_addr as nat),
            2,
        ) + " · reg index 0x"@ + zero_padded(hex(o.sensor_reg_index as nat), 2) + " · bitmask 0x"@
            + zero_padded(hex(o.sensor_reg_bit_mask as nat), 2) + " · active state "@ + dec(
            o.sensor_active_state as nat,
        ) + "\n"@
    } else if o.sensor_type_raw == 1 {
        "      gpio id "@ + dec(o.sensor_id as nat) + " · active state "@ + dec(o.sensor_active_state as nat)
            + "\n"@
    } else {
        seq![]
    };
    assert(line == head + det + sensor);
    lemma_contains_self(det);
    lemma_contains_right(head, det, det);
    lemma_contains_left(head + det, sensor, det);
    lemma_contains_self(sensor);
    lemma_contains_right(head + det, sensor, sensor);
    let hd = optional_heading_text(on, Section::Power, true);
    assert(power_dump_text(on, Some(os)) == hd + sources_text(on, os));
    lemma_contains_right(hd, sources_text(on, os), line);
    crate::textutil::lemma_contains_trans(power_dump_text(on, Some(os)), line, det);
    crate::textutil::lemma_contains_trans(power_dump_text(on, Some(os)), line, sensor);
}

} // verus!
