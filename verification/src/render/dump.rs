//! The dump of one ROM assembled from its sections: which renderer each
//! section gets, and the dump around them.

use vstd::prelude::*;

use crate::compare_report::RomData;
use crate::render::caps::{caps_text, render_caps};
use crate::render::chain::{display_text, pcir_chain_text, render_display, render_pcir_chain};
use crate::render::chip::{
    asic_dump_text, gpio_dump_text, power_dump_text, render_asic, render_gpio, render_power,
};
use crate::render::color::Palette;
use crate::render::header::{header_text, render_header};
use crate::render::profiling::{profiling_text, render_profiling};
use crate::render::sections::Section;
use crate::render::tables::{
    pcie_dump_text, render_pcie, render_voltages, render_vram, voltages_dump_text, vram_dump_text,
};
use crate::render::sections::label_of;
use crate::render::text::{dump_text, heading_text, optional_heading_text, render_sections};
use crate::render::vrm::{render_vrm, vrm_text};
use crate::textutil::views;

verus! {

/// The sections that `render_section` renders.
pub open spec fn rendered(section: Section) -> bool {
    match section {
        Section::Header | Section::Vrm | Section::Caps | Section::Profiling | Section::PcirChain
        | Section::Display | Section::Asic | Section::Gpio | Section::Vram | Section::Pcie
        | Section::Voltages | Section::Power => true,
        _ => false,
    }
}

/// The dump of `section` of ROM `r`; `None` for a section this dump does
/// not cover.
pub open spec fn section_dump(r: RomData, section: Section, on: bool) -> Option<Seq<char>> {
    match section {
        Section::Header => Some(header_text(r.header, on)),
        Section::Vrm => Some(vrm_text(r.vrm, on)),
        Section::Caps => Some(caps_text(r.caps, on)),
        Section::Profiling => Some(
            match r.profiling {
                Some(q) => profiling_text(q, on),
                None => optional_heading_text(on, Section::Profiling, false),
            },
        ),
        Section::PcirChain => Some(pcir_chain_text(on, r.pci_images@)),
        Section::Display => Some(display_text(on, r.display)),
        Section::Asic => Some(asic_dump_text(on, r.asic)),
        Section::Gpio => Some(
            gpio_dump_text(
                on,
                match r.gpio_pins {
                    Some(v) => Some(v@),
                    None => None,
                },
            ),
        ),
        Section::Vram => Some(vram_dump_text(on, r.vram)),
        Section::Pcie => Some(pcie_dump_text(on, r.pcie@, r.vrhot_sclk_dpm_index)),
        Section::Voltages => Some(voltages_dump_text(on, r.vddc@, r.vddgfx@)),
        Section::Power => Some(
            power_dump_text(
                on,
                match r.power_sources {
                    Some(v) => Some(v@),
                    None => None,
                },
            ),
        ),
        _ => None,
    }
}

/// Renders one section of the dump of a ROM, or `None` where this dump
/// does not cover it.
pub fn render_section(r: &RomData, section: Section, pal: &Palette) -> (out: Option<String>)
    ensures
        out is Some <==> rendered(section),
        match out {
            Some(t) => section_dump(*r, section, pal.on) == Some(t@),
            None => true,
        },
{
    match section {
        Section::Header => Some(render_header(&r.header, pal)),
        Section::Vrm => Some(render_vrm(&r.vrm, pal)),
        Section::Caps => Some(render_caps(&r.caps, pal)),
        Section::Profiling => Some(render_profiling(r.profiling.as_ref(), pal)),
        Section::PcirChain => Some(render_pcir_chain(r.pci_images.as_slice(), pal)),
        Section::Display => Some(render_display(&r.display, pal)),
        Section::Asic => Some(render_asic(r.asic.as_ref(), pal)),
        Section::Gpio => Some(render_gpio(r.gpio_pins.as_ref(), pal)),
        Section::Vram => Some(render_vram(&r.vram, pal)),
        Section::Pcie => Some(render_pcie(r.pcie.as_slice(), r.vrhot_sclk_dpm_index, pal)),
        Section::Voltages => Some(render_voltages(r.vddc.as_slice(), r.vddgfx.as_slice(), pal)),
        Section::Power => Some(render_power(r.power_sources.as_ref(), pal)),
        _ => None,
    }
}

/// The dumps of the sections, in order, where every one is covered.
pub open spec fn sections_dumped(r: RomData, sections: Seq<Section>, on: bool) -> Seq<Seq<char>> {
    sections.map_values(|s: Section| section_dump(r, s, on).unwrap())
}

/// The dump of ROM `r` over `sections` with its validation `warnings`:
/// `None` when one of the sections is not covered, else the dump that
/// `render_sections` assembles from the rendered sections.
pub fn render_rom(r: &RomData, warnings: &[String], sections: &[Section], pal: &Palette) -> (out: Option<
    String,
>)
    ensures
        out is Some <==> (forall|k: int| 0 <= k < sections@.len() ==> rendered(#[trigger] sections@[k])),
        match out {
            Some(t) => t@ == dump_text(
                pal.on,
                r.file_name@,
                views(warnings@),
                sections_dumped(*r, sections@, pal.on),
            ),
            None => true,
        },
{
    let mut texts: Vec<String> = Vec::new();
    let mut k: usize = 0;
    while k < sections.len()
        invariant
            k <= sections@.len(),
            forall|j: int| 0 <= j < k ==> rendered(#[trigger] sections@[j]),
            views(texts@) == sections_dumped(*r, sections@.take(k as int), pal.on),
        decreases sections@.len() - k,
    {
        match render_section(r, sections[k], pal) {
            Some(t) => {
                let ghost before = views(texts@);
                texts.push(t);
                assert(views(texts@) =~= before.push(t@));
                assert(sections@.take(k + 1) =~= sections@.take(k as int).push(sections@[k as int]));
                assert(sections_dumped(*r, sections@.take(k + 1), pal.on) =~= sections_dumped(
                    *r,
                    sections@.take(k as int),
                    pal.on,
                ).push(t@));
            },
            None => {
                return None;
            },
        }
        k = k + 1;
    }
    assert(sections@.take(sections@.len() as int) == sections@);
    Some(render_sections(r.file_name.as_str(), warnings, texts.as_slice(), pal))
}

/// `t` opens with `h`.
pub open spec fn opens_with(t: Seq<char>, h: Seq<char>) -> bool {
    t.len() >= h.len() && t.subrange(0, h.len() as int) == h
}

proof fn lemma_starts(x: Seq<char>, y: Seq<char>, h: Seq<char>)
    requires
        opens_with(x, h),
    ensures
        opens_with(x + y, h),
{
    let t = x + y;
    assert forall|i: int| 0 <= i < h.len() implies t.subrange(0, h.len() as int)[i] == h[i] by {
        assert(x.subrange(0, h.len() as int)[i] == x[i]);
    }
    assert(t.subrange(0, h.len() as int) =~= h);
}

proof fn lemma_heads(h: Seq<char>, y: Seq<char>)
    ensures
        opens_with(h + y, h),
{
    assert((h + y).subrange(0, h.len() as int) =~= h);
}

proof fn lemma_headed_vrm(r: RomData, on: bool)
    ensures
        opens_with(section_dump(r, Section::Vrm, on).unwrap(), heading_text(on, label_of(Section::Vrm))),
{
    let t = section_dump(r, Section::Vrm, on).unwrap();
    let h = heading_text(on, label_of(Section::Vrm));
    assert(t.subrange(0, h.len() as int) =~= h);
}

proof fn lemma_headed_caps(r: RomData, on: bool)
    ensures
        opens_with(section_dump(r, Section::Caps, on).unwrap(), heading_text(on, label_of(Section::Caps))),
{
    let t = section_dump(r, Section::Caps, on).unwrap();
    let h = heading_text(on, label_of(Section::Caps));
    assert(t.subrange(0, h.len() as int) =~= h);
}

proof fn lemma_headed_pcirchain(r: RomData, on: bool)
    ensures
        opens_with(section_dump(r, Section::PcirChain, on).unwrap(), heading_text(on, label_of(Section::PcirChain))),
{
    let t = section_dump(r, Section::PcirChain, on).unwrap();
    let h = heading_text(on, label_of(Section::PcirChain));
    assert(t.subrange(0, h.len() as int) =~= h);
}

proof fn lemma_headed_display(r: RomData, on: bool)
    ensures
        opens_with(section_dump(r, Section::Display, on).unwrap(), heading_text(on, label_of(Section::Display))),
{
    let t = section_dump(r, Section::Display, on).unwrap();
    let h = heading_text(on, label_of(Section::Display));
    assert(t.subrange(0, h.len() as int) =~= h);
}

proof fn lemma_headed_asic(r: RomData, on: bool)
    ensures
        opens_with(section_dump(r, Section::Asic, on).unwrap(), heading_text(on, label_of(Section::Asic))),
{
    let t = section_dump(r, Section::Asic, on).unwrap();
    let h = heading_text(on, label_of(Section::Asic));
    assert(t.subrange(0, h.len() as int) =~= h);
}

proof fn lemma_headed_gpio(r: RomData, on: bool)
    ensures
        opens_with(section_dump(r, Section::Gpio, on).unwrap(), heading_text(on, label_of(Section::Gpio))),
{
    let t = section_dump(r, Section::Gpio, on).unwrap();
    let h = heading_text(on, label_of(Section::Gpio));
    assert(t.subrange(0, h.len() as int) =~= h);
}

proof fn lemma_headed_vram(r: RomData, on: bool)
    ensures
        opens_with(section_dump(r, Section::Vram, on).unwrap(), heading_text(on, label_of(Section::Vram))),
{
    let t = section_dump(r, Section::Vram, on).unwrap();
    let h = heading_text(on, label_of(Section::Vram));
    assert(t.subrange(0, h.len() as int) =~= h);
}

proof fn lemma_headed_pcie(r: RomData, on: bool)
    ensures
        opens_with(section_dump(r, Section::Pcie, on).unwrap(), heading_text(on, label_of(Section::Pcie))),
{
    let t = section_dump(r, Section::Pcie, on).unwrap();
    let h = heading_text(on, label_of(Section::Pcie));
    assert(t.subrange(0, h.len() as int) =~= h);
}

proof fn lemma_headed_voltages(r: RomData, on: bool)
    ensures
        opens_with(section_dump(r, Section::Voltages, on).unwrap(), heading_text(on, label_of(Section::Voltages))),
{
    let t = section_dump(r, Section::Voltages, on).unwrap();
    let h = heading_text(on, label_of(Section::Voltages));
    assert(t.subrange(0, h.len() as int) =~= h);
}

proof fn lemma_headed_power(r: RomData, on: bool)
    ensures
        opens_with(section_dump(r, Section::Power, on).unwrap(), heading_text(on, label_of(Section::Power))),
{
    let t = section_dump(r, Section::Power, on).unwrap();
    let h = heading_text(on, label_of(Section::Power));
    assert(t.subrange(0, h.len() as int) =~= h);
}

/// Each rendered section of the dump opens with its heading: `── ` and
/// the section's label.
pub proof fn law_dumped_section_headed(r: RomData, section: Section, on: bool)
    requires
        rendered(section),
    ensures
        section_dump(r, section, on) is Some,
        opens_with(section_dump(r, section, on).unwrap(), heading_text(on, label_of(section))),
{
    let h = heading_text(on, label_of(section));
    match section {
        Section::Header => {
            let core = crate::render::header::header_core_text(r.header, on);
            let c1 = core.subrange(h.len() as int, core.len() as int);
            lemma_heads(h, c1);
            assert(core =~= h + c1);
            let ck = crate::render::header::checksum_text(r.header, on);
            lemma_starts(core, ck, h);
            lemma_starts(core + ck, crate::render::header::header_tail_text(r.header, on), h);
        },
        Section::Profiling => {
            match r.profiling {
                Some(q) => {
                    let lim = crate::render::profiling::profiling_limits_text(q, on);
                    let c1 = lim.subrange(h.len() as int, lim.len() as int);
                    assert(lim =~= h + c1);
                    lemma_heads(h, c1);
                    let e1 = crate::render::profiling::profiling_efuse_text(q, on);
                    let e2 = crate::render::profiling::profiling_evv_text(q, on);
                    lemma_starts(lim, e1, h);
                    lemma_starts(lim + e1, e2, h);
                    lemma_starts(lim + e1 + e2, crate::render::profiling::profiling_dpm_text(q, on), h);
                },
                None => {
                    let t = section_dump(r, section, on).unwrap();
                    assert(t.subrange(0, h.len() as int) =~= h);
                },
            }
        },
        Section::Vrm => lemma_headed_vrm(r, on),
        Section::Caps => lemma_headed_caps(r, on),
        Section::PcirChain => lemma_headed_pcirchain(r, on),
        Section::Display => lemma_headed_display(r, on),
        Section::Asic => lemma_headed_asic(r, on),
        Section::Gpio => lemma_headed_gpio(r, on),
        Section::Vram => lemma_headed_vram(r, on),
        Section::Pcie => lemma_headed_pcie(r, on),
        Section::Voltages => lemma_headed_voltages(r, on),
        Section::Power => lemma_headed_power(r, on),
        _ => {},
    }
}

} // verus!
