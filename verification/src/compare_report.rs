//! The two-ROM comparison report assembled from the compared sections:
//! which comparison each section gets, and the report around them.

use std::collections::HashMap;

use vstd::prelude::*;

use crate::compare::{compare_text, render_compare, title_text};
use crate::compare_chip::{
    any_entry_shown, asic_entries, compare_asic, compare_gpio, compare_i2c, gpio_entries, entries_text, entry_section_text,
    i2c_entries, AsicInfo, I2cLine,
};
use crate::compare_display::{compare_display, compare_pcir_chain, display_rows, pcir_rows};
use crate::csv_table::PcieRow;
use crate::render::caps::CapsInfo;
use crate::render::chain::{DisplayInfo, PciImage};
use crate::render::chip::{GpioPin, PowerSource};
use crate::render::profiling::ProfilingInfo;
use crate::compare_power::{compare_mm, compare_pcie, compare_voltages, mm_rows, voltage_rows, VddEntry};
use crate::compare_sections::{
    any_shown, compare_header, compare_vram, compare_vrm, header_rows, pair_section_text, rows_text,
    vram_rows, vrm_rows, RowV, VramInfo,
};
use crate::compare_util::finished;
use crate::compare::header_row_text;
use crate::num::dec;
use crate::reg_names::name_views;
use crate::render::color::Palette;
use crate::render::header::HeaderInfo;
use crate::render::sections::{label_of, Section};
use crate::render::vrm::VrmInfo;
use crate::straps::{compare_straps, straps_compare_text, VramStraps};
use crate::textutil::views;

verus! {

/// What the dump and the comparison read of a ROM, section by section.
pub struct RomData {
    pub file_name: String,
    pub header: HeaderInfo,
    pub vrm: VrmInfo,
    pub vram: VramInfo,
    /// The memory straps; they carry the file name they are shown under.
    pub straps: VramStraps,
    /// Clock levels and VCE states of the multimedia table.
    pub mm_levels: usize,
    pub vce_states: usize,
    /// The PCIe link levels, and the SCLK level that VR-hot forces.
    pub pcie: Vec<PcieRow>,
    pub vrhot_sclk_dpm_index: Option<u8>,
    pub vddc: Vec<VddEntry>,
    pub vddgfx: Vec<VddEntry>,
    pub display: DisplayInfo,
    pub pci_images: Vec<PciImage>,
    /// The GFX configuration, where the ROM has the table.
    pub asic: Option<AsicInfo>,
    /// The I2C lines, where the ROM has the table.
    pub i2c: Option<Vec<I2cLine>>,
    /// The GPIO pins, where the ROM has the pin table.
    pub gpio_pins: Option<Vec<GpioPin>>,
    /// The PowerPlay capabilities and limits.
    pub caps: CapsInfo,
    /// The ASIC profiling table, where the ROM has it.
    pub profiling: Option<ProfilingInfo>,
    /// The power sources, where the ROM has the table.
    pub power_sources: Option<Vec<PowerSource>>,
}

/// The IDs of the pins.
pub open spec fn pin_ids_of(ps: Seq<GpioPin>) -> Seq<u8> {
    ps.map_values(|p: GpioPin| p.gpio_id)
}

/// The GPIO pin IDs of a ROM that has the pin table.
pub open spec fn gpio_view(r: RomData) -> Option<Seq<u8>> {
    match r.gpio_pins {
        Some(v) => Some(pin_ids_of(v@)),
        None => None,
    }
}

fn pin_ids(ps: &Vec<GpioPin>) -> (r: Vec<u8>)
    ensures
        r@ == pin_ids_of(ps@),
{
    let mut v: Vec<u8> = Vec::new();
    let mut i: usize = 0;
    while i < ps.len()
        invariant
            i <= ps@.len(),
            v@.len() == i,
            forall|k: int| 0 <= k < i ==> #[trigger] v@[k] == ps@[k].gpio_id,
        decreases ps@.len() - i,
    {
        v.push(ps[i].gpio_id);
        i = i + 1;
    }
    assert(v@ =~= pin_ids_of(ps@));
    v
}

fn ids_of(pins: &Option<Vec<GpioPin>>) -> (r: Option<Vec<u8>>)
    ensures
        match r {
            Some(v) => *pins matches Some(ps) && v@ == pin_ids_of(ps@),
            None => *pins is None,
        },
{
    match pins {
        Some(ps) => Some(pin_ids(ps)),
        None => None,
    }
}

/// The I2C lines of a ROM that has the table.
pub open spec fn i2c_view(r: RomData) -> Option<Seq<I2cLine>> {
    match r.i2c {
        Some(v) => Some(v@),
        None => None,
    }
}

/// The sections that `compare_section` compares.
pub open spec fn compared(section: Section) -> bool {
    match section {
        Section::Header | Section::PcirChain | Section::Display | Section::Voltages
        | Section::Vrm | Section::Multimedia | Section::Pcie | Section::Vram
        | Section::Straps | Section::Asic | Section::I2c | Section::Gpio => true,
        _ => false,
    }
}

/// The rows of a section compared row by row.
pub open spec fn pair_rows_of(a: RomData, b: RomData, section: Section) -> Seq<RowV> {
    match section {
        Section::Header => header_rows(a.header, b.header),
        Section::PcirChain => pcir_rows(a.pci_images@, b.pci_images@),
        Section::Display => display_rows(a.display.paths@, b.display.paths@),
        Section::Voltages => voltage_rows(a.vddc@, a.vddgfx@, b.vddc@, b.vddgfx@),
        Section::Vrm => vrm_rows(a.vrm, b.vrm),
        Section::Multimedia => mm_rows(
            a.mm_levels as nat,
            a.vce_states as nat,
            b.mm_levels as nat,
            b.vce_states as nat,
        ),
        Section::Pcie => seq![("PCIe levels (count)"@, dec(a.pcie@.len()), dec(b.pcie@.len()))],
        _ => vram_rows(a.vram, b.vram),
    }
}

/// The comparison of `section` of ROMs `a` and `b`; `max_equal` and
/// `max_delta` compare their highest strap clocks, `names` holds the
/// register annotations. `None` for a section this comparison does not
/// cover.
pub open spec fn section_text(
    a: RomData,
    b: RomData,
    section: Section,
    max_equal: bool,
    max_delta: Seq<char>,
    on: bool,
    diff_only: bool,
    names: Option<Map<u16, Seq<char>>>,
) -> Option<Seq<char>> {
    if !compared(section) {
        None
    } else if section == Section::Straps {
        Some(straps_compare_text(a.straps, b.straps, max_equal, max_delta, on, diff_only, names))
    } else if section == Section::Asic {
        Some(
            entry_section_text(
                on,
                label_of(section),
                a.file_name@,
                b.file_name@,
                asic_entries(a.asic, b.asic, a.file_name@, b.file_name@),
                diff_only,
            ),
        )
    } else if section == Section::Gpio {
        Some(
            entry_section_text(
                on,
                label_of(section),
                a.file_name@,
                b.file_name@,
                gpio_entries(on, gpio_view(a), gpio_view(b), a.file_name@, b.file_name@, diff_only),
                diff_only,
            ),
        )
    } else if section == Section::I2c {
        Some(
            entry_section_text(
                on,
                label_of(section),
                a.file_name@,
                b.file_name@,
                i2c_entries(i2c_view(a), i2c_view(b), a.file_name@, b.file_name@),
                diff_only,
            ),
        )
    } else {
        Some(
            pair_section_text(
                on,
                label_of(section),
                a.file_name@,
                b.file_name@,
                pair_rows_of(a, b, section),
                diff_only,
            ),
        )
    }
}

/// Compares one section of two ROMs: the comparison that the section
/// gets, or `None` where this comparison does not cover it.
pub fn compare_section(
    a: &RomData,
    b: &RomData,
    section: Section,
    max_equal: bool,
    max_delta: &str,
    pal: &Palette,
    diff_only: bool,
    reg_names: Option<&HashMap<u16, String>>,
) -> (r: Option<String>)
    ensures
        r is Some <==> compared(section),
        match r {
            Some(t) => section_text(
                *a,
                *b,
                section,
                max_equal,
                max_delta@,
                pal.on,
                diff_only,
                match reg_names {
                    Some(m) => Some(name_views(m@)),
                    None => None,
                },
            ) == Some(t@),
            None => true,
        },
{
    let na = a.file_name.as_str();
    let nb = b.file_name.as_str();
    match section {
        Section::Header => Some(compare_header(&a.header, &b.header, na, nb, pal, diff_only)),
        Section::PcirChain => Some(
            compare_pcir_chain(a.pci_images.as_slice(), b.pci_images.as_slice(), na, nb, pal, diff_only),
        ),
        Section::Display => Some(
            compare_display(a.display.paths.as_slice(), b.display.paths.as_slice(), na, nb, pal, diff_only),
        ),
        Section::Voltages => Some(
            compare_voltages(
                a.vddc.as_slice(),
                a.vddgfx.as_slice(),
                b.vddc.as_slice(),
                b.vddgfx.as_slice(),
                na,
                nb,
                pal,
                diff_only,
            ),
        ),
        Section::Vrm => Some(compare_vrm(&a.vrm, &b.vrm, na, nb, pal, diff_only)),
        Section::Multimedia => Some(
            compare_mm(a.mm_levels, a.vce_states, b.mm_levels, b.vce_states, na, nb, pal, diff_only),
        ),
        Section::Pcie => Some(compare_pcie(a.pcie.len(), b.pcie.len(), na, nb, pal, diff_only)),
        Section::Vram => Some(compare_vram(&a.vram, &b.vram, na, nb, pal, diff_only)),
        Section::Straps => Some(
            compare_straps(&a.straps, &b.straps, max_equal, max_delta, pal, diff_only, reg_names),
        ),
        Section::Asic => Some(compare_asic(a.asic.as_ref(), b.asic.as_ref(), na, nb, pal, diff_only)),
        Section::I2c => Some(compare_i2c(a.i2c.as_ref(), b.i2c.as_ref(), na, nb, pal, diff_only)),
        Section::Gpio => {
            let ia = ids_of(&a.gpio_pins);
            let ib = ids_of(&b.gpio_pins);
            Some(compare_gpio(ia.as_ref(), ib.as_ref(), na, nb, pal, diff_only))
        },
        _ => None,
    }
}

/// The compared text of each section, in order, where every one of
/// them is covered.
pub open spec fn sections_compared(
    a: RomData,
    b: RomData,
    sections: Seq<Section>,
    max_equal: bool,
    max_delta: Seq<char>,
    on: bool,
    diff_only: bool,
    names: Option<Map<u16, Seq<char>>>,
) -> Seq<Seq<char>> {
    sections.map_values(
        |s: Section| section_text(a, b, s, max_equal, max_delta, on, diff_only, names).unwrap(),
    )
}

/// The comparison report of ROMs `a` and `b` over `sections`: `None`
/// when one of the sections is not covered, else the report that
/// `render_compare` assembles from the compared sections.
pub fn compare_roms(
    a: &RomData,
    b: &RomData,
    sections: &[Section],
    max_equal: bool,
    max_delta: &str,
    pal: &Palette,
    diff_only: bool,
    reg_names: Option<&HashMap<u16, String>>,
) -> (r: Option<String>)
    ensures
        r is Some <==> (forall|k: int| 0 <= k < sections@.len() ==> compared(#[trigger] sections@[k])),
        match r {
            Some(t) => t@ == compare_text(
                pal.on,
                a.file_name@,
                b.file_name@,
                sections_compared(
                    *a,
                    *b,
                    sections@,
                    max_equal,
                    max_delta@,
                    pal.on,
                    diff_only,
                    match reg_names {
                        Some(m) => Some(name_views(m@)),
                        None => None,
                    },
                ),
                diff_only,
            ),
            None => true,
        },
{
    let ghost names = match reg_names {
        Some(m) => Some(name_views(m@)),
        None => None,
    };
    let mut texts: Vec<String> = Vec::new();
    let mut k: usize = 0;
    while k < sections.len()
        invariant
            k <= sections@.len(),
            names == match reg_names {
                Some(m) => Some(name_views(m@)),
                None => None,
            },
            forall|j: int| 0 <= j < k ==> compared(#[trigger] sections@[j]),
            views(texts@) == sections_compared(
                *a,
                *b,
                sections@.take(k as int),
                max_equal,
                max_delta@,
                pal.on,
                diff_only,
                names,
            ),
        decreases sections@.len() - k,
    {
        match compare_section(a, b, sections[k], max_equal, max_delta, pal, diff_only, reg_names) {
            Some(t) => {
                let ghost before = views(texts@);
                texts.push(t);
                assert(views(texts@) =~= before.push(t@));
                assert(sections@.take(k + 1) =~= sections@.take(k as int).push(sections@[k as int]));
                assert(sections_compared(
                    *a,
                    *b,
                    sections@.take(k + 1),
                    max_equal,
                    max_delta@,
                    pal.on,
                    diff_only,
                    names,
                ) =~= sections_compared(
                    *a,
                    *b,
                    sections@.take(k as int),
                    max_equal,
                    max_delta@,
                    pal.on,
                    diff_only,
                    names,
                ).push(t@));
            },
            None => {
                return None;
            },
        }
        k = k + 1;
    }
    assert(sections@.take(sections@.len() as int) == sections@);
    Some(render_compare(a.file_name.as_str(), b.file_name.as_str(), texts.as_slice(), pal, diff_only))
}

proof fn lemma_opens_with(x: Seq<char>, y: Seq<char>)
    ensures
        (x + y).len() >= x.len(),
        (x + y).subrange(0, x.len() as int) == x,
{
    assert((x + y).subrange(0, x.len() as int) =~= x);
}

proof fn lemma_prefix_kept(x: Seq<char>, y: Seq<char>, head: Seq<char>)
    requires
        x.len() >= head.len(),
        x.subrange(0, head.len() as int) == head,
    ensures
        (x + y).len() >= head.len(),
        (x + y).subrange(0, head.len() as int) == head,
{
    assert forall|i: int| 0 <= i < head.len() implies (x + y).subrange(0, head.len() as int)[i]
        == head[i] by {
        assert(x.subrange(0, head.len() as int)[i] == x[i]);
    }
    assert((x + y).subrange(0, head.len() as int) =~= head);
}

proof fn lemma_straps_titled(
    a: RomData,
    b: RomData,
    max_equal: bool,
    max_delta: Seq<char>,
    on: bool,
    diff_only: bool,
    names: Option<Map<u16, Seq<char>>>,
)
    ensures
        ({
            let t = straps_compare_text(a.straps, b.straps, max_equal, max_delta, on, diff_only, names);
            let head = title_text(on, label_of(Section::Straps)) + "\n"@;
            t.len() >= head.len() && t.subrange(0, head.len() as int) == head
        }),
{
    let head = title_text(on, label_of(Section::Straps)) + "\n"@;
    let s1 = crate::straps::straps_summary_text(a.straps, b.straps, max_equal, max_delta, on, diff_only);
    let h1 = header_row_text(on, a.straps.file_name@, b.straps.file_name@);
    lemma_opens_with(head, h1);
    lemma_prefix_kept(head + h1, s1.subrange((head + h1).len() as int, s1.len() as int), head);
    assert(s1 =~= (head + h1) + s1.subrange((head + h1).len() as int, s1.len() as int));
    let m = crate::straps::straps_matrix_text(a.straps, b.straps, on, diff_only, names);
    let tr = crate::straps::trips_text(on, a.straps, b.straps);
    lemma_prefix_kept(s1, m, head);
    lemma_prefix_kept(s1 + m, tr, head);
}

proof fn lemma_entries_titled(
    on: bool,
    title: Seq<char>,
    na: Seq<char>,
    nb: Seq<char>,
    es: Seq<crate::compare_chip::EntryV>,
    diff_only: bool,
)
    ensures
        ({
            let t = entry_section_text(on, title, na, nb, es, diff_only);
            let head = title_text(on, title) + "\n"@;
            t.len() >= head.len() && t.subrange(0, head.len() as int) == head
        }),
{
    let head = title_text(on, title) + "\n"@;
    let rest = finished(
        header_row_text(on, na, nb) + "\n"@ + entries_text(on, diff_only, es),
        any_entry_shown(diff_only, es),
        "(nothing differs in this section)"@,
    );
    assert(entry_section_text(on, title, na, nb, es, diff_only) == head + rest);
    lemma_opens_with(head, rest);
}

proof fn lemma_rows_titled(
    on: bool,
    title: Seq<char>,
    na: Seq<char>,
    nb: Seq<char>,
    rows: Seq<RowV>,
    diff_only: bool,
)
    ensures
        ({
            let t = pair_section_text(on, title, na, nb, rows, diff_only);
            let head = title_text(on, title) + "\n"@;
            t.len() >= head.len() && t.subrange(0, head.len() as int) == head
        }),
{
    let head = title_text(on, title) + "\n"@;
    let rest = finished(
        header_row_text(on, na, nb) + "\n"@ + rows_text(on, diff_only, rows),
        any_shown(diff_only, rows),
        "(nothing differs in this section)"@,
    );
    assert(pair_section_text(on, title, na, nb, rows, diff_only) == head + rest);
    lemma_opens_with(head, rest);
}

/// Each compared section opens with its title line: `── ` and the
/// section's label.
pub proof fn law_compared_section_titled(
    a: RomData,
    b: RomData,
    section: Section,
    max_equal: bool,
    max_delta: Seq<char>,
    on: bool,
    diff_only: bool,
    names: Option<Map<u16, Seq<char>>>,
)
    requires
        compared(section),
    ensures
        section_text(a, b, section, max_equal, max_delta, on, diff_only, names) is Some,
        ({
            let t = section_text(a, b, section, max_equal, max_delta, on, diff_only, names).unwrap();
            let head = title_text(on, label_of(section)) + "\n"@;
            t.len() >= head.len() && t.subrange(0, head.len() as int) == head
        }),
{
    let na = a.file_name@;
    let nb = b.file_name@;
    if section == Section::Straps {
        lemma_straps_titled(a, b, max_equal, max_delta, on, diff_only, names);
    } else if section == Section::Asic {
        lemma_entries_titled(on, label_of(section), na, nb, asic_entries(a.asic, b.asic, na, nb), diff_only);
    } else if section == Section::Gpio {
        lemma_entries_titled(
            on,
            label_of(section),
            na,
            nb,
            gpio_entries(on, gpio_view(a), gpio_view(b), na, nb, diff_only),
            diff_only,
        );
    } else if section == Section::I2c {
        lemma_entries_titled(
            on,
            label_of(section),
            na,
            nb,
            i2c_entries(i2c_view(a), i2c_view(b), na, nb),
            diff_only,
        );
    } else {
        lemma_rows_titled(on, label_of(section), na, nb, pair_rows_of(a, b, section), diff_only);
    }
}

} // verus!
