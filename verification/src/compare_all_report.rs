//! The matrix comparison of several ROMs assembled from its sections:
//! which matrix each section gets.

use vstd::prelude::*;

use crate::compare_chip::{asic_section, i2c_section, asic_cell, asic_labels, i2c_count_cell, i2c_ids_cell, AsicInfo, I2cLine};
use crate::compare_display::{display_section, pcir_section};
use crate::compare_power::{mm_section, pcie_section, valid_list, voltages_section, VddEntry};
use crate::compare_report::RomData;
use crate::compare_sections::{caps_section, matrix_section_text};
use crate::num::{dec, hex};
use crate::render::color::Palette;
use crate::render::sections::{label_of, Section};
use crate::textutil::views;

verus! {

/// The sections that `compare_all_section` compares.
pub open spec fn matrix_compared(section: Section) -> bool {
    match section {
        Section::Display | Section::PcirChain | Section::Multimedia | Section::Pcie
        | Section::Asic | Section::Caps | Section::I2c | Section::Voltages => true,
        _ => false,
    }
}

/// The I2C lines of each ROM that has the table.
pub open spec fn i2c_of(r: RomData) -> Option<Seq<I2cLine>> {
    match r.i2c {
        Some(v) => Some(v@),
        None => None,
    }
}

/// The rows of the matrix of `section` over `roms`.
pub open spec fn matrix_rows_of(roms: Seq<RomData>, section: Section) -> Seq<(Seq<char>, Seq<Seq<char>>)> {
    match section {
        Section::Display => seq![
            ("Video paths (count)"@, roms.map_values(|r: RomData| dec(r.display.paths@.len()))),
        ],
        Section::PcirChain => seq![
            ("Chain images (count)"@, roms.map_values(|r: RomData| dec(r.pci_images@.len()))),
        ],
        Section::Multimedia => seq![
            ("Levels (count)"@, roms.map_values(|r: RomData| dec(r.mm_levels as nat))),
        ],
        Section::Pcie => seq![("PCIe levels (count)"@, roms.map_values(|r: RomData| dec(r.pcie@.len())))],
        Section::Asic => Seq::new(
            5,
            |k: int| (asic_labels()[k], roms.map_values(|r: RomData| asic_cell(r.asic, k))),
        ),
        Section::Caps => seq![
            ("platform_caps (hex)"@, roms.map_values(|r: RomData| "0x"@ + hex(r.caps.platform_caps as nat))),
        ],
        Section::I2c => seq![
            ("I2C lines (count)"@, roms.map_values(|r: RomData| i2c_count_cell(i2c_of(r)))),
            ("Line ids (0x..)"@, roms.map_values(|r: RomData| i2c_ids_cell(i2c_of(r)))),
        ],
        _ => seq![
            ("VDDC valid slots"@, roms.map_values(|r: RomData| valid_list(r.vddc@, seq![]))),
        ],
    }
}

/// The matrix comparison of `section` over `roms`, headed by `names`;
/// `None` for a section this comparison does not cover.
pub open spec fn matrix_text_of(
    roms: Seq<RomData>,
    names: Seq<Seq<char>>,
    section: Section,
    on: bool,
    diff_only: bool,
) -> Option<Seq<char>> {
    if matrix_compared(section) {
        Some(
            matrix_section_text(
                on,
                label_of(section),
                names,
                roms.len(),
                matrix_rows_of(roms, section),
                diff_only,
            ),
        )
    } else {
        None
    }
}

fn path_counts(roms: &[RomData]) -> (v: Vec<usize>)
    ensures
        v@.len() == roms@.len(),
        forall|k: int| 0 <= k < roms@.len() ==> #[trigger] v@[k] == roms@[k].display.paths@.len(),
{
    let mut v: Vec<usize> = Vec::new();
    let mut i: usize = 0;
    while i < roms.len()
        invariant
            i <= roms@.len(),
            v@.len() == i,
            forall|k: int| 0 <= k < i ==> #[trigger] v@[k] == roms@[k].display.paths@.len(),
        decreases roms@.len() - i,
    {
        v.push(roms[i].display.paths.len());
        i = i + 1;
    }
    v
}

fn image_counts(roms: &[RomData]) -> (v: Vec<usize>)
    ensures
        v@.len() == roms@.len(),
        forall|k: int| 0 <= k < roms@.len() ==> #[trigger] v@[k] == roms@[k].pci_images@.len(),
{
    let mut v: Vec<usize> = Vec::new();
    let mut i: usize = 0;
    while i < roms.len()
        invariant
            i <= roms@.len(),
            v@.len() == i,
            forall|k: int| 0 <= k < i ==> #[trigger] v@[k] == roms@[k].pci_images@.len(),
        decreases roms@.len() - i,
    {
        v.push(roms[i].pci_images.len());
        i = i + 1;
    }
    v
}

fn mm_counts(roms: &[RomData]) -> (v: Vec<usize>)
    ensures
        v@.len() == roms@.len(),
        forall|k: int| 0 <= k < roms@.len() ==> #[trigger] v@[k] == roms@[k].mm_levels,
{
    let mut v: Vec<usize> = Vec::new();
    let mut i: usize = 0;
    while i < roms.len()
        invariant
            i <= roms@.len(),
            v@.len() == i,
            forall|k: int| 0 <= k < i ==> #[trigger] v@[k] == roms@[k].mm_levels,
        decreases roms@.len() - i,
    {
        v.push(roms[i].mm_levels);
        i = i + 1;
    }
    v
}

fn pcie_counts(roms: &[RomData]) -> (v: Vec<usize>)
    ensures
        v@.len() == roms@.len(),
        forall|k: int| 0 <= k < roms@.len() ==> #[trigger] v@[k] == roms@[k].pcie@.len(),
{
    let mut v: Vec<usize> = Vec::new();
    let mut i: usize = 0;
    while i < roms.len()
        invariant
            i <= roms@.len(),
            v@.len() == i,
            forall|k: int| 0 <= k < i ==> #[trigger] v@[k] == roms@[k].pcie@.len(),
        decreases roms@.len() - i,
    {
        v.push(roms[i].pcie.len());
        i = i + 1;
    }
    v
}

fn asics_of(roms: &[RomData]) -> (v: Vec<Option<AsicInfo>>)
    ensures
        v@.len() == roms@.len(),
        forall|k: int| 0 <= k < roms@.len() ==> #[trigger] v@[k] == roms@[k].asic,
{
    let mut v: Vec<Option<AsicInfo>> = Vec::new();
    let mut i: usize = 0;
    while i < roms.len()
        invariant
            i <= roms@.len(),
            v@.len() == i,
            forall|k: int| 0 <= k < i ==> #[trigger] v@[k] == roms@[k].asic,
        decreases roms@.len() - i,
    {
        v.push(roms[i].asic);
        i = i + 1;
    }
    v
}

fn caps_of(roms: &[RomData]) -> (v: Vec<u32>)
    ensures
        v@.len() == roms@.len(),
        forall|k: int| 0 <= k < roms@.len() ==> #[trigger] v@[k] == roms@[k].caps.platform_caps,
{
    let mut v: Vec<u32> = Vec::new();
    let mut i: usize = 0;
    while i < roms.len()
        invariant
            i <= roms@.len(),
            v@.len() == i,
            forall|k: int| 0 <= k < i ==> #[trigger] v@[k] == roms@[k].caps.platform_caps,
        decreases roms@.len() - i,
    {
        v.push(roms[i].caps.platform_caps);
        i = i + 1;
    }
    v
}

fn copy_lines(ls: &Vec<I2cLine>) -> (r: Vec<I2cLine>)
    ensures
        r@ == ls@,
{
    let mut v: Vec<I2cLine> = Vec::new();
    let mut i: usize = 0;
    while i < ls.len()
        invariant
            i <= ls@.len(),
            v@ == ls@.take(i as int),
        decreases ls@.len() - i,
    {
        v.push(ls[i]);
        assert(ls@.take(i + 1) == ls@.take(i as int).push(ls@[i as int]));
        i = i + 1;
    }
    assert(ls@.take(ls@.len() as int) == ls@);
    v
}

fn copy_entries(ls: &Vec<VddEntry>) -> (r: Vec<VddEntry>)
    ensures
        r@ == ls@,
{
    let mut v: Vec<VddEntry> = Vec::new();
    let mut i: usize = 0;
    while i < ls.len()
        invariant
            i <= ls@.len(),
            v@ == ls@.take(i as int),
        decreases ls@.len() - i,
    {
        v.push(ls[i]);
        assert(ls@.take(i + 1) == ls@.take(i as int).push(ls@[i as int]));
        i = i + 1;
    }
    assert(ls@.take(ls@.len() as int) == ls@);
    v
}

fn i2cs_of(roms: &[RomData]) -> (v: Vec<Option<Vec<I2cLine>>>)
    ensures
        v@.len() == roms@.len(),
        forall|k: int|
            0 <= k < roms@.len() ==> (match #[trigger] v@[k] {
                Some(l) => Some(l@),
                None => None,
            }) == i2c_of(roms@[k]),
{
    let mut v: Vec<Option<Vec<I2cLine>>> = Vec::new();
    let mut i: usize = 0;
    while i < roms.len()
        invariant
            i <= roms@.len(),
            v@.len() == i,
            forall|k: int|
                0 <= k < i ==> (match #[trigger] v@[k] {
                    Some(l) => Some(l@),
                    None => None,
                }) == i2c_of(roms@[k]),
        decreases roms@.len() - i,
    {
        let o = match &roms[i].i2c {
            Some(ls) => Some(copy_lines(ls)),
            None => None,
        };
        v.push(o);
        i = i + 1;
    }
    v
}

fn vddcs_of(roms: &[RomData]) -> (v: Vec<Vec<VddEntry>>)
    ensures
        v@.len() == roms@.len(),
        forall|k: int| 0 <= k < roms@.len() ==> #[trigger] v@[k]@ == roms@[k].vddc@,
{
    let mut v: Vec<Vec<VddEntry>> = Vec::new();
    let mut i: usize = 0;
    while i < roms.len()
        invariant
            i <= roms@.len(),
            v@.len() == i,
            forall|k: int| 0 <= k < i ==> #[trigger] v@[k]@ == roms@[k].vddc@,
        decreases roms@.len() - i,
    {
        v.push(copy_entries(&roms[i].vddc));
        i = i + 1;
    }
    v
}

/// Compares one section of several ROMs as a matrix with a column per
/// ROM, headed by `names`, or `None` where this comparison does not
/// cover the section.
pub fn compare_all_section(
    roms: &[RomData],
    names: &[String],
    section: Section,
    pal: &Palette,
    diff_only: bool,
) -> (r: Option<String>)
    requires
        names@.len() * 27 + 26 <= usize::MAX,
    ensures
        r is Some <==> matrix_compared(section),
        match r {
            Some(t) => matrix_text_of(roms@, views(names@), section, pal.on, diff_only) == Some(t@),
            None => true,
        },
{
    match section {
        Section::Display => {
            let c = path_counts(roms);
            assert(c@.map_values(|n: usize| dec(n as nat)) =~= roms@.map_values(
                |r: RomData| dec(r.display.paths@.len()),
            ));
            Some(display_section(c.as_slice(), names, pal, diff_only))
        },
        Section::PcirChain => {
            let c = image_counts(roms);
            assert(c@.map_values(|n: usize| dec(n as nat)) =~= roms@.map_values(
                |r: RomData| dec(r.pci_images@.len()),
            ));
            Some(pcir_section(c.as_slice(), names, pal, diff_only))
        },
        Section::Multimedia => {
            let c = mm_counts(roms);
            assert(c@.map_values(|n: usize| dec(n as nat)) =~= roms@.map_values(
                |r: RomData| dec(r.mm_levels as nat),
            ));
            Some(mm_section(c.as_slice(), names, pal, diff_only))
        },
        Section::Pcie => {
            let c = pcie_counts(roms);
            assert(c@.map_values(|n: usize| dec(n as nat)) =~= roms@.map_values(
                |r: RomData| dec(r.pcie@.len()),
            ));
            Some(pcie_section(c.as_slice(), names, pal, diff_only))
        },
        Section::Asic => {
            let c = asics_of(roms);
            assert forall|k: int| 0 <= k < 5 implies #[trigger] asic_labels()[k] == asic_labels()[k]
                && c@.map_values(|o: Option<AsicInfo>| asic_cell(o, k)) =~= roms@.map_values(
                |r: RomData| asic_cell(r.asic, k),
            ) by {}
            assert(Seq::new(
                5,
                |k: int| (asic_labels()[k], c@.map_values(|o: Option<AsicInfo>| asic_cell(o, k))),
            ) =~= matrix_rows_of(roms@, section));
            Some(asic_section(c.as_slice(), names, pal, diff_only))
        },
        Section::Caps => {
            let c = caps_of(roms);
            assert(c@.map_values(|x: u32| "0x"@ + hex(x as nat)) =~= roms@.map_values(
                |r: RomData| "0x"@ + hex(r.caps.platform_caps as nat),
            ));
            Some(caps_section(c.as_slice(), names, pal, diff_only))
        },
        Section::I2c => {
            let c = i2cs_of(roms);
            assert(crate::compare_chip::i2c_views(c@).map_values(
                |o: Option<Seq<I2cLine>>| i2c_count_cell(o),
            ) =~= roms@.map_values(|r: RomData| i2c_count_cell(i2c_of(r))));
            assert(crate::compare_chip::i2c_views(c@).map_values(
                |o: Option<Seq<I2cLine>>| i2c_ids_cell(o),
            ) =~= roms@.map_values(|r: RomData| i2c_ids_cell(i2c_of(r))));
            Some(i2c_section(c.as_slice(), names, pal, diff_only))
        },
        Section::Voltages => {
            let c = vddcs_of(roms);
            assert(c@.map_values(|l: Vec<VddEntry>| valid_list(l@, seq![])) =~= roms@.map_values(
                |r: RomData| valid_list(r.vddc@, seq![]),
            ));
            Some(voltages_section(c.as_slice(), names, pal, diff_only))
        },
        _ => None,
    }
}

} // verus!
