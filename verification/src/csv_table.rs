//! The tabular sections as CSV: one record per table row of every ROM,
//! encoded by the `csv` crate.

use vstd::prelude::*;

use crate::csv_export::{csv_exportable, csv_refusal, refusal_msg};
use crate::num::{dec, push_dec};
use crate::render::sections::Section;
use crate::straps::{idec, push_idec};
use crate::textutil::{joined, push_str_chars, string_of, views};

verus! {

/// One SCLK DPM level.
pub struct SclkRow {
    pub level: u64,
    /// The engine clock in MHz, rounded for display.
    pub sclk_mhz: String,
    pub vdd_index: u64,
    pub vddc_offset_mv: i64,
}

/// One MCLK DPM level.
pub struct MclkRow {
    pub level: u64,
    /// The memory clock in MHz, rounded for display.
    pub mclk_mhz: String,
    /// The VDDC of the level, when its voltage index resolves.
    pub vddc_resolved_mv: Option<u64>,
    pub vddci_mv: u64,
    pub mvdd_mv: u64,
}

/// One multimedia clock level, the clocks in MHz rounded for display.
pub struct MmRow {
    pub uvd_dclk_mhz: String,
    pub uvd_vclk_mhz: String,
    pub vce_eclk_mhz: String,
    pub samu_clk_mhz: String,
}

/// One VRAM module.
pub struct VramRow {
    pub index: u64,
    pub part_number: String,
    pub memory_size_mb: u64,
    pub memory_type_name: String,
    pub channel_num: u64,
    pub vendor_id_raw: u64,
}

/// One PCIe link level.
pub struct PcieRow {
    pub pcie_gen: u64,
    pub pcie_lane_width: u64,
}

/// One memory strap.
pub struct StrapRow {
    pub mem_block_id: u8,
    /// The strap clock in MHz, rounded for display.
    pub clock_mhz: String,
    /// The effective data rate in Gbps, with two decimals.
    pub effective_gbps: String,
    pub values: Vec<u32>,
}

/// The tables of one ROM that can be exported.
pub struct CsvRom {
    pub file_name: String,
    pub sclk: Vec<SclkRow>,
    pub mclk: Vec<MclkRow>,
    pub mm: Vec<MmRow>,
    pub vram: Vec<VramRow>,
    pub pcie: Vec<PcieRow>,
    pub straps: Vec<StrapRow>,
}

/// A CSV field needs quotes: it holds a comma, a quote or a line break.
pub open spec fn needs_quotes(f: Seq<char>) -> bool {
    exists|i: int| 0 <= i < f.len() && (f[i] == ',' || f[i] == '"' || f[i] == '\n' || f[i] == '\r')
}

/// `f` with each quote doubled.
pub open spec fn doubled_quotes(f: Seq<char>) -> Seq<char>
    decreases f.len(),
{
    if f.len() == 0 {
        seq![]
    } else {
        doubled_quotes(f.drop_last()) + if f.last() == '"' {
            seq!['"', '"']
        } else {
            seq![f.last()]
        }
    }
}

/// A field as CSV writes it: in quotes, with quotes doubled, when needed.
pub open spec fn csv_field(f: Seq<char>) -> Seq<char> {
    if needs_quotes(f) {
        seq!['"'] + doubled_quotes(f) + seq!['"']
    } else {
        f
    }
}

/// A record as CSV writes it with the default settings: the fields
/// separated by commas, `""` for a record of no bytes, and a line feed.
pub open spec fn csv_record_text(fields: Seq<Seq<char>>) -> Seq<char> {
    let body = joined(fields.map_values(|f: Seq<char>| csv_field(f)), seq![',']);
    (if body.len() == 0 {
        seq!['"', '"']
    } else {
        body
    }) + seq!['\n']
}

/// Encodes one record with a `csv::Writer` over a byte vector
/// (`write_record`, `flush`, `into_inner`, read back as UTF-8). Stated:
/// the call succeeds (a fresh writer accepts a record of any width, a
/// byte vector never fails to take bytes, and the writer adds only ASCII
/// to valid UTF-8 fields), and the text is the record as the writer's
/// default settings encode it: comma delimiter, quotes only around
/// fields holding a comma, quote, `\r` or `\n`, quotes doubled inside
/// them, `""` for a record of no bytes, and a `\n` terminator.
#[verifier::external_body]
fn csv_encode(fields: &Vec<String>) -> (r: Result<String, String>)
    ensures
        r is Ok,
        match r {
            Ok(s) => s@ == csv_record_text(views(fields@)),
            Err(_) => true,
        },
{
    let mut w = csv::Writer::from_writer(Vec::new());
    w.write_record(fields).map_err(|e| e.to_string())?;
    w.flush().map_err(|e| e.to_string())?;
    let bytes = w.into_inner().map_err(|e| e.to_string())?;
    String::from_utf8(bytes).map_err(|e| e.to_string())
}

pub open spec fn sclk_record(name: Seq<char>, e: SclkRow) -> Seq<Seq<char>> {
    seq![
        name,
        dec(e.level as nat),
        e.sclk_mhz@,
        dec(e.vdd_index as nat),
        idec(e.vddc_offset_mv as int),
    ]
}

pub open spec fn mclk_record(name: Seq<char>, e: MclkRow) -> Seq<Seq<char>> {
    seq![
        name,
        dec(e.level as nat),
        e.mclk_mhz@,
        match e.vddc_resolved_mv {
            Some(v) => dec(v as nat),
            None => seq![],
        },
        dec(e.vddci_mv as nat),
        dec(e.mvdd_mv as nat),
    ]
}

pub open spec fn mm_record(name: Seq<char>, i: int, e: MmRow) -> Seq<Seq<char>> {
    seq![
        name,
        dec(i as nat),
        e.uvd_dclk_mhz@,
        e.uvd_vclk_mhz@,
        e.vce_eclk_mhz@,
        e.samu_clk_mhz@,
    ]
}

pub open spec fn vram_record(name: Seq<char>, m: VramRow) -> Seq<Seq<char>> {
    seq![
        name,
        dec(m.index as nat),
        m.part_number@,
        dec(m.memory_size_mb as nat),
        m.memory_type_name@,
        dec(m.channel_num as nat),
        dec(m.vendor_id_raw as nat),
    ]
}

pub open spec fn pcie_record(name: Seq<char>, i: int, e: PcieRow) -> Seq<Seq<char>> {
    seq![name, dec(i as nat), dec(e.pcie_gen as nat), dec(e.pcie_lane_width as nat)]
}

/// A strap's record: its register values, padded with empty cells to
/// `width` registers.
pub open spec fn strap_record(name: Seq<char>, s: StrapRow, width: nat) -> Seq<Seq<char>> {
    seq![name, dec(s.mem_block_id as nat), s.clock_mhz@, s.effective_gbps@] + Seq::new(
        width,
        |i: int|
            if i < s.values@.len() {
                dec(s.values@[i] as nat)
            } else {
                seq![]
            },
    )
}

/// The records of one ROM's table of `section`.
pub open spec fn rom_records(r: CsvRom, section: Section, width: nat) -> Seq<Seq<Seq<char>>> {
    let name = r.file_name@;
    match section {
        Section::Sclk => r.sclk@.map_values(|e: SclkRow| sclk_record(name, e)),
        Section::Mclk => r.mclk@.map_values(|e: MclkRow| mclk_record(name, e)),
        Section::Multimedia => r.mm@.map(|i: int, e: MmRow| mm_record(name, i, e)),
        Section::Vram => r.vram@.map_values(|m: VramRow| vram_record(name, m)),
        Section::Pcie => r.pcie@.map(|i: int, e: PcieRow| pcie_record(name, i, e)),
        _ => r.straps@.map_values(|s: StrapRow| strap_record(name, s, width)),
    }
}

/// The records of all ROMs, ROM after ROM.
pub open spec fn body_records(roms: Seq<CsvRom>, section: Section, width: nat) -> Seq<
    Seq<Seq<char>>,
>
    decreases roms.len(),
{
    if roms.len() == 0 {
        seq![]
    } else {
        body_records(roms.drop_last(), section, width) + rom_records(roms.last(), section, width)
    }
}

/// The largest number of register values of any strap.
pub open spec fn strap_width(roms: Seq<CsvRom>) -> nat
    decreases roms.len(),
{
    if roms.len() == 0 {
        0
    } else {
        let m = strap_width(roms.drop_last());
        let l = max_values(roms.last().straps@);
        if m >= l {
            m
        } else {
            l
        }
    }
}

pub open spec fn max_values(straps: Seq<StrapRow>) -> nat
    decreases straps.len(),
{
    if straps.len() == 0 {
        0
    } else {
        let m = max_values(straps.drop_last());
        let l = straps.last().values@.len();
        if m >= l {
            m
        } else {
            l
        }
    }
}

/// The column names of the table of `section`.
pub open spec fn header_record(section: Section, width: nat) -> Seq<Seq<char>> {
    match section {
        Section::Sclk => seq!["rom"@, "level"@, "sclk_mhz"@, "vdd_index"@, "vddc_offset_mv"@],
        Section::Mclk => seq![
            "rom"@,
            "level"@,
            "mclk_mhz"@,
            "vddc_resolved_mv"@,
            "vddci_mv"@,
            "mvdd_mv"@,
        ],
        Section::Multimedia => seq![
            "rom"@,
            "level"@,
            "uvd_dclk_mhz"@,
            "uvd_vclk_mhz"@,
            "vce_eclk_mhz"@,
            "samu_clk_mhz"@,
        ],
        Section::Vram => seq![
            "rom"@,
            "module"@,
            "part_number"@,
            "size_mb"@,
            "memory_type"@,
            "channels"@,
            "vendor_id_raw"@,
        ],
        Section::Pcie => seq!["rom"@, "level"@, "pcie_gen"@, "pcie_lane_width"@],
        _ => seq!["rom"@, "memory_block"@, "clock_mhz"@, "effective_gbps"@] + Seq::new(
            width,
            |i: int| "reg"@ + dec(i as nat),
        ),
    }
}

/// All records of the table of `section`: the column names, then the
/// rows of every ROM.
pub open spec fn table_records(roms: Seq<CsvRom>, section: Section) -> Seq<Seq<Seq<char>>> {
    let width = strap_width(roms);
    seq![header_record(section, width)] + body_records(roms, section, width)
}

/// The CSV text of a list of records.
pub open spec fn csv_text(records: Seq<Seq<Seq<char>>>) -> Seq<char>
    decreases records.len(),
{
    if records.len() == 0 {
        seq![]
    } else {
        csv_text(records.drop_last()) + csv_record_text(records.last())
    }
}

/// The records as text.
pub open spec fn records_view(rs: Seq<Vec<String>>) -> Seq<Seq<Seq<char>>> {
    rs.map_values(|rec: Vec<String>| views(rec@))
}

fn dec_string(n: u64) -> (r: String)
    ensures
        r@ == dec(n as nat),
{
    let mut v: Vec<char> = Vec::new();
    push_dec(&mut v, n);
    string_of(&v)
}

fn sclk_fields(name: &String, e: &SclkRow) -> (r: Vec<String>)
    ensures
        views(r@) == sclk_record(name@, *e),
{
    let mut v: Vec<char> = Vec::new();
    push_idec(&mut v, e.vddc_offset_mv);
    let r = vec![
        name.clone(),
        dec_string(e.level),
        e.sclk_mhz.clone(),
        dec_string(e.vdd_index),
        string_of(&v),
    ];
    assert(views(r@) =~= sclk_record(name@, *e));
    r
}

fn mclk_fields(name: &String, e: &MclkRow) -> (r: Vec<String>)
    ensures
        views(r@) == mclk_record(name@, *e),
{
    let vddc = match e.vddc_resolved_mv {
        Some(v) => dec_string(v),
        None => String::new(),
    };
    let r = vec![
        name.clone(),
        dec_string(e.level),
        e.mclk_mhz.clone(),
        vddc,
        dec_string(e.vddci_mv),
        dec_string(e.mvdd_mv),
    ];
    assert(views(r@) =~= mclk_record(name@, *e));
    r
}

fn mm_fields(name: &String, i: usize, e: &MmRow) -> (r: Vec<String>)
    ensures
        views(r@) == mm_record(name@, i as int, *e),
{
    let r = vec![
        name.clone(),
        dec_string(i as u64),
        e.uvd_dclk_mhz.clone(),
        e.uvd_vclk_mhz.clone(),
        e.vce_eclk_mhz.clone(),
        e.samu_clk_mhz.clone(),
    ];
    assert(views(r@) =~= mm_record(name@, i as int, *e));
    r
}

fn vram_fields(name: &String, m: &VramRow) -> (r: Vec<String>)
    ensures
        views(r@) == vram_record(name@, *m),
{
    let r = vec![
        name.clone(),
        dec_string(m.index),
        m.part_number.clone(),
        dec_string(m.memory_size_mb),
        m.memory_type_name.clone(),
        dec_string(m.channel_num),
        dec_string(m.vendor_id_raw),
    ];
    assert(views(r@) =~= vram_record(name@, *m));
    r
}

fn pcie_fields(name: &String, i: usize, e: &PcieRow) -> (r: Vec<String>)
    ensures
        views(r@) == pcie_record(name@, i as int, *e),
{
    let r = vec![name.clone(), dec_string(i as u64), dec_string(e.pcie_gen), dec_string(e.pcie_lane_width)];
    assert(views(r@) =~= pcie_record(name@, i as int, *e));
    r
}

fn strap_fields(name: &String, s: &StrapRow, width: usize) -> (r: Vec<String>)
    ensures
        views(r@) == strap_record(name@, *s, width as nat),
{
    let mut r = vec![
        name.clone(),
        dec_string(s.mem_block_id as u64),
        s.clock_mhz.clone(),
        s.effective_gbps.clone(),
    ];
    let ghost head = views(r@);
    let ghost cells = Seq::new(
        width as nat,
        |i: int|
            if i < s.values@.len() {
                dec(s.values@[i] as nat)
            } else {
                seq![]
            },
    );
    let mut i: usize = 0;
    while i < width
        invariant
            i <= width,
            cells.len() == width,
            cells == Seq::new(
                width as nat,
                |i: int|
                    if i < s.values@.len() {
                        dec(s.values@[i] as nat)
                    } else {
                        seq![]
                    },
            ),
            views(r@) == head + cells.take(i as int),
        decreases width - i,
    {
        let ghost before = views(r@);
        if i < s.values.len() {
            r.push(dec_string(s.values[i] as u64));
        } else {
            r.push(String::new());
        }
        assert(views(r@) =~= before.push(cells[i as int]));
        assert(cells.take(i + 1) =~= cells.take(i as int).push(cells[i as int]));
        i = i + 1;
    }
    assert(cells.take(width as int) =~= cells);
    assert(head =~= seq![name@, dec(s.mem_block_id as nat), s.clock_mhz@, s.effective_gbps@]);
    r
}

fn rom_fields(r: &CsvRom, section: Section, width: usize, out: &mut Vec<Vec<String>>)
    requires
        csv_exportable(section),
    ensures
        records_view(final(out)@) == records_view(old(out)@) + rom_records(*r, section, width as nat),
{
    let ghost start = records_view(out@);
    let ghost want = rom_records(*r, section, width as nat);
    let n = match section {
        Section::Sclk => r.sclk.len(),
        Section::Mclk => r.mclk.len(),
        Section::Multimedia => r.mm.len(),
        Section::Vram => r.vram.len(),
        Section::Pcie => r.pcie.len(),
        _ => r.straps.len(),
    };
    assert(want.len() == n);
    let mut k: usize = 0;
    while k < n
        invariant
            k <= n,
            csv_exportable(section),
            want == rom_records(*r, section, width as nat),
            want.len() == n,
            n == match section {
                Section::Sclk => r.sclk@.len(),
                Section::Mclk => r.mclk@.len(),
                Section::Multimedia => r.mm@.len(),
                Section::Vram => r.vram@.len(),
                Section::Pcie => r.pcie@.len(),
                _ => r.straps@.len(),
            },
            records_view(out@) == start + want.take(k as int),
        decreases n - k,
    {
        let rec = match section {
            Section::Sclk => sclk_fields(&r.file_name, &r.sclk[k]),
            Section::Mclk => mclk_fields(&r.file_name, &r.mclk[k]),
            Section::Multimedia => mm_fields(&r.file_name, k, &r.mm[k]),
            Section::Vram => vram_fields(&r.file_name, &r.vram[k]),
            Section::Pcie => pcie_fields(&r.file_name, k, &r.pcie[k]),
            _ => strap_fields(&r.file_name, &r.straps[k], width),
        };
        assert(views(rec@) == want[k as int]);
        let ghost before = records_view(out@);
        out.push(rec);
        assert(records_view(out@) =~= before.push(views(rec@)));
        assert(want.take(k + 1) =~= want.take(k as int).push(want[k as int]));
        k = k + 1;
    }
    assert(want.take(n as int) =~= want);
}

fn strap_width_of(roms: &[CsvRom]) -> (w: usize)
    ensures
        w == strap_width(roms@),
{
    let mut w: usize = 0;
    let mut i: usize = 0;
    while i < roms.len()
        invariant
            i <= roms@.len(),
            w == strap_width(roms@.take(i as int)),
        decreases roms@.len() - i,
    {
        let straps = &roms[i].straps;
        let mut m: usize = 0;
        let mut j: usize = 0;
        while j < straps.len()
            invariant
                j <= straps@.len(),
                m == max_values(straps@.take(j as int)),
            decreases straps@.len() - j,
        {
            proof {
                let t = straps@.take(j + 1);
                assert(t.drop_last() == straps@.take(j as int));
                assert(t.last() == straps@[j as int]);
            }
            if straps[j].values.len() > m {
                m = straps[j].values.len();
            }
            j = j + 1;
        }
        assert(straps@.take(straps@.len() as int) == straps@);
        proof {
            let t = roms@.take(i + 1);
            assert(t.drop_last() == roms@.take(i as int));
            assert(t.last() == roms@[i as int]);
        }
        if m > w {
            w = m;
        }
        i = i + 1;
    }
    assert(roms@.take(roms@.len() as int) == roms@);
    w
}

fn header_fields(section: Section, width: usize) -> (r: Vec<String>)
    requires
        csv_exportable(section),
    ensures
        views(r@) == header_record(section, width as nat),
{
    let names: Vec<&str> = match section {
        Section::Sclk => vec!["rom", "level", "sclk_mhz", "vdd_index", "vddc_offset_mv"],
        Section::Mclk => vec!["rom", "level", "mclk_mhz", "vddc_resolved_mv", "vddci_mv", "mvdd_mv"],
        Section::Multimedia => vec![
            "rom",
            "level",
            "uvd_dclk_mhz",
            "uvd_vclk_mhz",
            "vce_eclk_mhz",
            "samu_clk_mhz",
        ],
        Section::Vram => vec![
            "rom",
            "module",
            "part_number",
            "size_mb",
            "memory_type",
            "channels",
            "vendor_id_raw",
        ],
        Section::Pcie => vec!["rom", "level", "pcie_gen", "pcie_lane_width"],
        _ => vec!["rom", "memory_block", "clock_mhz", "effective_gbps"],
    };
    let mut r: Vec<String> = Vec::new();
    let mut k: usize = 0;
    while k < names.len()
        invariant
            k <= names@.len(),
            views(r@) == names@.map_values(|s: &str| s@).take(k as int),
        decreases names@.len() - k,
    {
        let mut v: Vec<char> = Vec::new();
        push_str_chars(&mut v, names[k]);
        let ghost before = views(r@);
        r.push(string_of(&v));
        assert(views(r@) =~= before.push(names@[k as int]@));
        assert(names@.map_values(|s: &str| s@).take(k + 1) =~= names@.map_values(|s: &str| s@).take(
            k as int,
        ).push(names@[k as int]@));
        k = k + 1;
    }
    assert(names@.map_values(|s: &str| s@).take(names@.len() as int) =~= names@.map_values(
        |s: &str| s@,
    ));
    let ghost head = views(r@);
    if section == Section::Straps {
        let mut i: usize = 0;
        while i < width
            invariant
                i <= width,
                views(r@) == head + Seq::new(width as nat, |j: int| "reg"@ + dec(j as nat)).take(
                    i as int,
                ),
            decreases width - i,
        {
            let mut v: Vec<char> = Vec::new();
            push_str_chars(&mut v, "reg");
            push_dec(&mut v, i as u64);
            let ghost before = views(r@);
            r.push(string_of(&v));
            assert(views(r@) =~= before.push("reg"@ + dec(i as nat)));
            assert(Seq::new(width as nat, |j: int| "reg"@ + dec(j as nat)).take(i + 1) =~= Seq::new(
                width as nat,
                |j: int| "reg"@ + dec(j as nat),
            ).take(i as int).push("reg"@ + dec(i as nat)));
            i = i + 1;
        }
        assert(Seq::new(width as nat, |j: int| "reg"@ + dec(j as nat)).take(width as int)
            =~= Seq::new(width as nat, |j: int| "reg"@ + dec(j as nat)));
    }
    assert(views(r@) =~= header_record(section, width as nat));
    r
}

/// The records of the table of `section`: the column names, then one
/// record per row of every ROM, ROM after ROM. Strap records are padded
/// with empty cells to the largest number of registers of any strap.
pub fn csv_records(roms: &[CsvRom], section: Section) -> (r: Vec<Vec<String>>)
    requires
        csv_exportable(section),
    ensures
        records_view(r@) == table_records(roms@, section),
{
    let width = strap_width_of(roms);
    let mut out: Vec<Vec<String>> = Vec::new();
    let h = header_fields(section, width);
    out.push(h);
    assert(records_view(out@) =~= seq![header_record(section, width as nat)]);
    let ghost start = records_view(out@);
    let mut i: usize = 0;
    while i < roms.len()
        invariant
            i <= roms@.len(),
            csv_exportable(section),
            width == strap_width(roms@),
            records_view(out@) == start + body_records(roms@.take(i as int), section, width as nat),
        decreases roms@.len() - i,
    {
        rom_fields(&roms[i], section, width, &mut out);
        proof {
            let t = roms@.take(i + 1);
            assert(t.drop_last() == roms@.take(i as int));
            assert(t.last() == roms@[i as int]);
        }
        i = i + 1;
    }
    assert(roms@.take(roms@.len() as int) == roms@);
    out
}

/// Writes the table of `section` of every ROM as CSV. A section that is
/// no flat table is refused with the list of those that are; any other
/// section gives exactly the CSV text of the records of `csv_records`.
pub fn export_csv(roms: &[CsvRom], section: Section) -> (r: Result<String, String>)
    ensures
        !csv_exportable(section) ==> (r matches Err(e) && e@ == refusal_msg(section)),
        csv_exportable(section) ==> (r matches Ok(s) && s@ == csv_text(
            table_records(roms@, section),
        )),
{
    if let Some(msg) = csv_refusal(section) {
        return Err(msg);
    }
    let records = csv_records(roms, section);
    let ghost recs = records_view(records@);
    let mut out: Vec<char> = Vec::new();
    let mut k: usize = 0;
    while k < records.len()
        invariant
            k <= records@.len(),
            csv_exportable(section),
            recs == records_view(records@),
            out@ == csv_text(recs.take(k as int)),
        decreases records@.len() - k,
    {
        let line = csv_encode(&records[k])?;
        push_str_chars(&mut out, line.as_str());
        proof {
            let t = recs.take(k + 1);
            assert(t.drop_last() == recs.take(k as int));
            assert(t.last() == views(records@[k as int]@));
        }
        k = k + 1;
    }
    assert(recs.take(recs.len() as int) == recs);
    Ok(string_of(&out))
}

} // verus!
