use vstd::prelude::*;

use crate::textutil::{
    chars_of, lemma_split_on_nonempty, piece_at, pieces_at, range_eq, split_bounds, split_on,
    string_of, trim, trim_bounds, push_str_chars, Sep,
};

verus! {

/// Each category of information that can be displayed, alone or combined,
/// both via `--sections` on the CLI and browsable in the TUI.
#[derive(Debug, Clone, Copy, PartialEq, Eq, Hash, Structural)]
pub enum Section {
    Header,
    PcirChain,
    Display,
    Firmware,
    Sclk,
    Mclk,
    Voltages,
    Vrm,
    Multimedia,
    Powertune,
    Fan,
    Pcie,
    Vram,
    Straps,
    Caps,
    Asic,
    Smu,
    Power,
    Gpio,
    Profiling,
    Ss,
    Vesa,
    I2c,
}

/// The sections in their canonical order.
pub open spec fn all_sections() -> Seq<Section> {
    seq![
        Section::Header,
        Section::PcirChain,
        Section::Display,
        Section::Firmware,
        Section::Sclk,
        Section::Mclk,
        Section::Voltages,
        Section::Vrm,
        Section::Multimedia,
        Section::Powertune,
        Section::Fan,
        Section::Pcie,
        Section::Vram,
        Section::Straps,
        Section::Caps,
        Section::Asic,
        Section::Smu,
        Section::Power,
        Section::Gpio,
        Section::Profiling,
        Section::Ss,
        Section::Vesa,
        Section::I2c,
    ]
}

/// The key that selects a section on the command line.
pub open spec fn key_of(s: Section) -> Seq<char> {
    match s {
        Section::Header => seq!['h', 'e', 'a', 'd', 'e', 'r'],
        Section::PcirChain => seq!['p', 'c', 'i', 'r'],
        Section::Display => seq!['d', 'i', 's', 'p', 'l', 'a', 'y'],
        Section::Firmware => seq!['f', 'i', 'r', 'm', 'w', 'a', 'r', 'e'],
        Section::Sclk => seq!['s', 'c', 'l', 'k'],
        Section::Mclk => seq!['m', 'c', 'l', 'k'],
        Section::Voltages => seq!['v', 'o', 'l', 't', 'a', 'g', 'e', 's'],
        Section::Vrm => seq!['v', 'r', 'm'],
        Section::Multimedia => seq!['m', 'm'],
        Section::Powertune => seq!['p', 'o', 'w', 'e', 'r', 't', 'u', 'n', 'e'],
        Section::Fan => seq!['f', 'a', 'n'],
        Section::Pcie => seq!['p', 'c', 'i', 'e'],
        Section::Vram => seq!['v', 'r', 'a', 'm'],
        Section::Straps => seq!['s', 't', 'r', 'a', 'p', 's'],
        Section::Caps => seq!['c', 'a', 'p', 's'],
        Section::Asic => seq!['a', 's', 'i', 'c'],
        Section::Smu => seq!['s', 'm', 'u'],
        Section::Power => seq!['p', 'o', 'w', 'e', 'r'],
        Section::Gpio => seq!['g', 'p', 'i', 'o'],
        Section::Profiling => seq!['p', 'r', 'o', 'f', 'i', 'l', 'i', 'n', 'g'],
        Section::Ss => seq!['s', 's'],
        Section::Vesa => seq!['v', 'e', 's', 'a'],
        Section::I2c => seq!['i', '2', 'c'],
    }
}

/// The human-readable title of a section.
pub open spec fn label_of(s: Section) -> Seq<char> {
    match s {
        Section::Header => "Identification (ROM/ATOM/PCB)"@,
        Section::PcirChain => "PCI Option ROM chain (chip images)"@,
        Section::Display => "Video outputs (connectors/encoders)"@,
        Section::Firmware => "Firmware / boot clocks"@,
        Section::Sclk => "P-States - SCLK (engine clock)"@,
        Section::Mclk => "P-States - MCLK (memory)"@,
        Section::Voltages => "Voltage tables (VDDC/VDDGFX)"@,
        Section::Vrm => "VRM (voltage control / VoltageObjectInfo)"@,
        Section::Multimedia => "Multimedia clocks (UVD/VCE/SAMU)"@,
        Section::Powertune => "PowerTune (TDP / TDC / thermal limits)"@,
        Section::Fan => "Fan curve"@,
        Section::Pcie => "PCIe table"@,
        Section::Vram => "VRAM configuration"@,
        Section::Straps => "Memory straps"@,
        Section::Caps => "Platform caps (PowerPlay table flags)"@,
        Section::Asic => "ASIC layout (GFX_Info)"@,
        Section::Smu => "SMU (firmware version / FCW ranges)"@,
        Section::Power => "Power sources (connectors / sensors)"@,
        Section::Gpio => "GPIO pin roles (GPIO_Pin_LUT)"@,
        Section::Profiling => "ASIC profiling (die voltage range / efuse / TDC)"@,
        Section::Ss => "Spread spectrum (ASIC_InternalSS_Info)"@,
        Section::Vesa => "Native VESA modes (StandardVESA_Timing)"@,
        Section::I2c => "I2C bus wiring (GPIO_I2C_Info)"@,
    }
}

/// The first section of `secs` whose key is `k`.
pub open spec fn find_by_key(secs: Seq<Section>, k: Seq<char>) -> Option<Section>
    decreases secs.len(),
{
    if secs.len() == 0 {
        None
    } else if key_of(secs[0]) == k {
        Some(secs[0])
    } else {
        find_by_key(secs.skip(1), k)
    }
}

/// The section whose key is the trimmed `s`.
pub open spec fn section_from_key(s: Seq<char>) -> Option<Section> {
    find_by_key(all_sections(), trim(s))
}

impl Section {
    pub const ALL: [Section; 23] = [
        Section::Header,
        Section::PcirChain,
        Section::Display,
        Section::Firmware,
        Section::Sclk,
        Section::Mclk,
        Section::Voltages,
        Section::Vrm,
        Section::Multimedia,
        Section::Powertune,
        Section::Fan,
        Section::Pcie,
        Section::Vram,
        Section::Straps,
        Section::Caps,
        Section::Asic,
        Section::Smu,
        Section::Power,
        Section::Gpio,
        Section::Profiling,
        Section::Ss,
        Section::Vesa,
        Section::I2c,
    ];

    pub fn key(&self) -> (r: &'static str)
        ensures
            r@ == key_of(*self),
    {
        match self {
            Section::Header => {
                proof {
                    reveal_strlit("header");
                }
                "header"
            },
            Section::PcirChain => {
                proof {
                    reveal_strlit("pcir");
                }
                "pcir"
            },
            Section::Display => {
                proof {
                    reveal_strlit("display");
                }
                "display"
            },
            Section::Firmware => {
                proof {
                    reveal_strlit("firmware");
                }
                "firmware"
            },
            Section::Sclk => {
                proof {
                    reveal_strlit("sclk");
                }
                "sclk"
            },
            Section::Mclk => {
                proof {
                    reveal_strlit("mclk");
                }
                "mclk"
            },
            Section::Voltages => {
                proof {
                    reveal_strlit("voltages");
                }
                "voltages"
            },
            Section::Vrm => {
                proof {
                    reveal_strlit("vrm");
                }
                "vrm"
            },
            Section::Multimedia => {
                proof {
                    reveal_strlit("mm");
                }
                "mm"
            },
            Section::Powertune => {
                proof {
                    reveal_strlit("powertune");
                }
                "powertune"
            },
            Section::Fan => {
                proof {
                    reveal_strlit("fan");
                }
                "fan"
            },
            Section::Pcie => {
                proof {
                    reveal_strlit("pcie");
                }
                "pcie"
            },
            Section::Vram => {
                proof {
                    reveal_strlit("vram");
                }
                "vram"
            },
            Section::Straps => {
                proof {
                    reveal_strlit("straps");
                }
                "straps"
            },
            Section::Caps => {
                proof {
                    reveal_strlit("caps");
                }
                "caps"
            },
            Section::Asic => {
                proof {
                    reveal_strlit("asic");
                }
                "asic"
            },
            Section::Smu => {
                proof {
                    reveal_strlit("smu");
                }
                "smu"
            },
            Section::Power => {
                proof {
                    reveal_strlit("power");
                }
                "power"
            },
            Section::Gpio => {
                proof {
                    reveal_strlit("gpio");
                }
                "gpio"
            },
            Section::Profiling => {
                proof {
                    reveal_strlit("profiling");
                }
                "profiling"
            },
            Section::Ss => {
                proof {
                    reveal_strlit("ss");
                }
                "ss"
            },
            Section::Vesa => {
                proof {
                    reveal_strlit("vesa");
                }
                "vesa"
            },
            Section::I2c => {
                proof {
                    reveal_strlit("i2c");
                }
                "i2c"
            },
        }
    }

    pub fn label(&self) -> (r: &'static str)
        ensures
            r@ == label_of(*self),
    {
        match self {
            Section::Header => "Identification (ROM/ATOM/PCB)",
            Section::PcirChain => "PCI Option ROM chain (chip images)",
            Section::Display => "Video outputs (connectors/encoders)",
            Section::Firmware => "Firmware / boot clocks",
            Section::Sclk => "P-States - SCLK (engine clock)",
            Section::Mclk => "P-States - MCLK (memory)",
            Section::Voltages => "Voltage tables (VDDC/VDDGFX)",
            Section::Vrm => "VRM (voltage control / VoltageObjectInfo)",
            Section::Multimedia => "Multimedia clocks (UVD/VCE/SAMU)",
            Section::Powertune => "PowerTune (TDP / TDC / thermal limits)",
            Section::Fan => "Fan curve",
            Section::Pcie => "PCIe table",
            Section::Vram => "VRAM configuration",
            Section::Straps => "Memory straps",
            Section::Caps => "Platform caps (PowerPlay table flags)",
            Section::Asic => "ASIC layout (GFX_Info)",
            Section::Smu => "SMU (firmware version / FCW ranges)",
            Section::Power => "Power sources (connectors / sensors)",
            Section::Gpio => "GPIO pin roles (GPIO_Pin_LUT)",
            Section::Profiling => "ASIC profiling (die voltage range / efuse / TDC)",
            Section::Ss => "Spread spectrum (ASIC_InternalSS_Info)",
            Section::Vesa => "Native VESA modes (StandardVESA_Timing)",
            Section::I2c => "I2C bus wiring (GPIO_I2C_Info)",
        }
    }

    pub fn from_key(s: &str) -> (r: Option<Section>)
        ensures
            r == section_from_key(s@),
    {
        let cs = chars_of(s);
        let (a, b) = trim_bounds(&cs, 0, cs.len());
        assert(cs@.subrange(0, cs@.len() as int) == cs@);
        let ghost k = trim(s@);
        let all = Section::ALL;
        assert(all@ == all_sections());
        let mut i: usize = 0;
        assert(all_sections().skip(0) == all_sections());
        while i < 23
            invariant
                i <= 23,
                all@ == all_sections(),
                cs@.subrange(a as int, b as int) == k,
                k == trim(s@),
                a <= b <= cs@.len(),
                find_by_key(all_sections().skip(i as int), k) == find_by_key(all_sections(), k),
            decreases 23 - i,
        {
            let sec = all[i];
            let kv = chars_of(sec.key());
            let ghost rest = all_sections().skip(i as int);
            assert(rest[0] == sec);
            assert(rest.skip(1) == all_sections().skip(i + 1));
            if range_eq(&cs, a, b, &kv) {
                assert(find_by_key(rest, k) == Some(sec));
                return Some(sec);
            }
            i = i + 1;
        }
        assert(all_sections().skip(23).len() == 0);
        None
    }
}

/// `c` lower-cased if it is an ASCII capital.
pub open spec fn ascii_lower(c: char) -> char {
    if 'A' <= c && c <= 'Z' {
        ((c as u32) + 32) as char
    } else {
        c
    }
}

/// `t` is the word `all`, in any ASCII case.
pub open spec fn is_all_word(t: Seq<char>) -> bool {
    t.len() == 3 && ascii_lower(t[0]) == 'a' && ascii_lower(t[1]) == 'l' && ascii_lower(t[2])
        == 'l'
}

/// The message for a piece of a section list that names no section.
pub open spec fn unknown_section_msg(part: Seq<char>) -> Seq<char> {
    "unknown section: '"@ + part + "'. Use --list-sections to see available options."@
}

/// Reading the first `k` pieces of a section list: empty pieces are
/// skipped, the first unknown one is an error.
pub open spec fn parse_pieces(parts: Seq<Seq<char>>, k: nat) -> Result<Seq<Section>, Seq<char>>
    decreases k,
{
    if k == 0 || k > parts.len() {
        Ok(seq![])
    } else {
        match parse_pieces(parts, (k - 1) as nat) {
            Err(e) => Err(e),
            Ok(l) => {
                let p = trim(parts[k - 1]);
                if p.len() == 0 {
                    Ok(l)
                } else {
                    match find_by_key(all_sections(), p) {
                        Some(sec) => Ok(l.push(sec)),
                        None => Err(unknown_section_msg(p)),
                    }
                }
            },
        }
    }
}

/// What `parse_section_list` makes of `spec`.
pub open spec fn section_list(spec: Seq<char>) -> Result<Seq<Section>, Seq<char>> {
    if is_all_word(trim(spec)) {
        Ok(all_sections())
    } else {
        let parts = split_on(spec, Sep::Char(','));
        parse_pieces(parts, parts.len())
    }
}

proof fn lemma_parse_pieces_err(parts: Seq<Seq<char>>, k: nat, n: nat)
    requires
        k <= n <= parts.len(),
        parse_pieces(parts, k) is Err,
    ensures
        parse_pieces(parts, n) == parse_pieces(parts, k),
    decreases n - k,
{
    if n > k {
        lemma_parse_pieces_err(parts, k, (n - 1) as nat);
    }
}

/// Whether `c` is the lower-case ASCII letter `lower`, in either case.
fn eq_ignore_case(c: char, lower: char, upper: char) -> (b: bool)
    requires
        'a' <= lower <= 'z',
        (upper as u32) + 32 == lower as u32,
    ensures
        b == (ascii_lower(c) == lower),
{
    c == lower || c == upper
}

/// Parses a comma-separated list (e.g. "firmware,straps,vram").
/// The special word "all" selects everything.
pub fn parse_section_list(spec: &str) -> (r: Result<Vec<Section>, String>)
    ensures
        match r {
            Ok(v) => section_list(spec@) == Ok::<Seq<Section>, Seq<char>>(v@),
            Err(e) => section_list(spec@) == Err::<Seq<Section>, Seq<char>>(e@),
        },
{
    let cs = chars_of(spec);
    let (a, b) = trim_bounds(&cs, 0, cs.len());
    assert(cs@.subrange(0, cs@.len() as int) == cs@);
    if b - a == 3 && eq_ignore_case(cs[a], 'a', 'A') && eq_ignore_case(cs[a + 1], 'l', 'L')
        && eq_ignore_case(cs[a + 2], 'l', 'L') {
        let all = Section::ALL;
        let mut v: Vec<Section> = Vec::new();
        let mut i: usize = 0;
        while i < 23
            invariant
                i <= 23,
                all@ == all_sections(),
                v@ == all_sections().take(i as int),
            decreases 23 - i,
        {
            v.push(all[i]);
            i = i + 1;
            assert(v@ == all_sections().take(i as int));
        }
        assert(all_sections().take(23) == all_sections());
        return Ok(v);
    }
    assert(!is_all_word(trim(spec@)));
    let bounds = split_bounds(&cs, &Sep::Char(','));
    let ghost parts = split_on(spec@, Sep::Char(','));
    let mut out: Vec<Section> = Vec::new();
    let mut i: usize = 0;
    while i < bounds.len()
        invariant
            cs@ == spec@,
            !is_all_word(trim(spec@)),
            parts == split_on(spec@, Sep::Char(',')),
            i <= bounds@.len(),
            pieces_at(cs@, bounds@, parts),
            parse_pieces(parts, i as nat) == Ok::<Seq<Section>, Seq<char>>(out@),
        decreases bounds@.len() - i,
    {
        let (from, to) = bounds[i];
        assert(piece_at(cs@, bounds@[i as int], parts[i as int]));
        let (pa, pb) = trim_bounds(&cs, from, to);
        let ghost p = trim(parts[i as int]);
        assert(cs@.subrange(pa as int, pb as int) == p);
        assert(parse_pieces(parts, (i + 1) as nat) == match parse_pieces(parts, i as nat) {
            Err(e) => Err(e),
            Ok(l) => {
                if p.len() == 0 {
                    Ok(l)
                } else {
                    match find_by_key(all_sections(), p) {
                        Some(sec) => Ok(l.push(sec)),
                        None => Err(unknown_section_msg(p)),
                    }
                }
            },
        });
        if pa < pb {
            let part: String = string_of(&{
                let mut pv: Vec<char> = Vec::new();
                crate::textutil::push_range(&mut pv, &cs, pa, pb);
                pv
            });
            assert(part@ == p);
            match Section::from_key(part.as_str()) {
                Some(sec) => {
                    proof {
                        crate::textutil::lemma_trim_idempotent(parts[i as int]);
                    }
                    out.push(sec);
                },
                None => {
                    proof {
                        crate::textutil::lemma_trim_idempotent(parts[i as int]);
                        lemma_parse_pieces_err(parts, (i + 1) as nat, parts.len());
                    }
                    let mut msg = String::new();
                    msg.push_str("unknown section: '");
                    msg.push_str(part.as_str());
                    msg.push_str("'. Use --list-sections to see available options.");
                    assert(msg@ == unknown_section_msg(p));
                    assert(parts.len() == bounds@.len());
                    assert(parse_pieces(parts, (i + 1) as nat) == Err::<Seq<Section>, Seq<char>>(unknown_section_msg(p)));
                    assert(parse_pieces(parts, parts.len()) == Err::<Seq<Section>, Seq<char>>(unknown_section_msg(p)));
                    assert(section_list(spec@) == parse_pieces(parts, parts.len()));
                    return Err(msg);
                },
            }
        }
        i = i + 1;
    }
    Ok(out)
}


/// Keys hold no whitespace, so trimming leaves them unchanged.
proof fn lemma_key_trimmed(s: Section)
    ensures
        trim(key_of(s)) == key_of(s),
{
    let k = key_of(s);
    assert(!crate::textutil::is_ws(k[0]));
    assert(crate::textutil::trim_start(k) == k);
    assert(!crate::textutil::is_ws(k.last()));
    assert(crate::textutil::trim_end(k) == k);
}

/// Looking up the key of a section finds that section: keys select
/// sections unambiguously.
pub proof fn law_key_roundtrip(s: Section)
    ensures
        section_from_key(key_of(s)) == Some(s),
{
    lemma_key_trimmed(s);
    reveal_with_fuel(find_by_key, 24);
}

/// The keys of `secs`.
pub open spec fn keys_of(secs: Seq<Section>) -> Seq<Seq<char>> {
    secs.map_values(|s: Section| key_of(s))
}

proof fn lemma_key_no_comma(s: Section)
    ensures
        key_of(s).len() >= 2,
        forall|i: int| 0 <= i < key_of(s).len() ==> #[trigger] key_of(s)[i] != ',',
        !crate::textutil::is_ws(key_of(s)[0]),
        !crate::textutil::is_ws(key_of(s).last()),
        !is_all_word(key_of(s)),
{
}

proof fn lemma_parse_keys(secs: Seq<Section>, k: nat)
    requires
        k <= secs.len(),
    ensures
        parse_pieces(keys_of(secs), k) == Ok::<Seq<Section>, Seq<char>>(secs.take(k as int)),
    decreases k,
{
    if k > 0 {
        lemma_parse_keys(secs, (k - 1) as nat);
        let s = secs[k - 1];
        assert(keys_of(secs)[k - 1] == key_of(s));
        lemma_key_trimmed(s);
        lemma_key_no_comma(s);
        law_key_roundtrip(s);
        assert(secs.take(k - 1).push(s) == secs.take(k as int));
    } else {
        assert(secs.take(0) == Seq::<Section>::empty());
    }
}

/// A list of section keys joined by commas reads back as the same
/// sections, in the same order: what `--sections` is given selects
/// exactly those sections.
pub proof fn law_section_list_roundtrip(secs: Seq<Section>)
    ensures
        section_list(crate::textutil::joined(keys_of(secs), seq![','])) == Ok::<
            Seq<Section>,
            Seq<char>,
        >(secs),
{
    let ks = keys_of(secs);
    let spec = crate::textutil::joined(ks, seq![',']);
    if secs.len() == 0 {
        assert(spec == Seq::<char>::empty());
        assert(trim(spec).len() == 0);
        let parts = split_on(spec, Sep::Char(','));
        assert(parts == seq![Seq::<char>::empty()]);
        assert(trim(parts[0]).len() == 0);
        assert(parse_pieces(parts, 0) == Ok::<Seq<Section>, Seq<char>>(Seq::<Section>::empty()));
        assert(parse_pieces(parts, 1) == Ok::<Seq<Section>, Seq<char>>(Seq::<Section>::empty()));
        assert(secs == Seq::<Section>::empty());
    } else {
        assert forall|k: int, i: int| 0 <= k < ks.len() && 0 <= i < ks[k].len() implies !Sep::Char(
            ',',
        ).holds(#[trigger] ks[k][i]) by {
            lemma_key_no_comma(secs[k]);
        }
        crate::textutil::lemma_split_joined(ks, ',', Sep::Char(','));
        lemma_parse_keys(secs, secs.len());
        assert(ks.len() == secs.len());
        assert(secs.take(secs.len() as int) == secs);
        assert(!is_all_word(trim(spec))) by {
            lemma_joined_trim(secs);
        }
        assert(split_on(spec, Sep::Char(',')) == ks);
        assert(parse_pieces(ks, ks.len()) == Ok::<Seq<Section>, Seq<char>>(secs));
    }
}

/// A non-empty list of keys joined by commas is already trimmed, and is
/// no spelling of `all`.
proof fn lemma_joined_trim(secs: Seq<Section>)
    requires
        secs.len() >= 1,
    ensures
        trim(crate::textutil::joined(keys_of(secs), seq![','])) == crate::textutil::joined(
            keys_of(secs),
            seq![','],
        ),
        !is_all_word(crate::textutil::joined(keys_of(secs), seq![','])),
    decreases secs.len(),
{
    let ks = keys_of(secs);
    let j = crate::textutil::joined(ks, seq![',']);
    lemma_key_no_comma(secs[0]);
    lemma_key_no_comma(secs.last());
    if secs.len() == 1 {
        assert(j == key_of(secs[0]));
        lemma_key_trimmed(secs[0]);
    } else {
        lemma_joined_starts(ks, seq![',']);
        let init = ks.drop_last();
        let ji = crate::textutil::joined(init, seq![',']);
        assert(j == ji + seq![','] + ks.last());
        assert(ks.last() == key_of(secs.last()));
        assert(j.last() == ks.last().last());
        assert(j[0] == ks[0][0]);
        assert(ks[0] == key_of(secs[0]));
        assert(!crate::textutil::is_ws(j[0]));
        assert(!crate::textutil::is_ws(j.last()));
        assert(crate::textutil::trim_start(j) == j);
        assert(crate::textutil::trim_end(j) == j);
        assert(j.len() >= 5);
    }
}

proof fn lemma_joined_starts(ks: Seq<Seq<char>>, sep: Seq<char>)
    requires
        ks.len() >= 1,
        ks[0].len() >= 1,
        forall|k: int| 0 <= k < ks.len() ==> #[trigger] ks[k].len() >= 2,
        sep.len() == 1,
    ensures
        crate::textutil::joined(ks, sep).len() > 0,
        crate::textutil::joined(ks, sep)[0] == ks[0][0],
        crate::textutil::joined(ks, sep).len() >= 3 * ks.len() - 1,
    decreases ks.len(),
{
    if ks.len() > 1 {
        let init = ks.drop_last();
        assert forall|k: int| 0 <= k < init.len() implies #[trigger] init[k].len() >= 2 by {
            assert(init[k] == ks[k]);
        }
        assert(init[0] == ks[0]);
        lemma_joined_starts(init, sep);
        assert(ks.last() == ks[ks.len() - 1]);
    }
}

} // verus!
