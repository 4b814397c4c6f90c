# polaris_vbios

The text-processing core of a reader, dumper and comparator for AMD
Polaris VBIOS images, written in Verus: every function in `src/` carries
a contract that Verus proves.

## Layout

- `src/render/` - ANSI colors, padding and truncation, ANSI-aware
  truncation and wrapping (`color`), the visible width of terminal text
  and the laws of `wrap_ansi` and `visible_truncate` (`width`), section
  keys and the `--sections` list (`sections`), the pieces of the
  plain-text dump (`text`), the identification, ASIC profiling, VRM,
  capability, option-ROM chain, video output, GFX, GPIO, power source,
  VRAM, PCIe and voltage sections of the dump (`header`, `profiling`,
  `vrm`, `caps`, `chain`, `chip`, `tables`), and the dump of a ROM
  assembled section by section (`dump`).
- `src/compare.rs`, `src/compare_all.rs`, `src/compare_util.rs` - the
  side-by-side and matrix comparison tables, the scriptable verdict read
  back from a report, and the grouping and alignment of strap register
  fields.
- `src/compare_sections.rs`, `src/compare_power.rs`,
  `src/compare_display.rs`, `src/compare_chip.rs` - the compared
  sections: identification, VRM, VRAM, multimedia, PCIe, voltages, video
  outputs, option-ROM chain, GFX, I2C and GPIO, for two ROMs and as a
  matrix for several.
- `src/compare_report.rs`, `src/compare_all_report.rs` - what is read of
  a ROM (`RomData`), which comparison each section gets, and the
  two-ROM report assembled from them.
- `src/straps.rs` - the memory straps compared by clock: the register x
  clock matrix of two ROMs and the core timing matrix of several.
- `src/diff_disasm.rs` - the offset-aligned diff of two command-table
  disassemblies.
- `src/cmd/` - exit codes, numeric argument parsers, and the decisions of
  the `check`, `decode-strap`, `extract`, `identify` and `transplant`
  subcommands (image choice, guardrails, the transplant itself and its
  dry-run report).
- `src/reg_names.rs` - `--reg-names` annotation files.
- `src/csv_export.rs`, `src/csv_table.rs`, `src/cli.rs`,
  `src/clipboard.rs` - CSV section rules and the CSV tables (encoded by
  the `csv` crate), `dump --format`, `--list-sections`, and the OSC 52 clipboard
  sequence.
- `src/num.rs`, `src/textutil.rs` - decimal/hex rendering and parsing,
  trimming and splitting of text.
- `app/` - the command-line front end (clap), file I/O and terminal
  output.

Laws that span several functions are public proof functions named
`law_*`.

The ROM image parser (ATOM header, PCI image chain, PowerPlay, VRAM and
strap tables, command-table disassembler) and the TUI are not part of
this crate; the subcommands of `app/` that read ROM images report that.
