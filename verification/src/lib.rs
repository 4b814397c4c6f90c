pub mod textutil;
pub mod render;
pub mod num;
pub mod cmd;
pub mod compare;
pub mod compare_util;
pub mod compare_all;
pub mod compare_sections;
pub mod compare_power;
pub mod compare_display;
pub mod compare_chip;
pub mod compare_report;
pub mod compare_all_report;
pub mod csv_export;
pub mod csv_table;
pub mod diff_disasm;
pub mod reg_names;
pub mod clipboard;
pub mod cli;
pub mod order;
pub mod straps;
