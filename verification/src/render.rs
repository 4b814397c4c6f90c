pub mod caps;
pub mod chain;
pub mod chip;
pub mod tables;
pub mod dump;
pub mod color;
pub mod header;
pub mod profiling;
pub mod sections;
pub mod text;
pub mod vrm;
pub mod width;
