//! Best-effort acquisition of per-CPU clock frequencies.
//!
//! The library models the host's frequency-scaling metadata as plain values
//! (directory-existence flags and raw file contents) and computes, from those
//! observations alone, one sample per logical CPU. Frequencies are held as
//! integer kilohertz counts, which is the same as megahertz with three
//! fixed decimal places.

pub mod cpuinfo;
pub mod reader;
pub mod sample;
pub mod text;

pub use crate::cpuinfo::parse_cpuinfo;
pub use crate::reader::Acquisition;
pub use crate::reader::AcquisitionPlan;
pub use crate::reader::ScalingDir;
pub use crate::reader::ScalingFiles;
pub use crate::reader::UnsupportedPlatform;
pub use crate::reader::choose_plan;
pub use crate::reader::read_all;
pub use crate::reader::resolve_layout;
pub use crate::reader::sample_from_files;
pub use crate::sample::CpuFreqs;
pub use crate::text::parse_mhz_token;
pub use crate::text::parse_scaling_value;
