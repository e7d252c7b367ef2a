//! Per-position nucleotide and indel statistics over pileups of aligned reads,
//! for several samples at once, with depth filtering and tabular rendering.

pub mod nucleotide;
pub mod pileup;
pub mod region;
pub mod report;
pub mod config;
pub mod resolve;
pub mod refcount;
