//! A whole-process sampling profiler library: call-site aggregation tables
//! shared between a recorder and a reader, frame-pointer stack keys, DWARF
//! line-range symbolization, user-frame selection, and a checkpointed
//! time-series store.

pub mod alloctab;
pub mod cli;
pub mod dwarf;
pub mod error;
pub mod filter;
pub mod heap;
pub mod keyfold;
pub mod list;
pub mod maps;
pub mod perf;
pub mod probe;
pub mod process;
pub mod recorder;
pub mod resolver;
pub mod shm;
pub mod ssr;
pub mod store;
pub mod strutil;
pub mod trace;
pub mod workload;
