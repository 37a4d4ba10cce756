//! Structural analysis of WebAssembly modules: section byte accounting, the
//! function index space, a static call graph, dead-code detection and
//! operator statistics.

pub mod analysis;
pub mod calltree;
pub mod contents;
pub mod laws;
pub mod leb;
pub mod module;
pub mod ranges;
pub mod report;
pub mod tables;
pub mod text;
pub mod wasm;

pub use analysis::{analyze, Analysis, Section};
pub use calltree::{call_tree, CallTreeLine};
pub use module::{Error, Module, SectionKind, SectionPayload};
pub use ranges::{RangeVec, RangeVecEntry};
