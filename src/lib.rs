//! Launcher for CPU benchmarks: validates the core and size arguments, picks
//! an idle core for itself, renders the benchmark's argument vector and the
//! log header.

pub mod text;
pub mod topology;
mod affinity;
pub mod settings;
pub mod selector;
pub mod bench;
