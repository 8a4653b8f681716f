//! The expression-evaluation engine of a telemetry plotter: a small typed
//! expression language compiled against the channel names of loaded log
//! streams and run once per sample, resolving differently-sampled streams
//! against each other by time interpolation, to produce 2-D plot points.
//! Floating-point scalars are carried as their canonical decimal texts so
//! every stage's contract can be stated and checked.

pub mod compile;
pub mod data;
pub mod diag;
pub mod error;
pub mod eval;
pub mod lex;
pub mod num;
pub mod plot;
pub mod program;
pub mod run;
pub mod sanity;
pub mod util;
