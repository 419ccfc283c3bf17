//! A static finder of unsafe dataflow: calls that bypass ownership and
//! lifetime rules, and whose effects can reach code that cannot be resolved.
//!
//! `program` models the analysed program, `paths` matches qualified names
//! against the catalog of bypass functions, `context` holds whole-program
//! facts, `graph` propagates taint over a control-flow graph, and
//! `unsafe_dataflow` classifies calls and builds reports.
pub mod context;
pub mod driver;
pub mod flags;
pub mod graph;
pub mod iter;
pub mod paths;
pub mod program;
pub mod report;
pub mod unsafe_dataflow;
