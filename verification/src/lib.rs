//! Regression test selection for Rust projects: the verified core of the
//! dependency graph, checksum files, change detection and test selection.

pub mod analysis;
pub mod callbacks_shared;
pub mod cargo;
pub mod cargo_rustyrts;
pub mod cargo_test;
pub mod checksums;
pub mod cli;
pub mod collector;
pub mod file_loader;
pub mod formatters;
pub mod fs_utils;
pub mod graph;
pub mod graph_laws;
pub mod lab;
pub mod lazy_transform;
pub mod libtest;
pub mod line_format;
pub mod options;
pub mod paths;
pub mod rustdoc;
pub mod selection;
pub mod seqs;
pub mod test_runner;
pub mod text;
pub mod traces;
pub mod unit_order;
pub mod units;
