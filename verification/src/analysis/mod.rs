//! What the analysis of a crate keeps between two compilations.

pub mod callback;
pub mod checksums;
