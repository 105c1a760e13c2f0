use vstd::prelude::*;

pub mod chart;
pub mod commands;
pub mod datetime;
pub mod export;
pub mod importer;
pub mod models;
pub mod presets;
pub mod query;
pub mod rules;
pub mod stats;
pub mod text;
pub mod tree;

verus! {
} // verus!
