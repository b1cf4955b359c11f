//! Recall and indexing-time benchmark core for approximate nearest-neighbor
//! search engines: exact ground-truth selection, candidate filtering, recall
//! scoring with an invalid-result sentinel, scenario planning, and
//! indexing-metrics collection with aligned table rendering.
use vstd::prelude::*;

pub mod candidates;
pub mod metrics;
pub mod oracle;
pub mod parse;
pub mod plan_laws;
pub mod recall;
pub mod sampling;
pub mod scenarios;
pub mod seqs;
pub mod text;

verus! {

/// Seed used to sample the query points of a run, so that runs are comparable.
pub const RNG_SEED: u64 = 38;

} // verus!
