//! Per-segment query execution: scorers that walk sorted posting lists.
//!
//! A query node (boolean clauses, phrase clauses) compiles into a `Weight`,
//! which for a given segment builds a scorer: a sorted, deduplicated cursor
//! over matching document ids that also produces a relevance score for its
//! current position. Combinators (union, intersection, exclusion,
//! required/optional) compose scorers; a phrase scorer adds a positional
//! verification step on top of the intersection of its term postings.
//!
//! Every scorer has a single owner: a combinator consumes its inputs when
//! it is built, and a two-phase scorer's approximation is its own cursor,
//! so no scorer is ever referenced from two places and all views of a
//! cursor are trivially consistent. Scores are fixed-point integers
//! combined with saturating arithmetic; a float-facing layer belongs
//! outside the engine.

pub mod boolean_weight;
pub mod docset;
pub mod exclude;
pub mod explanation;
pub mod intersection;
pub mod phrase_scorer;
pub mod phrase_weight;
pub mod postings;
pub mod required_optional;
pub mod score_combiner;
pub mod scorer;
pub mod similarity;
pub mod twophase;
pub mod union;
pub mod weight;

use vstd::prelude::*;

verus! {

/// Document identifier, monotonically increasing within a segment.
pub type DocId = u32;

/// Relevance score. Scores combine with saturating arithmetic.
pub type Score = u64;

} // verus!
