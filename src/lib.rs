//! Normalization, comparison and fuzzy search over a documentation index.
//!
//! - `json`: the parsed document an index arrives in.
//! - `types`: type expressions and their canonical rendering.
//! - `item`: an item's kind-specific payload and its signature summary.
//! - `api`: normalized items and their extraction from an index.
//! - `diff`: the added / removed / modified comparison of two collections.
//! - `search`: fuzzy name search and ranking of its results.
//! - `text`: character-sequence helpers shared by the others.
use vstd::prelude::*;

pub mod text;
pub mod json;
pub mod types;
pub mod item;
pub mod api;
pub mod diff;
pub mod search;

verus! {

} // verus!
