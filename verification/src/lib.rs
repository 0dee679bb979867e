//! Momotaro's verified core: source keys, Markdown chunking, hashing, query
//! text, terminal rendering and the decisions the workspace commands make.

use vstd::prelude::*;

pub mod contracts;
pub mod ingest;
pub mod retrieve;
pub mod run;
pub mod store;
pub mod text;

verus! {
} // verus!
