//! Question-bank core: documents, grading, spaced-repetition bookkeeping,
//! content-addressed assets and the sync merge, over an SQLite store.
use vstd::prelude::*;

pub mod assets;
pub mod backup;
pub mod banks;
pub mod blobs;
pub mod clock;
pub mod db;
pub mod doc;
pub mod ids;
pub mod json;
pub mod merge;
pub mod plan;
pub mod practice;
pub mod questions;
pub mod schema;
pub mod settings;
pub mod sync;
pub mod text;

verus! {

} // verus!
