//! Schema-aware administration layer for a relational database server:
//! classifies raw SQL text, resolves inter-relation dependencies into a safe
//! creation/destruction order, and plans atomic snapshot-and-rollback of a
//! database's schema and data.

pub mod cmd_stack;
pub mod executor;
pub mod input;
pub mod menu;
pub mod paths;
pub mod query;
pub mod query_page;
pub mod relation;
pub mod snapshot;
pub mod sql;
pub mod text;

use vstd::prelude::*;

verus! {

} // verus!
