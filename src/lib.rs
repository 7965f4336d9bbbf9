//! Project-root resolution and fuzzy path search over a project tree.

pub mod collect;
pub mod context;
pub mod ignore;
pub mod query;
pub mod rank;
pub mod resolve;
pub mod search;
pub mod text;
pub mod tools;
pub mod types;
