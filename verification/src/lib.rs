use vstd::prelude::*;

pub mod ast;
pub mod config;
pub mod env_replacer;
pub mod inject;
pub mod parser;
pub mod printer;
pub mod resolver;
pub mod module_graph;
pub mod pg;

verus! {

/// The scope tag reserved for identifiers not bound by any enclosing
/// declaration.
pub const FREE_TAG: u32 = 0;

} // verus!
