//! Projects a filtered view of a document tree into a destination tree and
//! renders the navigation outline that links every retained document.

pub mod builder;
pub mod config_parser;
pub mod filters;
pub mod outline;
pub mod overview;
pub mod paths;
pub mod replicate;
pub mod requests;
pub mod structures;
pub mod text;
pub mod tree_invariants;
