//! A declarative command-tree engine: build a tree of literal and typed
//! argument nodes, match whitespace-separated input against it, bind the
//! parsed arguments, run the handler that the matched path ends on, and
//! describe the tree for client-side completion.

pub mod text;
pub mod json;
pub mod context;
pub mod tree;
pub mod execute;
pub mod packet;
pub mod dsl;
pub mod listing;
