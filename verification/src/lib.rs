//! Path-based access into a tree-shaped configuration document.
//!
//! A dotted path such as `fruit.blah.[0].physical.color` is split into
//! accessors, and a resolver walks the document along them to read a node,
//! to hand out a writable slot, or to create the tables that are missing on
//! the way.
pub mod text;
pub mod error;
pub mod value;
pub mod tokenizer;
pub mod resolver;
pub mod read;
pub mod query;
pub mod util;
pub mod partial;
