//! Extraction of struct shapes and initialized values from a C syntax tree.
//!
//! The walk over the tree is driven from outside: each node that matters is
//! handed to a [`MyVisitor`] as a [`TraversalEvent`], and the visitor keeps a
//! catalog of struct types and a catalog of declared values.
use vstd::prelude::*;

pub mod expr;
pub mod init;
pub mod visitor;

pub use expr::{CConstant, CExpression, MyExpression, quoted_payload, transform};
pub use init::{CInitializer, fill};
pub use visitor::{ExtractError, MyStruct, MyStructType, MyValue, MyVisitor, TraversalEvent, ValueKey};

verus! {

} // verus!
