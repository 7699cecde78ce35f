//! Type-level lists of column types: the schema a table is built with.
use std::marker::PhantomData;
use vstd::prelude::*;

use crate::chunk::AppendableType;

verus! {

/// A type-level list of column types.
pub trait SchemaList {}

/// The empty schema.
pub struct Empty;

/// The schema `Tail` with one more column, of type `Head`.
pub struct Node<Head: AppendableType, Tail: SchemaList>(PhantomData<(Head, Tail)>);

impl SchemaList for Empty {}

impl<Head: AppendableType, Tail: SchemaList> SchemaList for Node<Head, Tail> {}

} // verus!
