//! A chunked, columnar, in-memory storage engine built on Apache Arrow.
use vstd::prelude::*;

pub mod arrow_store;
pub mod byte_chunk;
pub mod chunk;
pub mod column;
pub mod mvcc;
pub mod row_state;
pub mod schema;
pub mod table;
pub mod units;
pub mod vector;
