//! Decoding of nested columnar data: a logical schema tree is matched against
//! a flattened sequence of leaf columns, every leaf is decoded under its
//! physical representation, and the nested arrays are put back together from
//! the definition and repetition levels of the leaves.
//!
//! Beside the decoder stand the arrays that it yields, with the reading of
//! single elements, and the decisions of what hands work to the decoder: a
//! source of scan tasks, a collect node, the argument checks of the
//! host-language bindings, and the column names of table statistics.

pub mod array;
pub mod collect;
pub mod convert;
pub mod datatypes;
pub mod deserialize;
pub mod error;
pub mod nested_utils;
pub mod ops;
pub mod page;
pub mod python;
pub mod scan_task;
pub mod table_stats;
