//! Operations on decoded arrays.

pub mod get;
