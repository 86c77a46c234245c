//! The decoders: one for each kind of leaf, and the walk over the schema
//! that drives them and puts nested arrays together.

pub mod binary;
pub mod boolean;
pub mod decimal;
pub mod dictionary;
pub mod fixed_size_binary;
pub mod guarantees;
pub mod nested;
pub mod nesting;
pub mod null;
pub mod primitive;
pub mod struct_;
