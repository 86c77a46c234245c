//! The ways in which decoding a column fails.

use crate::datatypes::{DataType, DataTypeView};
use crate::page::ParquetPhysicalType;
use vstd::prelude::*;

verus! {

/// A combination of logical type and physical representation for which no
/// decoder exists.
#[derive(Debug, PartialEq, Eq)]
pub enum Unsupported {
    /// An unsigned 32-bit column stored under this physical type.
    UInt32From(ParquetPhysicalType),
    /// A decimal column stored under this physical type.
    DecimalFrom(ParquetPhysicalType),
    /// A logical type without a nested decoder.
    Type(DataType),
    /// A dictionary whose values are of this logical type.
    DictionaryOf(DataType),
}

/// A schema that the data cannot be decoded under.
#[derive(Clone, Copy, Debug, PartialEq, Eq, Structural)]
pub enum Invalid {
    /// A 128-bit decimal stored in byte strings of this length.
    Decimal128Width(usize),
    /// A 256-bit decimal stored in byte strings of this length.
    Decimal256Width(usize),
    /// The column holds values of another physical type than the decoder
    /// of the field reads.
    PhysicalValues,
    /// The children of a struct do not line up chunk by chunk and row by
    /// row.
    StructChildren,
    /// The items of a fixed-size list do not fill its rows exactly.
    FixedSizeListItems,
    /// A list has more items than 32-bit offsets can address.
    ListOffsets,
    /// A dictionary key that lies outside the dictionary or the key type.
    DictionaryKey,
    /// A map whose entries are not structs of a key and a value.
    MapEntries,
}

/// Why a column could not be decoded.
#[derive(Debug, PartialEq, Eq)]
pub enum Error {
    NotYetImplemented(Unsupported),
    InvalidArgumentError(Invalid),
}

/// The mathematical value of [`Unsupported`].
pub enum UnsupportedView {
    UInt32From(ParquetPhysicalType),
    DecimalFrom(ParquetPhysicalType),
    Type(DataTypeView),
    DictionaryOf(DataTypeView),
}

/// The mathematical value of [`Error`].
pub enum ErrorView {
    NotYetImplemented(UnsupportedView),
    InvalidArgumentError(Invalid),
}

impl View for Unsupported {
    type V = UnsupportedView;

    open spec fn view(&self) -> UnsupportedView {
        match self {
            Unsupported::UInt32From(t) => UnsupportedView::UInt32From(*t),
            Unsupported::DecimalFrom(t) => UnsupportedView::DecimalFrom(*t),
            Unsupported::Type(t) => UnsupportedView::Type(t@),
            Unsupported::DictionaryOf(t) => UnsupportedView::DictionaryOf(t@),
        }
    }
}

impl View for Error {
    type V = ErrorView;

    open spec fn view(&self) -> ErrorView {
        match self {
            Error::NotYetImplemented(u) => ErrorView::NotYetImplemented(u@),
            Error::InvalidArgumentError(i) => ErrorView::InvalidArgumentError(*i),
        }
    }
}

impl Error {
    /// Whether this is an error of the not-yet-implemented class.
    pub fn is_not_yet_implemented(&self) -> (res: bool)
        ensures
            res == (self@ is NotYetImplemented),
    {
        match self {
            Error::NotYetImplemented(_) => true,
            Error::InvalidArgumentError(_) => false,
        }
    }

    /// Whether this is an error of the invalid-argument class.
    pub fn is_invalid_argument(&self) -> (res: bool)
        ensures
            res == (self@ is InvalidArgumentError),
    {
        match self {
            Error::NotYetImplemented(_) => false,
            Error::InvalidArgumentError(_) => true,
        }
    }
}

} // verus!
