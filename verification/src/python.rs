//! The checks that the host-language bindings make on their arguments
//! before they hand them to a record batch.

use vstd::prelude::*;

verus! {

/// A count that the host language gave as a signed integer: none where it
/// is negative.
pub fn non_negative(value: i64) -> (res: Option<usize>)
    ensures
        res == (if value < 0 {
            None
        } else {
            Some(value as usize)
        }),
{
    if value < 0 {
        None
    } else {
        Some(#[verifier::truncate] (value as usize))
    }
}

/// Why the bounds of a slice are refused.
#[derive(Clone, Copy, Debug, PartialEq, Eq, Structural)]
pub enum SliceError {
    /// The start is negative.
    NegativeStart(i64),
    /// The end is negative; the start is what the message names.
    NegativeEnd(i64),
    /// The start lies after the end.
    NegativeLength(i64, i64),
}

/// The bounds of a slice: neither may be negative, and the start may not
/// lie after the end.
pub fn slice_bounds(start: i64, end: i64) -> (res: Result<(usize, usize), SliceError>)
    ensures
        res == (if start < 0 {
            Err::<(usize, usize), SliceError>(SliceError::NegativeStart(start))
        } else if end < 0 {
            Err(SliceError::NegativeEnd(start))
        } else if start > end {
            Err(SliceError::NegativeLength(start, end))
        } else {
            Ok((start as usize, end as usize))
        }),
{
    if start < 0 {
        return Err(SliceError::NegativeStart(start));
    }
    if end < 0 {
        return Err(SliceError::NegativeEnd(start));
    }
    if start > end {
        return Err(SliceError::NegativeLength(start, end));
    }
    Ok((#[verifier::truncate] (start as usize), #[verifier::truncate] (end as usize)))
}

/// Why the index of a column is refused.
#[derive(Clone, Copy, Debug, PartialEq, Eq, Structural)]
pub enum IndexError {
    /// The index is negative.
    Negative(i64),
    /// The index is not below the length of the record batch.
    OutOfBounds(usize, usize),
}

/// The index of a column: it may not be negative and must lie below `len`.
pub fn column_index(idx: i64, len: usize) -> (res: Result<usize, IndexError>)
    ensures
        res == (if idx < 0 {
            Err::<usize, IndexError>(IndexError::Negative(idx))
        } else if idx as usize >= len {
            Err(IndexError::OutOfBounds(idx as usize, len))
        } else {
            Ok(idx as usize)
        }),
{
    if idx < 0 {
        return Err(IndexError::Negative(idx));
    }
    let idx: usize = #[verifier::truncate] (idx as usize);
    if idx >= len {
        return Err(IndexError::OutOfBounds(idx, len));
    }
    Ok(idx)
}

/// Whether series `i` is the first whose length differs from that of the
/// first series.
pub open spec fn is_first_mismatch(lengths: Seq<usize>, i: int) -> bool {
    &&& 0 < i < lengths.len()
    &&& lengths[i] != lengths[0]
    &&& forall|j: int| 0 < j < i ==> #[trigger] lengths[j] == lengths[0]
}

/// The number of rows of a record batch made of series of the given
/// lengths: that of the first series, or zero without any. The series must
/// all have that length: the error is the first length that differs, with
/// the length of the first series.
pub fn series_rows(lengths: &Vec<usize>) -> (res: Result<usize, (usize, usize)>)
    ensures
        match res {
            Ok(rows) => {
                &&& forall|i: int| 0 <= i < lengths.len() ==> #[trigger] lengths[i] == rows
                &&& lengths.len() == 0 ==> rows == 0
            },
            Err((found, first)) => exists|i: int|
                #[trigger] is_first_mismatch(lengths@, i) && lengths[i] == found && lengths[0]
                    == first,
        },
{
    if lengths.len() == 0 {
        return Ok(0);
    }
    let first = lengths[0];
    let mut i: usize = 1;
    while i < lengths.len()
        invariant
            1 <= i <= lengths.len(),
            first == lengths[0],
            forall|j: int| 0 < j < i ==> #[trigger] lengths[j] == first,
        decreases lengths.len() - i,
    {
        if lengths[i] != first {
            assert(is_first_mismatch(lengths@, i as int));
            return Err((lengths[i], first));
        }
        i += 1;
    }
    Ok(first)
}

} // verus!
