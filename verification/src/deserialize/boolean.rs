//! The leaf decoder of booleans.

use crate::array::DataArray;
use crate::datatypes::{DataType, DataTypeView};
use crate::error::Error;
use crate::nested_utils::{decode_leaf, leaf_result, result_matches, InitNested, NestedState, ValueCast};
use crate::page::{PageValues, PageValuesView, Pages, PagesView};
use vstd::prelude::*;

verus! {

/// A boolean as it is.
pub struct Bit;

impl ValueCast for Bit {
    type From = bool;

    type To = bool;

    open spec fn select(pages: PagesView) -> Option<Seq<bool>> {
        match pages.values {
            PageValuesView::Boolean(v) => Some(v),
            _ => None,
        }
    }

    fn values(pages: &Pages) -> (res: Option<&Vec<bool>>) {
        match &pages.values {
            PageValues::Boolean(v) => {
                assert(v.deep_view() =~= v@);
                Some(v)
            },
            _ => None,
        }
    }

    open spec fn cast_spec(x: bool) -> bool {
        x
    }

    fn cast(x: &bool) -> (res: bool) {
        *x
    }
}

/// Decodes a leaf column of booleans into chunks of rows.
pub fn nested_iter(
    pages: Pages,
    init: Vec<InitNested>,
    num_rows: usize,
    chunk_size: Option<usize>,
    num_values: usize,
    is_parent_nullable: bool,
) -> (res: Result<Vec<(NestedState, DataArray<bool>)>, Error>)
    requires
        chunk_size != Some(0usize),
    ensures
        result_matches(
            res,
            leaf_result::<Bit>(
                pages@,
                init@,
                DataTypeView::Boolean,
                num_rows as nat,
                chunk_size,
                num_values as nat,
                is_parent_nullable,
            ),
        ),
{
    decode_leaf::<Bit>(
        &pages,
        &init,
        &DataType::Boolean,
        num_rows,
        chunk_size,
        num_values,
        is_parent_nullable,
    )
}

} // verus!
