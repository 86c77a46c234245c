//! The leaf decoder of byte strings and text.

use crate::array::{copy_bytes, Array, ArrayView};
use crate::datatypes::{DataType, DataTypeView};
use crate::error::{Error, ErrorView};
use crate::nested_utils::{
    chunks_view, decode_leaf, leaf_result, result_matches, InitNested, NestedState, NestedView,
    ValueCast,
};
use crate::page::{PageValues, PageValuesView, Pages, PagesView};
use vstd::prelude::*;

verus! {

/// A byte string as it is.
pub struct Bytes;

impl ValueCast for Bytes {
    type From = Vec<u8>;

    type To = Vec<u8>;

    open spec fn select(pages: PagesView) -> Option<Seq<Seq<u8>>> {
        match pages.values {
            PageValuesView::ByteArray(v) => Some(v),
            _ => None,
        }
    }

    fn values(pages: &Pages) -> (res: Option<&Vec<Vec<u8>>>) {
        match &pages.values {
            PageValues::ByteArray(v) => Some(v),
            _ => None,
        }
    }

    open spec fn cast_spec(x: Seq<u8>) -> Seq<u8> {
        x
    }

    fn cast(x: &Vec<u8>) -> (res: Vec<u8>) {
        let res = copy_bytes(x);
        assert(res.deep_view() =~= x.deep_view());
        res
    }
}

/// What the decoder yields for a column: the chunks of its byte strings.
pub open spec fn binary_result(
    pages: PagesView,
    init: Seq<InitNested>,
    data_type: DataTypeView,
    num_rows: nat,
    chunk_size: Option<usize>,
    num_values: nat,
    is_parent_nullable: bool,
) -> Result<Seq<(Seq<NestedView>, ArrayView)>, ErrorView> {
    match leaf_result::<Bytes>(
        pages,
        init,
        data_type,
        num_rows,
        chunk_size,
        num_values,
        is_parent_nullable,
    ) {
        Ok(items) => Ok(Seq::new(items.len(), |k: int| (items[k].0, ArrayView::Binary(items[k].1)))),
        Err(e) => Err(e),
    }
}

/// Decodes a leaf column of byte strings into chunks of rows. The width of
/// the offsets, 32 or 64 bits, is that of `data_type`.
pub fn nested_iter(
    pages: Pages,
    init: Vec<InitNested>,
    data_type: DataType,
    num_rows: usize,
    chunk_size: Option<usize>,
    num_values: usize,
    is_parent_nullable: bool,
) -> (res: Result<Vec<(NestedState, Array)>, Error>)
    requires
        chunk_size != Some(0usize),
    ensures
        result_matches(
            res,
            binary_result(
                pages@,
                init@,
                data_type@,
                num_rows as nat,
                chunk_size,
                num_values as nat,
                is_parent_nullable,
            ),
        ),
{
    let decoded = match decode_leaf::<Bytes>(
        &pages,
        &init,
        &data_type,
        num_rows,
        chunk_size,
        num_values,
        is_parent_nullable,
    ) {
        Ok(items) => items,
        Err(e) => {
            return Err(e);
        },
    };
    let ghost all = decoded@;
    let mut res: Vec<(NestedState, Array)> = Vec::new();
    for item in it: decoded
        invariant
            it.seq() == all,
            res.len() == it.index(),
            forall|k: int|
                0 <= k < res.len() ==> (#[trigger] res[k]).0@ == all[k].0@ && res[k].1@
                    == ArrayView::Binary(all[k].1@),
    {
        let (nested, array) = item;
        res.push((nested, Array::Binary(array)));
    }
    proof {
        let expected = binary_result(
            pages@,
            init@,
            data_type@,
            num_rows as nat,
            chunk_size,
            num_values as nat,
            is_parent_nullable,
        );
        assert(chunks_view(res@) =~= expected->Ok_0);
    }
    Ok(res)
}

} // verus!
