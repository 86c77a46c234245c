//! The leaf decoder of byte strings of one fixed length.

use crate::array::{
    copy_bytes, lemma_bytes_deep_view, ArrayView, DataArray, FixedSizeBinaryArray,
};
use crate::datatypes::{DataType, DataTypeView};
use crate::error::{Error, ErrorView, Invalid};
use crate::nested_utils::{
    cast_values, chunks_view, decode_leaf, leaf_chunks, leaf_result, lemma_leaf_chunks,
    result_matches, slot_values, InitNested, NestedState, NestedView, ValueCast,
};
use crate::page::{PageValues, PageValuesView, Pages, PagesView};
use vstd::prelude::*;

verus! {

/// A byte string of a fixed-length column as it is.
pub struct FixedBytes;

impl ValueCast for FixedBytes {
    type From = Vec<u8>;

    type To = Vec<u8>;

    open spec fn select(pages: PagesView) -> Option<Seq<Seq<u8>>> {
        match pages.values {
            PageValuesView::FixedLenByteArray(v) => Some(v),
            _ => None,
        }
    }

    fn values(pages: &Pages) -> (res: Option<&Vec<Vec<u8>>>) {
        match &pages.values {
            PageValues::FixedLenByteArray(v) => Some(v),
            _ => None,
        }
    }

    open spec fn cast_spec(x: Seq<u8>) -> Seq<u8> {
        x
    }

    fn cast(x: &Vec<u8>) -> (res: Vec<u8>) {
        let res = copy_bytes(x);
        assert(res.deep_view() =~= x.deep_view());
        res
    }
}

/// A byte string of `n` zero bytes.
pub open spec fn zeros(n: nat) -> Seq<u8> {
    Seq::new(n, |i: int| 0u8)
}

/// The values of a column of byte strings of length `size`, or none where
/// the column holds anything else.
pub open spec fn fixed_values(pages: PagesView, size: usize) -> Option<Seq<Seq<u8>>> {
    match pages.values {
        PageValuesView::FixedLenByteArray(v) => if forall|i: int|
            0 <= i < v.len() ==> (#[trigger] v[i]).len() == size {
            Some(v)
        } else {
            None
        },
        _ => None,
    }
}

/// What the decoder yields for a column: for each chunk of rows the state of
/// every level of nesting and the array of the byte strings, a null slot
/// holding zero bytes.
pub open spec fn fixed_result(
    pages: PagesView,
    init: Seq<InitNested>,
    size: usize,
    data_type: DataTypeView,
    num_rows: nat,
    chunk_size: Option<usize>,
    num_values: nat,
    is_parent_nullable: bool,
) -> Result<Seq<(Seq<NestedView>, ArrayView)>, ErrorView> {
    match fixed_values(pages, size) {
        Some(values) => {
            let items = leaf_chunks(
                init,
                pages.levels,
                values,
                zeros(size as nat),
                data_type,
                num_rows,
                chunk_size,
                num_values,
                is_parent_nullable,
            );
            Ok(
                Seq::new(
                    items.len(),
                    |k: int|
                        (
                            items[k].0,
                            ArrayView::FixedSizeBinary {
                                data_type,
                                size,
                                values: items[k].1.values,
                                validity: items[k].1.validity,
                            },
                        ),
                ),
            )
        },
        None => Err(ErrorView::InvalidArgumentError(Invalid::PhysicalValues)),
    }
}

/// Whether every byte string has the length `size`.
fn all_of_size(values: &Vec<Vec<u8>>, size: usize) -> (res: bool)
    ensures
        res == (forall|i: int|
            0 <= i < values.len() ==> (#[trigger] values.deep_view()[i]).len() == size),
{
    let mut i: usize = 0;
    while i < values.len()
        invariant
            i <= values.len(),
            forall|j: int| 0 <= j < i ==> (#[trigger] values.deep_view()[j]).len() == size,
        decreases values.len() - i,
    {
        if values[i].len() != size {
            assert(values.deep_view()[i as int].len() != size);
            return false;
        }
        i += 1;
    }
    true
}

/// A byte string of `size` zero bytes.
fn make_zeros(size: usize) -> (res: Vec<u8>)
    ensures
        res@ == zeros(size as nat),
{
    let mut res: Vec<u8> = Vec::new();
    let mut i: usize = 0;
    while i < size
        invariant
            i <= size,
            res@ == zeros(i as nat),
        decreases size - i,
    {
        res.push(0);
        i += 1;
        assert(res@ =~= zeros(i as nat));
    }
    res
}

/// The byte string, or zero bytes where it has not the length `size`.
pub open spec fn padded(value: Seq<u8>, size: usize) -> Seq<u8> {
    if value.len() == size {
        value
    } else {
        zeros(size as nat)
    }
}

/// Replaces every byte string that has not the length `size` by zero bytes.
fn pad(values: Vec<Vec<u8>>, size: usize) -> (res: Vec<Vec<u8>>)
    ensures
        res.deep_view() == Seq::new(
            values.len() as nat,
            |i: int| padded(values.deep_view()[i], size),
        ),
{
    broadcast use lemma_bytes_deep_view;

    let ghost all = values@;
    let ghost views = values.deep_view();
    let mut res: Vec<Vec<u8>> = Vec::new();
    for value in it: values
        invariant
            it.seq() == all,
            views.len() == all.len(),
            forall|j: int| 0 <= j < all.len() ==> #[trigger] views[j] == all[j]@,
            res.len() == it.index(),
            forall|j: int| 0 <= j < res.len() ==> (#[trigger] res[j])@ == padded(views[j], size),
    {
        if value.len() == size {
            res.push(value);
        } else {
            res.push(make_zeros(size));
        }
    }
    assert(res.deep_view() =~= Seq::new(views.len(), |i: int| padded(views[i], size)));
    res
}

/// Padding the slots that hold no value gives them zero bytes.
pub proof fn lemma_padded_slots(slots: Seq<bool>, values: Seq<Seq<u8>>, first: nat, size: usize)
    requires
        forall|i: int| 0 <= i < values.len() ==> (#[trigger] values[i]).len() == size,
    ensures
        Seq::new(
            slots.len(),
            |i: int| padded(slot_values(slots, values, first, Seq::<u8>::empty())[i], size),
        ) == slot_values(slots, values, first, zeros(size as nat)),
{
    assert(zeros(0) =~= Seq::<u8>::empty());
    assert(Seq::new(
        slots.len(),
        |i: int| padded(slot_values(slots, values, first, Seq::<u8>::empty())[i], size),
    ) =~= slot_values(slots, values, first, zeros(size as nat)));
}

/// Decodes a leaf column of byte strings of one length into chunks of rows.
/// The length is that of `data_type`. Fails where the column holds anything
/// but byte strings of that length.
#[verifier::rlimit(30)]
pub fn nested_iter(
    pages: Pages,
    init: Vec<InitNested>,
    data_type: DataType,
    num_rows: usize,
    chunk_size: Option<usize>,
    num_values: usize,
    is_parent_nullable: bool,
) -> (res: Result<Vec<(NestedState, FixedSizeBinaryArray)>, Error>)
    requires
        chunk_size != Some(0usize),
        data_type@.to_logical_type() is FixedSizeBinary,
    ensures
        result_matches(
            res,
            fixed_result(
                pages@,
                init@,
                data_type@.to_logical_type()->FixedSizeBinary_0,
                data_type@,
                num_rows as nat,
                chunk_size,
                num_values as nat,
                is_parent_nullable,
            ),
        ),
{
    let size: usize = match data_type.to_logical_type() {
        DataType::FixedSizeBinary(n) => *n,
        _ => 0,
    };
    let source = match FixedBytes::values(&pages) {
        Some(v) => v,
        None => {
            return Err(Error::InvalidArgumentError(Invalid::PhysicalValues));
        },
    };
    if !all_of_size(source, size) {
        return Err(Error::InvalidArgumentError(Invalid::PhysicalValues));
    }
    let ghost page_values = source.deep_view();
    assert(fixed_values(pages@, size) == Some(page_values));
    let decoded = match decode_leaf::<FixedBytes>(
        &pages,
        &init,
        &data_type,
        num_rows,
        chunk_size,
        num_values,
        is_parent_nullable,
    ) {
        Ok(items) => items,
        Err(e) => {
            return Err(e);
        },
    };
    let ghost plain = leaf_chunks(
        init@,
        pages@.levels,
        page_values,
        Seq::<u8>::empty(),
        data_type@,
        num_rows as nat,
        chunk_size,
        num_values as nat,
        is_parent_nullable,
    );
    let ghost filled = leaf_chunks(
        init@,
        pages@.levels,
        page_values,
        zeros(size as nat),
        data_type@,
        num_rows as nat,
        chunk_size,
        num_values as nat,
        is_parent_nullable,
    );
    proof {
        assert(cast_values::<FixedBytes>(page_values) =~= page_values);
        assert(chunks_view(decoded@) == plain);
    }
    let ghost all = decoded@;
    let mut res: Vec<(NestedState, FixedSizeBinaryArray)> = Vec::new();
    for item in it: decoded
        invariant
            it.seq() == all,
            chunks_view(all) == plain,
            plain.len() == filled.len(),
            forall|i: int| 0 <= i < page_values.len() ==> (#[trigger] page_values[i]).len() == size,
            plain == leaf_chunks(
                init@,
                pages@.levels,
                page_values,
                Seq::<u8>::empty(),
                data_type@,
                num_rows as nat,
                chunk_size,
                num_values as nat,
                is_parent_nullable,
            ),
            filled == leaf_chunks(
                init@,
                pages@.levels,
                page_values,
                zeros(size as nat),
                data_type@,
                num_rows as nat,
                chunk_size,
                num_values as nat,
                is_parent_nullable,
            ),
            res.len() == it.index(),
            forall|k: int|
                0 <= k < res.len() ==> (#[trigger] res[k]).0@ == filled[k].0 && res[k].1@
                    == (ArrayView::FixedSizeBinary {
                    data_type: data_type@,
                    size,
                    values: filled[k].1.values,
                    validity: filled[k].1.validity,
                }),
    {
        let ghost k = it.index() as int;
        assert(chunks_view(all)[k] == (all[k].0@, all[k].1@));
        let (nested, array) = item;
        let DataArray { data_type: array_type, values: raw, validity } = array;
        let values = pad(raw, size);
        proof {
            let es = crate::nested_utils::counted_levels(pages@.levels, num_values as nat);
            let bounds = crate::nested_utils::chunks(es, num_rows as nat, chunk_size);
            let slots = crate::nested_utils::leaf_slots(
                init@,
                es.subrange(bounds[k].0, bounds[k].1),
            );
            let first = crate::nested_utils::present_count(init@, es.subrange(0, bounds[k].0));
            crate::nested_utils::lemma_chunks_bounds(es, num_rows as nat, chunk_size, k);
            lemma_padded_slots(slots, page_values, first, size);
            assert(plain[k].1.values.len() == slots.len());
            assert(values.deep_view() =~= filled[k].1.values);
        }
        res.push((nested, FixedSizeBinaryArray { data_type: array_type, size, values, validity }));
    }
    proof {
        let expected = fixed_result(
            pages@,
            init@,
            size,
            data_type@,
            num_rows as nat,
            chunk_size,
            num_values as nat,
            is_parent_nullable,
        );
        assert(chunks_view(res@) =~= expected->Ok_0);
    }
    Ok(res)
}

/// The arrays of the decoder are well-formed: every value has the length of
/// the type, and the levels above the leaf fit one another and the array.
pub proof fn lemma_fixed_result(
    pages: PagesView,
    init: Seq<InitNested>,
    size: usize,
    data_type: DataTypeView,
    num_rows: nat,
    chunk_size: Option<usize>,
    num_values: nat,
    is_parent_nullable: bool,
    k: int,
)
    requires
        init.len() > 0,
        pages.levels.len() <= usize::MAX,
        fixed_result(
            pages,
            init,
            size,
            data_type,
            num_rows,
            chunk_size,
            num_values,
            is_parent_nullable,
        ) matches Ok(items) && 0 <= k < items.len(),
    ensures
        ({
            let c = fixed_result(
                pages,
                init,
                size,
                data_type,
                num_rows,
                chunk_size,
                num_values,
                is_parent_nullable,
            )->Ok_0[k];
            &&& c.0.len() == init.len()
            &&& forall|j: int| 0 <= j < init.len() ==> (#[trigger] c.0[j]).init == init[j]
            &&& crate::nested_utils::aligned(c.0.drop_last(), c.1.len())
            &&& c.1.wf()
            &&& c.1 matches ArrayView::FixedSizeBinary { size: s, .. } && s == size
        }),
{
    let values = fixed_values(pages, size)->Some_0;
    lemma_leaf_chunks(
        init,
        pages.levels,
        values,
        zeros(size as nat),
        data_type,
        num_rows,
        chunk_size,
        num_values,
        is_parent_nullable,
        k,
    );
}

} // verus!
