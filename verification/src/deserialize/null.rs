//! The leaf decoder of columns whose every value is null.

use crate::array::{ArrayView, NullArray};
use crate::datatypes::{DataType, DataTypeView};
use crate::nested_utils::{
    chunk_matches, chunks, counted_levels, decode_levels, first_levels, leaf_slots, state_of,
    InitNested, LeafChunk, NestedState, NestedView,
};
use crate::page::{Level, Pages};
use vstd::prelude::*;

verus! {

/// The chunks that the decoder of null columns yields: for each chunk of
/// rows the state of every level of nesting, and an array with one null for
/// every item of the leaf.
pub open spec fn null_chunks(
    init: Seq<InitNested>,
    levels: Seq<Level>,
    data_type: DataTypeView,
    num_rows: nat,
    chunk_size: Option<usize>,
    num_values: nat,
) -> Seq<(Seq<NestedView>, ArrayView)> {
    let es = counted_levels(levels, num_values);
    let bounds = chunks(es, num_rows, chunk_size);
    Seq::new(
        bounds.len(),
        |k: int|
            (
                state_of(init, es.subrange(bounds[k].0, bounds[k].1)),
                ArrayView::Null {
                    data_type,
                    length: leaf_slots(init, es.subrange(bounds[k].0, bounds[k].1)).len(),
                },
            ),
    )
}

/// Decodes a leaf column of nulls into chunks of rows. The values of the
/// column are not read.
pub fn nested_iter(
    pages: Pages,
    init: Vec<InitNested>,
    data_type: DataType,
    num_rows: usize,
    chunk_size: Option<usize>,
    num_values: usize,
    is_parent_nullable: bool,
) -> (res: Vec<(NestedState, NullArray)>)
    requires
        chunk_size != Some(0usize),
    ensures
        res.len() == null_chunks(
            init@,
            pages@.levels,
            data_type@,
            num_rows as nat,
            chunk_size,
            num_values as nat,
        ).len(),
        forall|k: int|
            0 <= k < res.len() ==> ((#[trigger] res[k]).0@, res[k].1@) == null_chunks(
                init@,
                pages@.levels,
                data_type@,
                num_rows as nat,
                chunk_size,
                num_values as nat,
            )[k],
{
    let levels = first_levels(&pages.levels, num_values);
    let ghost es = levels@;
    let decoded = decode_levels(&levels, &init, num_rows, chunk_size);
    let ghost bounds = chunks(es, num_rows as nat, chunk_size);
    let ghost all = decoded@;
    let mut items: Vec<(NestedState, NullArray)> = Vec::new();
    for chunk in it: decoded
        invariant
            it.seq() == all,
            all.len() == bounds.len(),
            forall|k: int|
                0 <= k < all.len() ==> chunk_matches(
                    #[trigger] all[k],
                    init@,
                    es,
                    bounds[k].0,
                    bounds[k].1,
                ),
            items.len() == it.index(),
            forall|k: int|
                0 <= k < items.len() ==> (#[trigger] items[k]).0@ == state_of(
                    init@,
                    es.subrange(bounds[k].0, bounds[k].1),
                ) && items[k].1@ == (ArrayView::Null {
                    data_type: data_type@,
                    length: leaf_slots(init@, es.subrange(bounds[k].0, bounds[k].1)).len(),
                }),
    {
        let ghost k = it.index() as int;
        assert(chunk_matches(all[k], init@, es, bounds[k].0, bounds[k].1));
        let LeafChunk { nested, slots, first_value } = chunk;
        items.push((nested, NullArray { data_type: data_type.clone(), length: slots.len() }));
    }
    items
}


/// The chunks of a null column: every state has one level for each level of
/// the nesting context, and the levels above the leaf fit one another and
/// the array.
pub proof fn lemma_null_chunks(
    init: Seq<InitNested>,
    levels: Seq<Level>,
    data_type: DataTypeView,
    num_rows: nat,
    chunk_size: Option<usize>,
    num_values: nat,
    k: int,
)
    requires
        init.len() > 0,
        levels.len() <= usize::MAX,
        0 <= k < null_chunks(init, levels, data_type, num_rows, chunk_size, num_values).len(),
    ensures
        ({
            let c = null_chunks(init, levels, data_type, num_rows, chunk_size, num_values)[k];
            &&& c.0.len() == init.len()
            &&& forall|j: int| 0 <= j < init.len() ==> (#[trigger] c.0[j]).init == init[j]
            &&& crate::nested_utils::aligned(c.0.drop_last(), c.1.len())
            &&& c.1.wf()
            &&& c.1.offsets_cover()
        }),
{
    let es = counted_levels(levels, num_values);
    let bounds = chunks(es, num_rows, chunk_size);
    let chunk = es.subrange(bounds[k].0, bounds[k].1);
    crate::nested_utils::lemma_chunks_bounds(es, num_rows, chunk_size, k);
    crate::nested_utils::lemma_state_aligned(init, chunk, init.len() - 1);
    crate::nested_utils::lemma_level_len_bound(init, chunk, init.len() - 1);
    assert(state_of(init, chunk).drop_last() =~= state_of(init, chunk).subrange(
        0,
        init.len() - 1,
    ));
}

} // verus!
