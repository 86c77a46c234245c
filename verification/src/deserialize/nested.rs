//! The walk over the schema: every node of the logical type is matched
//! against the flattened leaf columns, leaves are decoded by the decoder of
//! their physical representation, and lists, maps and structs are put back
//! together from the decoded children.

use crate::array::{
    Array, ArrayView, DataArrayView, FixedSizeListArray, IntoArray, ListArray, MapArray, NativeType,
};
use crate::datatypes::{
    lemma_fields_depth, lemma_fields_n_columns_step, lemma_fields_view, lemma_logical_type,
    n_columns, DataType, DataTypeView, Field, FieldView, IntegerType, IntervalUnit, PhysicalType,
    PrimitiveType, fields_view,
};
use crate::deserialize::binary::{binary_result, Bytes};
use crate::deserialize::boolean::Bit;
use crate::deserialize::decimal::{
    decimal_array, to_decimal, BytesCast, BytesToInt128, BytesToInt256, BytesToInt256Narrow,
};
use crate::deserialize::dictionary::{
    dictionary_fixed_values, dictionary_result, dictionary_values, lemma_dictionary_result,
    nested_dict_iter, read_dict, read_fixed_dict, DictionaryKey, Int16Key, Int32Key, Int64Key,
    Int8Key, UInt16Key, UInt32Key, UInt64Key, UInt8Key,
};
use crate::deserialize::fixed_size_binary::{fixed_result, fixed_values, lemma_fixed_result, FixedBytes};
use crate::deserialize::null::{lemma_null_chunks, null_chunks};
use crate::deserialize::primitive::{
    Float32ToFloat32, Float64ToFloat64, Int32ToInt128, Int32ToInt16, Int32ToInt256, Int32ToInt32,
    Int32ToInt8, Int32ToUInt16, Int32ToUInt32, Int32ToUInt8, Int64ToInt128, Int64ToInt256,
    Int64ToInt32, Int64ToInt64, Int64ToUInt32, Int64ToUInt64,
};
use crate::deserialize::struct_::{lemma_struct_of, row_arrays, struct_chunk, struct_chunks, struct_iter, columns_view};
use crate::error::{Error, ErrorView, Invalid, Unsupported, UnsupportedView};
use crate::nested_utils::{
    aligned, cast_values, chunks_view, finish_validity, leaf_result, lemma_leaf_chunks, level_fits,
    result_matches, InitNested, NestedState, NestedView, ValueCast,
};
use crate::page::{pages_view, Pages, PagesView, ParquetPhysicalType, ParquetType};
use vstd::prelude::*;

verus! {

/// Takes the level of the leaf off every state.
pub fn remove_nested(iter: Vec<(NestedState, Array)>) -> (res: Vec<(NestedState, Array)>)
    requires
        forall|k: int| 0 <= k < iter.len() ==> (#[trigger] iter[k]).0@.len() > 0,
    ensures
        res.len() == iter.len(),
        forall|k: int|
            0 <= k < res.len() ==> (#[trigger] res[k]).0@ == iter[k].0@.drop_last() && res[k].1@
                == iter[k].1@,
{
    let ghost all = iter@;
    let mut res: Vec<(NestedState, Array)> = Vec::new();
    for item in it: iter
        invariant
            it.seq() == all,
            forall|k: int| 0 <= k < all.len() ==> (#[trigger] all[k]).0@.len() > 0,
            res.len() == it.index(),
            forall|k: int|
                0 <= k < res.len() ==> (#[trigger] res[k]).0@ == all[k].0@.drop_last() && res[k].1@
                    == all[k].1@,
    {
        let ghost k = it.index() as int;
        assert(all[k].0@.len() > 0);
        let (mut nested, array) = item;
        let _ = nested.nested.pop();
        assert(nested@ =~= all[k].0@.drop_last());
        res.push((nested, array));
    }
    res
}

/// Takes the level of the leaf off every state and turns every array into
/// an array of any type.
pub fn primitive<A: IntoArray>(iter: Vec<(NestedState, A)>) -> (res: Vec<(NestedState, Array)>)
    requires
        forall|k: int| 0 <= k < iter.len() ==> (#[trigger] iter[k]).0@.len() > 0,
    ensures
        res.len() == iter.len(),
        forall|k: int|
            0 <= k < res.len() ==> (#[trigger] res[k]).0@ == iter[k].0@.drop_last() && res[k].1@
                == iter[k].1.array_view(),
{
    let ghost all = iter@;
    let mut res: Vec<(NestedState, Array)> = Vec::new();
    for item in it: iter
        invariant
            it.seq() == all,
            forall|k: int| 0 <= k < all.len() ==> (#[trigger] all[k]).0@.len() > 0,
            res.len() == it.index(),
            forall|k: int|
                0 <= k < res.len() ==> (#[trigger] res[k]).0@ == all[k].0@.drop_last() && res[k].1@
                    == all[k].1.array_view(),
    {
        let ghost k = it.index() as int;
        assert(all[k].0@.len() > 0);
        let (mut nested, array) = item;
        let _ = nested.nested.pop();
        assert(nested@ =~= all[k].0@.drop_last());
        res.push((nested, array.into_array()));
    }
    res
}

/// The validity bitmap that a level hands to the array built from it: its
/// bits, where it keeps any and one of them is unset.
pub open spec fn level_validity_of(level: NestedView) -> Option<Seq<bool>> {
    if level.init.tracks_validity() && level.validity.contains(false) {
        Some(level.validity)
    } else {
        None
    }
}

/// The list array that the innermost level of a state and a child array
/// make: the offsets of the level, closed by the length of the child, and
/// the validity of the level. A list under 32-bit offsets cannot hold more
/// than `i32::MAX` items; a fixed-size list must be filled exactly.
pub open spec fn create_list_spec(
    data_type: DataTypeView,
    level: NestedView,
    values: ArrayView,
) -> Result<ArrayView, ErrorView> {
    match data_type.to_logical_type() {
        DataTypeView::List(_) => if values.len() > i32::MAX {
            Err(ErrorView::InvalidArgumentError(Invalid::ListOffsets))
        } else {
            Ok(
                ArrayView::List {
                    data_type,
                    offsets: level.offsets.push(values.len() as usize),
                    flat_child: Box::new(values),
                    validity: level_validity_of(level),
                },
            )
        },
        DataTypeView::FixedSizeList(_, size) => if size == 0 || values.len() % (size as nat) != 0
            || values.len() / (size as nat) != level.length {
            Err(ErrorView::InvalidArgumentError(Invalid::FixedSizeListItems))
        } else {
            Ok(
                ArrayView::FixedSizeList {
                    data_type,
                    size,
                    flat_child: Box::new(values),
                    validity: level_validity_of(level),
                },
            )
        },
        _ => Ok(
            ArrayView::List {
                data_type,
                offsets: level.offsets.push(values.len() as usize),
                flat_child: Box::new(values),
                validity: level_validity_of(level),
            },
        ),
    }
}

/// The list array of a level that fits its child is well-formed, and its
/// offsets cover the child.
pub proof fn lemma_create_list(data_type: DataTypeView, level: NestedView, values: ArrayView)
    requires
        level.init is List,
        level_fits(level, values.len()),
        values.wf(),
        values.len() <= usize::MAX,
        create_list_spec(data_type, level, values) is Ok,
    ensures
        create_list_spec(data_type, level, values)->Ok_0.wf(),
        create_list_spec(data_type, level, values)->Ok_0.len() == level.length,
        create_list_spec(data_type, level, values)->Ok_0.data_type() == data_type,
        values.offsets_cover() ==> create_list_spec(data_type, level, values)->Ok_0.offsets_cover(),
{
    match data_type.to_logical_type() {
        DataTypeView::FixedSizeList(_, size) => {},
        _ => {
            let offsets = level.offsets.push(values.len() as usize);
            assert(crate::array::non_decreasing(offsets));
        },
    }
}

/// Takes the innermost level off the state and wraps the child array into
/// the list array that the level describes.
pub fn create_list(data_type: DataType, nested: &mut NestedState, values: Array) -> (res: Result<
    Array,
    Error,
>)
    requires
        old(nested)@.len() > 0,
        data_type@.to_logical_type() is List || data_type@.to_logical_type() is LargeList
            || data_type@.to_logical_type() is FixedSizeList,
    ensures
        final(nested)@ == old(nested)@.drop_last(),
        match res {
            Ok(array) => create_list_spec(data_type@, old(nested)@.last(), values@) == Ok::<
                ArrayView,
                ErrorView,
            >(array@),
            Err(e) => create_list_spec(data_type@, old(nested)@.last(), values@) == Err::<
                ArrayView,
                ErrorView,
            >(e@),
        },
{
    let ghost before = nested@;
    let level = nested.nested.pop().unwrap();
    assert(nested@ =~= before.drop_last());
    assert(level@ == before.last());
    let ghost level_view = level@;
    let length = level.length;
    let (mut offsets, bits) = level.inner();
    let validity = finish_validity(bits);
    let size: usize = match data_type.to_logical_type() {
        DataType::FixedSizeList(_, size) => *size,
        _ => 0,
    };
    let is_fixed = match data_type.to_logical_type() {
        DataType::FixedSizeList(_, _) => true,
        _ => false,
    };
    let is_small = match data_type.to_logical_type() {
        DataType::List(_) => true,
        _ => false,
    };
    if is_fixed {
        if size == 0 || values.len() % size != 0 || values.len() / size != length {
            return Err(Error::InvalidArgumentError(Invalid::FixedSizeListItems));
        }
        Ok(
            Array::FixedSizeList(
                FixedSizeListArray { data_type, size, flat_child: Box::new(values), validity },
            ),
        )
    } else {
        if is_small && values.len() > 0x7fff_ffff {
            return Err(Error::InvalidArgumentError(Invalid::ListOffsets));
        }
        offsets.push(values.len());
        Ok(Array::List(ListArray { data_type, offsets, flat_child: Box::new(values), validity }))
    }
}


/// The map array that the innermost level of a state and an array of
/// entries make: a list of the entries under the offsets and the validity
/// of the level.
pub open spec fn create_map_spec(
    data_type: DataTypeView,
    level: NestedView,
    values: ArrayView,
) -> Result<ArrayView, ErrorView> {
    if values.len() > i32::MAX {
        Err(ErrorView::InvalidArgumentError(Invalid::ListOffsets))
    } else {
        Ok(
            ArrayView::MapOf {
                data_type,
                physical: Box::new(
                    ArrayView::List {
                        data_type: DataTypeView::List(data_type.to_logical_type()->MapOf_0),
                        offsets: level.offsets.push(values.len() as usize),
                        flat_child: Box::new(values),
                        validity: level_validity_of(level),
                    },
                ),
            },
        )
    }
}

/// The map array of a level that fits its entries is well-formed, and its
/// offsets cover the entries.
pub proof fn lemma_create_map(data_type: DataTypeView, level: NestedView, values: ArrayView)
    requires
        level.init is List,
        level_fits(level, values.len()),
        values.wf(),
        values.len() <= usize::MAX,
        create_map_spec(data_type, level, values) is Ok,
    ensures
        create_map_spec(data_type, level, values)->Ok_0.wf(),
        create_map_spec(data_type, level, values)->Ok_0.len() == level.length,
        create_map_spec(data_type, level, values)->Ok_0.data_type() == data_type,
        values.offsets_cover() ==> create_map_spec(data_type, level, values)->Ok_0.offsets_cover(),
{
    reveal_with_fuel(ArrayView::wf, 2);
    reveal_with_fuel(ArrayView::len, 2);
    reveal_with_fuel(ArrayView::offsets_cover, 2);
    let offsets = level.offsets.push(values.len() as usize);
    assert(crate::array::non_decreasing(offsets));
}

/// Takes the innermost level off the state and wraps the array of entries,
/// which is a struct array of keys and values, into the map array that the
/// level describes.
pub fn create_map(data_type: DataType, nested: &mut NestedState, values: Array) -> (res: Result<
    Array,
    Error,
>)
    requires
        old(nested)@.len() > 0,
        data_type@.to_logical_type() is MapOf,
        values@ matches ArrayView::Struct { children, .. } && children.len() == 2,
    ensures
        final(nested)@ == old(nested)@.drop_last(),
        match res {
            Ok(array) => create_map_spec(data_type@, old(nested)@.last(), values@) == Ok::<
                ArrayView,
                ErrorView,
            >(array@),
            Err(e) => create_map_spec(data_type@, old(nested)@.last(), values@) == Err::<
                ArrayView,
                ErrorView,
            >(e@),
        },
{
    let ghost before = nested@;
    let level = nested.nested.pop().unwrap();
    assert(nested@ =~= before.drop_last());
    assert(level@ == before.last());
    let (mut offsets, bits) = level.inner();
    let validity = finish_validity(bits);
    if values.len() > 0x7fff_ffff {
        return Err(Error::InvalidArgumentError(Invalid::ListOffsets));
    }
    let entries: Field = match data_type.to_logical_type() {
        DataType::MapOf(inner, _) => (**inner).clone(),
        _ => Field::new(String::new(), DataType::Null, false),
    };
    offsets.push(values.len());
    let physical = ListArray {
        data_type: DataType::List(Box::new(entries)),
        offsets,
        flat_child: Box::new(values),
        validity,
    };
    Ok(Array::MapOf(MapArray { data_type, physical }))
}


/// Whether a chunk of a decoded field is in order under the nesting context
/// of the field: its state has the levels of the context, the levels fit
/// one another and the array, the array is well-formed, and the offsets of
/// every list in it cover the child of the list.
pub open spec fn chunk_ok(chunk: (Seq<NestedView>, ArrayView), init: Seq<InitNested>) -> bool {
    &&& chunk.0.len() == init.len()
    &&& forall|j: int| 0 <= j < init.len() ==> (#[trigger] chunk.0[j]).init == init[j]
    &&& aligned(chunk.0, chunk.1.len())
    &&& chunk.1.wf()
    &&& chunk.1.offsets_cover()
}

/// Whether every chunk is in order under the nesting context.
pub open spec fn all_ok(items: Seq<(Seq<NestedView>, ArrayView)>, init: Seq<InitNested>) -> bool {
    forall|k: int| 0 <= k < items.len() ==> chunk_ok(#[trigger] items[k], init)
}

/// What the decoder `C` yields for a leaf field: the chunks of the column,
/// the level of the leaf taken off every state.
pub open spec fn leaf_spec<C: ValueCast>(
    pages: PagesView,
    init: Seq<InitNested>,
    data_type: DataTypeView,
    num_rows: nat,
    chunk_size: Option<usize>,
    num_values: nat,
    is_parent_nullable: bool,
) -> Result<Seq<(Seq<NestedView>, ArrayView)>, ErrorView> {
    match leaf_result::<C>(
        pages,
        init,
        data_type,
        num_rows,
        chunk_size,
        num_values,
        is_parent_nullable,
    ) {
        Ok(items) => Ok(
            Seq::new(items.len(), |k: int| (items[k].0.drop_last(), C::To::array_of(items[k].1))),
        ),
        Err(e) => Err(e),
    }
}

/// The chunks of a leaf are in order under the context above the leaf.
pub proof fn lemma_leaf_spec<C: ValueCast>(
    pages: PagesView,
    init: Seq<InitNested>,
    data_type: DataTypeView,
    num_rows: nat,
    chunk_size: Option<usize>,
    num_values: nat,
    is_parent_nullable: bool,
)
    requires
        init.len() > 0,
        pages.levels.len() <= usize::MAX,
    ensures
        leaf_spec::<C>(
            pages,
            init,
            data_type,
            num_rows,
            chunk_size,
            num_values,
            is_parent_nullable,
        ) matches Ok(items) ==> all_ok(items, init.drop_last()),
        leaf_result::<C>(
            pages,
            init,
            data_type,
            num_rows,
            chunk_size,
            num_values,
            is_parent_nullable,
        ) matches Ok(items) ==> forall|k: int|
            0 <= k < items.len() ==> (#[trigger] items[k]).0.len() > 0,
{
    match leaf_result::<C>(
        pages,
        init,
        data_type,
        num_rows,
        chunk_size,
        num_values,
        is_parent_nullable,
    ) {
        Ok(raw) => {
            let items = leaf_spec::<C>(
                pages,
                init,
                data_type,
                num_rows,
                chunk_size,
                num_values,
                is_parent_nullable,
            )->Ok_0;
            assert forall|k: int| 0 <= k < raw.len() implies (#[trigger] raw[k]).0.len() > 0
                && chunk_ok(items[k], init.drop_last()) by {
                lemma_leaf_chunks(
                    init,
                    pages.levels,
                    cast_values::<C>(C::select(pages)->Some_0),
                    C::To::zero_view(),
                    data_type,
                    num_rows,
                    chunk_size,
                    num_values,
                    is_parent_nullable,
                    k,
                );
                C::To::lemma_array_of(raw[k].1);
            }
            assert forall|k: int| 0 <= k < items.len() implies chunk_ok(
                #[trigger] items[k],
                init.drop_last(),
            ) by {
                assert(raw[k].0.len() > 0);
            }
        },
        Err(_) => {},
    }
}

/// Decodes a leaf field with the decoder `C` and takes the level of the leaf
/// off every state.
fn leaf<C: ValueCast>(
    pages: Pages,
    init: Vec<InitNested>,
    data_type: DataType,
    num_rows: usize,
    chunk_size: Option<usize>,
    num_values: usize,
    is_parent_nullable: bool,
) -> (res: Result<Vec<(NestedState, Array)>, Error>)
    requires
        chunk_size != Some(0usize),
        init.len() > 0,
    ensures
        result_matches(
            res,
            leaf_spec::<C>(
                pages@,
                init@,
                data_type@,
                num_rows as nat,
                chunk_size,
                num_values as nat,
                is_parent_nullable,
            ),
        ),
        res matches Ok(items) ==> all_ok(chunks_view(items@), init@.drop_last()),
{
    proof {
        assert(pages@.levels.len() == pages.levels.len());
        lemma_leaf_spec::<C>(
            pages@,
            init@,
            data_type@,
            num_rows as nat,
            chunk_size,
            num_values as nat,
            is_parent_nullable,
        );
    }
    let items = match crate::deserialize::primitive::nested_iter::<C>(
        pages,
        init,
        data_type,
        num_rows,
        chunk_size,
        num_values,
        is_parent_nullable,
    ) {
        Ok(items) => items,
        Err(e) => {
            return Err(e);
        },
    };
    let ghost decoded = chunks_view(items@);
    proof {
        assert forall|k: int| 0 <= k < items.len() implies (#[trigger] items[k]).0@.len() > 0 by {
            assert(decoded[k] == (items[k].0@, items[k].1@));
        }
    }
    let res = primitive(items);
    proof {
        let expected = leaf_spec::<C>(
            pages@,
            init@,
            data_type@,
            num_rows as nat,
            chunk_size,
            num_values as nat,
            is_parent_nullable,
        )->Ok_0;
        assert(chunks_view(res@) =~= expected) by {
            assert forall|k: int| 0 <= k < res.len() implies chunks_view(res@)[k] == expected[k] by {
                assert(decoded[k] == (items[k].0@, items[k].1@));
            }
        }
    }
    Ok(res)
}

/// What the decoder of null columns yields for a leaf field.
pub open spec fn null_spec(
    pages: PagesView,
    init: Seq<InitNested>,
    data_type: DataTypeView,
    num_rows: nat,
    chunk_size: Option<usize>,
    num_values: nat,
) -> Result<Seq<(Seq<NestedView>, ArrayView)>, ErrorView> {
    let items = null_chunks(init, pages.levels, data_type, num_rows, chunk_size, num_values);
    Ok(Seq::new(items.len(), |k: int| (items[k].0.drop_last(), items[k].1)))
}

/// Decodes a leaf field of nulls and takes the level of the leaf off every
/// state.
fn null_leaf(
    pages: Pages,
    init: Vec<InitNested>,
    data_type: DataType,
    num_rows: usize,
    chunk_size: Option<usize>,
    num_values: usize,
    is_parent_nullable: bool,
) -> (res: Result<Vec<(NestedState, Array)>, Error>)
    requires
        chunk_size != Some(0usize),
        init.len() > 0,
    ensures
        result_matches(
            res,
            null_spec(pages@, init@, data_type@, num_rows as nat, chunk_size, num_values as nat),
        ),
        res matches Ok(items) ==> all_ok(chunks_view(items@), init@.drop_last()),
{
    let ghost raw = null_chunks(
        init@,
        pages@.levels,
        data_type@,
        num_rows as nat,
        chunk_size,
        num_values as nat,
    );
    proof {
        assert(pages@.levels.len() == pages.levels.len());
        assert forall|k: int| 0 <= k < raw.len() implies (#[trigger] raw[k]).0.len() > 0
            && chunk_ok((raw[k].0.drop_last(), raw[k].1), init@.drop_last()) by {
            lemma_null_chunks(
                init@,
                pages@.levels,
                data_type@,
                num_rows as nat,
                chunk_size,
                num_values as nat,
                k,
            );
        }
    }
    let items = crate::deserialize::null::nested_iter(
        pages,
        init,
        data_type,
        num_rows,
        chunk_size,
        num_values,
        is_parent_nullable,
    );
    proof {
        assert forall|k: int| 0 <= k < items.len() implies (#[trigger] items[k]).0@.len() > 0 by {
            assert((items[k].0@, items[k].1@) == raw[k]);
        }
    }
    let ghost decoded = items@;
    let res = primitive(items);
    proof {
        let expected = null_spec(
            pages@,
            init@,
            data_type@,
            num_rows as nat,
            chunk_size,
            num_values as nat,
        )->Ok_0;
        assert forall|k: int| 0 <= k < res.len() implies chunks_view(res@)[k] == expected[k]
            && chunk_ok(#[trigger] chunks_view(res@)[k], init@.drop_last()) by {
            assert((decoded[k].0@, decoded[k].1@) == raw[k]);
            assert(raw[k].0.len() > 0);
        }
        assert(chunks_view(res@) =~= expected);
    }
    Ok(res)
}

/// What the decoder of byte strings yields for a leaf field.
pub open spec fn binary_spec(
    pages: PagesView,
    init: Seq<InitNested>,
    data_type: DataTypeView,
    num_rows: nat,
    chunk_size: Option<usize>,
    num_values: nat,
    is_parent_nullable: bool,
) -> Result<Seq<(Seq<NestedView>, ArrayView)>, ErrorView> {
    leaf_spec::<Bytes>(pages, init, data_type, num_rows, chunk_size, num_values, is_parent_nullable)
}

/// Decodes a leaf field of byte strings and takes the level of the leaf off
/// every state.
fn binary_leaf(
    pages: Pages,
    init: Vec<InitNested>,
    data_type: DataType,
    num_rows: usize,
    chunk_size: Option<usize>,
    num_values: usize,
    is_parent_nullable: bool,
) -> (res: Result<Vec<(NestedState, Array)>, Error>)
    requires
        chunk_size != Some(0usize),
        init.len() > 0,
    ensures
        result_matches(
            res,
            binary_spec(
                pages@,
                init@,
                data_type@,
                num_rows as nat,
                chunk_size,
                num_values as nat,
                is_parent_nullable,
            ),
        ),
        res matches Ok(items) ==> all_ok(chunks_view(items@), init@.drop_last()),
{
    proof {
        assert(pages@.levels.len() == pages.levels.len());
        lemma_leaf_spec::<Bytes>(
            pages@,
            init@,
            data_type@,
            num_rows as nat,
            chunk_size,
            num_values as nat,
            is_parent_nullable,
        );
    }
    let items = match crate::deserialize::binary::nested_iter(
        pages,
        init,
        data_type,
        num_rows,
        chunk_size,
        num_values,
        is_parent_nullable,
    ) {
        Ok(items) => items,
        Err(e) => {
            return Err(e);
        },
    };
    let ghost decoded = chunks_view(items@);
    let ghost raw = leaf_result::<Bytes>(
        pages@,
        init@,
        data_type@,
        num_rows as nat,
        chunk_size,
        num_values as nat,
        is_parent_nullable,
    )->Ok_0;
    let ghost unpopped = binary_result(
        pages@,
        init@,
        data_type@,
        num_rows as nat,
        chunk_size,
        num_values as nat,
        is_parent_nullable,
    )->Ok_0;
    proof {
        assert(decoded == unpopped);
        assert(unpopped.len() == raw.len());
        assert forall|k: int| 0 <= k < items.len() implies (#[trigger] items[k]).0@.len() > 0 by {
            assert(decoded[k] == (items[k].0@, items[k].1@));
            assert(unpopped[k].0 == raw[k].0);
            assert(raw[k].0.len() > 0);
        }
    }
    let res = remove_nested(items);
    proof {
        let expected = binary_spec(
            pages@,
            init@,
            data_type@,
            num_rows as nat,
            chunk_size,
            num_values as nat,
            is_parent_nullable,
        )->Ok_0;
        assert forall|k: int| 0 <= k < res.len() implies chunks_view(res@)[k] == expected[k] by {
            assert(decoded[k] == (items[k].0@, items[k].1@));
        }
        assert(chunks_view(res@) =~= expected);
    }
    Ok(res)
}

/// The error of a list that cannot be built.
pub open spec fn list_error(data_type: DataTypeView) -> ErrorView {
    if data_type.to_logical_type() is FixedSizeList {
        ErrorView::InvalidArgumentError(Invalid::FixedSizeListItems)
    } else {
        ErrorView::InvalidArgumentError(Invalid::ListOffsets)
    }
}

/// The chunks of a list field from the chunks of its item: in every chunk
/// the list array of the innermost level of the state and the array of the
/// items; that level is taken off the state.
pub open spec fn list_chunks(
    data_type: DataTypeView,
    items: Seq<(Seq<NestedView>, ArrayView)>,
) -> Result<Seq<(Seq<NestedView>, ArrayView)>, ErrorView> {
    if forall|k: int|
        0 <= k < items.len() ==> #[trigger] create_list_spec(
            data_type,
            items[k].0.last(),
            items[k].1,
        ) is Ok {
        Ok(
            Seq::new(
                items.len(),
                |k: int|
                    (
                        items[k].0.drop_last(),
                        create_list_spec(data_type, items[k].0.last(), items[k].1)->Ok_0,
                    ),
            ),
        )
    } else {
        Err(list_error(data_type))
    }
}

/// The chunks of a map field from the chunks of its entries.
pub open spec fn map_chunks(
    data_type: DataTypeView,
    items: Seq<(Seq<NestedView>, ArrayView)>,
) -> Result<Seq<(Seq<NestedView>, ArrayView)>, ErrorView> {
    if forall|k: int|
        0 <= k < items.len() ==> #[trigger] create_map_spec(
            data_type,
            items[k].0.last(),
            items[k].1,
        ) is Ok {
        Ok(
            Seq::new(
                items.len(),
                |k: int|
                    (
                        items[k].0.drop_last(),
                        create_map_spec(data_type, items[k].0.last(), items[k].1)->Ok_0,
                    ),
            ),
        )
    } else {
        Err(ErrorView::InvalidArgumentError(Invalid::ListOffsets))
    }
}

/// Whether the array is a struct array of two children, as the entries of
/// a map are.
pub open spec fn is_pairs(array: ArrayView) -> bool {
    array matches ArrayView::Struct { children, .. } && children.len() == 2
}

/// Wraps the chunks of the item of a list, or of the entries of a map, into
/// the chunks of the list or map.
#[verifier::rlimit(30)]
fn list_iter(
    data_type: &DataType,
    iter: Vec<(NestedState, Array)>,
    is_map: bool,
    Ghost(init): Ghost<Seq<InitNested>>,
) -> (res: Result<Vec<(NestedState, Array)>, Error>)
    requires
        init.len() > 0,
        init.last() is List,
        all_ok(chunks_view(iter@), init),
        is_map ==> data_type@.to_logical_type() is MapOf && forall|k: int|
            0 <= k < iter.len() ==> is_pairs(#[trigger] chunks_view(iter@)[k].1),
        !is_map ==> data_type@.to_logical_type() is List || data_type@.to_logical_type() is LargeList
            || data_type@.to_logical_type() is FixedSizeList,
    ensures
        result_matches(
            res,
            if is_map {
                map_chunks(data_type@, chunks_view(iter@))
            } else {
                list_chunks(data_type@, chunks_view(iter@))
            },
        ),
        res matches Ok(items) ==> all_ok(chunks_view(items@), init.drop_last()),
{
    let ghost all = iter@;
    let ghost items = chunks_view(all);
    let mut res: Vec<(NestedState, Array)> = Vec::new();
    for item in it: iter
        invariant
            it.seq() == all,
            all == iter@,
            items == chunks_view(all),
            init.len() > 0,
            init.last() is List,
            all_ok(items, init),
            is_map ==> data_type@.to_logical_type() is MapOf && forall|k: int|
                0 <= k < items.len() ==> is_pairs(#[trigger] items[k].1),
            !is_map ==> data_type@.to_logical_type() is List || data_type@.to_logical_type()
                is LargeList || data_type@.to_logical_type() is FixedSizeList,
            res.len() == it.index(),
            forall|k: int|
                0 <= k < res.len() ==> chunk_ok(
                    ((#[trigger] res[k]).0@, res[k].1@),
                    init.drop_last(),
                ),
            forall|k: int|
                0 <= k < res.len() ==> (if is_map {
                    create_map_spec(data_type@, items[k].0.last(), items[k].1)
                } else {
                    create_list_spec(data_type@, items[k].0.last(), items[k].1)
                }) == Ok::<ArrayView, ErrorView>((#[trigger] res[k]).1@) && res[k].0@
                    == items[k].0.drop_last(),
    {
        let ghost k = it.index() as int;
        assert(items[k] == (all[k].0@, all[k].1@));
        assert(chunk_ok(items[k], init));
        let (mut nested, array) = item;
        let len = array.len();
        let ghost level = nested@.last();
        let ghost before = nested@;
        proof {
            assert(level.init == init.last());
            assert(level_fits(level, array@.len()));
            assert(aligned(before.drop_last(), level.length));
        }
        assert(is_map ==> is_pairs(items[k].1));
        let made = if is_map {
            create_map(data_type.clone(), &mut nested, array)
        } else {
            create_list(data_type.clone(), &mut nested, array)
        };
        match made {
            Ok(list) => {
                proof {
                    if is_map {
                        lemma_create_map(data_type@, level, items[k].1);
                    } else {
                        lemma_create_list(data_type@, level, items[k].1);
                    }
                    assert(init.drop_last().len() == init.len() - 1);
                }
                res.push((nested, list));
            },
            Err(e) => {
                proof {
                    if is_map {
                        assert(create_map_spec(data_type@, items[k].0.last(), items[k].1) is Err);
                    } else {
                        assert(create_list_spec(data_type@, items[k].0.last(), items[k].1) is Err);
                    }
                }
                return Err(e);
            },
        }
    }
    proof {
        let expected = if is_map {
            map_chunks(data_type@, items)
        } else {
            list_chunks(data_type@, items)
        };
        assert forall|k: int| 0 <= k < items.len() implies (if is_map {
            #[trigger] create_map_spec(data_type@, items[k].0.last(), items[k].1) is Ok
        } else {
            #[trigger] create_list_spec(data_type@, items[k].0.last(), items[k].1) is Ok
        }) by {
            assert(res[k].0@ == items[k].0.drop_last());
        }
        assert(expected is Ok);
        assert(chunks_view(res@) =~= expected->Ok_0);
    }
    Ok(res)
}


/// What is decoded for a decimal field stored as byte strings of the length
/// `n`: the chunks of the byte strings, each read as a decimal, the level of
/// the leaf taken off every state.
pub open spec fn decimal_spec<B: BytesCast>(
    pages: PagesView,
    init: Seq<InitNested>,
    n: usize,
    data_type: DataTypeView,
    num_rows: nat,
    chunk_size: Option<usize>,
    num_values: nat,
    is_parent_nullable: bool,
) -> Result<Seq<(Seq<NestedView>, ArrayView)>, ErrorView> {
    match fixed_result(
        pages,
        init,
        n,
        DataTypeView::FixedSizeBinary(n),
        num_rows,
        chunk_size,
        num_values,
        is_parent_nullable,
    ) {
        Ok(items) => Ok(
            Seq::new(
                items.len(),
                |k: int| (items[k].0.drop_last(), decimal_array::<B>(items[k].1, data_type)),
            ),
        ),
        Err(e) => Err(e),
    }
}

/// Decodes a decimal field stored as byte strings of the length `n`.
#[verifier::rlimit(30)]
fn decimal<B: BytesCast>(
    pages: Pages,
    init: Vec<InitNested>,
    n: usize,
    data_type: DataType,
    num_rows: usize,
    chunk_size: Option<usize>,
    num_values: usize,
    is_parent_nullable: bool,
) -> (res: Result<Vec<(NestedState, Array)>, Error>)
    requires
        chunk_size != Some(0usize),
        init.len() > 0,
        n <= B::max_len(),
    ensures
        result_matches(
            res,
            decimal_spec::<B>(
                pages@,
                init@,
                n,
                data_type@,
                num_rows as nat,
                chunk_size,
                num_values as nat,
                is_parent_nullable,
            ),
        ),
        res matches Ok(items) ==> all_ok(chunks_view(items@), init@.drop_last()),
{
    let ghost fixed = fixed_result(
        pages@,
        init@,
        n,
        DataTypeView::FixedSizeBinary(n),
        num_rows as nat,
        chunk_size,
        num_values as nat,
        is_parent_nullable,
    );
    proof {
        assert(pages@.levels.len() == pages.levels.len());
    }
    let ghost levels = pages@;
    let iter = match crate::deserialize::fixed_size_binary::nested_iter(
        pages,
        init,
        DataType::FixedSizeBinary(n),
        num_rows,
        chunk_size,
        num_values,
        is_parent_nullable,
    ) {
        Ok(items) => items,
        Err(e) => {
            return Err(e);
        },
    };
    let ghost all = iter@;
    let ghost raw = fixed->Ok_0;
    let mut res: Vec<(NestedState, Array)> = Vec::new();
    for item in it: iter
        invariant
            it.seq() == all,
            chunks_view(all) == raw,
            init@.len() > 0,
            levels.levels.len() <= usize::MAX,
            n <= B::max_len(),
            fixed == fixed_result(
                levels,
                init@,
                n,
                DataTypeView::FixedSizeBinary(n),
                num_rows as nat,
                chunk_size,
                num_values as nat,
                is_parent_nullable,
            ),
            fixed == Ok::<Seq<(Seq<NestedView>, ArrayView)>, ErrorView>(raw),
            res.len() == it.index(),
            forall|k: int|
                0 <= k < res.len() ==> (#[trigger] res[k]).0@ == raw[k].0.drop_last() && res[k].1@
                    == decimal_array::<B>(raw[k].1, data_type@),
            forall|k: int|
                0 <= k < res.len() ==> chunk_ok(
                    ((#[trigger] res[k]).0@, res[k].1@),
                    init@.drop_last(),
                ),
    {
        let ghost k = it.index() as int;
        assert(chunks_view(all)[k] == (all[k].0@, all[k].1@));
        proof {
            lemma_fixed_result(
                levels,
                init@,
                n,
                DataTypeView::FixedSizeBinary(n),
                num_rows as nat,
                chunk_size,
                num_values as nat,
                is_parent_nullable,
                k,
            );
        }
        let (mut nested, array) = item;
        let ghost before = nested@;
        let decimals = to_decimal::<B>(array, data_type.clone());
        let _ = nested.nested.pop();
        proof {
            assert(nested@ =~= before.drop_last());
            let plain = DataArrayView {
                data_type: data_type@,
                values: Seq::new(
                    raw[k].1->values.len(),
                    |i: int| B::convert_spec(raw[k].1->values[i]),
                ),
                validity: raw[k].1.validity(),
            };
            B::To::lemma_array_of(plain);
            assert(before == raw[k].0);
            assert(raw[k].1.len() == raw[k].1->values.len());
            assert(plain.wf());
            assert(decimals@ == B::To::array_of(plain));
            assert(chunk_ok((nested@, decimals@), init@.drop_last()));
        }
        res.push((nested, decimals));
    }
    proof {
        let expected = decimal_spec::<B>(
            levels,
            init@,
            n,
            data_type@,
            num_rows as nat,
            chunk_size,
            num_values as nat,
            is_parent_nullable,
        )->Ok_0;
        assert(chunks_view(res@) =~= expected);
    }
    Ok(res)
}

/// The array of the values of a dictionary as the decoder `C` reads them.
pub open spec fn cast_dict<C: ValueCast>(pages: PagesView, data_type: DataTypeView) -> Result<
    ArrayView,
    ErrorView,
> {
    match C::select(pages) {
        Some(values) => Ok(dictionary_values::<C>(values, data_type)),
        None => Err(ErrorView::InvalidArgumentError(Invalid::PhysicalValues)),
    }
}

/// The array of the values of a dictionary of the given type. Integers of
/// up to 32 bits, times and dates of 32 bits are read from 32-bit values;
/// integers, times, dates and durations of 64 bits from 64-bit values, of
/// which the lower 32 bits are kept; floats, byte strings and text as they
/// are. No other type of value is decoded.
pub open spec fn dict_values_spec(pages: PagesView, values_type: DataTypeView) -> Result<
    ArrayView,
    ErrorView,
> {
    match values_type.to_logical_type() {
        DataTypeView::UInt8 => cast_dict::<Int32ToUInt8>(pages, values_type),
        DataTypeView::UInt16 => cast_dict::<Int32ToUInt16>(pages, values_type),
        DataTypeView::UInt32 => cast_dict::<Int32ToUInt32>(pages, values_type),
        DataTypeView::Int8 => cast_dict::<Int32ToInt8>(pages, values_type),
        DataTypeView::Int16 => cast_dict::<Int32ToInt16>(pages, values_type),
        DataTypeView::Int32
        | DataTypeView::Date32
        | DataTypeView::Time32(_)
        | DataTypeView::Interval(IntervalUnit::YearMonth) => cast_dict::<Int32ToInt32>(
            pages,
            values_type,
        ),
        DataTypeView::Int64
        | DataTypeView::Date64
        | DataTypeView::Time64(_)
        | DataTypeView::Duration(_) => cast_dict::<Int64ToInt32>(pages, values_type),
        DataTypeView::Float32 => cast_dict::<Float32ToFloat32>(pages, values_type),
        DataTypeView::Float64 => cast_dict::<Float64ToFloat64>(pages, values_type),
        DataTypeView::Utf8
        | DataTypeView::Binary
        | DataTypeView::LargeUtf8
        | DataTypeView::LargeBinary => cast_dict::<Bytes>(pages, values_type),
        DataTypeView::FixedSizeBinary(n) => match fixed_values(pages, n) {
            Some(values) => Ok(dictionary_fixed_values(values, n, values_type)),
            None => Err(ErrorView::InvalidArgumentError(Invalid::PhysicalValues)),
        },
        other => Err(ErrorView::NotYetImplemented(UnsupportedView::DictionaryOf(other))),
    }
}

/// What is decoded for a dictionary field with keys of type `K`: the chunks
/// of the keys over the values of the dictionary, the level of the leaf
/// taken off every state.
pub open spec fn dict_read_spec<K: DictionaryKey>(
    pages: PagesView,
    init: Seq<InitNested>,
    data_type: DataTypeView,
    num_rows: nat,
    chunk_size: Option<usize>,
) -> Result<Seq<(Seq<NestedView>, ArrayView)>, ErrorView> {
    match dict_values_spec(pages, *data_type.to_logical_type()->Dictionary_1) {
        Err(e) => Err(e),
        Ok(values) => match dictionary_result::<K>(
            pages,
            values,
            init,
            data_type,
            num_rows,
            chunk_size,
        ) {
            Ok(items) => Ok(Seq::new(items.len(), |k: int| (items[k].0.drop_last(), items[k].1))),
            Err(e) => Err(e),
        },
    }
}

/// Reads the values of a dictionary with the decoder `C`.
fn dict_values<C: ValueCast>(pages: &Pages, data_type: DataType) -> (res: Result<Array, Error>)
    ensures
        match res {
            Ok(array) => cast_dict::<C>(pages@, data_type@) == Ok::<ArrayView, ErrorView>(array@),
            Err(e) => cast_dict::<C>(pages@, data_type@) == Err::<ArrayView, ErrorView>(e@),
        },
        res matches Ok(array) ==> array@.wf() && array@.offsets_cover(),
{
    match read_dict::<C>(pages, data_type) {
        Ok(array) => {
            proof {
                C::To::lemma_array_of(array@);
            }
            Ok(C::To::wrap(array))
        },
        Err(e) => Err(e),
    }
}

/// Decodes a dictionary field whose keys are of type `K`.
#[verifier::rlimit(30)]
pub fn dict_read<K: DictionaryKey>(
    iter: Pages,
    init: Vec<InitNested>,
    _type_: &ParquetType,
    data_type: DataType,
    num_rows: usize,
    chunk_size: Option<usize>,
) -> (res: Result<Vec<(NestedState, Array)>, Error>)
    requires
        chunk_size != Some(0usize),
        init.len() > 0,
        data_type@.to_logical_type() is Dictionary,
    ensures
        result_matches(
            res,
            dict_read_spec::<K>(iter@, init@, data_type@, num_rows as nat, chunk_size),
        ),
        res matches Ok(items) ==> all_ok(chunks_view(items@), init@.drop_last()),
{
    let values_data_type: DataType = match data_type.to_logical_type() {
        DataType::Dictionary(_, v, _) => (**v).clone(),
        _ => DataType::Null,
    };
    let made = match values_data_type.to_logical_type() {
        DataType::UInt8 => dict_values::<Int32ToUInt8>(&iter, values_data_type.clone()),
        DataType::UInt16 => dict_values::<Int32ToUInt16>(&iter, values_data_type.clone()),
        DataType::UInt32 => dict_values::<Int32ToUInt32>(&iter, values_data_type.clone()),
        DataType::Int8 => dict_values::<Int32ToInt8>(&iter, values_data_type.clone()),
        DataType::Int16 => dict_values::<Int32ToInt16>(&iter, values_data_type.clone()),
        DataType::Int32 | DataType::Date32 | DataType::Time32(_) => dict_values::<Int32ToInt32>(
            &iter,
            values_data_type.clone(),
        ),
        DataType::Interval(unit) => match unit {
            IntervalUnit::YearMonth => dict_values::<Int32ToInt32>(&iter, values_data_type.clone()),
            _ => Err(
                Error::NotYetImplemented(
                    Unsupported::DictionaryOf(values_data_type.to_logical_type().clone()),
                ),
            ),
        },
        DataType::Int64
        | DataType::Date64
        | DataType::Time64(_)
        | DataType::Duration(_) => dict_values::<Int64ToInt32>(&iter, values_data_type.clone()),
        DataType::Float32 => dict_values::<Float32ToFloat32>(&iter, values_data_type.clone()),
        DataType::Float64 => dict_values::<Float64ToFloat64>(&iter, values_data_type.clone()),
        DataType::Utf8
        | DataType::Binary
        | DataType::LargeUtf8
        | DataType::LargeBinary => dict_values::<Bytes>(&iter, values_data_type.clone()),
        DataType::FixedSizeBinary(n) => match read_fixed_dict(
            &iter,
            *n,
            values_data_type.clone(),
        ) {
            Ok(array) => Ok(Array::FixedSizeBinary(array)),
            Err(e) => Err(e),
        },
        other => Err(Error::NotYetImplemented(Unsupported::DictionaryOf(other.clone()))),
    };
    let values = match made {
        Ok(values) => values,
        Err(e) => {
            proof {
                lemma_logical_type(values_data_type@);
            }
            return Err(e);
        },
    };
    proof {
        lemma_logical_type(values_data_type@);
        assert(dict_values_spec(iter@, values_data_type@) == Ok::<ArrayView, ErrorView>(values@));
        assert(values@.wf() && values@.offsets_cover());
        assert(iter@.levels.len() == iter.levels.len());
    }
    let ghost expected = dictionary_result::<K>(
        iter@,
        values@,
        init@,
        data_type@,
        num_rows as nat,
        chunk_size,
    );
    let items = match nested_dict_iter::<K>(&iter, values, &init, &data_type, num_rows, chunk_size) {
        Ok(items) => items,
        Err(e) => {
            return Err(e);
        },
    };
    let ghost decoded = items@;
    proof {
        assert forall|k: int| 0 <= k < items.len() implies (#[trigger] items[k]).0@.len() > 0 by {
            assert(chunks_view(items@)[k] == (items[k].0@, items[k].1@));
            lemma_dictionary_result::<K>(
                iter@,
                values@,
                init@,
                data_type@,
                num_rows as nat,
                chunk_size,
                k,
            );
        }
    }
    let res = primitive(items);
    proof {
        let popped = dict_read_spec::<K>(iter@, init@, data_type@, num_rows as nat, chunk_size)->Ok_0;
        assert forall|k: int| 0 <= k < res.len() implies chunks_view(res@)[k] == popped[k] && chunk_ok(
            #[trigger] chunks_view(res@)[k],
            init@.drop_last(),
        ) by {
            assert(chunks_view(decoded)[k] == (decoded[k].0@, decoded[k].1@));
            lemma_dictionary_result::<K>(
                iter@,
                values@,
                init@,
                data_type@,
                num_rows as nat,
                chunk_size,
                k,
            );
        }
        assert(chunks_view(res@) =~= popped);
    }
    Ok(res)
}


/// The last `n` elements.
pub open spec fn tail<T>(s: Seq<T>, n: int) -> Seq<T> {
    s.subrange(s.len() - n, s.len() as int)
}

/// All elements but the last `n`.
pub open spec fn front<T>(s: Seq<T>, n: int) -> Seq<T> {
    s.subrange(0, s.len() - n)
}

/// What is decoded for a field from the leaf columns that it owns, which
/// are the last of `columns`: the chunks of the field, one for each chunk of
/// rows, each with the state of the levels of nesting above the field and
/// the array of the field.
pub open spec fn decode(
    columns: Seq<PagesView>,
    types: Seq<ParquetType>,
    field: FieldView,
    init: Seq<InitNested>,
    num_rows: nat,
    chunk_size: Option<usize>,
    num_values: Seq<usize>,
    is_parent_nullable: bool,
) -> Result<Seq<(Seq<NestedView>, ArrayView)>, ErrorView> {
    decode_as(
        columns,
        types,
        field,
        field.data_type,
        init,
        num_rows,
        chunk_size,
        num_values,
        is_parent_nullable,
    )
}

/// What is decoded for a field that is dispatched as the type `data_type`:
/// its own type, with extension wrappers taken off.
///
/// A type without children is decoded from the last column by the decoder
/// of its physical representation, under the nesting context extended by
/// the level of the leaf. Unsigned 32-bit integers and decimals go by the
/// physical type of the column. A list or map is the list or map of the
/// chunks of its item, decoded under the context extended by a list level;
/// a struct is the struct of the chunks of its fields, decoded under the
/// context extended by a struct level.
pub open spec fn decode_as(
    columns: Seq<PagesView>,
    types: Seq<ParquetType>,
    field: FieldView,
    data_type: DataTypeView,
    init: Seq<InitNested>,
    num_rows: nat,
    chunk_size: Option<usize>,
    num_values: Seq<usize>,
    is_parent_nullable: bool,
) -> Result<Seq<(Seq<NestedView>, ArrayView)>, ErrorView>
    decreases data_type,
{
    let pages = columns.last();
    let physical = types.last().physical_type;
    let count = num_values.last() as nat;
    let leaf = init.push(InitNested::Primitive(field.is_nullable));
    match data_type {
        DataTypeView::Extension(_, inner, _) => decode_as(
            columns,
            types,
            field,
            *inner,
            init,
            num_rows,
            chunk_size,
            num_values,
            is_parent_nullable,
        ),
        DataTypeView::Null => null_spec(pages, leaf, field.data_type, num_rows, chunk_size, count),
        DataTypeView::Boolean => leaf_spec::<Bit>(
            pages,
            leaf,
            DataTypeView::Boolean,
            num_rows,
            chunk_size,
            count,
            is_parent_nullable,
        ),
        DataTypeView::Int8 => leaf_spec::<Int32ToInt8>(
            pages,
            leaf,
            field.data_type,
            num_rows,
            chunk_size,
            count,
            is_parent_nullable,
        ),
        DataTypeView::Int16 => leaf_spec::<Int32ToInt16>(
            pages,
            leaf,
            field.data_type,
            num_rows,
            chunk_size,
            count,
            is_parent_nullable,
        ),
        DataTypeView::Int32
        | DataTypeView::Date32
        | DataTypeView::Time32(_)
        | DataTypeView::Interval(IntervalUnit::YearMonth) => leaf_spec::<Int32ToInt32>(
            pages,
            leaf,
            field.data_type,
            num_rows,
            chunk_size,
            count,
            is_parent_nullable,
        ),
        DataTypeView::Int64
        | DataTypeView::Date64
        | DataTypeView::Timestamp(_, _)
        | DataTypeView::Time64(_)
        | DataTypeView::Duration(_) => leaf_spec::<Int64ToInt64>(
            pages,
            leaf,
            field.data_type,
            num_rows,
            chunk_size,
            count,
            is_parent_nullable,
        ),
        DataTypeView::UInt8 => leaf_spec::<Int32ToUInt8>(
            pages,
            leaf,
            field.data_type,
            num_rows,
            chunk_size,
            count,
            is_parent_nullable,
        ),
        DataTypeView::UInt16 => leaf_spec::<Int32ToUInt16>(
            pages,
            leaf,
            field.data_type,
            num_rows,
            chunk_size,
            count,
            is_parent_nullable,
        ),
        DataTypeView::UInt32 => match physical {
            ParquetPhysicalType::Int32 => leaf_spec::<Int32ToUInt32>(
            pages,
            leaf,
            field.data_type,
            num_rows,
            chunk_size,
            count,
            is_parent_nullable,
        ),
            ParquetPhysicalType::Int64 => leaf_spec::<Int64ToUInt32>(
            pages,
            leaf,
            field.data_type,
            num_rows,
            chunk_size,
            count,
            is_parent_nullable,
        ),
            other => Err(ErrorView::NotYetImplemented(UnsupportedView::UInt32From(other))),
        },
        DataTypeView::UInt64 => leaf_spec::<Int64ToUInt64>(
            pages,
            leaf,
            field.data_type,
            num_rows,
            chunk_size,
            count,
            is_parent_nullable,
        ),
        DataTypeView::Float32 => leaf_spec::<Float32ToFloat32>(
            pages,
            leaf,
            field.data_type,
            num_rows,
            chunk_size,
            count,
            is_parent_nullable,
        ),
        DataTypeView::Float64 => leaf_spec::<Float64ToFloat64>(
            pages,
            leaf,
            field.data_type,
            num_rows,
            chunk_size,
            count,
            is_parent_nullable,
        ),
        DataTypeView::Binary
        | DataTypeView::Utf8
        | DataTypeView::LargeBinary
        | DataTypeView::LargeUtf8 => binary_spec(
            pages,
            leaf,
            field.data_type,
            num_rows,
            chunk_size,
            count,
            is_parent_nullable,
        ),
        DataTypeView::Dictionary(key, _, _) => match key {
            IntegerType::Int8 => dict_read_spec::<Int8Key>(
                pages,
                leaf,
                field.data_type,
                num_rows,
                chunk_size,
            ),
            IntegerType::Int16 => dict_read_spec::<Int16Key>(
                pages,
                leaf,
                field.data_type,
                num_rows,
                chunk_size,
            ),
            IntegerType::Int32 => dict_read_spec::<Int32Key>(
                pages,
                leaf,
                field.data_type,
                num_rows,
                chunk_size,
            ),
            IntegerType::Int64 => dict_read_spec::<Int64Key>(
                pages,
                leaf,
                field.data_type,
                num_rows,
                chunk_size,
            ),
            IntegerType::UInt8 => dict_read_spec::<UInt8Key>(
                pages,
                leaf,
                field.data_type,
                num_rows,
                chunk_size,
            ),
            IntegerType::UInt16 => dict_read_spec::<UInt16Key>(
                pages,
                leaf,
                field.data_type,
                num_rows,
                chunk_size,
            ),
            IntegerType::UInt32 => dict_read_spec::<UInt32Key>(
                pages,
                leaf,
                field.data_type,
                num_rows,
                chunk_size,
            ),
            IntegerType::UInt64 => dict_read_spec::<UInt64Key>(
                pages,
                leaf,
                field.data_type,
                num_rows,
                chunk_size,
            ),
        },
        DataTypeView::List(inner)
        | DataTypeView::LargeList(inner)
        | DataTypeView::FixedSizeList(inner, _) => match decode_as(
            columns,
            types,
            *inner,
            inner.data_type,
            init.push(InitNested::List(field.is_nullable)),
            num_rows,
            chunk_size,
            num_values,
            is_parent_nullable || field.is_nullable,
        ) {
            Ok(items) => list_chunks(field.data_type, items),
            Err(e) => Err(e),
        },
        DataTypeView::Decimal(_, _) => match physical {
            ParquetPhysicalType::Int32 => leaf_spec::<Int32ToInt128>(
            pages,
            leaf,
            field.data_type,
            num_rows,
            chunk_size,
            count,
            is_parent_nullable,
        ),
            ParquetPhysicalType::Int64 => leaf_spec::<Int64ToInt128>(
            pages,
            leaf,
            field.data_type,
            num_rows,
            chunk_size,
            count,
            is_parent_nullable,
        ),
            ParquetPhysicalType::FixedLenByteArray(n) => if n > 16 {
                Err(ErrorView::InvalidArgumentError(Invalid::Decimal128Width(n)))
            } else {
                decimal_spec::<BytesToInt128>(
                    pages,
                    leaf,
                    n,
                    field.data_type,
                    num_rows,
                    chunk_size,
                    count,
                    is_parent_nullable,
                )
            },
            other => Err(ErrorView::NotYetImplemented(UnsupportedView::DecimalFrom(other))),
        },
        DataTypeView::Decimal256(_, _) => match physical {
            ParquetPhysicalType::Int32 => leaf_spec::<Int32ToInt256>(
            pages,
            leaf,
            field.data_type,
            num_rows,
            chunk_size,
            count,
            is_parent_nullable,
        ),
            ParquetPhysicalType::Int64 => leaf_spec::<Int64ToInt256>(
            pages,
            leaf,
            field.data_type,
            num_rows,
            chunk_size,
            count,
            is_parent_nullable,
        ),
            ParquetPhysicalType::FixedLenByteArray(n) => if n <= 16 {
                decimal_spec::<BytesToInt256Narrow>(
                    pages,
                    leaf,
                    n,
                    field.data_type,
                    num_rows,
                    chunk_size,
                    count,
                    is_parent_nullable,
                )
            } else if n <= 32 {
                decimal_spec::<BytesToInt256>(
                    pages,
                    leaf,
                    n,
                    field.data_type,
                    num_rows,
                    chunk_size,
                    count,
                    is_parent_nullable,
                )
            } else {
                Err(ErrorView::InvalidArgumentError(Invalid::Decimal256Width(n)))
            },
            other => Err(ErrorView::NotYetImplemented(UnsupportedView::DecimalFrom(other))),
        },
        DataTypeView::Struct(fields) => match decode_fields(
            columns,
            types,
            fields,
            init.push(InitNested::Struct(field.is_nullable)),
            num_rows,
            chunk_size,
            num_values,
            is_parent_nullable || field.is_nullable,
        ) {
            Ok(children) => struct_chunks(children, DataTypeView::Struct(fields)),
            Err(e) => Err(e),
        },
        DataTypeView::MapOf(inner, _) => match decode_as(
            columns,
            types,
            *inner,
            inner.data_type,
            init.push(InitNested::List(field.is_nullable)),
            num_rows,
            chunk_size,
            num_values,
            is_parent_nullable || field.is_nullable,
        ) {
            Ok(items) => map_chunks(field.data_type, items),
            Err(e) => Err(e),
        },
        other => Err(ErrorView::NotYetImplemented(UnsupportedView::Type(other))),
    }
}

/// What is decoded for the fields of a struct, from the last field to the
/// first: each field from the last of the columns that are left, as many as
/// it owns. The first field that fails, in that order, fails the struct.
pub open spec fn decode_fields(
    columns: Seq<PagesView>,
    types: Seq<ParquetType>,
    fields: Seq<FieldView>,
    init: Seq<InitNested>,
    num_rows: nat,
    chunk_size: Option<usize>,
    num_values: Seq<usize>,
    is_parent_nullable: bool,
) -> Result<Seq<Seq<(Seq<NestedView>, ArrayView)>>, ErrorView>
    decreases fields,
{
    if fields.len() == 0 {
        Ok(Seq::empty())
    } else {
        let n = fields.last().data_type.n_columns() as int;
        match decode_as(
            tail(columns, n),
            tail(types, n),
            fields.last(),
            fields.last().data_type,
            init,
            num_rows,
            chunk_size,
            tail(num_values, n),
            is_parent_nullable,
        ) {
            Err(e) => Err(e),
            Ok(last) => match decode_fields(
                front(columns, n),
                front(types, n),
                fields.drop_last(),
                init,
                num_rows,
                chunk_size,
                front(num_values, n),
                is_parent_nullable,
            ) {
                Err(e) => Err(e),
                Ok(rest) => Ok(rest.push(last)),
            },
        }
    }
}

/// A field is decoded as its type with the extension wrappers taken off.
pub proof fn lemma_decode_logical(
    columns: Seq<PagesView>,
    types: Seq<ParquetType>,
    field: FieldView,
    data_type: DataTypeView,
    init: Seq<InitNested>,
    num_rows: nat,
    chunk_size: Option<usize>,
    num_values: Seq<usize>,
    is_parent_nullable: bool,
)
    ensures
        decode_as(
            columns,
            types,
            field,
            data_type,
            init,
            num_rows,
            chunk_size,
            num_values,
            is_parent_nullable,
        ) == decode_as(
            columns,
            types,
            field,
            data_type.to_logical_type(),
            init,
            num_rows,
            chunk_size,
            num_values,
            is_parent_nullable,
        ),
    decreases data_type,
{
    match data_type {
        DataTypeView::Extension(_, inner, _) => {
            lemma_decode_logical(
                columns,
                types,
                field,
                *inner,
                init,
                num_rows,
                chunk_size,
                num_values,
                is_parent_nullable,
            );
        },
        _ => {},
    }
}


/// The error that the type of the values of a dictionary gives rise to,
/// where no decoder reads values of that type.
pub open spec fn dictionary_error(values_type: DataTypeView) -> Option<ErrorView> {
    match values_type.to_logical_type() {
        DataTypeView::UInt8
        | DataTypeView::UInt16
        | DataTypeView::UInt32
        | DataTypeView::Int8
        | DataTypeView::Int16
        | DataTypeView::Int32
        | DataTypeView::Date32
        | DataTypeView::Time32(_)
        | DataTypeView::Interval(IntervalUnit::YearMonth)
        | DataTypeView::Int64
        | DataTypeView::Date64
        | DataTypeView::Time64(_)
        | DataTypeView::Duration(_)
        | DataTypeView::Float32
        | DataTypeView::Float64
        | DataTypeView::Utf8
        | DataTypeView::Binary
        | DataTypeView::LargeUtf8
        | DataTypeView::LargeBinary
        | DataTypeView::FixedSizeBinary(_) => None,
        other => Some(ErrorView::NotYetImplemented(UnsupportedView::DictionaryOf(other))),
    }
}

/// Whether the type is, under its extension wrappers, a struct of two
/// fields, as the entries of a map are.
pub open spec fn has_two_fields(data_type: DataTypeView) -> bool {
    data_type.to_logical_type() matches DataTypeView::Struct(fields) && fields.len() == 2
}

/// Whether the array is of the shape of the type: a struct array with one
/// child for each field, where the type is a struct.
pub open spec fn shaped(array: ArrayView, data_type: DataTypeView) -> bool {
    data_type.to_logical_type() matches DataTypeView::Struct(fields) ==> (array
        matches ArrayView::Struct { children, .. } && children.len() == fields.len())
}

/// The error that the schema alone gives rise to, whatever the columns
/// hold: the first combination of a logical type and a physical type
/// without a decoder, with a decimal too narrow for its byte strings, or
/// with a map whose entries are no pairs, that the walk over the schema
/// meets. A struct is walked from its last field to its first.
pub open spec fn schema_error(
    types: Seq<ParquetType>,
    field: FieldView,
    data_type: DataTypeView,
) -> Option<ErrorView>
    decreases data_type,
{
    let physical = types.last().physical_type;
    match data_type {
        DataTypeView::Extension(_, inner, _) => schema_error(types, field, *inner),
        DataTypeView::Null
        | DataTypeView::Boolean
        | DataTypeView::Int8
        | DataTypeView::Int16
        | DataTypeView::Int32
        | DataTypeView::Date32
        | DataTypeView::Time32(_)
        | DataTypeView::Interval(IntervalUnit::YearMonth)
        | DataTypeView::Int64
        | DataTypeView::Date64
        | DataTypeView::Timestamp(_, _)
        | DataTypeView::Time64(_)
        | DataTypeView::Duration(_)
        | DataTypeView::UInt8
        | DataTypeView::UInt16
        | DataTypeView::UInt64
        | DataTypeView::Float32
        | DataTypeView::Float64
        | DataTypeView::Binary
        | DataTypeView::Utf8
        | DataTypeView::LargeBinary
        | DataTypeView::LargeUtf8 => None,
        DataTypeView::UInt32 => match physical {
            ParquetPhysicalType::Int32 | ParquetPhysicalType::Int64 => None,
            other => Some(ErrorView::NotYetImplemented(UnsupportedView::UInt32From(other))),
        },
        DataTypeView::Dictionary(_, values, _) => dictionary_error(*values),
        DataTypeView::List(inner)
        | DataTypeView::LargeList(inner)
        | DataTypeView::FixedSizeList(inner, _) => schema_error(types, *inner, inner.data_type),
        DataTypeView::MapOf(inner, _) => match schema_error(types, *inner, inner.data_type) {
            Some(e) => Some(e),
            None => if has_two_fields(inner.data_type) {
                None
            } else {
                Some(ErrorView::InvalidArgumentError(Invalid::MapEntries))
            },
        },
        DataTypeView::Decimal(_, _) => match physical {
            ParquetPhysicalType::Int32 | ParquetPhysicalType::Int64 => None,
            ParquetPhysicalType::FixedLenByteArray(n) => if n > 16 {
                Some(ErrorView::InvalidArgumentError(Invalid::Decimal128Width(n)))
            } else {
                None
            },
            other => Some(ErrorView::NotYetImplemented(UnsupportedView::DecimalFrom(other))),
        },
        DataTypeView::Decimal256(_, _) => match physical {
            ParquetPhysicalType::Int32 | ParquetPhysicalType::Int64 => None,
            ParquetPhysicalType::FixedLenByteArray(n) => if n > 32 {
                Some(ErrorView::InvalidArgumentError(Invalid::Decimal256Width(n)))
            } else {
                None
            },
            other => Some(ErrorView::NotYetImplemented(UnsupportedView::DecimalFrom(other))),
        },
        DataTypeView::Struct(fields) => fields_error(types, fields),
        other => Some(ErrorView::NotYetImplemented(UnsupportedView::Type(other))),
    }
}

/// The error that the fields of a struct give rise to: that of the last
/// field that has one.
pub open spec fn fields_error(types: Seq<ParquetType>, fields: Seq<FieldView>) -> Option<ErrorView>
    decreases fields,
{
    if fields.len() == 0 {
        None
    } else {
        let n = fields.last().data_type.n_columns() as int;
        match schema_error(tail(types, n), fields.last(), fields.last().data_type) {
            Some(e) => Some(e),
            None => fields_error(front(types, n), fields.drop_last()),
        }
    }
}

/// What decoding a field gives: the error of the schema where it has one,
/// whatever the columns hold; what the columns decode to otherwise.
pub open spec fn decoded(
    columns: Seq<PagesView>,
    types: Seq<ParquetType>,
    field: FieldView,
    init: Seq<InitNested>,
    num_rows: nat,
    chunk_size: Option<usize>,
    num_values: Seq<usize>,
    is_parent_nullable: bool,
) -> Result<Seq<(Seq<NestedView>, ArrayView)>, ErrorView> {
    match schema_error(types, field, field.data_type) {
        Some(e) => Err(e),
        None => decode(
            columns,
            types,
            field,
            init,
            num_rows,
            chunk_size,
            num_values,
            is_parent_nullable,
        ),
    }
}

/// The schema is in error as its type with the extension wrappers taken off
/// is.
pub proof fn lemma_schema_logical(types: Seq<ParquetType>, field: FieldView, data_type: DataTypeView)
    ensures
        schema_error(types, field, data_type) == schema_error(
            types,
            field,
            data_type.to_logical_type(),
        ),
    decreases data_type,
{
    match data_type {
        DataTypeView::Extension(_, inner, _) => {
            lemma_schema_logical(types, field, *inner);
        },
        _ => {},
    }
}

/// The fields of a struct decode to one list of chunks for each field.
pub proof fn lemma_decode_fields_len(
    columns: Seq<PagesView>,
    types: Seq<ParquetType>,
    fields: Seq<FieldView>,
    init: Seq<InitNested>,
    num_rows: nat,
    chunk_size: Option<usize>,
    num_values: Seq<usize>,
    is_parent_nullable: bool,
)
    ensures
        decode_fields(
            columns,
            types,
            fields,
            init,
            num_rows,
            chunk_size,
            num_values,
            is_parent_nullable,
        ) matches Ok(children) ==> children.len() == fields.len(),
    decreases fields.len(),
{
    if fields.len() > 0 {
        let n = fields.last().data_type.n_columns() as int;
        lemma_decode_fields_len(
            front(columns, n),
            front(types, n),
            fields.drop_last(),
            init,
            num_rows,
            chunk_size,
            front(num_values, n),
            is_parent_nullable,
        );
    }
}

/// A struct field decodes to struct arrays with one child for each of its
/// fields.
pub proof fn lemma_decoded_shape(
    columns: Seq<PagesView>,
    types: Seq<ParquetType>,
    field: FieldView,
    init: Seq<InitNested>,
    num_rows: nat,
    chunk_size: Option<usize>,
    num_values: Seq<usize>,
    is_parent_nullable: bool,
)
    ensures
        decoded(
            columns,
            types,
            field,
            init,
            num_rows,
            chunk_size,
            num_values,
            is_parent_nullable,
        ) matches Ok(items) ==> forall|k: int|
            0 <= k < items.len() ==> shaped(#[trigger] items[k].1, field.data_type),
{
    lemma_schema_logical(types, field, field.data_type);
    lemma_decode_logical(
        columns,
        types,
        field,
        field.data_type,
        init,
        num_rows,
        chunk_size,
        num_values,
        is_parent_nullable,
    );
    match field.data_type.to_logical_type() {
        DataTypeView::Struct(fields) => {
            lemma_decode_fields_len(
                columns,
                types,
                fields,
                init.push(InitNested::Struct(field.is_nullable)),
                num_rows,
                chunk_size,
                num_values,
                is_parent_nullable || field.is_nullable,
            );
            match decoded(
                columns,
                types,
                field,
                init,
                num_rows,
                chunk_size,
                num_values,
                is_parent_nullable,
            ) {
                Ok(items) => {
                    let children = decode_fields(
                        columns,
                        types,
                        fields,
                        init.push(InitNested::Struct(field.is_nullable)),
                        num_rows,
                        chunk_size,
                        num_values,
                        is_parent_nullable || field.is_nullable,
                    )->Ok_0;
                    assert forall|k: int| 0 <= k < items.len() implies shaped(
                        #[trigger] items[k].1,
                        field.data_type,
                    ) by {
                        assert(struct_chunk(children, DataTypeView::Struct(fields), k) is Ok);
                    }
                },
                Err(_) => {},
            }
        },
        _ => {},
    }
}

/// A copy of a list of physical types.
fn clone_types(types: &Vec<ParquetType>) -> (res: Vec<ParquetType>)
    ensures
        res@ == types@,
{
    let mut res: Vec<ParquetType> = Vec::new();
    let mut i: usize = 0;
    while i < types.len()
        invariant
            i <= types.len(),
            res@ == types@.subrange(0, i as int),
        decreases types.len() - i,
    {
        res.push(types[i]);
        i += 1;
        assert(res@ =~= types@.subrange(0, i as int));
    }
    assert(types@.subrange(0, i as int) =~= types@);
    res
}

/// Whether a decoder reads the values of a dictionary of the given type.
fn check_dictionary(values_type: &DataType) -> (res: Result<(), Error>)
    ensures
        match res {
            Ok(_) => dictionary_error(values_type@) is None,
            Err(e) => dictionary_error(values_type@) == Some(e@),
        },
{
    proof {
        lemma_logical_type(values_type@);
    }
    match values_type.to_logical_type() {
        DataType::UInt8
        | DataType::UInt16
        | DataType::UInt32
        | DataType::Int8
        | DataType::Int16
        | DataType::Int32
        | DataType::Date32
        | DataType::Time32(_)
        | DataType::Int64
        | DataType::Date64
        | DataType::Time64(_)
        | DataType::Duration(_)
        | DataType::Float32
        | DataType::Float64
        | DataType::Utf8
        | DataType::Binary
        | DataType::LargeUtf8
        | DataType::LargeBinary
        | DataType::FixedSizeBinary(_) => Ok(()),
        DataType::Interval(unit) => match unit {
            IntervalUnit::YearMonth => Ok(()),
            _ => Err(
                Error::NotYetImplemented(
                    Unsupported::DictionaryOf(values_type.to_logical_type().clone()),
                ),
            ),
        },
        other => Err(Error::NotYetImplemented(Unsupported::DictionaryOf(other.clone()))),
    }
}

/// Walks the schema of a field for a combination of a logical type and a
/// physical type that cannot be decoded.
#[verifier::rlimit(30)]
fn check_schema(types: &Vec<ParquetType>, field: &Field) -> (res: Result<(), Error>)
    requires
        field@.data_type.n_columns() <= types.len(),
    ensures
        match res {
            Ok(_) => schema_error(types@, field@, field@.data_type) is None,
            Err(e) => schema_error(types@, field@, field@.data_type) == Some(e@),
        },
    decreases field@.data_type.depth(), 0nat,
{
    proof {
        lemma_logical_type(field@.data_type);
        lemma_schema_logical(types@, field@, field@.data_type);
    }
    match field.data_type.to_logical_type() {
        DataType::Null
        | DataType::Boolean
        | DataType::Int8
        | DataType::Int16
        | DataType::Int32
        | DataType::Date32
        | DataType::Time32(_)
        | DataType::Int64
        | DataType::Date64
        | DataType::Timestamp(_, _)
        | DataType::Time64(_)
        | DataType::Duration(_)
        | DataType::UInt8
        | DataType::UInt16
        | DataType::UInt64
        | DataType::Float32
        | DataType::Float64
        | DataType::Binary
        | DataType::Utf8
        | DataType::LargeBinary
        | DataType::LargeUtf8 => Ok(()),
        DataType::Interval(unit) => match unit {
            IntervalUnit::YearMonth => Ok(()),
            _ => Err(
                Error::NotYetImplemented(
                    Unsupported::Type(field.data_type.to_logical_type().clone()),
                ),
            ),
        },
        DataType::UInt32 => match types[types.len() - 1].physical_type {
            ParquetPhysicalType::Int32 | ParquetPhysicalType::Int64 => Ok(()),
            other => Err(Error::NotYetImplemented(Unsupported::UInt32From(other))),
        },
        DataType::Dictionary(_, values, _) => check_dictionary(values),
        DataType::List(inner)
        | DataType::LargeList(inner)
        | DataType::FixedSizeList(inner, _) => check_schema(types, inner),
        DataType::MapOf(inner, _) => {
            match check_schema(types, inner) {
                Ok(_) => {},
                Err(e) => {
                    return Err(e);
                },
            }
            proof {
                lemma_logical_type(inner@.data_type);
            }
            let pairs = match inner.data_type.to_logical_type() {
                DataType::Struct(entries) => {
                    proof {
                        lemma_fields_view(*entries);
                    }
                    entries.len() == 2
                },
                _ => false,
            };
            if pairs {
                Ok(())
            } else {
                Err(Error::InvalidArgumentError(Invalid::MapEntries))
            }
        },
        DataType::Decimal(_, _) => match types[types.len() - 1].physical_type {
            ParquetPhysicalType::Int32 | ParquetPhysicalType::Int64 => Ok(()),
            ParquetPhysicalType::FixedLenByteArray(n) => if n > 16 {
                Err(Error::InvalidArgumentError(Invalid::Decimal128Width(n)))
            } else {
                Ok(())
            },
            other => Err(Error::NotYetImplemented(Unsupported::DecimalFrom(other))),
        },
        DataType::Decimal256(_, _) => match types[types.len() - 1].physical_type {
            ParquetPhysicalType::Int32 | ParquetPhysicalType::Int64 => Ok(()),
            ParquetPhysicalType::FixedLenByteArray(n) => if n > 32 {
                Err(Error::InvalidArgumentError(Invalid::Decimal256Width(n)))
            } else {
                Ok(())
            },
            other => Err(Error::NotYetImplemented(Unsupported::DecimalFrom(other))),
        },
        DataType::Struct(fields) => {
            proof {
                lemma_fields_view(*fields);
            }
            check_fields(types, fields)
        },
        other => Err(Error::NotYetImplemented(Unsupported::Type(other.clone()))),
    }
}

/// Walks the fields of a struct, from the last to the first, for a field
/// that cannot be decoded.
#[verifier::rlimit(30)]
fn check_fields(types: &Vec<ParquetType>, fields: &Vec<Field>) -> (res: Result<(), Error>)
    requires
        crate::datatypes::fields_n_columns(fields_view(fields@)) <= types.len(),
    ensures
        match res {
            Ok(_) => fields_error(types@, fields_view(fields@)) is None,
            Err(e) => fields_error(types@, fields_view(fields@)) == Some(e@),
        },
    decreases crate::datatypes::fields_depth(fields_view(fields@)), 1nat,
{
    let ghost all_fields = fields_view(fields@);
    let mut left = clone_types(types);
    let mut i: usize = fields.len();
    proof {
        assert(all_fields.subrange(0, fields.len() as int) =~= all_fields);
    }
    while i > 0
        invariant
            i <= fields.len(),
            all_fields == fields_view(fields@),
            crate::datatypes::fields_n_columns(all_fields.subrange(0, i as int)) <= left.len(),
            fields_error(types@, all_fields) == fields_error(
                left@,
                all_fields.subrange(0, i as int),
            ),
        decreases i,
    {
        let ghost upper = all_fields.subrange(0, i as int);
        let ghost before = left@;
        i = i - 1;
        let f = &fields[i];
        proof {
            lemma_fields_n_columns_step(all_fields, i + 1);
            lemma_fields_depth(all_fields, i as int);
            assert(upper.last() == all_fields[i as int]);
            assert(upper.drop_last() =~= all_fields.subrange(0, i as int));
            assert(f@ == all_fields[i as int]);
        }
        let n = n_columns(&f.data_type);
        let child = left.split_off(left.len() - n);
        proof {
            assert(child@ =~= tail(before, n as int));
            assert(left@ =~= front(before, n as int));
        }
        match check_schema(&child, f) {
            Ok(_) => {},
            Err(e) => {
                return Err(e);
            },
        }
    }
    proof {
        assert(all_fields.subrange(0, 0) =~= Seq::<FieldView>::empty());
    }
    Ok(())
}

/// A copy of a nesting context.
fn clone_init(init: &Vec<InitNested>) -> (res: Vec<InitNested>)
    ensures
        res@ == init@,
{
    let mut res: Vec<InitNested> = Vec::new();
    let mut i: usize = 0;
    while i < init.len()
        invariant
            i <= init.len(),
            res@ == init@.subrange(0, i as int),
        decreases init.len() - i,
    {
        res.push(init[i]);
        i += 1;
        assert(res@ =~= init@.subrange(0, i as int));
    }
    assert(init@.subrange(0, i as int) =~= init@);
    res
}

/// The chunks of the fields of a struct: those of the first fields,
/// followed by those of the fields after them.
pub open spec fn with_fields(
    first: Result<Seq<Seq<(Seq<NestedView>, ArrayView)>>, ErrorView>,
    later: Seq<Seq<(Seq<NestedView>, ArrayView)>>,
) -> Result<Seq<Seq<(Seq<NestedView>, ArrayView)>>, ErrorView> {
    match first {
        Ok(chunks) => Ok(chunks + later),
        Err(e) => Err(e),
    }
}

/// The chunks of a struct are in order under the context above the struct,
/// where those of its fields are in order under the context of the fields.
pub proof fn lemma_struct_chunks(
    children: Seq<Seq<(Seq<NestedView>, ArrayView)>>,
    data_type: DataTypeView,
    init: Seq<InitNested>,
)
    requires
        init.len() > 0,
        init.last() is Struct,
        forall|i: int| 0 <= i < children.len() ==> all_ok(#[trigger] children[i], init),
        struct_chunks(children, data_type) is Ok,
    ensures
        all_ok(struct_chunks(children, data_type)->Ok_0, init.drop_last()),
{
    let items = struct_chunks(children, data_type)->Ok_0;
    assert forall|k: int| 0 <= k < items.len() implies chunk_ok(
        #[trigger] items[k],
        init.drop_last(),
    ) by {
        let arrays = row_arrays(children, k);
        let last = children.len() - 1;
        let nested = children.last()[k].0;
        assert(struct_chunk(children, data_type, k) is Ok);
        assert forall|i: int| 0 <= i < arrays.len() implies (#[trigger] arrays[i]).wf()
            && arrays[i].offsets_cover() by {
            assert(all_ok(children[i], init));
            assert(chunk_ok(children[i][k], init));
        }
        assert(all_ok(children[last], init));
        assert(chunk_ok(children[last][k], init));
        assert(arrays[last] == children[last][k].1);
        assert(nested.last().init == init.last());
        lemma_struct_of(arrays, nested, data_type, children[last][k].1.len());
    }
}

/// Decodes a field of the schema from the leaf columns that it owns, the
/// last of `columns`, into chunks of rows.
///
/// `types` and `num_values` run parallel to `columns`: the physical type of
/// each column and the number of its entries that are to be decoded. `init`
/// is the nesting context above the field. Every chunk holds at most
/// `chunk_size` rows, or all `num_rows` rows where no chunk size is given.
///
/// A schema that cannot be decoded is refused before any column is read.
#[verifier::rlimit(50)]
#[verifier::spinoff_prover]
pub fn columns_to_iter_recursive(
    columns: Vec<Pages>,
    types: Vec<ParquetType>,
    field: Field,
    init: Vec<InitNested>,
    num_rows: usize,
    chunk_size: Option<usize>,
    num_values: Vec<usize>,
    is_parent_nullable: bool,
) -> (res: Result<Vec<(NestedState, Array)>, Error>)
    requires
        chunk_size != Some(0usize),
        field@.data_type.n_columns() <= columns.len(),
        field@.data_type.n_columns() <= types.len(),
        field@.data_type.n_columns() <= num_values.len(),
    ensures
        result_matches(
            res,
            decoded(
                pages_view(columns@),
                types@,
                field@,
                init@,
                num_rows as nat,
                chunk_size,
                num_values@,
                is_parent_nullable,
            ),
        ),
        res matches Ok(items) ==> all_ok(chunks_view(items@), init@),
        res matches Ok(items) ==> forall|k: int|
            0 <= k < items.len() ==> shaped(#[trigger] chunks_view(items@)[k].1, field@.data_type),
    decreases field@.data_type.depth(), 2nat,
{
    match check_schema(&types, &field) {
        Ok(_) => {},
        Err(e) => {
            return Err(e);
        },
    }
    let mut columns = columns;
    let mut types = types;
    let mut init = init;
    let mut num_values = num_values;
    let ghost all_columns = pages_view(columns@);
    let ghost all_types = types@;
    let ghost all_counts = num_values@;
    let ghost context = init@;
    let ghost logical = field@.data_type.to_logical_type();
    let nullable = field.is_nullable;
    proof {
        lemma_logical_type(field@.data_type);
        lemma_schema_logical(all_types, field@, field@.data_type);
        lemma_decode_logical(
            all_columns,
            all_types,
            field@,
            field@.data_type,
            context,
            num_rows as nat,
            chunk_size,
            all_counts,
            is_parent_nullable,
        );
        lemma_decoded_shape(
            all_columns,
            all_types,
            field@,
            context,
            num_rows as nat,
            chunk_size,
            all_counts,
            is_parent_nullable,
        );
    }
    match field.data_type.to_physical_type() {
        PhysicalType::Null => {
            init.push(InitNested::Primitive(nullable));
            types.pop();
            let pages = columns.pop().unwrap();
            let count = num_values.pop().unwrap();
            proof {
                assert(init@.drop_last() =~= context);
                assert(pages@ == all_columns.last());
            }
            null_leaf(pages, init, field.data_type, num_rows, chunk_size, count, is_parent_nullable)
        },
        PhysicalType::Boolean => {
            init.push(InitNested::Primitive(nullable));
            types.pop();
            let pages = columns.pop().unwrap();
            let count = num_values.pop().unwrap();
            proof {
                assert(init@.drop_last() =~= context);
                assert(pages@ == all_columns.last());
            }
            leaf::<Bit>(pages, init, DataType::Boolean, num_rows, chunk_size, count, is_parent_nullable)
        },
        PhysicalType::Primitive(PrimitiveType::Int8) => {
            init.push(InitNested::Primitive(nullable));
            types.pop();
            let pages = columns.pop().unwrap();
            let count = num_values.pop().unwrap();
            proof {
                assert(init@.drop_last() =~= context);
                assert(pages@ == all_columns.last());
            }
            leaf::<Int32ToInt8>(pages, init, field.data_type, num_rows, chunk_size, count, is_parent_nullable)
        },
        PhysicalType::Primitive(PrimitiveType::Int16) => {
            init.push(InitNested::Primitive(nullable));
            types.pop();
            let pages = columns.pop().unwrap();
            let count = num_values.pop().unwrap();
            proof {
                assert(init@.drop_last() =~= context);
                assert(pages@ == all_columns.last());
            }
            leaf::<Int32ToInt16>(pages, init, field.data_type, num_rows, chunk_size, count, is_parent_nullable)
        },
        PhysicalType::Primitive(PrimitiveType::Int32) => {
            init.push(InitNested::Primitive(nullable));
            types.pop();
            let pages = columns.pop().unwrap();
            let count = num_values.pop().unwrap();
            proof {
                assert(init@.drop_last() =~= context);
                assert(pages@ == all_columns.last());
            }
            leaf::<Int32ToInt32>(pages, init, field.data_type, num_rows, chunk_size, count, is_parent_nullable)
        },
        PhysicalType::Primitive(PrimitiveType::Int64) => {
            init.push(InitNested::Primitive(nullable));
            types.pop();
            let pages = columns.pop().unwrap();
            let count = num_values.pop().unwrap();
            proof {
                assert(init@.drop_last() =~= context);
                assert(pages@ == all_columns.last());
            }
            leaf::<Int64ToInt64>(pages, init, field.data_type, num_rows, chunk_size, count, is_parent_nullable)
        },
        PhysicalType::Primitive(PrimitiveType::UInt8) => {
            init.push(InitNested::Primitive(nullable));
            types.pop();
            let pages = columns.pop().unwrap();
            let count = num_values.pop().unwrap();
            proof {
                assert(init@.drop_last() =~= context);
                assert(pages@ == all_columns.last());
            }
            leaf::<Int32ToUInt8>(pages, init, field.data_type, num_rows, chunk_size, count, is_parent_nullable)
        },
        PhysicalType::Primitive(PrimitiveType::UInt16) => {
            init.push(InitNested::Primitive(nullable));
            types.pop();
            let pages = columns.pop().unwrap();
            let count = num_values.pop().unwrap();
            proof {
                assert(init@.drop_last() =~= context);
                assert(pages@ == all_columns.last());
            }
            leaf::<Int32ToUInt16>(pages, init, field.data_type, num_rows, chunk_size, count, is_parent_nullable)
        },
        PhysicalType::Primitive(PrimitiveType::UInt32) => {
            init.push(InitNested::Primitive(nullable));
            let type_ = types.pop().unwrap();
            proof {
                assert(init@.drop_last() =~= context);
            }
            match type_.physical_type {
                ParquetPhysicalType::Int32 => {
                    let pages = columns.pop().unwrap();
                    let count = num_values.pop().unwrap();
                    assert(pages@ == all_columns.last());
                    leaf::<Int32ToUInt32>(
                        pages,
                        init,
                        field.data_type,
                        num_rows,
                        chunk_size,
                        count,
                        is_parent_nullable,
                    )
                },
                // some writers store unsigned 32-bit integers as 64-bit ones
                ParquetPhysicalType::Int64 => {
                    let pages = columns.pop().unwrap();
                    let count = num_values.pop().unwrap();
                    assert(pages@ == all_columns.last());
                    leaf::<Int64ToUInt32>(
                        pages,
                        init,
                        field.data_type,
                        num_rows,
                        chunk_size,
                        count,
                        is_parent_nullable,
                    )
                },
                other => Err(Error::NotYetImplemented(Unsupported::UInt32From(other))),
            }
        },
        PhysicalType::Primitive(PrimitiveType::UInt64) => {
            init.push(InitNested::Primitive(nullable));
            types.pop();
            let pages = columns.pop().unwrap();
            let count = num_values.pop().unwrap();
            proof {
                assert(init@.drop_last() =~= context);
                assert(pages@ == all_columns.last());
            }
            leaf::<Int64ToUInt64>(pages, init, field.data_type, num_rows, chunk_size, count, is_parent_nullable)
        },
        PhysicalType::Primitive(PrimitiveType::Float32) => {
            init.push(InitNested::Primitive(nullable));
            types.pop();
            let pages = columns.pop().unwrap();
            let count = num_values.pop().unwrap();
            proof {
                assert(init@.drop_last() =~= context);
                assert(pages@ == all_columns.last());
            }
            leaf::<Float32ToFloat32>(pages, init, field.data_type, num_rows, chunk_size, count, is_parent_nullable)
        },
        PhysicalType::Primitive(PrimitiveType::Float64) => {
            init.push(InitNested::Primitive(nullable));
            types.pop();
            let pages = columns.pop().unwrap();
            let count = num_values.pop().unwrap();
            proof {
                assert(init@.drop_last() =~= context);
                assert(pages@ == all_columns.last());
            }
            leaf::<Float64ToFloat64>(pages, init, field.data_type, num_rows, chunk_size, count, is_parent_nullable)
        },
        PhysicalType::Binary | PhysicalType::Utf8 => {
            init.push(InitNested::Primitive(nullable));
            types.pop();
            let pages = columns.pop().unwrap();
            let count = num_values.pop().unwrap();
            proof {
                assert(init@.drop_last() =~= context);
                assert(pages@ == all_columns.last());
            }
            binary_leaf(pages, init, field.data_type, num_rows, chunk_size, count, is_parent_nullable)
        },
        PhysicalType::LargeBinary | PhysicalType::LargeUtf8 => {
            init.push(InitNested::Primitive(nullable));
            types.pop();
            let pages = columns.pop().unwrap();
            let count = num_values.pop().unwrap();
            proof {
                assert(init@.drop_last() =~= context);
                assert(pages@ == all_columns.last());
            }
            binary_leaf(pages, init, field.data_type, num_rows, chunk_size, count, is_parent_nullable)
        },
        _ => match field.data_type.to_logical_type() {
            DataType::Dictionary(key_type, _, _) => {
                // the number of values of the column is not passed on to the
                // decoder of dictionaries
                init.push(InitNested::Primitive(nullable));
                let type_ = types.pop().unwrap();
                let iter = columns.pop().unwrap();
                let data_type = field.data_type.clone();
                proof {
                    assert(init@.drop_last() =~= context);
                    assert(iter@ == all_columns.last());
                }
                match key_type {
                    IntegerType::Int8 => dict_read::<Int8Key>(
                        iter,
                        init,
                        &type_,
                        data_type,
                        num_rows,
                        chunk_size,
                    ),
                    IntegerType::Int16 => dict_read::<Int16Key>(
                        iter,
                        init,
                        &type_,
                        data_type,
                        num_rows,
                        chunk_size,
                    ),
                    IntegerType::Int32 => dict_read::<Int32Key>(
                        iter,
                        init,
                        &type_,
                        data_type,
                        num_rows,
                        chunk_size,
                    ),
                    IntegerType::Int64 => dict_read::<Int64Key>(
                        iter,
                        init,
                        &type_,
                        data_type,
                        num_rows,
                        chunk_size,
                    ),
                    IntegerType::UInt8 => dict_read::<UInt8Key>(
                        iter,
                        init,
                        &type_,
                        data_type,
                        num_rows,
                        chunk_size,
                    ),
                    IntegerType::UInt16 => dict_read::<UInt16Key>(
                        iter,
                        init,
                        &type_,
                        data_type,
                        num_rows,
                        chunk_size,
                    ),
                    IntegerType::UInt32 => dict_read::<UInt32Key>(
                        iter,
                        init,
                        &type_,
                        data_type,
                        num_rows,
                        chunk_size,
                    ),
                    IntegerType::UInt64 => dict_read::<UInt64Key>(
                        iter,
                        init,
                        &type_,
                        data_type,
                        num_rows,
                        chunk_size,
                    ),
                }
            },
            DataType::List(inner)
            | DataType::LargeList(inner)
            | DataType::FixedSizeList(inner, _) => {
                init.push(InitNested::List(nullable));
                proof {
                    assert(init@.drop_last() =~= context);
                }
                let iter = match columns_to_iter_recursive(
                    columns,
                    types,
                    (**inner).clone(),
                    init,
                    num_rows,
                    chunk_size,
                    num_values,
                    is_parent_nullable || nullable,
                ) {
                    Ok(iter) => iter,
                    Err(e) => {
                        return Err(e);
                    },
                };
                list_iter(
                    &field.data_type,
                    iter,
                    false,
                    Ghost(context.push(InitNested::List(nullable))),
                )
            },
            DataType::Decimal(_, _) => {
                init.push(InitNested::Primitive(nullable));
                let type_ = types.pop().unwrap();
                proof {
                    assert(init@.drop_last() =~= context);
                }
                match type_.physical_type {
                    ParquetPhysicalType::Int32 => {
                        let pages = columns.pop().unwrap();
                        let count = num_values.pop().unwrap();
                        assert(pages@ == all_columns.last());
                        leaf::<Int32ToInt128>(
                            pages,
                            init,
                            field.data_type.clone(),
                            num_rows,
                            chunk_size,
                            count,
                            is_parent_nullable,
                        )
                    },
                    ParquetPhysicalType::Int64 => {
                        let pages = columns.pop().unwrap();
                        let count = num_values.pop().unwrap();
                        assert(pages@ == all_columns.last());
                        leaf::<Int64ToInt128>(
                            pages,
                            init,
                            field.data_type.clone(),
                            num_rows,
                            chunk_size,
                            count,
                            is_parent_nullable,
                        )
                    },
                    ParquetPhysicalType::FixedLenByteArray(n) => {
                        if n > 16 {
                            return Err(Error::InvalidArgumentError(Invalid::Decimal128Width(n)));
                        }
                        let pages = columns.pop().unwrap();
                        let count = num_values.pop().unwrap();
                        assert(pages@ == all_columns.last());
                        decimal::<BytesToInt128>(
                            pages,
                            init,
                            n,
                            field.data_type.clone(),
                            num_rows,
                            chunk_size,
                            count,
                            is_parent_nullable,
                        )
                    },
                    other => Err(Error::NotYetImplemented(Unsupported::DecimalFrom(other))),
                }
            },
            DataType::Decimal256(_, _) => {
                init.push(InitNested::Primitive(nullable));
                let type_ = types.pop().unwrap();
                proof {
                    assert(init@.drop_last() =~= context);
                }
                match type_.physical_type {
                    ParquetPhysicalType::Int32 => {
                        let pages = columns.pop().unwrap();
                        let count = num_values.pop().unwrap();
                        assert(pages@ == all_columns.last());
                        leaf::<Int32ToInt256>(
                            pages,
                            init,
                            field.data_type.clone(),
                            num_rows,
                            chunk_size,
                            count,
                            is_parent_nullable,
                        )
                    },
                    ParquetPhysicalType::Int64 => {
                        let pages = columns.pop().unwrap();
                        let count = num_values.pop().unwrap();
                        assert(pages@ == all_columns.last());
                        leaf::<Int64ToInt256>(
                            pages,
                            init,
                            field.data_type.clone(),
                            num_rows,
                            chunk_size,
                            count,
                            is_parent_nullable,
                        )
                    },
                    ParquetPhysicalType::FixedLenByteArray(n) => {
                        if n > 32 {
                            return Err(Error::InvalidArgumentError(Invalid::Decimal256Width(n)));
                        }
                        let pages = columns.pop().unwrap();
                        let count = num_values.pop().unwrap();
                        assert(pages@ == all_columns.last());
                        if n <= 16 {
                            decimal::<BytesToInt256Narrow>(
                            pages,
                            init,
                            n,
                            field.data_type.clone(),
                            num_rows,
                            chunk_size,
                            count,
                            is_parent_nullable,
                        )
                        } else {
                            decimal::<BytesToInt256>(
                            pages,
                            init,
                            n,
                            field.data_type.clone(),
                            num_rows,
                            chunk_size,
                            count,
                            is_parent_nullable,
                        )
                        }
                    },
                    other => Err(Error::NotYetImplemented(Unsupported::DecimalFrom(other))),
                }
            },
            DataType::Struct(fields) => {
                let ghost all_fields = fields_view(fields@);
                let ghost inner = context.push(InitNested::Struct(nullable));
                proof {
                    lemma_fields_view(*fields);
                    assert(logical == DataTypeView::Struct(all_fields));
                }
                let children = match struct_fields(
                    columns,
                    types,
                    fields,
                    &init,
                    nullable,
                    num_rows,
                    chunk_size,
                    num_values,
                    is_parent_nullable || nullable,
                ) {
                    Ok(children) => children,
                    Err(e) => {
                        return Err(e);
                    },
                };
                proof {
                    assert forall|j: int, k: int|
                        0 <= j < children.len() && 0 <= k < children[j].len() implies (
                    #[trigger] children[j][k]).0@.len() > 0 by {
                        assert(all_ok(columns_view(children@)[j], inner));
                        assert(chunk_ok(columns_view(children@)[j][k], inner));
                    }
                    if struct_chunks(columns_view(children@), DataTypeView::Struct(all_fields)) is Ok {
                        lemma_struct_chunks(
                            columns_view(children@),
                            DataTypeView::Struct(all_fields),
                            inner,
                        );
                        assert(inner.drop_last() =~= context);
                    }
                }
                struct_iter(children, crate::datatypes::clone_fields(fields))
            },
            DataType::MapOf(inner, _) => {
                init.push(InitNested::List(nullable));
                proof {
                    assert(init@.drop_last() =~= context);
                }
                let iter = match columns_to_iter_recursive(
                    columns,
                    types,
                    (**inner).clone(),
                    init,
                    num_rows,
                    chunk_size,
                    num_values,
                    is_parent_nullable || nullable,
                ) {
                    Ok(iter) => iter,
                    Err(e) => {
                        return Err(e);
                    },
                };
                proof {
                    lemma_logical_type(inner@.data_type);
                    assert forall|k: int| 0 <= k < iter.len() implies is_pairs(
                        #[trigger] chunks_view(iter@)[k].1,
                    ) by {
                        assert(shaped(chunks_view(iter@)[k].1, inner@.data_type));
                    }
                }
                list_iter(
                    &field.data_type,
                    iter,
                    true,
                    Ghost(context.push(InitNested::List(nullable))),
                )
            },
            other => Err(Error::NotYetImplemented(Unsupported::Type(other.clone()))),
        },
    }
}


/// Decodes the fields of a struct, from the last field to the first: each
/// from the last of the columns that are left, as many as it owns, under
/// the nesting context extended by the level of the struct.
#[verifier::rlimit(30)]
fn struct_fields(
    columns: Vec<Pages>,
    types: Vec<ParquetType>,
    fields: &Vec<Field>,
    init: &Vec<InitNested>,
    nullable: bool,
    num_rows: usize,
    chunk_size: Option<usize>,
    num_values: Vec<usize>,
    is_parent_nullable: bool,
) -> (res: Result<Vec<Vec<(NestedState, Array)>>, Error>)
    requires
        chunk_size != Some(0usize),
        crate::datatypes::fields_n_columns(fields_view(fields@)) <= columns.len(),
        crate::datatypes::fields_n_columns(fields_view(fields@)) <= types.len(),
        crate::datatypes::fields_n_columns(fields_view(fields@)) <= num_values.len(),
        fields_error(types@, fields_view(fields@)) is None,
    ensures
        match res {
            Ok(children) => decode_fields(
                pages_view(columns@),
                types@,
                fields_view(fields@),
                init@.push(InitNested::Struct(nullable)),
                num_rows as nat,
                chunk_size,
                num_values@,
                is_parent_nullable,
            ) == Ok::<Seq<Seq<(Seq<NestedView>, ArrayView)>>, ErrorView>(columns_view(children@))
                && forall|j: int|
                0 <= j < children.len() ==> all_ok(
                    #[trigger] columns_view(children@)[j],
                    init@.push(InitNested::Struct(nullable)),
                ),
            Err(e) => decode_fields(
                pages_view(columns@),
                types@,
                fields_view(fields@),
                init@.push(InitNested::Struct(nullable)),
                num_rows as nat,
                chunk_size,
                num_values@,
                is_parent_nullable,
            ) == Err::<Seq<Seq<(Seq<NestedView>, ArrayView)>>, ErrorView>(e@),
        },
    decreases crate::datatypes::fields_depth(fields_view(fields@)), 3nat,
{
    let ghost all_fields = fields_view(fields@);
    let ghost inner = init@.push(InitNested::Struct(nullable));
    let ghost goal = decode_fields(
        pages_view(columns@),
        types@,
        all_fields,
        inner,
        num_rows as nat,
        chunk_size,
        num_values@,
        is_parent_nullable,
    );
    let mut left_columns = columns;
    let mut left_types = types;
    let mut left_values = num_values;
    let mut children: Vec<Vec<(NestedState, Array)>> = Vec::new();
    let mut i: usize = fields.len();
    proof {
        assert(all_fields.subrange(0, fields.len() as int) =~= all_fields);
        assert(goal == with_fields(goal, columns_view(children@))) by {
            match goal {
                Ok(first) => {
                    assert(first + columns_view(children@) =~= first);
                },
                Err(_) => {},
            }
        }
    }
    while i > 0
        invariant
            i <= fields.len(),
            chunk_size != Some(0usize),
            all_fields == fields_view(fields@),
            inner == init@.push(InitNested::Struct(nullable)),
            crate::datatypes::fields_n_columns(all_fields.subrange(0, i as int))
                <= left_columns.len(),
            crate::datatypes::fields_n_columns(all_fields.subrange(0, i as int)) <= left_types.len(),
            crate::datatypes::fields_n_columns(all_fields.subrange(0, i as int))
                <= left_values.len(),
            fields_error(left_types@, all_fields.subrange(0, i as int)) is None,
            goal == decode_fields(
                pages_view(columns@),
                types@,
                all_fields,
                inner,
                num_rows as nat,
                chunk_size,
                num_values@,
                is_parent_nullable,
            ),
            goal == with_fields(
                decode_fields(
                    pages_view(left_columns@),
                    left_types@,
                    all_fields.subrange(0, i as int),
                    inner,
                    num_rows as nat,
                    chunk_size,
                    left_values@,
                    is_parent_nullable,
                ),
                columns_view(children@),
            ),
            forall|j: int|
                0 <= j < children.len() ==> all_ok(#[trigger] columns_view(children@)[j], inner),
        decreases i,
    {
        let ghost upper = all_fields.subrange(0, i as int);
        let ghost columns_before = pages_view(left_columns@);
        let ghost types_before = left_types@;
        let ghost counts_before = left_values@;
        let ghost children_before = columns_view(children@);
        i = i - 1;
        let f = &fields[i];
        proof {
            lemma_fields_n_columns_step(all_fields, i + 1);
            lemma_fields_depth(all_fields, i as int);
            assert(upper.last() == all_fields[i as int]);
            assert(upper.drop_last() =~= all_fields.subrange(0, i as int));
            assert(f@ == all_fields[i as int]);
        }
        let mut child_init = clone_init(init);
        child_init.push(InitNested::Struct(nullable));
        let n = n_columns(&f.data_type);
        let child_columns = left_columns.split_off(left_columns.len() - n);
        let child_types = left_types.split_off(left_types.len() - n);
        let child_values = left_values.split_off(left_values.len() - n);
        proof {
            assert(pages_view(child_columns@) =~= tail(columns_before, n as int));
            assert(pages_view(left_columns@) =~= front(columns_before, n as int));
            assert(child_types@ =~= tail(types_before, n as int));
            assert(left_types@ =~= front(types_before, n as int));
            assert(child_values@ =~= tail(counts_before, n as int));
            assert(left_values@ =~= front(counts_before, n as int));
        }
        let child = match columns_to_iter_recursive(
            child_columns,
            child_types,
            f.clone(),
            child_init,
            num_rows,
            chunk_size,
            child_values,
            is_parent_nullable,
        ) {
            Ok(child) => child,
            Err(e) => {
                return Err(e);
            },
        };
        let ghost decoded = chunks_view(child@);
        children.insert(0, child);
        proof {
            let after = columns_view(children@);
            assert(after =~= seq![decoded] + children_before);
            let rest = decode_fields(
                pages_view(left_columns@),
                left_types@,
                all_fields.subrange(0, i as int),
                inner,
                num_rows as nat,
                chunk_size,
                left_values@,
                is_parent_nullable,
            );
            match rest {
                Ok(first) => {
                    assert(first.push(decoded) + children_before =~= first + after);
                },
                Err(_) => {},
            }
            assert forall|j: int| 0 <= j < children.len() implies all_ok(
                #[trigger] after[j],
                inner,
            ) by {
                if j > 0 {
                    assert(after[j] == children_before[j - 1]);
                }
            }
        }
    }
    proof {
        assert(all_fields.subrange(0, 0) =~= Seq::<FieldView>::empty());
        assert(Seq::<Seq<(Seq<NestedView>, ArrayView)>>::empty() + columns_view(children@)
            =~= columns_view(children@));
    }
    Ok(children)
}

} // verus!
