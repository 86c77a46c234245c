//! How the chunks of a decoded field follow the levels of its last leaf
//! column: the state of a chunk is the state of that column above the
//! field, and the array has one element for every item that the column
//! adds at the depth of the field. From this it follows that the nesting
//! context is left as it was given, that the offsets of a list never
//! decrease, that a null list is empty, and that a field at the root
//! decodes to one element for each row.

use crate::array::{non_decreasing, ArrayView, DataArrayView, NativeType};
use crate::datatypes::{fields_n_columns, DataTypeView, FieldView, IntervalUnit};
use crate::deserialize::binary::Bytes;
use crate::deserialize::boolean::Bit;
use crate::deserialize::decimal::{BytesCast, BytesToInt128, BytesToInt256, BytesToInt256Narrow};
use crate::deserialize::dictionary::{
    key_chunks, DictionaryKey, Int16Key, Int32Key, Int64Key, Int8Key, UInt16Key, UInt32Key,
    UInt64Key, UInt8Key,
};
use crate::deserialize::fixed_size_binary::fixed_result;
use crate::deserialize::nested::{
    create_list_spec, create_map_spec, decimal_spec, decode, decode_as, decode_fields, decoded,
    dict_read_spec, leaf_spec, lemma_decode_fields_len, lemma_decode_logical, list_chunks,
    map_chunks, null_spec, tail,
};
use crate::deserialize::primitive::{
    Float32ToFloat32, Float64ToFloat64, Int32ToInt128, Int32ToInt16, Int32ToInt256, Int32ToInt32,
    Int32ToInt8, Int32ToUInt16, Int32ToUInt32, Int32ToUInt8, Int64ToInt128, Int64ToInt256,
    Int64ToInt64, Int64ToUInt32, Int64ToUInt64,
};
use crate::deserialize::struct_::{row_arrays, struct_chunk, struct_chunks};
use crate::nested_utils::{
    chunks, count_rows, counted_levels, item_end, leaf_result, lemma_chunks_bounds,
    lemma_level_len_bound, lemma_level_offsets, lemma_nests_within, lemma_null_rows_are_empty,
    lemma_rows,
    lemma_struct_level_len, level_len, level_offsets, level_state, level_validity, nests_at,
    state_of, InitNested, NestedView, ValueCast,
};
use crate::page::{Level, PagesView, ParquetPhysicalType, ParquetType};
use vstd::prelude::*;

verus! {

/// The entries of chunk `k` of a column.
pub open spec fn chunk_levels(
    es: Seq<Level>,
    num_rows: nat,
    chunk_size: Option<usize>,
    k: int,
) -> Seq<Level> {
    es.subrange(chunks(es, num_rows, chunk_size)[k].0, chunks(es, num_rows, chunk_size)[k].1)
}

/// Whether the chunks follow the entries `es` of a column of the nesting
/// context `init` at the depth `depth`: there is one chunk for each chunk of
/// the entries, its state is the state of the entries above the depth, and
/// its array has one element for every item that the entries add at the
/// depth.
pub open spec fn follows(
    items: Seq<(Seq<NestedView>, ArrayView)>,
    init: Seq<InitNested>,
    es: Seq<Level>,
    depth: int,
    num_rows: nat,
    chunk_size: Option<usize>,
) -> bool {
    &&& items.len() == chunks(es, num_rows, chunk_size).len()
    &&& forall|k: int|
        0 <= k < items.len() ==> (#[trigger] items[k]).0 == state_of(
            init,
            chunk_levels(es, num_rows, chunk_size, k),
        ).subrange(0, depth) && items[k].1.len() == level_len(
            init,
            chunk_levels(es, num_rows, chunk_size, k),
            depth,
        )
}

/// Whether every array of the chunks is of the type `data_type` and has no
/// children: it is its own and only leaf.
pub open spec fn plain(items: Seq<(Seq<NestedView>, ArrayView)>, data_type: DataTypeView) -> bool {
    forall|k: int|
        0 <= k < items.len() ==> (#[trigger] items[k]).1.leaves() == seq![items[k].1]
            && items[k].1.data_type() == data_type
}

/// The type of the arrays of a field without children that is dispatched
/// as `data_type`: the type of the field, but for booleans, whose arrays
/// are of the boolean type itself.
pub open spec fn leaf_type(field: FieldView, data_type: DataTypeView) -> DataTypeView {
    if data_type is Boolean {
        DataTypeView::Boolean
    } else {
        field.data_type
    }
}

/// The chunks of a leaf follow the entries of its column, and their arrays
/// are of the type given and have no children.
pub proof fn lemma_leaf_follows<C: ValueCast>(
    pages: PagesView,
    init: Seq<InitNested>,
    data_type: DataTypeView,
    num_rows: nat,
    chunk_size: Option<usize>,
    num_values: nat,
    is_parent_nullable: bool,
)
    requires
        init.len() > 0,
    ensures
        leaf_spec::<C>(
            pages,
            init,
            data_type,
            num_rows,
            chunk_size,
            num_values,
            is_parent_nullable,
        ) matches Ok(items) ==> plain(items, data_type) && follows(
            items,
            init,
            counted_levels(pages.levels, num_values),
            init.len() - 1,
            num_rows,
            chunk_size,
        ),
{
    match leaf_spec::<C>(
        pages,
        init,
        data_type,
        num_rows,
        chunk_size,
        num_values,
        is_parent_nullable,
    ) {
        Ok(items) => {
            let es = counted_levels(pages.levels, num_values);
            let raw = leaf_result::<C>(
                pages,
                init,
                data_type,
                num_rows,
                chunk_size,
                num_values,
                is_parent_nullable,
            )->Ok_0;
            assert forall|k: int| 0 <= k < items.len() implies (#[trigger] items[k]).0 == state_of(
                init,
                chunk_levels(es, num_rows, chunk_size, k),
            ).subrange(0, init.len() - 1) && items[k].1.len() == level_len(
                init,
                chunk_levels(es, num_rows, chunk_size, k),
                init.len() - 1,
            ) && items[k].1.leaves() == seq![items[k].1] && items[k].1.data_type()
            == data_type by {
                let part = chunk_levels(es, num_rows, chunk_size, k);
                C::To::lemma_array_of(raw[k].1);
                lemma_level_len_bound(init, part, init.len() - 1);
                assert(state_of(init, part).drop_last() =~= state_of(init, part).subrange(
                    0,
                    init.len() - 1,
                ));
            }
        },
        Err(_) => {},
    }
}

/// The chunks of a leaf of nulls follow the entries of its column, and
/// their arrays are of the type given and have no children.
pub proof fn lemma_null_follows(
    pages: PagesView,
    init: Seq<InitNested>,
    data_type: DataTypeView,
    num_rows: nat,
    chunk_size: Option<usize>,
    num_values: nat,
)
    requires
        init.len() > 0,
    ensures
        follows(
            null_spec(pages, init, data_type, num_rows, chunk_size, num_values)->Ok_0,
            init,
            counted_levels(pages.levels, num_values),
            init.len() - 1,
            num_rows,
            chunk_size,
        ),
        plain(
            null_spec(pages, init, data_type, num_rows, chunk_size, num_values)->Ok_0,
            data_type,
        ),
{
    let items = null_spec(pages, init, data_type, num_rows, chunk_size, num_values)->Ok_0;
    let es = counted_levels(pages.levels, num_values);
    assert forall|k: int| 0 <= k < items.len() implies (#[trigger] items[k]).0 == state_of(
        init,
        chunk_levels(es, num_rows, chunk_size, k),
    ).subrange(0, init.len() - 1) && items[k].1.len() == level_len(
        init,
        chunk_levels(es, num_rows, chunk_size, k),
        init.len() - 1,
    ) && items[k].1.leaves() == seq![items[k].1] && items[k].1.data_type()
            == data_type by {
        let part = chunk_levels(es, num_rows, chunk_size, k);
        lemma_level_len_bound(init, part, init.len() - 1);
        assert(state_of(init, part).drop_last() =~= state_of(init, part).subrange(
            0,
            init.len() - 1,
        ));
    }
}

/// The chunks of a decimal stored as byte strings follow the entries of its
/// column, and their arrays are of the type given and have no children.
pub proof fn lemma_decimal_follows<B: BytesCast>(
    pages: PagesView,
    init: Seq<InitNested>,
    n: usize,
    data_type: DataTypeView,
    num_rows: nat,
    chunk_size: Option<usize>,
    num_values: nat,
    is_parent_nullable: bool,
)
    requires
        init.len() > 0,
    ensures
        decimal_spec::<B>(
            pages,
            init,
            n,
            data_type,
            num_rows,
            chunk_size,
            num_values,
            is_parent_nullable,
        ) matches Ok(items) ==> plain(items, data_type) && follows(
            items,
            init,
            counted_levels(pages.levels, num_values),
            init.len() - 1,
            num_rows,
            chunk_size,
        ),
{
    match decimal_spec::<B>(
        pages,
        init,
        n,
        data_type,
        num_rows,
        chunk_size,
        num_values,
        is_parent_nullable,
    ) {
        Ok(items) => {
            let es = counted_levels(pages.levels, num_values);
            let raw = fixed_result(
                pages,
                init,
                n,
                DataTypeView::FixedSizeBinary(n),
                num_rows,
                chunk_size,
                num_values,
                is_parent_nullable,
            )->Ok_0;
            assert forall|k: int| 0 <= k < items.len() implies (#[trigger] items[k]).0 == state_of(
                init,
                chunk_levels(es, num_rows, chunk_size, k),
            ).subrange(0, init.len() - 1) && items[k].1.len() == level_len(
                init,
                chunk_levels(es, num_rows, chunk_size, k),
                init.len() - 1,
            ) && items[k].1.leaves() == seq![items[k].1] && items[k].1.data_type()
            == data_type by {
                let part = chunk_levels(es, num_rows, chunk_size, k);
                B::To::lemma_array_of(
                    DataArrayView {
                        data_type,
                        values: Seq::new(
                            raw[k].1->values.len(),
                            |i: int| B::convert_spec(raw[k].1->values[i]),
                        ),
                        validity: raw[k].1.validity(),
                    },
                );
                lemma_level_len_bound(init, part, init.len() - 1);
                assert(state_of(init, part).drop_last() =~= state_of(init, part).subrange(
                    0,
                    init.len() - 1,
                ));
            }
        },
        Err(_) => {},
    }
}

/// The chunks of a dictionary-encoded leaf follow the entries of its
/// column, all of which are decoded, and their arrays are of the type given
/// and have no children.
pub proof fn lemma_dictionary_follows<K: DictionaryKey>(
    pages: PagesView,
    init: Seq<InitNested>,
    data_type: DataTypeView,
    num_rows: nat,
    chunk_size: Option<usize>,
)
    requires
        init.len() > 0,
    ensures
        dict_read_spec::<K>(pages, init, data_type, num_rows, chunk_size) matches Ok(items)
            ==> plain(items, data_type) && follows(
            items,
            init,
            counted_levels(pages.levels, usize::MAX as nat),
            init.len() - 1,
            num_rows,
            chunk_size,
        ),
{
    match dict_read_spec::<K>(pages, init, data_type, num_rows, chunk_size) {
        Ok(items) => {
            let es = counted_levels(pages.levels, usize::MAX as nat);
            let keys = K::select(pages)->Some_0;
            let raw = key_chunks::<K>(pages, keys, init, num_rows, chunk_size);
            assert forall|k: int| 0 <= k < items.len() implies (#[trigger] items[k]).0 == state_of(
                init,
                chunk_levels(es, num_rows, chunk_size, k),
            ).subrange(0, init.len() - 1) && items[k].1.len() == level_len(
                init,
                chunk_levels(es, num_rows, chunk_size, k),
                init.len() - 1,
            ) && items[k].1.leaves() == seq![items[k].1] && items[k].1.data_type()
            == data_type by {
                let part = chunk_levels(es, num_rows, chunk_size, k);
                K::To::lemma_array_of(raw[k].1);
                lemma_level_len_bound(init, part, init.len() - 1);
                assert(state_of(init, part).drop_last() =~= state_of(init, part).subrange(
                    0,
                    init.len() - 1,
                ));
            }
        },
        Err(_) => {},
    }
}

/// The nesting context of the last leaf column of a field: the context of
/// the field, extended by a level for the field and for every type on the
/// way down to that leaf, through the item of a list and the last field of
/// a struct.
pub open spec fn last_leaf_init(
    field: FieldView,
    data_type: DataTypeView,
    init: Seq<InitNested>,
) -> Seq<InitNested>
    decreases data_type,
{
    match data_type {
        DataTypeView::Extension(_, inner, _) => last_leaf_init(field, *inner, init),
        DataTypeView::List(inner)
        | DataTypeView::LargeList(inner)
        | DataTypeView::FixedSizeList(inner, _)
        | DataTypeView::MapOf(inner, _) => last_leaf_init(
            *inner,
            inner.data_type,
            init.push(InitNested::List(field.is_nullable)),
        ),
        DataTypeView::Struct(fields) => if fields.len() == 0 {
            init.push(InitNested::Struct(field.is_nullable))
        } else {
            last_leaf_init(
                fields.last(),
                fields.last().data_type,
                init.push(InitNested::Struct(field.is_nullable)),
            )
        },
        _ => init.push(InitNested::Primitive(field.is_nullable)),
    }
}

/// Whether the last leaf column of a type is dictionary-encoded: all the
/// entries of such a column are decoded, whatever number of values is
/// given for it.
pub open spec fn last_leaf_is_dictionary(data_type: DataTypeView) -> bool
    decreases data_type,
{
    match data_type {
        DataTypeView::Extension(_, inner, _) => last_leaf_is_dictionary(*inner),
        DataTypeView::List(inner)
        | DataTypeView::LargeList(inner)
        | DataTypeView::FixedSizeList(inner, _)
        | DataTypeView::MapOf(inner, _) => last_leaf_is_dictionary(inner.data_type),
        DataTypeView::Struct(fields) => fields.len() > 0 && last_leaf_is_dictionary(
            fields.last().data_type,
        ),
        DataTypeView::Dictionary(_, _, _) => true,
        _ => false,
    }
}

/// The entries of the last leaf column of a type that are decoded.
pub open spec fn last_leaf_levels(
    columns: Seq<PagesView>,
    data_type: DataTypeView,
    num_values: Seq<usize>,
) -> Seq<Level> {
    counted_levels(
        columns.last().levels,
        if last_leaf_is_dictionary(data_type) {
            usize::MAX as nat
        } else {
            num_values.last() as nat
        },
    )
}

/// The context of the last leaf column of a field begins with the context
/// of the field and goes on with the level of the field.
pub proof fn lemma_last_leaf_init(field: FieldView, data_type: DataTypeView, init: Seq<InitNested>)
    ensures
        last_leaf_init(field, data_type, init).len() > init.len(),
        last_leaf_init(field, data_type, init).subrange(0, init.len() as int) == init,
        last_leaf_init(field, data_type, init)[init.len() as int].nullable() == field.is_nullable,
        last_leaf_init(field, data_type, init)[init.len() as int] is List == (
        data_type.to_logical_type() is List || data_type.to_logical_type() is LargeList
            || data_type.to_logical_type() is FixedSizeList || data_type.to_logical_type() is MapOf),
        last_leaf_init(field, data_type, init)[init.len() as int] is Struct
            == data_type.to_logical_type() is Struct,
    decreases data_type,
{
    let here = last_leaf_init(field, data_type, init);
    match data_type {
        DataTypeView::Extension(_, inner, _) => {
            lemma_last_leaf_init(field, *inner, init);
        },
        DataTypeView::List(inner)
        | DataTypeView::LargeList(inner)
        | DataTypeView::FixedSizeList(inner, _)
        | DataTypeView::MapOf(inner, _) => {
            let below = init.push(InitNested::List(field.is_nullable));
            lemma_last_leaf_init(*inner, inner.data_type, below);
            assert(here.subrange(0, below.len() as int)[init.len() as int] == below[init.len() as int]);
            assert(here.subrange(0, init.len() as int) =~= here.subrange(
                0,
                below.len() as int,
            ).subrange(0, init.len() as int));
            assert(below.subrange(0, init.len() as int) =~= init);
        },
        DataTypeView::Struct(fields) => {
            let below = init.push(InitNested::Struct(field.is_nullable));
            if fields.len() > 0 {
                lemma_last_leaf_init(fields.last(), fields.last().data_type, below);
                assert(here.subrange(0, below.len() as int)[init.len() as int]
                    == below[init.len() as int]);
                assert(here.subrange(0, init.len() as int) =~= here.subrange(
                    0,
                    below.len() as int,
                ).subrange(0, init.len() as int));
            }
            assert(below.subrange(0, init.len() as int) =~= init);
        },
        _ => {
            assert(here.subrange(0, init.len() as int) =~= init);
        },
    }
}

/// Whether the type has no children: it is decoded from one column.
pub open spec fn is_leaf(data_type: DataTypeView) -> bool {
    match data_type {
        DataTypeView::Extension(_, _, _)
        | DataTypeView::List(_)
        | DataTypeView::LargeList(_)
        | DataTypeView::FixedSizeList(_, _)
        | DataTypeView::MapOf(_, _)
        | DataTypeView::Struct(_) => false,
        _ => true,
    }
}

/// The chunks of a field without children follow the entries of its
/// column, and their arrays are of the type of the leaf and have no
/// children.
pub proof fn lemma_leaf_decode_follows(
    columns: Seq<PagesView>,
    types: Seq<ParquetType>,
    field: FieldView,
    data_type: DataTypeView,
    init: Seq<InitNested>,
    num_rows: nat,
    chunk_size: Option<usize>,
    num_values: Seq<usize>,
    is_parent_nullable: bool,
)
    requires
        is_leaf(data_type),
    ensures
        decode_as(
            columns,
            types,
            field,
            data_type,
            init,
            num_rows,
            chunk_size,
            num_values,
            is_parent_nullable,
        ) matches Ok(items) ==> plain(items, leaf_type(field, data_type)) && follows(
            items,
            init.push(InitNested::Primitive(field.is_nullable)),
            last_leaf_levels(columns, data_type, num_values),
            init.len() as int,
            num_rows,
            chunk_size,
        ),
{
    let pages = columns.last();
    let physical = types.last().physical_type;
    let count = num_values.last() as nat;
    let leaf = init.push(InitNested::Primitive(field.is_nullable));
    match data_type {
        DataTypeView::Null => {
            lemma_null_follows(pages, leaf, field.data_type, num_rows, chunk_size, count);
        },
        DataTypeView::Boolean => {
            lemma_leaf_follows::<Bit>(
                pages,
                leaf,
                DataTypeView::Boolean,
                num_rows,
                chunk_size,
                count,
                is_parent_nullable,
            );
        },
        DataTypeView::Int8 => {
            lemma_leaf_follows::<Int32ToInt8>(
                pages,
                leaf,
                field.data_type,
                num_rows,
                chunk_size,
                count,
                is_parent_nullable,
            );
        },
        DataTypeView::Int16 => {
            lemma_leaf_follows::<Int32ToInt16>(
                pages,
                leaf,
                field.data_type,
                num_rows,
                chunk_size,
                count,
                is_parent_nullable,
            );
        },
        DataTypeView::UInt8 => {
            lemma_leaf_follows::<Int32ToUInt8>(
                pages,
                leaf,
                field.data_type,
                num_rows,
                chunk_size,
                count,
                is_parent_nullable,
            );
        },
        DataTypeView::UInt16 => {
            lemma_leaf_follows::<Int32ToUInt16>(
                pages,
                leaf,
                field.data_type,
                num_rows,
                chunk_size,
                count,
                is_parent_nullable,
            );
        },
        DataTypeView::Int32
        | DataTypeView::Date32
        | DataTypeView::Time32(_)
        | DataTypeView::Interval(IntervalUnit::YearMonth) => {
            lemma_leaf_follows::<Int32ToInt32>(
                pages,
                leaf,
                field.data_type,
                num_rows,
                chunk_size,
                count,
                is_parent_nullable,
            );
        },
        DataTypeView::Int64
        | DataTypeView::Date64
        | DataTypeView::Timestamp(_, _)
        | DataTypeView::Time64(_)
        | DataTypeView::Duration(_) => {
            lemma_leaf_follows::<Int64ToInt64>(
                pages,
                leaf,
                field.data_type,
                num_rows,
                chunk_size,
                count,
                is_parent_nullable,
            );
        },
        DataTypeView::UInt32 => {
            lemma_leaf_follows::<Int32ToUInt32>(
                pages,
                leaf,
                field.data_type,
                num_rows,
                chunk_size,
                count,
                is_parent_nullable,
            );
            lemma_leaf_follows::<Int64ToUInt32>(
                pages,
                leaf,
                field.data_type,
                num_rows,
                chunk_size,
                count,
                is_parent_nullable,
            );
        },
        DataTypeView::UInt64 => {
            lemma_leaf_follows::<Int64ToUInt64>(
                pages,
                leaf,
                field.data_type,
                num_rows,
                chunk_size,
                count,
                is_parent_nullable,
            );
        },
        DataTypeView::Float32 => {
            lemma_leaf_follows::<Float32ToFloat32>(
                pages,
                leaf,
                field.data_type,
                num_rows,
                chunk_size,
                count,
                is_parent_nullable,
            );
        },
        DataTypeView::Float64 => {
            lemma_leaf_follows::<Float64ToFloat64>(
                pages,
                leaf,
                field.data_type,
                num_rows,
                chunk_size,
                count,
                is_parent_nullable,
            );
        },
        DataTypeView::Binary
        | DataTypeView::Utf8
        | DataTypeView::LargeBinary
        | DataTypeView::LargeUtf8 => {
            lemma_leaf_follows::<Bytes>(
                pages,
                leaf,
                field.data_type,
                num_rows,
                chunk_size,
                count,
                is_parent_nullable,
            );
        },
        DataTypeView::Dictionary(_, _, _) => {
            lemma_dictionary_follows::<Int8Key>(pages, leaf, field.data_type, num_rows, chunk_size);
            lemma_dictionary_follows::<Int16Key>(pages, leaf, field.data_type, num_rows, chunk_size);
            lemma_dictionary_follows::<Int32Key>(pages, leaf, field.data_type, num_rows, chunk_size);
            lemma_dictionary_follows::<Int64Key>(pages, leaf, field.data_type, num_rows, chunk_size);
            lemma_dictionary_follows::<UInt8Key>(pages, leaf, field.data_type, num_rows, chunk_size);
            lemma_dictionary_follows::<UInt16Key>(pages, leaf, field.data_type, num_rows, chunk_size);
            lemma_dictionary_follows::<UInt32Key>(pages, leaf, field.data_type, num_rows, chunk_size);
            lemma_dictionary_follows::<UInt64Key>(pages, leaf, field.data_type, num_rows, chunk_size);
        },
        DataTypeView::Decimal(_, _) => {
            lemma_leaf_follows::<Int32ToInt128>(
                pages,
                leaf,
                field.data_type,
                num_rows,
                chunk_size,
                count,
                is_parent_nullable,
            );
            lemma_leaf_follows::<Int64ToInt128>(
                pages,
                leaf,
                field.data_type,
                num_rows,
                chunk_size,
                count,
                is_parent_nullable,
            );
            if let ParquetPhysicalType::FixedLenByteArray(n) = physical {
                lemma_decimal_follows::<BytesToInt128>(
                    pages,
                    leaf,
                    n,
                    field.data_type,
                    num_rows,
                    chunk_size,
                    count,
                    is_parent_nullable,
                );
            }
        },
        DataTypeView::Decimal256(_, _) => {
            lemma_leaf_follows::<Int32ToInt256>(
                pages,
                leaf,
                field.data_type,
                num_rows,
                chunk_size,
                count,
                is_parent_nullable,
            );
            lemma_leaf_follows::<Int64ToInt256>(
                pages,
                leaf,
                field.data_type,
                num_rows,
                chunk_size,
                count,
                is_parent_nullable,
            );
            if let ParquetPhysicalType::FixedLenByteArray(n) = physical {
                lemma_decimal_follows::<BytesToInt256Narrow>(
                    pages,
                    leaf,
                    n,
                    field.data_type,
                    num_rows,
                    chunk_size,
                    count,
                    is_parent_nullable,
                );
                lemma_decimal_follows::<BytesToInt256>(
                    pages,
                    leaf,
                    n,
                    field.data_type,
                    num_rows,
                    chunk_size,
                    count,
                    is_parent_nullable,
                );
            }
        },
        _ => {},
    }
}

/// The chunks of a list follow the entries that the chunks of its item
/// follow, one level higher.
pub proof fn lemma_list_chunks_follow(
    data_type: DataTypeView,
    items: Seq<(Seq<NestedView>, ArrayView)>,
    init: Seq<InitNested>,
    es: Seq<Level>,
    depth: int,
    num_rows: nat,
    chunk_size: Option<usize>,
)
    requires
        0 <= depth,
        depth + 1 < init.len(),
        init[depth] is List,
        follows(items, init, es, depth + 1, num_rows, chunk_size),
    ensures
        list_chunks(data_type, items) matches Ok(lists) ==> follows(
            lists,
            init,
            es,
            depth,
            num_rows,
            chunk_size,
        ),
        map_chunks(data_type, items) matches Ok(maps) ==> follows(
            maps,
            init,
            es,
            depth,
            num_rows,
            chunk_size,
        ),
{
    match list_chunks(data_type, items) {
        Ok(lists) => {
            assert forall|k: int| 0 <= k < lists.len() implies (#[trigger] lists[k]).0 == state_of(
                init,
                chunk_levels(es, num_rows, chunk_size, k),
            ).subrange(0, depth) && lists[k].1.len() == level_len(
                init,
                chunk_levels(es, num_rows, chunk_size, k),
                depth,
            ) by {
                let part = chunk_levels(es, num_rows, chunk_size, k);
                let state = items[k].0;
                assert(state.drop_last() =~= state_of(init, part).subrange(0, depth));
                assert(state.last() == level_state(init, part, depth));
                assert(create_list_spec(data_type, state.last(), items[k].1) is Ok);
                lemma_level_len_bound(init, part, depth);
            }
        },
        Err(_) => {},
    }
    match map_chunks(data_type, items) {
        Ok(maps) => {
            reveal_with_fuel(ArrayView::len, 2);
            assert forall|k: int| 0 <= k < maps.len() implies (#[trigger] maps[k]).0 == state_of(
                init,
                chunk_levels(es, num_rows, chunk_size, k),
            ).subrange(0, depth) && maps[k].1.len() == level_len(
                init,
                chunk_levels(es, num_rows, chunk_size, k),
                depth,
            ) by {
                let part = chunk_levels(es, num_rows, chunk_size, k);
                let state = items[k].0;
                assert(state.drop_last() =~= state_of(init, part).subrange(0, depth));
                assert(state.last() == level_state(init, part, depth));
                assert(create_map_spec(data_type, state.last(), items[k].1) is Ok);
                lemma_level_len_bound(init, part, depth);
            }
        },
        Err(_) => {},
    }
}

/// The chunks of a struct follow the entries that the chunks of its last
/// field follow, one level higher.
pub proof fn lemma_struct_chunks_follow(
    children: Seq<Seq<(Seq<NestedView>, ArrayView)>>,
    data_type: DataTypeView,
    init: Seq<InitNested>,
    es: Seq<Level>,
    depth: int,
    num_rows: nat,
    chunk_size: Option<usize>,
)
    requires
        0 <= depth,
        depth + 1 < init.len(),
        init[depth] is Struct,
        children.len() > 0 ==> follows(children.last(), init, es, depth + 1, num_rows, chunk_size),
    ensures
        struct_chunks(children, data_type) matches Ok(items) ==> follows(
            items,
            init,
            es,
            depth,
            num_rows,
            chunk_size,
        ),
{
    match struct_chunks(children, data_type) {
        Ok(items) => {
            assert(children.last().len() == children[0].len());
            assert forall|k: int| 0 <= k < items.len() implies (#[trigger] items[k]).0 == state_of(
                init,
                chunk_levels(es, num_rows, chunk_size, k),
            ).subrange(0, depth) && items[k].1.len() == level_len(
                init,
                chunk_levels(es, num_rows, chunk_size, k),
                depth,
            ) by {
                let part = chunk_levels(es, num_rows, chunk_size, k);
                let state = children.last()[k].0;
                let arrays = row_arrays(children, k);
                assert(struct_chunk(children, data_type, k) is Ok);
                assert(state.drop_last() =~= state_of(init, part).subrange(0, depth));
                assert(arrays[arrays.len() - 1] == children.last()[k].1);
                assert(arrays[arrays.len() - 1].len() == arrays[0].len());
                lemma_struct_level_len(init, part, depth);
            }
        },
        Err(_) => {},
    }
}

/// The chunks that a field decodes to follow the entries of its last leaf
/// column at the depth of the field, and a field that decodes owns a
/// column.
pub proof fn lemma_decode_follows(
    columns: Seq<PagesView>,
    types: Seq<ParquetType>,
    field: FieldView,
    data_type: DataTypeView,
    init: Seq<InitNested>,
    num_rows: nat,
    chunk_size: Option<usize>,
    num_values: Seq<usize>,
    is_parent_nullable: bool,
)
    requires
        data_type.n_columns() <= columns.len(),
        data_type.n_columns() <= num_values.len(),
    ensures
        decode_as(
            columns,
            types,
            field,
            data_type,
            init,
            num_rows,
            chunk_size,
            num_values,
            is_parent_nullable,
        ) matches Ok(items) ==> data_type.n_columns() > 0 && follows(
            items,
            last_leaf_init(field, data_type, init),
            last_leaf_levels(columns, data_type, num_values),
            init.len() as int,
            num_rows,
            chunk_size,
        ),
    decreases data_type,
{
    let depth = init.len() as int;
    let here = last_leaf_init(field, data_type, init);
    let es = last_leaf_levels(columns, data_type, num_values);
    let nullable = is_parent_nullable || field.is_nullable;
    match data_type {
        DataTypeView::Extension(_, inner, _) => {
            lemma_decode_follows(
                columns,
                types,
                field,
                *inner,
                init,
                num_rows,
                chunk_size,
                num_values,
                is_parent_nullable,
            );
        },
        DataTypeView::List(inner)
        | DataTypeView::LargeList(inner)
        | DataTypeView::FixedSizeList(inner, _)
        | DataTypeView::MapOf(inner, _) => {
            let below = init.push(InitNested::List(field.is_nullable));
            lemma_decode_follows(
                columns,
                types,
                *inner,
                inner.data_type,
                below,
                num_rows,
                chunk_size,
                num_values,
                nullable,
            );
            lemma_last_leaf_init(*inner, inner.data_type, below);
            assert(here.subrange(0, below.len() as int)[depth] == below[depth]);
            if let Ok(items) = decode_as(
                columns,
                types,
                *inner,
                inner.data_type,
                below,
                num_rows,
                chunk_size,
                num_values,
                nullable,
            ) {
                lemma_list_chunks_follow(
                    field.data_type,
                    items,
                    here,
                    es,
                    depth,
                    num_rows,
                    chunk_size,
                );
            }
        },
        DataTypeView::Struct(fields) => {
            let below = init.push(InitNested::Struct(field.is_nullable));
            if let Ok(children) = decode_fields(
                columns,
                types,
                fields,
                below,
                num_rows,
                chunk_size,
                num_values,
                nullable,
            ) {
                lemma_decode_fields_len(
                    columns,
                    types,
                    fields,
                    below,
                    num_rows,
                    chunk_size,
                    num_values,
                    nullable,
                );
                if fields.len() > 0 {
                    let last = fields.last();
                    let n = last.data_type.n_columns() as int;
                    assert(data_type.n_columns() == fields_n_columns(fields));
                    assert(fields_n_columns(fields) == fields_n_columns(fields.drop_last()) + n);
                    lemma_decode_follows(
                        tail(columns, n),
                        tail(types, n),
                        last,
                        last.data_type,
                        below,
                        num_rows,
                        chunk_size,
                        tail(num_values, n),
                        nullable,
                    );
                    lemma_last_leaf_init(last, last.data_type, below);
                    assert(here.subrange(0, below.len() as int)[depth] == below[depth]);
                    assert(tail(columns, n).last() == columns.last());
                    assert(tail(num_values, n).last() == num_values.last());
                    lemma_struct_chunks_follow(
                        children,
                        DataTypeView::Struct(fields),
                        here,
                        es,
                        depth,
                        num_rows,
                        chunk_size,
                    );
                }
            }
        },
        _ => {
            lemma_leaf_decode_follows(
                columns,
                types,
                field,
                data_type,
                init,
                num_rows,
                chunk_size,
                num_values,
                is_parent_nullable,
            );
        },
    }
}

/// The last leaf column of a field and its context are those of its type
/// with the extension wrappers taken off.
pub proof fn lemma_last_leaf_logical(field: FieldView, data_type: DataTypeView, init: Seq<InitNested>)
    ensures
        last_leaf_init(field, data_type, init) == last_leaf_init(
            field,
            data_type.to_logical_type(),
            init,
        ),
        last_leaf_is_dictionary(data_type) == last_leaf_is_dictionary(data_type.to_logical_type()),
        data_type.n_columns() == data_type.to_logical_type().n_columns(),
    decreases data_type,
{
    match data_type {
        DataTypeView::Extension(_, inner, _) => {
            lemma_last_leaf_logical(field, *inner, init);
        },
        _ => {},
    }
}

/// Whether every null item of a list or map array is empty: it ends at the
/// offset at which it starts.
pub open spec fn null_lists_are_empty(array: ArrayView) -> bool {
    match array {
        ArrayView::List { offsets, validity: Some(bits), .. } => forall|j: int|
            0 <= j < bits.len() && !(#[trigger] bits[j]) ==> j + 1 < offsets.len() && offsets[j
                + 1] == offsets[j],
        ArrayView::MapOf { physical, .. } => match *physical {
            ArrayView::List { offsets, validity: Some(bits), .. } => forall|j: int|
                0 <= j < bits.len() && !(#[trigger] bits[j]) ==> j + 1 < offsets.len() && offsets[j
                    + 1] == offsets[j],
            _ => true,
        },
        _ => true,
    }
}

/// In the list or map array that a list level and the items below it make,
/// every null item is empty, where the entries keep to the nesting at the
/// level.
pub proof fn lemma_null_items_are_empty(
    data_type: DataTypeView,
    init: Seq<InitNested>,
    es: Seq<Level>,
    depth: int,
    values: ArrayView,
)
    requires
        0 <= depth,
        depth + 1 < init.len(),
        init[depth] is List,
        es.len() <= usize::MAX,
        nests_at(init, es, depth),
        values.len() == level_len(init, es, depth + 1),
    ensures
        create_list_spec(data_type, level_state(init, es, depth), values) matches Ok(array)
            ==> null_lists_are_empty(array),
        create_map_spec(data_type, level_state(init, es, depth), values) matches Ok(array)
            ==> null_lists_are_empty(array),
{
    lemma_null_rows_are_empty(init, es, depth);
    lemma_level_len_bound(init, es, depth);
    let level = level_state(init, es, depth);
    let offsets = level.offsets.push(values.len() as usize);
    if init[depth].nullable() {
        assert forall|j: int|
            0 <= j < level.validity.len() && !(#[trigger] level.validity[j]) implies j + 1
            < offsets.len() && offsets[j + 1] == offsets[j] by {
            assert(!level_validity(init, es, depth)[j]);
            assert(item_end(init, es, depth, j) == level_offsets(init, es, depth)[j]);
        }
    }
}

/// Whether the type is, under its extension wrappers, a list or a map.
pub open spec fn is_list(data_type: DataTypeView) -> bool {
    match data_type.to_logical_type() {
        DataTypeView::List(_)
        | DataTypeView::LargeList(_)
        | DataTypeView::FixedSizeList(_, _)
        | DataTypeView::MapOf(_, _) => true,
        _ => false,
    }
}

/// A null list is empty. Where the entries of the last leaf column of a
/// list or map field keep to the nesting at the level of the field, every
/// null item of every array that the field decodes to ends at the offset at
/// which it starts. This holds of a field at the root and, under the
/// context of its parents, of a field within another.
pub proof fn lemma_null_lists_are_empty(
    columns: Seq<PagesView>,
    types: Seq<ParquetType>,
    field: FieldView,
    init: Seq<InitNested>,
    num_rows: nat,
    chunk_size: Option<usize>,
    num_values: Seq<usize>,
    is_parent_nullable: bool,
)
    requires
        is_list(field.data_type),
        field.data_type.n_columns() <= columns.len(),
        field.data_type.n_columns() <= num_values.len(),
        columns.len() > 0,
        columns.last().levels.len() <= usize::MAX,
        nests_at(
            last_leaf_init(field, field.data_type, init),
            last_leaf_levels(columns, field.data_type, num_values),
            init.len() as int,
        ),
    ensures
        decode(
            columns,
            types,
            field,
            init,
            num_rows,
            chunk_size,
            num_values,
            is_parent_nullable,
        ) matches Ok(items) ==> forall|k: int|
            0 <= k < items.len() ==> null_lists_are_empty(#[trigger] items[k].1),
        decoded(
            columns,
            types,
            field,
            init,
            num_rows,
            chunk_size,
            num_values,
            is_parent_nullable,
        ) matches Ok(items) ==> forall|k: int|
            0 <= k < items.len() ==> null_lists_are_empty(#[trigger] items[k].1),
{
    let logical = field.data_type.to_logical_type();
    let depth = init.len() as int;
    let here = last_leaf_init(field, field.data_type, init);
    let es = last_leaf_levels(columns, field.data_type, num_values);
    let below = init.push(InitNested::List(field.is_nullable));
    let nullable = is_parent_nullable || field.is_nullable;
    let found = decode(
        columns,
        types,
        field,
        init,
        num_rows,
        chunk_size,
        num_values,
        is_parent_nullable,
    );
    lemma_last_leaf_logical(field, field.data_type, init);
    lemma_last_leaf_init(field, field.data_type, init);
    lemma_decode_logical(
        columns,
        types,
        field,
        field.data_type,
        init,
        num_rows,
        chunk_size,
        num_values,
        is_parent_nullable,
    );
    match logical {
        DataTypeView::List(inner)
        | DataTypeView::LargeList(inner)
        | DataTypeView::FixedSizeList(inner, _) => {
            lemma_decode_follows(
                columns,
                types,
                *inner,
                inner.data_type,
                below,
                num_rows,
                chunk_size,
                num_values,
                nullable,
            );
            lemma_last_leaf_init(*inner, inner.data_type, below);
            match found {
                Ok(items) => {
                    let inner_items = decode_as(
                        columns,
                        types,
                        *inner,
                        inner.data_type,
                        below,
                        num_rows,
                        chunk_size,
                        num_values,
                        nullable,
                    )->Ok_0;
                    assert forall|k: int| 0 <= k < items.len() implies null_lists_are_empty(
                        #[trigger] items[k].1,
                    ) by {
                        let part = chunk_levels(es, num_rows, chunk_size, k);
                        let state = inner_items[k].0;
                        lemma_chunks_bounds(es, num_rows, chunk_size, k);
                        lemma_nests_within(
                            here,
                            es,
                            depth,
                            chunks(es, num_rows, chunk_size)[k].0,
                            chunks(es, num_rows, chunk_size)[k].1,
                        );
                        assert(state.last() == level_state(here, part, depth));
                        assert(create_list_spec(field.data_type, state.last(), inner_items[k].1) is Ok);
                        lemma_null_items_are_empty(
                            field.data_type,
                            here,
                            part,
                            depth,
                            inner_items[k].1,
                        );
                    }
                },
                Err(_) => {},
            }
        },
        DataTypeView::MapOf(inner, _) => {
            lemma_decode_follows(
                columns,
                types,
                *inner,
                inner.data_type,
                below,
                num_rows,
                chunk_size,
                num_values,
                nullable,
            );
            lemma_last_leaf_init(*inner, inner.data_type, below);
            match found {
                Ok(items) => {
                    let inner_items = decode_as(
                        columns,
                        types,
                        *inner,
                        inner.data_type,
                        below,
                        num_rows,
                        chunk_size,
                        num_values,
                        nullable,
                    )->Ok_0;
                    assert forall|k: int| 0 <= k < items.len() implies null_lists_are_empty(
                        #[trigger] items[k].1,
                    ) by {
                        let part = chunk_levels(es, num_rows, chunk_size, k);
                        let state = inner_items[k].0;
                        lemma_chunks_bounds(es, num_rows, chunk_size, k);
                        lemma_nests_within(
                            here,
                            es,
                            depth,
                            chunks(es, num_rows, chunk_size)[k].0,
                            chunks(es, num_rows, chunk_size)[k].1,
                        );
                        assert(state.last() == level_state(here, part, depth));
                        assert(create_map_spec(field.data_type, state.last(), inner_items[k].1) is Ok);
                        lemma_null_items_are_empty(
                            field.data_type,
                            here,
                            part,
                            depth,
                            inner_items[k].1,
                        );
                    }
                },
                Err(_) => {},
            }
        },
        _ => {},
    }
}

/// One element for each row. The arrays that a field at the root decodes
/// to, whatever its type, have one element for every row that starts among
/// the entries of their chunk. For a dictionary-encoded column this is one
/// key for each row.
pub proof fn lemma_one_element_per_row(
    columns: Seq<PagesView>,
    types: Seq<ParquetType>,
    field: FieldView,
    num_rows: nat,
    chunk_size: Option<usize>,
    num_values: Seq<usize>,
    is_parent_nullable: bool,
)
    requires
        field.data_type.n_columns() <= columns.len(),
        field.data_type.n_columns() <= num_values.len(),
    ensures
        decoded(
            columns,
            types,
            field,
            Seq::empty(),
            num_rows,
            chunk_size,
            num_values,
            is_parent_nullable,
        ) matches Ok(items) ==> items.len() == chunks(
            last_leaf_levels(columns, field.data_type, num_values),
            num_rows,
            chunk_size,
        ).len() && forall|k: int|
            0 <= k < items.len() ==> (#[trigger] items[k]).0.len() == 0 && items[k].1.len()
                == count_rows(
                chunk_levels(
                    last_leaf_levels(columns, field.data_type, num_values),
                    num_rows,
                    chunk_size,
                    k,
                ),
                0,
                chunk_levels(
                    last_leaf_levels(columns, field.data_type, num_values),
                    num_rows,
                    chunk_size,
                    k,
                ).len() as int,
            ),
{
    let init = Seq::<InitNested>::empty();
    let here = last_leaf_init(field, field.data_type, init);
    let es = last_leaf_levels(columns, field.data_type, num_values);
    lemma_decode_follows(
        columns,
        types,
        field,
        field.data_type,
        init,
        num_rows,
        chunk_size,
        num_values,
        is_parent_nullable,
    );
    lemma_last_leaf_init(field, field.data_type, init);
    match decoded(
        columns,
        types,
        field,
        init,
        num_rows,
        chunk_size,
        num_values,
        is_parent_nullable,
    ) {
        Ok(items) => {
            assert forall|k: int| 0 <= k < items.len() implies (#[trigger] items[k]).0.len() == 0
                && items[k].1.len() == count_rows(
                chunk_levels(es, num_rows, chunk_size, k),
                0,
                chunk_levels(es, num_rows, chunk_size, k).len() as int,
            ) by {
                lemma_rows(here, chunk_levels(es, num_rows, chunk_size, k));
            }
        },
        Err(_) => {},
    }
}

/// One key for each row. The arrays that a dictionary-encoded column that
/// is not nested decodes to are dictionary arrays with one key for every
/// row that starts among the entries of their chunk.
pub proof fn lemma_one_key_per_row<K: DictionaryKey>(
    pages: PagesView,
    nullable: bool,
    data_type: DataTypeView,
    num_rows: nat,
    chunk_size: Option<usize>,
)
    ensures
        dict_read_spec::<K>(
            pages,
            seq![InitNested::Primitive(nullable)],
            data_type,
            num_rows,
            chunk_size,
        ) matches Ok(items) ==> forall|k: int|
            0 <= k < items.len() ==> ((#[trigger] items[k]).1 matches ArrayView::Dictionary {
                keys,
                ..
            } && keys.len() == count_rows(
                chunk_levels(
                    counted_levels(pages.levels, usize::MAX as nat),
                    num_rows,
                    chunk_size,
                    k,
                ),
                0,
                chunk_levels(
                    counted_levels(pages.levels, usize::MAX as nat),
                    num_rows,
                    chunk_size,
                    k,
                ).len() as int,
            )),
{
    let init = seq![InitNested::Primitive(nullable)];
    let es = counted_levels(pages.levels, usize::MAX as nat);
    lemma_dictionary_follows::<K>(pages, init, data_type, num_rows, chunk_size);
    match dict_read_spec::<K>(pages, init, data_type, num_rows, chunk_size) {
        Ok(items) => {
            assert forall|k: int| 0 <= k < items.len() implies ((#[trigger] items[k]).1
                matches ArrayView::Dictionary { keys, .. } && keys.len() == count_rows(
                chunk_levels(es, num_rows, chunk_size, k),
                0,
                chunk_levels(es, num_rows, chunk_size, k).len() as int,
            )) by {
                lemma_rows(init, chunk_levels(es, num_rows, chunk_size, k));
            }
        },
        Err(_) => {},
    }
}

/// The nesting context is left as it was given. Every level that decoding
/// a field adds to the context on the way to a leaf is taken off again: the
/// state of every chunk that the field decodes to has the levels of the
/// context that the field was given, one for one, and no other.
pub proof fn lemma_context_is_kept(
    columns: Seq<PagesView>,
    types: Seq<ParquetType>,
    field: FieldView,
    init: Seq<InitNested>,
    num_rows: nat,
    chunk_size: Option<usize>,
    num_values: Seq<usize>,
    is_parent_nullable: bool,
)
    requires
        field.data_type.n_columns() <= columns.len(),
        field.data_type.n_columns() <= num_values.len(),
    ensures
        decoded(
            columns,
            types,
            field,
            init,
            num_rows,
            chunk_size,
            num_values,
            is_parent_nullable,
        ) matches Ok(items) ==> forall|k: int|
            0 <= k < items.len() ==> (#[trigger] items[k]).0.len() == init.len() && forall|j: int|
                0 <= j < init.len() ==> (#[trigger] items[k].0[j]).init == init[j],
{
    let here = last_leaf_init(field, field.data_type, init);
    lemma_decode_follows(
        columns,
        types,
        field,
        field.data_type,
        init,
        num_rows,
        chunk_size,
        num_values,
        is_parent_nullable,
    );
    lemma_last_leaf_init(field, field.data_type, init);
    if let Ok(items) = decoded(
        columns,
        types,
        field,
        init,
        num_rows,
        chunk_size,
        num_values,
        is_parent_nullable,
    ) {
        assert forall|k: int| 0 <= k < items.len() implies (#[trigger] items[k]).0.len()
            == init.len() && forall|j: int|
            0 <= j < init.len() ==> (#[trigger] items[k].0[j]).init == init[j] by {
            assert forall|j: int| 0 <= j < init.len() implies (#[trigger] items[k].0[j]).init
                == init[j] by {
                assert(here.subrange(0, init.len() as int)[j] == here[j]);
            }
        }
    }
}

/// Whether the offsets of a list or map array never decrease.
pub open spec fn offsets_never_decrease(array: ArrayView) -> bool {
    match array {
        ArrayView::List { offsets, .. } => non_decreasing(offsets),
        ArrayView::MapOf { physical, .. } => match *physical {
            ArrayView::List { offsets, .. } => non_decreasing(offsets),
            _ => true,
        },
        _ => true,
    }
}

/// The offsets of a list never decrease: in every array that a list or map
/// field decodes to, whatever the entries of its columns, every item ends
/// at or after the offset at which it starts.
pub proof fn lemma_offsets_never_decrease(
    columns: Seq<PagesView>,
    types: Seq<ParquetType>,
    field: FieldView,
    init: Seq<InitNested>,
    num_rows: nat,
    chunk_size: Option<usize>,
    num_values: Seq<usize>,
    is_parent_nullable: bool,
)
    requires
        is_list(field.data_type),
        field.data_type.n_columns() <= columns.len(),
        field.data_type.n_columns() <= num_values.len(),
        columns.len() > 0,
        columns.last().levels.len() <= usize::MAX,
    ensures
        decode(
            columns,
            types,
            field,
            init,
            num_rows,
            chunk_size,
            num_values,
            is_parent_nullable,
        ) matches Ok(items) ==> forall|k: int|
            0 <= k < items.len() ==> offsets_never_decrease(#[trigger] items[k].1),
        decoded(
            columns,
            types,
            field,
            init,
            num_rows,
            chunk_size,
            num_values,
            is_parent_nullable,
        ) matches Ok(items) ==> forall|k: int|
            0 <= k < items.len() ==> offsets_never_decrease(#[trigger] items[k].1),
{
    let logical = field.data_type.to_logical_type();
    let depth = init.len() as int;
    let here = last_leaf_init(field, field.data_type, init);
    let es = last_leaf_levels(columns, field.data_type, num_values);
    let below = init.push(InitNested::List(field.is_nullable));
    let nullable = is_parent_nullable || field.is_nullable;
    let found = decode(
        columns,
        types,
        field,
        init,
        num_rows,
        chunk_size,
        num_values,
        is_parent_nullable,
    );
    lemma_last_leaf_logical(field, field.data_type, init);
    lemma_last_leaf_init(field, field.data_type, init);
    lemma_decode_logical(
        columns,
        types,
        field,
        field.data_type,
        init,
        num_rows,
        chunk_size,
        num_values,
        is_parent_nullable,
    );
    match logical {
        DataTypeView::List(inner)
        | DataTypeView::LargeList(inner)
        | DataTypeView::FixedSizeList(inner, _) => {
            lemma_decode_follows(
                columns,
                types,
                *inner,
                inner.data_type,
                below,
                num_rows,
                chunk_size,
                num_values,
                nullable,
            );
            lemma_last_leaf_init(*inner, inner.data_type, below);
            match found {
                Ok(items) => {
                    let inner_items = decode_as(
                        columns,
                        types,
                        *inner,
                        inner.data_type,
                        below,
                        num_rows,
                        chunk_size,
                        num_values,
                        nullable,
                    )->Ok_0;
                    assert forall|k: int| 0 <= k < items.len() implies offsets_never_decrease(
                        #[trigger] items[k].1,
                    ) by {
                        let part = chunk_levels(es, num_rows, chunk_size, k);
                        let state = inner_items[k].0;
                        lemma_chunks_bounds(es, num_rows, chunk_size, k);
                        assert(state.last() == level_state(here, part, depth));
                        assert(create_list_spec(field.data_type, state.last(), inner_items[k].1) is Ok);
                        lemma_level_offsets(here, part, depth);
                        lemma_level_len_bound(here, part, depth + 1);
                    }
                },
                Err(_) => {},
            }
        },
        DataTypeView::MapOf(inner, _) => {
            lemma_decode_follows(
                columns,
                types,
                *inner,
                inner.data_type,
                below,
                num_rows,
                chunk_size,
                num_values,
                nullable,
            );
            lemma_last_leaf_init(*inner, inner.data_type, below);
            match found {
                Ok(items) => {
                    let inner_items = decode_as(
                        columns,
                        types,
                        *inner,
                        inner.data_type,
                        below,
                        num_rows,
                        chunk_size,
                        num_values,
                        nullable,
                    )->Ok_0;
                    assert forall|k: int| 0 <= k < items.len() implies offsets_never_decrease(
                        #[trigger] items[k].1,
                    ) by {
                        let part = chunk_levels(es, num_rows, chunk_size, k);
                        let state = inner_items[k].0;
                        lemma_chunks_bounds(es, num_rows, chunk_size, k);
                        assert(state.last() == level_state(here, part, depth));
                        assert(create_map_spec(field.data_type, state.last(), inner_items[k].1) is Ok);
                        lemma_level_offsets(here, part, depth);
                        lemma_level_len_bound(here, part, depth + 1);
                    }
                },
                Err(_) => {},
            }
        },
        _ => {},
    }
}

} // verus!
