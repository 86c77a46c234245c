//! What holds of every decoded field: where decimals of a width are
//! decoded, that unsigned 32-bit values decode alike from either storage,
//! that every key of a dictionary points into it, that the leaves of a
//! field of any nesting are what its leaf columns decode to, and that a
//! column decodes to what was stored in it.

use crate::array::{leaves_of, ArrayView, DataArrayView, NativeType};
use crate::datatypes::{DataTypeView, FieldView};
use crate::deserialize::dictionary::{key_chunks, keys_fit, keys_within, DictionaryKey};
use crate::deserialize::fixed_size_binary::fixed_values;
use crate::deserialize::nested::{
    create_list_spec, create_map_spec, decode, decode_as, decode_fields, decoded, dict_read_spec,
    front, leaf_spec, lemma_decode_logical, lemma_schema_logical, tail,
};
use crate::deserialize::nesting::{
    chunk_levels, last_leaf_levels, lemma_leaf_decode_follows, lemma_one_element_per_row,
};
use crate::deserialize::primitive::{Int32ToUInt32, Int64ToInt64, Int64ToUInt32};
use crate::deserialize::struct_::{row_arrays, struct_chunk};
use crate::error::{ErrorView, Invalid};
use crate::nested_utils::{
    cast_values, count_rows, flat_levels, leaf_result, leaf_slots, leaf_validity,
    lemma_flat_round_trip, lemma_leaf_round_trip, present_values, state_of, with_zeros,
    InitNested, NestedView, ValueCast,
};
use crate::page::{Level, PageValuesView, PagesView, ParquetPhysicalType, ParquetType};
use vstd::prelude::*;

verus! {

/// A 128-bit decimal stored as byte strings of the length `n` is decoded
/// where `n` is at most 16 and the column holds byte strings of that
/// length; where `n` is greater, and only there, decoding fails as an
/// invalid argument that names `n`.
pub proof fn lemma_decimal_width(
    columns: Seq<PagesView>,
    types: Seq<ParquetType>,
    field: FieldView,
    init: Seq<InitNested>,
    num_rows: nat,
    chunk_size: Option<usize>,
    num_values: Seq<usize>,
    is_parent_nullable: bool,
    n: usize,
)
    requires
        field.data_type.to_logical_type() is Decimal,
        types.last().physical_type == ParquetPhysicalType::FixedLenByteArray(n),
    ensures
        n > 16 <==> decoded(
            columns,
            types,
            field,
            init,
            num_rows,
            chunk_size,
            num_values,
            is_parent_nullable,
        ) == Err::<Seq<(Seq<NestedView>, ArrayView)>, ErrorView>(
            ErrorView::InvalidArgumentError(Invalid::Decimal128Width(n)),
        ),
        n <= 16 ==> (decoded(
            columns,
            types,
            field,
            init,
            num_rows,
            chunk_size,
            num_values,
            is_parent_nullable,
        ) is Ok <==> fixed_values(columns.last(), n) is Some),
{
    lemma_schema_logical(types, field, field.data_type);
    lemma_decode_logical(
        columns,
        types,
        field,
        field.data_type,
        init,
        num_rows,
        chunk_size,
        num_values,
        is_parent_nullable,
    );
}

/// A 256-bit decimal stored as byte strings of the length `n` is decoded
/// where `n` is at most 32 and the column holds byte strings of that
/// length; where `n` is greater, and only there, decoding fails as an
/// invalid argument that names `n`.
pub proof fn lemma_decimal256_width(
    columns: Seq<PagesView>,
    types: Seq<ParquetType>,
    field: FieldView,
    init: Seq<InitNested>,
    num_rows: nat,
    chunk_size: Option<usize>,
    num_values: Seq<usize>,
    is_parent_nullable: bool,
    n: usize,
)
    requires
        field.data_type.to_logical_type() is Decimal256,
        types.last().physical_type == ParquetPhysicalType::FixedLenByteArray(n),
    ensures
        n > 32 <==> decoded(
            columns,
            types,
            field,
            init,
            num_rows,
            chunk_size,
            num_values,
            is_parent_nullable,
        ) == Err::<Seq<(Seq<NestedView>, ArrayView)>, ErrorView>(
            ErrorView::InvalidArgumentError(Invalid::Decimal256Width(n)),
        ),
        n <= 32 ==> (decoded(
            columns,
            types,
            field,
            init,
            num_rows,
            chunk_size,
            num_values,
            is_parent_nullable,
        ) is Ok <==> fixed_values(columns.last(), n) is Some),
{
    lemma_schema_logical(types, field, field.data_type);
    lemma_decode_logical(
        columns,
        types,
        field,
        field.data_type,
        init,
        num_rows,
        chunk_size,
        num_values,
        is_parent_nullable,
    );
}

/// The 32-bit integers that hold the bits of unsigned 32-bit values.
pub open spec fn stored_as_int32(values: Seq<u32>) -> Seq<i32> {
    Seq::new(values.len(), |i: int| values[i] as i32)
}

/// The 64-bit integers that hold unsigned 32-bit values.
pub open spec fn stored_as_int64(values: Seq<u32>) -> Seq<i64> {
    Seq::new(values.len(), |i: int| values[i] as i64)
}

/// Unsigned 32-bit values decode to the same arrays whether they are stored
/// as 32-bit or as 64-bit integers.
pub proof fn lemma_uint32_storage(
    columns: Seq<PagesView>,
    types: Seq<ParquetType>,
    levels: Seq<Level>,
    keys: Option<Seq<u32>>,
    values: Seq<u32>,
    field: FieldView,
    init: Seq<InitNested>,
    num_rows: nat,
    chunk_size: Option<usize>,
    num_values: Seq<usize>,
    is_parent_nullable: bool,
)
    requires
        field.data_type.to_logical_type() is UInt32,
    ensures
        decoded(
            columns.push(
                PagesView { levels, values: PageValuesView::Int32(stored_as_int32(values)), keys },
            ),
            types.push(ParquetType { physical_type: ParquetPhysicalType::Int32 }),
            field,
            init,
            num_rows,
            chunk_size,
            num_values,
            is_parent_nullable,
        ) == decoded(
            columns.push(
                PagesView { levels, values: PageValuesView::Int64(stored_as_int64(values)), keys },
            ),
            types.push(ParquetType { physical_type: ParquetPhysicalType::Int64 }),
            field,
            init,
            num_rows,
            chunk_size,
            num_values,
            is_parent_nullable,
        ),
        decoded(
            columns.push(
                PagesView { levels, values: PageValuesView::Int32(stored_as_int32(values)), keys },
            ),
            types.push(ParquetType { physical_type: ParquetPhysicalType::Int32 }),
            field,
            init,
            num_rows,
            chunk_size,
            num_values,
            is_parent_nullable,
        ) is Ok,
{
    let narrow = PagesView { levels, values: PageValuesView::Int32(stored_as_int32(values)), keys };
    let wide = PagesView { levels, values: PageValuesView::Int64(stored_as_int64(values)), keys };
    let narrow_type = ParquetType { physical_type: ParquetPhysicalType::Int32 };
    let wide_type = ParquetType { physical_type: ParquetPhysicalType::Int64 };
    lemma_schema_logical(types.push(narrow_type), field, field.data_type);
    lemma_schema_logical(types.push(wide_type), field, field.data_type);
    lemma_decode_logical(
        columns.push(narrow),
        types.push(narrow_type),
        field,
        field.data_type,
        init,
        num_rows,
        chunk_size,
        num_values,
        is_parent_nullable,
    );
    lemma_decode_logical(
        columns.push(wide),
        types.push(wide_type),
        field,
        field.data_type,
        init,
        num_rows,
        chunk_size,
        num_values,
        is_parent_nullable,
    );
    assert forall|i: int| 0 <= i < values.len() implies Int32ToUInt32::cast_spec(
        stored_as_int32(values)[i],
    ) == values[i] && Int64ToUInt32::cast_spec(stored_as_int64(values)[i]) == values[i] by {
        let v = values[i];
        assert((v as i32) as u32 == v) by (bit_vector);
        assert((v as i64) as u32 == v) by (bit_vector);
    }
    assert(cast_values::<Int32ToUInt32>(stored_as_int32(values)) =~= cast_values::<Int64ToUInt32>(
        stored_as_int64(values),
    ));
    assert(columns.push(narrow).last() == narrow);
    assert(columns.push(wide).last() == wide);
    assert(types.push(narrow_type).last() == narrow_type);
    assert(types.push(wide_type).last() == wide_type);
}

/// Decoding gives back what was stored: the rows of a nullable field of
/// 64-bit integers that is not nested, stored with one entry per row and
/// the values of the rows that are not null, decode in one chunk to the
/// array of the rows under their validity.
pub proof fn lemma_round_trip_int64(
    rows: Seq<i64>,
    valid: Seq<bool>,
    keys: Option<Seq<u32>>,
    name: Seq<char>,
)
    requires
        rows.len() == valid.len(),
        rows.len() <= usize::MAX,
    ensures
        decoded(
            seq![
                PagesView {
                    levels: flat_levels(valid),
                    values: PageValuesView::Int64(present_values(rows, valid)),
                    keys,
                },
            ],
            seq![ParquetType { physical_type: ParquetPhysicalType::Int64 }],
            FieldView { name, data_type: DataTypeView::Int64, is_nullable: true },
            Seq::empty(),
            rows.len(),
            None,
            seq![rows.len() as usize],
            false,
        ) == Ok::<Seq<(Seq<NestedView>, ArrayView)>, ErrorView>(
            seq![
                (
                    Seq::<NestedView>::empty(),
                    ArrayView::Int64(
                        DataArrayView {
                            data_type: DataTypeView::Int64,
                            values: with_zeros(rows, valid, 0i64),
                            validity: if valid.contains(false) {
                                Some(valid)
                            } else {
                                None
                            },
                        },
                    ),
                ),
            ],
        ),
{
    let stored = present_values(rows, valid);
    let pages = PagesView {
        levels: flat_levels(valid),
        values: PageValuesView::Int64(stored),
        keys,
    };
    let leaf = Seq::<InitNested>::empty().push(InitNested::Primitive(true));
    assert(leaf =~= seq![InitNested::Primitive(true)]);
    assert(cast_values::<Int64ToInt64>(stored) =~= stored);
    lemma_flat_round_trip(rows, valid, 0i64, DataTypeView::Int64, rows.len(), false);
    let decoded = leaf_spec::<Int64ToInt64>(
        pages,
        leaf,
        DataTypeView::Int64,
        rows.len(),
        None,
        rows.len(),
        false,
    );
    assert(seq![pages].last() == pages);
    assert(seq![rows.len() as usize].last() == rows.len());
    assert(state_of(leaf, flat_levels(valid)).drop_last() =~= Seq::<NestedView>::empty());
    assert(decoded->Ok_0 =~= seq![
        (
            Seq::<NestedView>::empty(),
            ArrayView::Int64(
                DataArrayView {
                    data_type: DataTypeView::Int64,
                    values: with_zeros(rows, valid, 0i64),
                    validity: if valid.contains(false) {
                        Some(valid)
                    } else {
                        None
                    },
                },
            ),
        ),
    ]);
}


/// Putting a list together leaves the leaves of its item as they are.
pub proof fn lemma_list_leaves(
    columns: Seq<PagesView>,
    types: Seq<ParquetType>,
    field: FieldView,
    init: Seq<InitNested>,
    num_rows: nat,
    chunk_size: Option<usize>,
    num_values: Seq<usize>,
    is_parent_nullable: bool,
)
    requires
        field.data_type.to_logical_type() is List || field.data_type.to_logical_type() is LargeList
            || field.data_type.to_logical_type() is FixedSizeList || field.data_type.to_logical_type()
            is MapOf,
        decoded(
            columns,
            types,
            field,
            init,
            num_rows,
            chunk_size,
            num_values,
            is_parent_nullable,
        ) is Ok,
    ensures
        ({
            let item = item_of(field.data_type.to_logical_type());
            let lists = decoded(
                columns,
                types,
                field,
                init,
                num_rows,
                chunk_size,
                num_values,
                is_parent_nullable,
            )->Ok_0;
            let items = decoded(
                columns,
                types,
                item,
                init.push(InitNested::List(field.is_nullable)),
                num_rows,
                chunk_size,
                num_values,
                is_parent_nullable || field.is_nullable,
            );
            &&& items is Ok
            &&& items->Ok_0.len() == lists.len()
            &&& forall|k: int|
                0 <= k < lists.len() ==> (#[trigger] lists[k]).1.leaves() == items->Ok_0[k].1.leaves()
        }),
{
    lemma_schema_logical(types, field, field.data_type);
    lemma_decode_logical(
        columns,
        types,
        field,
        field.data_type,
        init,
        num_rows,
        chunk_size,
        num_values,
        is_parent_nullable,
    );
    reveal_with_fuel(ArrayView::leaves, 3);
    let item = item_of(field.data_type.to_logical_type());
    let items = decoded(
        columns,
        types,
        item,
        init.push(InitNested::List(field.is_nullable)),
        num_rows,
        chunk_size,
        num_values,
        is_parent_nullable || field.is_nullable,
    )->Ok_0;
    let lists = decoded(
        columns,
        types,
        field,
        init,
        num_rows,
        chunk_size,
        num_values,
        is_parent_nullable,
    )->Ok_0;
    assert forall|k: int| 0 <= k < lists.len() implies (#[trigger] lists[k]).1.leaves()
        == items[k].1.leaves() by {
        if field.data_type.to_logical_type() is MapOf {
            assert(create_map_spec(field.data_type, items[k].0.last(), items[k].1) is Ok);
        } else {
            assert(create_list_spec(field.data_type, items[k].0.last(), items[k].1) is Ok);
        }
    }
}

/// The field of the items of a list type, or of the entries of a map type.
pub open spec fn item_of(data_type: DataTypeView) -> FieldView {
    match data_type {
        DataTypeView::List(inner) => *inner,
        DataTypeView::LargeList(inner) => *inner,
        DataTypeView::FixedSizeList(inner, _) => *inner,
        DataTypeView::MapOf(inner, _) => *inner,
        _ => arbitrary(),
    }
}

/// Putting a struct together leaves the leaves of its fields as they are:
/// the leaves of every chunk of the struct are the leaves of that chunk of
/// its fields, in the order of the fields.
pub proof fn lemma_struct_leaves(
    columns: Seq<PagesView>,
    types: Seq<ParquetType>,
    field: FieldView,
    init: Seq<InitNested>,
    num_rows: nat,
    chunk_size: Option<usize>,
    num_values: Seq<usize>,
    is_parent_nullable: bool,
)
    requires
        field.data_type.to_logical_type() is Struct,
        decoded(
            columns,
            types,
            field,
            init,
            num_rows,
            chunk_size,
            num_values,
            is_parent_nullable,
        ) is Ok,
    ensures
        ({
            let structs = decoded(
                columns,
                types,
                field,
                init,
                num_rows,
                chunk_size,
                num_values,
                is_parent_nullable,
            )->Ok_0;
            let children = decode_fields(
                columns,
                types,
                field.data_type.to_logical_type()->Struct_0,
                init.push(InitNested::Struct(field.is_nullable)),
                num_rows,
                chunk_size,
                num_values,
                is_parent_nullable || field.is_nullable,
            );
            &&& children is Ok
            &&& forall|k: int|
                0 <= k < structs.len() ==> (#[trigger] structs[k]).1.leaves()
                    == leaves_of(row_arrays(children->Ok_0, k))
        }),
{
    lemma_schema_logical(types, field, field.data_type);
    lemma_decode_logical(
        columns,
        types,
        field,
        field.data_type,
        init,
        num_rows,
        chunk_size,
        num_values,
        is_parent_nullable,
    );
    let fields = field.data_type.to_logical_type()->Struct_0;
    let children = decode_fields(
        columns,
        types,
        fields,
        init.push(InitNested::Struct(field.is_nullable)),
        num_rows,
        chunk_size,
        num_values,
        is_parent_nullable || field.is_nullable,
    )->Ok_0;
    let structs = decoded(
        columns,
        types,
        field,
        init,
        num_rows,
        chunk_size,
        num_values,
        is_parent_nullable,
    )->Ok_0;
    assert forall|k: int| 0 <= k < structs.len() implies (#[trigger] structs[k]).1.leaves()
        == leaves_of(row_arrays(children, k)) by {
        assert(struct_chunk(children, DataTypeView::Struct(fields), k) is Ok);
    }
}

/// The array of a field without children is its own and only leaf.
pub proof fn lemma_leaf_leaves<C: ValueCast>(
    pages: PagesView,
    init: Seq<InitNested>,
    data_type: DataTypeView,
    num_rows: nat,
    chunk_size: Option<usize>,
    num_values: nat,
    is_parent_nullable: bool,
)
    ensures
        leaf_spec::<C>(
            pages,
            init,
            data_type,
            num_rows,
            chunk_size,
            num_values,
            is_parent_nullable,
        ) matches Ok(items) ==> forall|k: int|
            0 <= k < items.len() ==> (#[trigger] items[k]).1.leaves() == seq![items[k].1],
{
    match leaf_result::<C>(
        pages,
        init,
        data_type,
        num_rows,
        chunk_size,
        num_values,
        is_parent_nullable,
    ) {
        Ok(raw) => {
            let items = leaf_spec::<C>(
                pages,
                init,
                data_type,
                num_rows,
                chunk_size,
                num_values,
                is_parent_nullable,
            )->Ok_0;
            assert forall|k: int| 0 <= k < items.len() implies (#[trigger] items[k]).1.leaves()
                == seq![items[k].1] by {
                C::To::lemma_array_of(raw[k].1);
            }
        },
        Err(_) => {},
    }
}

/// What the leaf columns of a field decode to in chunk `k`, each by itself
/// under the nesting context on its path, in the order of the schema.
pub open spec fn leaf_arrays(
    columns: Seq<PagesView>,
    types: Seq<ParquetType>,
    field: FieldView,
    data_type: DataTypeView,
    init: Seq<InitNested>,
    num_rows: nat,
    chunk_size: Option<usize>,
    num_values: Seq<usize>,
    is_parent_nullable: bool,
    k: int,
) -> Seq<ArrayView>
    decreases data_type,
{
    match data_type {
        DataTypeView::Extension(_, inner, _) => leaf_arrays(
            columns,
            types,
            field,
            *inner,
            init,
            num_rows,
            chunk_size,
            num_values,
            is_parent_nullable,
            k,
        ),
        DataTypeView::List(inner)
        | DataTypeView::LargeList(inner)
        | DataTypeView::FixedSizeList(inner, _)
        | DataTypeView::MapOf(inner, _) => leaf_arrays(
            columns,
            types,
            *inner,
            inner.data_type,
            init.push(InitNested::List(field.is_nullable)),
            num_rows,
            chunk_size,
            num_values,
            is_parent_nullable || field.is_nullable,
            k,
        ),
        DataTypeView::Struct(fields) => fields_leaf_arrays(
            columns,
            types,
            fields,
            init.push(InitNested::Struct(field.is_nullable)),
            num_rows,
            chunk_size,
            num_values,
            is_parent_nullable || field.is_nullable,
            k,
        ),
        _ => seq![
            decode_as(
                columns,
                types,
                field,
                data_type,
                init,
                num_rows,
                chunk_size,
                num_values,
                is_parent_nullable,
            )->Ok_0[k].1,
        ],
    }
}

/// What the leaf columns of the fields of a struct decode to in chunk `k`,
/// field after field, each field from the columns that it owns.
pub open spec fn fields_leaf_arrays(
    columns: Seq<PagesView>,
    types: Seq<ParquetType>,
    fields: Seq<FieldView>,
    init: Seq<InitNested>,
    num_rows: nat,
    chunk_size: Option<usize>,
    num_values: Seq<usize>,
    is_parent_nullable: bool,
    k: int,
) -> Seq<ArrayView>
    decreases fields,
{
    if fields.len() == 0 {
        Seq::empty()
    } else {
        let n = fields.last().data_type.n_columns() as int;
        fields_leaf_arrays(
            front(columns, n),
            front(types, n),
            fields.drop_last(),
            init,
            num_rows,
            chunk_size,
            front(num_values, n),
            is_parent_nullable,
            k,
        ) + leaf_arrays(
            tail(columns, n),
            tail(types, n),
            fields.last(),
            fields.last().data_type,
            init,
            num_rows,
            chunk_size,
            tail(num_values, n),
            is_parent_nullable,
            k,
        )
    }
}

/// The leaves of chunk `k` of the fields of a struct are what their leaf
/// columns decode to.
pub proof fn lemma_fields_leaves(
    columns: Seq<PagesView>,
    types: Seq<ParquetType>,
    fields: Seq<FieldView>,
    init: Seq<InitNested>,
    num_rows: nat,
    chunk_size: Option<usize>,
    num_values: Seq<usize>,
    is_parent_nullable: bool,
    k: int,
)
    requires
        decode_fields(
            columns,
            types,
            fields,
            init,
            num_rows,
            chunk_size,
            num_values,
            is_parent_nullable,
        ) matches Ok(children) && forall|i: int|
            0 <= i < children.len() ==> 0 <= k < (#[trigger] children[i]).len(),
    ensures
        leaves_of(
            row_arrays(
                decode_fields(
                    columns,
                    types,
                    fields,
                    init,
                    num_rows,
                    chunk_size,
                    num_values,
                    is_parent_nullable,
                )->Ok_0,
                k,
            ),
        ) == fields_leaf_arrays(
            columns,
            types,
            fields,
            init,
            num_rows,
            chunk_size,
            num_values,
            is_parent_nullable,
            k,
        ),
    decreases fields,
{
    let children = decode_fields(
        columns,
        types,
        fields,
        init,
        num_rows,
        chunk_size,
        num_values,
        is_parent_nullable,
    )->Ok_0;
    if fields.len() > 0 {
        let n = fields.last().data_type.n_columns() as int;
        let last = decode_as(
            tail(columns, n),
            tail(types, n),
            fields.last(),
            fields.last().data_type,
            init,
            num_rows,
            chunk_size,
            tail(num_values, n),
            is_parent_nullable,
        )->Ok_0;
        let rest = decode_fields(
            front(columns, n),
            front(types, n),
            fields.drop_last(),
            init,
            num_rows,
            chunk_size,
            front(num_values, n),
            is_parent_nullable,
        )->Ok_0;
        assert(children == rest.push(last));
        assert forall|i: int| 0 <= i < rest.len() implies 0 <= k < (#[trigger] rest[i]).len() by {
            assert(rest[i] == children[i]);
        }
        assert(children[children.len() - 1] == last);
        lemma_fields_leaves(
            front(columns, n),
            front(types, n),
            fields.drop_last(),
            init,
            num_rows,
            chunk_size,
            front(num_values, n),
            is_parent_nullable,
            k,
        );
        lemma_nested_leaves(
            tail(columns, n),
            tail(types, n),
            fields.last(),
            fields.last().data_type,
            init,
            num_rows,
            chunk_size,
            tail(num_values, n),
            is_parent_nullable,
        );
        assert(row_arrays(children, k).drop_last() =~= row_arrays(rest, k));
        assert(row_arrays(children, k).last() == last[k].1);
    } else {
        assert(row_arrays(children, k) =~= Seq::<ArrayView>::empty());
    }
}

/// Decoding keeps the leaves: whatever the nesting of a field, the leaves
/// of every array that it decodes to are what its leaf columns decode to,
/// each by itself under the nesting context on its path, in the order of
/// the schema. Lists, maps and structs add offsets and validity around the
/// leaves and change nothing in them.
pub proof fn lemma_nested_leaves(
    columns: Seq<PagesView>,
    types: Seq<ParquetType>,
    field: FieldView,
    data_type: DataTypeView,
    init: Seq<InitNested>,
    num_rows: nat,
    chunk_size: Option<usize>,
    num_values: Seq<usize>,
    is_parent_nullable: bool,
)
    ensures
        decode_as(
            columns,
            types,
            field,
            data_type,
            init,
            num_rows,
            chunk_size,
            num_values,
            is_parent_nullable,
        ) matches Ok(items) ==> forall|k: int|
            0 <= k < items.len() ==> (#[trigger] items[k]).1.leaves() == leaf_arrays(
                columns,
                types,
                field,
                data_type,
                init,
                num_rows,
                chunk_size,
                num_values,
                is_parent_nullable,
                k,
            ),
    decreases data_type,
{
    let nullable = is_parent_nullable || field.is_nullable;
    let found = decode_as(
        columns,
        types,
        field,
        data_type,
        init,
        num_rows,
        chunk_size,
        num_values,
        is_parent_nullable,
    );
    match data_type {
        DataTypeView::Extension(_, inner, _) => {
            lemma_nested_leaves(
                columns,
                types,
                field,
                *inner,
                init,
                num_rows,
                chunk_size,
                num_values,
                is_parent_nullable,
            );
        },
        DataTypeView::List(inner)
        | DataTypeView::LargeList(inner)
        | DataTypeView::FixedSizeList(inner, _)
        | DataTypeView::MapOf(inner, _) => {
            let below = init.push(InitNested::List(field.is_nullable));
            lemma_nested_leaves(
                columns,
                types,
                *inner,
                inner.data_type,
                below,
                num_rows,
                chunk_size,
                num_values,
                nullable,
            );
            if let Ok(lists) = found {
                let items = decode_as(
                    columns,
                    types,
                    *inner,
                    inner.data_type,
                    below,
                    num_rows,
                    chunk_size,
                    num_values,
                    nullable,
                )->Ok_0;
                reveal_with_fuel(ArrayView::leaves, 3);
                assert forall|k: int| 0 <= k < lists.len() implies (#[trigger] lists[k]).1.leaves()
                    == items[k].1.leaves() by {
                    if data_type is MapOf {
                        assert(create_map_spec(field.data_type, items[k].0.last(), items[k].1)
                            is Ok);
                    } else {
                        assert(create_list_spec(field.data_type, items[k].0.last(), items[k].1)
                            is Ok);
                    }
                }
            }
        },
        DataTypeView::Struct(fields) => {
            let below = init.push(InitNested::Struct(field.is_nullable));
            if let Ok(structs) = found {
                let children = decode_fields(
                    columns,
                    types,
                    fields,
                    below,
                    num_rows,
                    chunk_size,
                    num_values,
                    nullable,
                )->Ok_0;
                assert forall|k: int| 0 <= k < structs.len() implies (
                #[trigger] structs[k]).1.leaves() == fields_leaf_arrays(
                    columns,
                    types,
                    fields,
                    below,
                    num_rows,
                    chunk_size,
                    num_values,
                    nullable,
                    k,
                ) by {
                    assert(struct_chunk(children, DataTypeView::Struct(fields), k) is Ok);
                    lemma_fields_leaves(
                        columns,
                        types,
                        fields,
                        below,
                        num_rows,
                        chunk_size,
                        num_values,
                        nullable,
                        k,
                    );
                }
            }
        },
        _ => {
            lemma_leaf_decode_follows(
                columns,
                types,
                field,
                data_type,
                init,
                num_rows,
                chunk_size,
                num_values,
                is_parent_nullable,
            );
        },
    }
}

/// Decoding gives back what was stored, for a leaf of any type at any
/// depth of nesting: where the column of the leaf stores, for the slots
/// that its levels describe under the nesting context of the leaf, the
/// values of the slots that hold one, the leaf decodes in one chunk to the
/// array of the slots under the validity that the levels describe. With
/// [`lemma_nested_leaves`], this is what the leaves of a field of any
/// nesting decode to.
pub proof fn lemma_leaf_column_round_trip<C: ValueCast>(
    pages: PagesView,
    init: Seq<InitNested>,
    slots: Seq<<C::To as DeepView>::V>,
    data_type: DataTypeView,
    num_rows: nat,
    is_parent_nullable: bool,
)
    requires
        slots.len() == leaf_slots(init, pages.levels).len(),
        num_rows >= count_rows(pages.levels, 0, pages.levels.len() as int),
        C::select(pages) matches Some(values) && cast_values::<C>(values) == present_values(
            slots,
            leaf_slots(init, pages.levels),
        ),
    ensures
        leaf_spec::<C>(
            pages,
            init,
            data_type,
            num_rows,
            None,
            pages.levels.len(),
            is_parent_nullable,
        ) == Ok::<Seq<(Seq<NestedView>, ArrayView)>, ErrorView>(
            seq![
                (
                    state_of(init, pages.levels).drop_last(),
                    C::To::array_of(
                        DataArrayView {
                            data_type,
                            values: with_zeros(
                                slots,
                                leaf_slots(init, pages.levels),
                                C::To::zero_view(),
                            ),
                            validity: leaf_validity(
                                leaf_slots(init, pages.levels),
                                init.len() > 0 && init.last().nullable() || is_parent_nullable,
                            ),
                        },
                    ),
                ),
            ],
        ),
{
    lemma_leaf_round_trip(
        init,
        pages.levels,
        slots,
        C::To::zero_view(),
        data_type,
        num_rows,
        is_parent_nullable,
    );
    let found = leaf_spec::<C>(
        pages,
        init,
        data_type,
        num_rows,
        None,
        pages.levels.len(),
        is_parent_nullable,
    );
    assert(found->Ok_0 =~= seq![
        (
            state_of(init, pages.levels).drop_last(),
            C::To::array_of(
                DataArrayView {
                    data_type,
                    values: with_zeros(slots, leaf_slots(init, pages.levels), C::To::zero_view()),
                    validity: leaf_validity(
                        leaf_slots(init, pages.levels),
                        init.len() > 0 && init.last().nullable() || is_parent_nullable,
                    ),
                },
            ),
        ),
    ]);
}

/// Every key points into the dictionary. Where a dictionary-encoded column
/// decodes, under any nesting context and in chunks of any size, the key
/// type holds every key of the column, and in every array every key that
/// is not null is the position of a value of the dictionary.
pub proof fn lemma_keys_point_into_dictionary<K: DictionaryKey>(
    pages: PagesView,
    init: Seq<InitNested>,
    data_type: DataTypeView,
    num_rows: nat,
    chunk_size: Option<usize>,
)
    ensures
        dict_read_spec::<K>(pages, init, data_type, num_rows, chunk_size) matches Ok(items) ==> (
        K::select(pages) matches Some(stored) && keys_fit::<K>(stored) && forall|k: int|
            0 <= k < items.len() ==> ((#[trigger] items[k]).1 matches ArrayView::Dictionary {
                keys,
                dictionary,
                ..
            } && *keys == K::To::array_of(
                key_chunks::<K>(pages, stored, init, num_rows, chunk_size)[k].1,
            ) && keys_within::<K>(
                key_chunks::<K>(pages, stored, init, num_rows, chunk_size)[k].1,
                dictionary.len(),
            ))),
{
    match dict_read_spec::<K>(pages, init, data_type, num_rows, chunk_size) {
        Ok(items) => {
            let stored = K::select(pages)->Some_0;
            let raw = key_chunks::<K>(pages, stored, init, num_rows, chunk_size);
            assert forall|k: int| 0 <= k < items.len() implies ((#[trigger] items[k]).1
                matches ArrayView::Dictionary { keys, dictionary, .. } && *keys == K::To::array_of(
                raw[k].1,
            ) && keys_within::<K>(raw[k].1, dictionary.len())) by {
                assert(keys_within::<K>((#[trigger] raw[k]).1, items[k].1->Dictionary_dictionary.len()));
            }
        },
        Err(_) => {},
    }
}

/// Whether the arrays of a field of the type are of that type. Boolean
/// arrays and struct arrays are of the boolean type and of the struct type
/// themselves, so an extension type over one of them is not kept.
pub open spec fn keeps_type(data_type: DataTypeView) -> bool {
    data_type is Extension ==> !(data_type.to_logical_type() is Boolean)
        && !(data_type.to_logical_type() is Struct)
}

/// The arrays that a field decodes to are of the type of the field, where
/// that type is kept.
pub proof fn lemma_decoded_type(
    columns: Seq<PagesView>,
    types: Seq<ParquetType>,
    field: FieldView,
    init: Seq<InitNested>,
    num_rows: nat,
    chunk_size: Option<usize>,
    num_values: Seq<usize>,
    is_parent_nullable: bool,
)
    requires
        keeps_type(field.data_type),
    ensures
        decode(
            columns,
            types,
            field,
            init,
            num_rows,
            chunk_size,
            num_values,
            is_parent_nullable,
        ) matches Ok(items) ==> forall|k: int|
            0 <= k < items.len() ==> (#[trigger] items[k]).1.data_type() == field.data_type,
{
    let logical = field.data_type.to_logical_type();
    let nullable = is_parent_nullable || field.is_nullable;
    lemma_decode_logical(
        columns,
        types,
        field,
        field.data_type,
        init,
        num_rows,
        chunk_size,
        num_values,
        is_parent_nullable,
    );
    let found = decode_as(
        columns,
        types,
        field,
        logical,
        init,
        num_rows,
        chunk_size,
        num_values,
        is_parent_nullable,
    );
    match logical {
        DataTypeView::Extension(_, _, _) => {
            lemma_logical_is_bare(field.data_type);
        },
        DataTypeView::List(inner)
        | DataTypeView::LargeList(inner)
        | DataTypeView::FixedSizeList(inner, _)
        | DataTypeView::MapOf(inner, _) => {
            if let Ok(lists) = found {
                let items = decode_as(
                    columns,
                    types,
                    *inner,
                    inner.data_type,
                    init.push(InitNested::List(field.is_nullable)),
                    num_rows,
                    chunk_size,
                    num_values,
                    nullable,
                )->Ok_0;
                assert forall|k: int| 0 <= k < lists.len() implies (
                #[trigger] lists[k]).1.data_type() == field.data_type by {
                    if logical is MapOf {
                        assert(create_map_spec(field.data_type, items[k].0.last(), items[k].1)
                            is Ok);
                    } else {
                        assert(create_list_spec(field.data_type, items[k].0.last(), items[k].1)
                            is Ok);
                    }
                }
            }
        },
        DataTypeView::Struct(fields) => {
            if let Ok(structs) = found {
                let children = decode_fields(
                    columns,
                    types,
                    fields,
                    init.push(InitNested::Struct(field.is_nullable)),
                    num_rows,
                    chunk_size,
                    num_values,
                    nullable,
                )->Ok_0;
                assert forall|k: int| 0 <= k < structs.len() implies (
                #[trigger] structs[k]).1.data_type() == field.data_type by {
                    assert(struct_chunk(children, DataTypeView::Struct(fields), k) is Ok);
                }
            }
        },
        _ => {
            lemma_leaf_decode_follows(
                columns,
                types,
                field,
                logical,
                init,
                num_rows,
                chunk_size,
                num_values,
                is_parent_nullable,
            );
        },
    }
}

/// The type under the extension wrappers is no extension type.
pub proof fn lemma_logical_is_bare(data_type: DataTypeView)
    ensures
        !(data_type.to_logical_type() is Extension),
    decreases data_type,
{
    match data_type {
        DataTypeView::Extension(_, inner, _) => {
            lemma_logical_is_bare(*inner);
        },
        _ => {},
    }
}

/// Decoding as a whole. A field of any nesting that is decoded at the
/// root, with no chunk size, gives one chunk with an empty state. The
/// array of the chunk is of the type of the field, where that type is
/// kept; it has one element for every row that starts among the entries of
/// the chunk; and its leaves are what the leaf columns of the field decode
/// to, each by itself under the nesting context on its path, in the order
/// of the schema. What a leaf column decodes to is the values that were
/// stored in it, under the validity that its levels describe:
/// [`lemma_leaf_column_round_trip`].
pub proof fn lemma_decoded_whole(
    columns: Seq<PagesView>,
    types: Seq<ParquetType>,
    field: FieldView,
    num_rows: nat,
    num_values: Seq<usize>,
    is_parent_nullable: bool,
)
    requires
        field.data_type.n_columns() <= columns.len(),
        field.data_type.n_columns() <= num_values.len(),
    ensures
        decoded(
            columns,
            types,
            field,
            Seq::empty(),
            num_rows,
            None,
            num_values,
            is_parent_nullable,
        ) matches Ok(items) ==> {
            let es = chunk_levels(
                last_leaf_levels(columns, field.data_type, num_values),
                num_rows,
                None,
                0,
            );
            &&& items.len() == 1
            &&& items[0].0 == Seq::<NestedView>::empty()
            &&& keeps_type(field.data_type) ==> items[0].1.data_type() == field.data_type
            &&& items[0].1.len() == count_rows(es, 0, es.len() as int)
            &&& items[0].1.leaves() == leaf_arrays(
                columns,
                types,
                field,
                field.data_type,
                Seq::empty(),
                num_rows,
                None,
                num_values,
                is_parent_nullable,
                0,
            )
        },
{
    let init = Seq::<InitNested>::empty();
    lemma_one_element_per_row(
        columns,
        types,
        field,
        num_rows,
        None,
        num_values,
        is_parent_nullable,
    );
    lemma_nested_leaves(
        columns,
        types,
        field,
        field.data_type,
        init,
        num_rows,
        None,
        num_values,
        is_parent_nullable,
    );
    if keeps_type(field.data_type) {
        lemma_decoded_type(
            columns,
            types,
            field,
            init,
            num_rows,
            None,
            num_values,
            is_parent_nullable,
        );
    }
    if let Ok(items) = decoded(
        columns,
        types,
        field,
        init,
        num_rows,
        None,
        num_values,
        is_parent_nullable,
    ) {
        assert(items[0].0 =~= Seq::<NestedView>::empty());
    }
}

} // verus!
