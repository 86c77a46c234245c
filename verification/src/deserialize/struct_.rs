//! The struct assembler: the chunks of the fields of a struct, zipped chunk
//! by chunk into struct arrays.

use crate::array::{arrays_view, lemma_struct_view, validity_fits, Array, ArrayView, StructArray};
use crate::datatypes::{clone_fields, fields_view, lemma_fields_view, DataType, DataTypeView, Field};
use crate::deserialize::nested::level_validity_of;
use crate::error::{Error, ErrorView, Invalid};
use crate::nested_utils::{aligned, chunks_view, finish_validity, NestedState, NestedView};
use vstd::prelude::*;

verus! {

/// The mathematical value of the chunks of every field.
pub open spec fn columns_view(columns: Seq<Vec<(NestedState, Array)>>) -> Seq<
    Seq<(Seq<NestedView>, ArrayView)>,
> {
    Seq::new(columns.len(), |i: int| chunks_view(columns[i]@))
}

/// The struct array of the arrays of its fields, under the validity of the
/// innermost level of a state; that level is taken off the state. The
/// arrays must have one length, and the validity one bit for each of their
/// rows.
pub open spec fn struct_of(
    arrays: Seq<ArrayView>,
    nested: Seq<NestedView>,
    data_type: DataTypeView,
) -> Result<(Seq<NestedView>, ArrayView), ErrorView> {
    if (forall|i: int| 0 <= i < arrays.len() ==> (#[trigger] arrays[i]).len() == arrays[0].len())
        && validity_fits(level_validity_of(nested.last()), arrays[0].len()) {
        Ok(
            (
                nested.drop_last(),
                ArrayView::Struct {
                    data_type,
                    children: arrays,
                    validity: level_validity_of(nested.last()),
                },
            ),
        )
    } else {
        Err(ErrorView::InvalidArgumentError(Invalid::StructChildren))
    }
}

/// The arrays of chunk `k` of the fields, in the order of the fields.
pub open spec fn row_arrays(children: Seq<Seq<(Seq<NestedView>, ArrayView)>>, k: int) -> Seq<
    ArrayView,
> {
    Seq::new(children.len(), |i: int| children[i][k].1)
}

/// The struct of chunk `k` of the fields: their arrays, under the state of
/// the last field.
pub open spec fn struct_chunk(
    children: Seq<Seq<(Seq<NestedView>, ArrayView)>>,
    data_type: DataTypeView,
    k: int,
) -> Result<(Seq<NestedView>, ArrayView), ErrorView> {
    struct_of(row_arrays(children, k), children.last()[k].0, data_type)
}

/// The chunks of a struct from the chunks of its fields. There must be a
/// field, the fields must yield the same number of chunks, and in every
/// chunk arrays that line up.
pub open spec fn struct_chunks(
    children: Seq<Seq<(Seq<NestedView>, ArrayView)>>,
    data_type: DataTypeView,
) -> Result<Seq<(Seq<NestedView>, ArrayView)>, ErrorView> {
    if children.len() > 0 && (forall|i: int|
        0 <= i < children.len() ==> (#[trigger] children[i]).len() == children[0].len()) && (forall|
        k: int,
    | 0 <= k < children[0].len() ==> #[trigger] struct_chunk(children, data_type, k) is Ok) {
        Ok(Seq::new(children[0].len(), |k: int| struct_chunk(children, data_type, k)->Ok_0))
    } else {
        Err(ErrorView::InvalidArgumentError(Invalid::StructChildren))
    }
}

/// Whether the arrays all have the length of the first.
fn same_lengths(arrays: &Vec<Array>) -> (res: bool)
    requires
        arrays.len() > 0,
    ensures
        res == (forall|i: int|
            0 <= i < arrays.len() ==> (#[trigger] arrays_view(arrays@)[i]).len() == arrays_view(
                arrays@,
            )[0].len()),
{
    let first = arrays[0].len();
    let mut i: usize = 1;
    while i < arrays.len()
        invariant
            1 <= i <= arrays.len(),
            first == arrays[0]@.len(),
            forall|j: int| 0 <= j < i ==> (#[trigger] arrays_view(arrays@)[j]).len() == first,
        decreases arrays.len() - i,
    {
        if arrays[i].len() != first {
            assert(arrays_view(arrays@)[i as int].len() != arrays_view(arrays@)[0].len());
            return false;
        }
        i += 1;
    }
    true
}

/// Builds the struct array of one chunk.
#[verifier::rlimit(30)]
fn build_struct(arrays: Vec<Array>, nested: NestedState, fields: &Vec<Field>) -> (res: Result<
    (NestedState, Array),
    Error,
>)
    requires
        arrays.len() > 0,
        nested@.len() > 0,
    ensures
        match res {
            Ok(chunk) => struct_of(
                arrays_view(arrays@),
                nested@,
                DataTypeView::Struct(fields_view(fields@)),
            ) == Ok::<(Seq<NestedView>, ArrayView), ErrorView>((chunk.0@, chunk.1@)),
            Err(e) => struct_of(
                arrays_view(arrays@),
                nested@,
                DataTypeView::Struct(fields_view(fields@)),
            ) == Err::<(Seq<NestedView>, ArrayView), ErrorView>(e@),
        },
{
    let mut nested = nested;
    let ghost before = nested@;
    let level = nested.nested.pop().unwrap();
    assert(nested@ =~= before.drop_last());
    assert(level@ == before.last());
    let (_, bits) = level.inner();
    let validity = finish_validity(bits);
    let lengths = same_lengths(&arrays);
    let first = arrays[0].len();
    let fits = match &validity {
        Some(bits) => bits.len() == first,
        None => true,
    };
    if !lengths || !fits {
        return Err(Error::InvalidArgumentError(Invalid::StructChildren));
    }
    let copy = clone_fields(fields);
    let array = StructArray { data_type: DataType::Struct(copy), values: arrays, validity };
    proof {
        lemma_fields_view(copy);
        lemma_struct_view(array);
    }
    Ok((nested, Array::Struct(array)))
}

/// Zips the chunks of the fields of a struct, chunk by chunk, into struct
/// arrays.
#[verifier::rlimit(30)]
pub fn struct_iter(columns: Vec<Vec<(NestedState, Array)>>, fields: Vec<Field>) -> (res: Result<
    Vec<(NestedState, Array)>,
    Error,
>)
    requires
        forall|i: int, k: int|
            0 <= i < columns.len() && 0 <= k < columns[i].len() ==> (#[trigger] columns[i][k]).0@.len()
                > 0,
    ensures
        match res {
            Ok(items) => struct_chunks(
                columns_view(columns@),
                DataTypeView::Struct(fields_view(fields@)),
            ) == Ok::<Seq<(Seq<NestedView>, ArrayView)>, ErrorView>(chunks_view(items@)),
            Err(e) => struct_chunks(
                columns_view(columns@),
                DataTypeView::Struct(fields_view(fields@)),
            ) == Err::<Seq<(Seq<NestedView>, ArrayView)>, ErrorView>(e@),
        },
{
    let ghost all = columns@;
    let ghost children = columns_view(all);
    let ghost data_type = DataTypeView::Struct(fields_view(fields@));
    if columns.len() == 0 {
        return Err(Error::InvalidArgumentError(Invalid::StructChildren));
    }
    let count = columns[0].len();
    let mut c: usize = 1;
    while c < columns.len()
        invariant
            1 <= c <= columns.len(),
            all == columns@,
            children == columns_view(all),
            count == columns[0].len(),
            forall|i: int| 0 <= i < c ==> (#[trigger] children[i]).len() == count,
        decreases columns.len() - c,
    {
        if columns[c].len() != count {
            proof {
                assert(children[c as int].len() == all[c as int].len());
                assert(children[0].len() == all[0].len());
            }
            return Err(Error::InvalidArgumentError(Invalid::StructChildren));
        }
        assert(children[c as int].len() == all[c as int].len());
        c += 1;
    }
    proof {
        assert forall|i: int| 0 <= i < columns.len() implies (#[trigger] columns[i]).len()
            == count by {
            assert(children[i].len() == all[i].len());
        }
    }
    let mut rows = gather_rows(columns, count);
    let ghost width = all.len() as int;
    let ghost gathered = rows@;
    let mut res: Vec<(NestedState, Array)> = Vec::new();
    for row in it: rows
        invariant
            it.seq() == gathered,
            all == columns@,
            gathered.len() == count,
            width == all.len(),
            width > 0,
            children == columns_view(all),
            data_type == DataTypeView::Struct(fields_view(fields@)),
            children[0].len() == count,
            forall|i: int| 0 <= i < children.len() ==> (#[trigger] children[i]).len() == count,
            forall|k: int|
                0 <= k < count ==> row_matches(#[trigger] gathered[k], children, k),
            res.len() == it.index(),
            forall|k: int|
                0 <= k < res.len() ==> struct_chunk(children, data_type, k) == Ok::<
                    (Seq<NestedView>, ArrayView),
                    ErrorView,
                >(((#[trigger] res[k]).0@, res[k].1@)),
    {
        let ghost k = it.index() as int;
        assert(row_matches(gathered[k], children, k));
        let (arrays, state) = row;
        let nested = state.unwrap();
        match build_struct(arrays, nested, &fields) {
            Ok(chunk) => {
                res.push(chunk);
            },
            Err(e) => {
                proof {
                    assert(struct_chunk(children, data_type, k) == Err::<
                        (Seq<NestedView>, ArrayView),
                        ErrorView,
                    >(e@));
                    assert(0 <= k < children[0].len());
                    assert(struct_chunks(children, data_type) is Err);
                }
                return Err(e);
            },
        }
    }
    proof {
        assert forall|k: int| 0 <= k < children[0].len() implies #[trigger] struct_chunk(
            children,
            data_type,
            k,
        ) is Ok by {
            assert(struct_chunk(children, data_type, k)->Ok_0 == (res[k].0@, res[k].1@));
        }
        assert(chunks_view(res@) =~= Seq::new(
            children[0].len(),
            |k: int| struct_chunk(children, data_type, k)->Ok_0,
        ));
    }
    Ok(res)
}

/// The arrays and the state that were gathered for chunk `k`.
pub open spec fn row_matches(
    row: (Vec<Array>, Option<NestedState>),
    children: Seq<Seq<(Seq<NestedView>, ArrayView)>>,
    k: int,
) -> bool {
    &&& row.0.len() == children.len()
    &&& arrays_view(row.0@) == row_arrays(children, k)
    &&& row.1 matches Some(s)
    &&& s@ == children.last()[k].0
    &&& s@.len() > 0
}

/// Gathers, for every chunk, the arrays of the fields and the state of the
/// last field.
#[verifier::rlimit(30)]
fn gather_rows(columns: Vec<Vec<(NestedState, Array)>>, count: usize) -> (rows: Vec<
    (Vec<Array>, Option<NestedState>),
>)
    requires
        columns.len() > 0,
        forall|i: int| 0 <= i < columns.len() ==> (#[trigger] columns[i]).len() == count,
        forall|i: int, k: int|
            0 <= i < columns.len() && 0 <= k < columns[i].len() ==> (#[trigger] columns[i][k]).0@.len()
                > 0,
    ensures
        rows.len() == count,
        forall|k: int|
            0 <= k < count ==> row_matches(#[trigger] rows[k], columns_view(columns@), k),
{
    let ghost all = columns@;
    let ghost children = columns_view(all);
    let mut rows: Vec<(Vec<Array>, Option<NestedState>)> = Vec::new();
    let mut r: usize = 0;
    while r < count
        invariant
            r <= count,
            rows.len() == r,
            forall|k: int| 0 <= k < r ==> (#[trigger] rows[k]).0.len() == 0,
        decreases count - r,
    {
        rows.push((Vec::new(), None));
        r += 1;
    }
    for column in outer: columns
        invariant
            outer.seq() == all,
            children == columns_view(all),
            rows.len() == count,
            forall|i: int| 0 <= i < all.len() ==> (#[trigger] all[i]).len() == count,
            forall|i: int, k: int|
                0 <= i < all.len() && 0 <= k < all[i].len() ==> (#[trigger] all[i][k]).0@.len() > 0,
            forall|k: int| 0 <= k < count ==> (#[trigger] rows[k]).0.len() == outer.index(),
            forall|k: int, j: int|
                0 <= k < count && 0 <= j < outer.index() ==> (#[trigger] rows[k].0[j])@
                    == children[j][k].1,
            forall|k: int|
                0 <= k < count && outer.index() > 0 ==> ((#[trigger] rows[k]).1 matches Some(s)
                    && s@ == children[outer.index() - 1][k].0 && s@.len() > 0),
    {
        let ghost i = outer.index() as int;
        let ghost items = column@;
        assert(items == all[i]@);
        let mut pos: usize = 0;
        for item in inner: column
            invariant
                inner.seq() == items,
                pos == inner.index(),
                items == all[i]@,
                items.len() == count,
                0 <= i < all.len(),
                children == columns_view(all),
                rows.len() == count,
                forall|k: int| 0 <= k < all[i].len() ==> (#[trigger] all[i][k]).0@.len() > 0,
                forall|k: int|
                    0 <= k < count ==> (#[trigger] rows[k]).0.len() == if k < inner.index() {
                        i + 1
                    } else {
                        i
                    },
                forall|k: int, j: int|
                    0 <= k < count && 0 <= j < i ==> (#[trigger] rows[k].0[j])@ == children[j][k].1,
                forall|k: int|
                    0 <= k < inner.index() ==> (#[trigger] rows[k]).0[i]@ == children[i][k].1,
                forall|k: int|
                    0 <= k < inner.index() ==> ((#[trigger] rows[k]).1 matches Some(s) && s@
                        == children[i][k].0 && s@.len() > 0),
        {
            let ghost k = inner.index() as int;
            let (nested, array) = item;
            assert(children[i][k] == (items[k].0@, items[k].1@));
            assert(all[i][k].0@.len() > 0);
            rows[pos].0.push(array);
            rows[pos].1 = Some(nested);
            pos = pos + 1;
        }
    }
    proof {
        assert forall|k: int| 0 <= k < count implies row_matches(
            #[trigger] rows[k],
            children,
            k,
        ) by {
            assert(arrays_view(rows[k].0@) =~= row_arrays(children, k));
            assert(children.last() == children[all.len() - 1]);
        }
    }
    rows
}

/// The struct array of arrays that line up and are well-formed is
/// well-formed, and the state that is left fits it.
pub proof fn lemma_struct_of(
    arrays: Seq<ArrayView>,
    nested: Seq<NestedView>,
    data_type: DataTypeView,
    n: nat,
)
    requires
        arrays.len() > 0,
        struct_of(arrays, nested, data_type) is Ok,
        forall|i: int| 0 <= i < arrays.len() ==> (#[trigger] arrays[i]).wf(),
        nested.len() > 0,
        nested.last().init is Struct,
        aligned(nested, n),
        exists|i: int| 0 <= i < arrays.len() && (#[trigger] arrays[i]).len() == n,
    ensures
        struct_of(arrays, nested, data_type)->Ok_0.1.wf(),
        struct_of(arrays, nested, data_type)->Ok_0.1.data_type() == data_type,
        aligned(
            struct_of(arrays, nested, data_type)->Ok_0.0,
            struct_of(arrays, nested, data_type)->Ok_0.1.len(),
        ),
        (forall|i: int| 0 <= i < arrays.len() ==> (#[trigger] arrays[i]).offsets_cover())
            ==> struct_of(arrays, nested, data_type)->Ok_0.1.offsets_cover(),
{
    let i = choose|i: int| 0 <= i < arrays.len() && (#[trigger] arrays[i]).len() == n;
    assert(arrays[i].len() == arrays[0].len());
}

} // verus!
