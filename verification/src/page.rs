//! The decoded content of one leaf column: its definition and repetition
//! levels and the physical values that the levels mark as present.

use vstd::prelude::*;

verus! {

/// The physical type under which a leaf column is stored.
#[derive(Clone, Copy, Debug, PartialEq, Eq, Structural)]
pub enum ParquetPhysicalType {
    Boolean,
    Int32,
    Int64,
    Int96,
    Float,
    Double,
    ByteArray,
    /// Byte strings of the given length.
    FixedLenByteArray(usize),
}

/// The physical-type descriptor of one leaf column.
#[derive(Clone, Copy, Debug, PartialEq, Eq, Structural)]
pub struct ParquetType {
    pub physical_type: ParquetPhysicalType,
}

/// The bit pattern of a 32-bit floating-point number.
#[derive(Clone, Copy, Debug, PartialEq, Eq, Structural)]
pub struct F32Bits(pub u32);

/// The bit pattern of a 64-bit floating-point number.
#[derive(Clone, Copy, Debug, PartialEq, Eq, Structural)]
pub struct F64Bits(pub u64);

impl DeepView for F32Bits {
    type V = F32Bits;

    open spec fn deep_view(&self) -> F32Bits {
        *self
    }
}

impl DeepView for F64Bits {
    type V = F64Bits;

    open spec fn deep_view(&self) -> F64Bits {
        *self
    }
}

/// The repetition and definition level of one entry of a leaf column.
#[derive(Clone, Copy, Debug, PartialEq, Eq, Structural)]
pub struct Level {
    pub rep: u32,
    pub def: u32,
}

/// The physical values of a leaf column, in the order of the entries that
/// hold one.
#[derive(Debug, PartialEq, Eq)]
pub enum PageValues {
    Boolean(Vec<bool>),
    Int32(Vec<i32>),
    Int64(Vec<i64>),
    Float(Vec<F32Bits>),
    Double(Vec<F64Bits>),
    ByteArray(Vec<Vec<u8>>),
    FixedLenByteArray(Vec<Vec<u8>>),
}

/// The mathematical value of [`PageValues`].
pub enum PageValuesView {
    Boolean(Seq<bool>),
    Int32(Seq<i32>),
    Int64(Seq<i64>),
    Float(Seq<F32Bits>),
    Double(Seq<F64Bits>),
    ByteArray(Seq<Seq<u8>>),
    FixedLenByteArray(Seq<Seq<u8>>),
}

impl View for PageValues {
    type V = PageValuesView;

    open spec fn view(&self) -> PageValuesView {
        match self {
            PageValues::Boolean(v) => PageValuesView::Boolean(v@),
            PageValues::Int32(v) => PageValuesView::Int32(v@),
            PageValues::Int64(v) => PageValuesView::Int64(v@),
            PageValues::Float(v) => PageValuesView::Float(v@),
            PageValues::Double(v) => PageValuesView::Double(v@),
            PageValues::ByteArray(v) => PageValuesView::ByteArray(v.deep_view()),
            PageValues::FixedLenByteArray(v) => PageValuesView::FixedLenByteArray(v.deep_view()),
        }
    }
}

/// The pages of one leaf column, decoded: one level pair for every entry,
/// the values of the entries that are present, and, where the column is
/// dictionary-encoded, the key of every present entry (the values are then
/// the dictionary).
#[derive(Debug, PartialEq, Eq)]
pub struct Pages {
    pub levels: Vec<Level>,
    pub values: PageValues,
    pub keys: Option<Vec<u32>>,
}

/// The mathematical value of [`Pages`].
pub struct PagesView {
    pub levels: Seq<Level>,
    pub values: PageValuesView,
    pub keys: Option<Seq<u32>>,
}

impl View for Pages {
    type V = PagesView;

    open spec fn view(&self) -> PagesView {
        PagesView {
            levels: self.levels@,
            values: self.values@,
            keys: match self.keys {
                Some(k) => Some(k@),
                None => None,
            },
        }
    }
}

/// The views of a list of columns.
pub open spec fn pages_view(columns: Seq<Pages>) -> Seq<PagesView> {
    Seq::new(columns.len(), |i: int| columns[i]@)
}


/// A copy of a list of values.
fn copy_values<T: Copy>(values: &Vec<T>) -> (res: Vec<T>)
    ensures
        res@ == values@,
{
    let mut res: Vec<T> = Vec::new();
    let mut i: usize = 0;
    while i < values.len()
        invariant
            i <= values.len(),
            res@ == values@.subrange(0, i as int),
        decreases values.len() - i,
    {
        res.push(values[i]);
        i += 1;
        assert(res@ =~= values@.subrange(0, i as int));
    }
    assert(values@.subrange(0, i as int) =~= values@);
    res
}

/// A copy of a list of byte strings.
fn copy_strings(values: &Vec<Vec<u8>>) -> (res: Vec<Vec<u8>>)
    ensures
        res.deep_view() == values.deep_view(),
{
    let mut res: Vec<Vec<u8>> = Vec::new();
    let mut i: usize = 0;
    while i < values.len()
        invariant
            i <= values.len(),
            res.len() == i,
            forall|j: int| 0 <= j < i ==> (#[trigger] res[j])@ == values[j]@,
        decreases values.len() - i,
    {
        res.push(copy_values(&values[i]));
        i += 1;
    }
    assert(res.deep_view() =~= values.deep_view()) by {
        assert forall|j: int| 0 <= j < res.len() implies res.deep_view()[j]
            == values.deep_view()[j] by {
            assert(res[j].deep_view() =~= res[j]@);
            assert(values[j].deep_view() =~= values[j]@);
        }
    }
    res
}

impl Clone for PageValues {
    fn clone(&self) -> (res: Self)
        ensures
            res@ == self@,
    {
        match self {
            PageValues::Boolean(v) => PageValues::Boolean(copy_values(v)),
            PageValues::Int32(v) => PageValues::Int32(copy_values(v)),
            PageValues::Int64(v) => PageValues::Int64(copy_values(v)),
            PageValues::Float(v) => PageValues::Float(copy_values(v)),
            PageValues::Double(v) => PageValues::Double(copy_values(v)),
            PageValues::ByteArray(v) => PageValues::ByteArray(copy_strings(v)),
            PageValues::FixedLenByteArray(v) => PageValues::FixedLenByteArray(copy_strings(v)),
        }
    }
}

impl Clone for Pages {
    fn clone(&self) -> (res: Self)
        ensures
            res@ == self@,
    {
        Pages {
            levels: copy_values(&self.levels),
            values: self.values.clone(),
            keys: match &self.keys {
                Some(k) => Some(copy_values(k)),
                None => None,
            },
        }
    }
}

} // verus!
