//! Decoded arrays: a logical type, a buffer of values or child arrays, and
//! an optional validity bitmap with one bit per element.

use crate::convert::Int256;
use crate::datatypes::{DataType, DataTypeView};
use crate::page::{F32Bits, F64Bits};
use vstd::prelude::*;

verus! {

/// An array of one value per element, with an optional validity bitmap. A
/// slot whose validity bit is unset is null; it still holds a value.
#[derive(Debug, PartialEq, Eq)]
pub struct DataArray<T> {
    pub data_type: DataType,
    pub values: Vec<T>,
    pub validity: Option<Vec<bool>>,
}

/// The mathematical value of a [`DataArray`].
pub struct DataArrayView<V> {
    pub data_type: DataTypeView,
    pub values: Seq<V>,
    pub validity: Option<Seq<bool>>,
}

/// An array whose every element is null.
#[derive(Debug, PartialEq, Eq)]
pub struct NullArray {
    pub data_type: DataType,
    pub length: usize,
}

/// An array of byte strings that all have the length `size`.
#[derive(Debug, PartialEq, Eq)]
pub struct FixedSizeBinaryArray {
    pub data_type: DataType,
    pub size: usize,
    pub values: Vec<Vec<u8>>,
    pub validity: Option<Vec<bool>>,
}

/// An array of lists: row `i` holds the elements of the child from
/// `offsets[i]` up to `offsets[i + 1]`.
#[derive(Debug, PartialEq, Eq)]
pub struct ListArray {
    pub data_type: DataType,
    pub offsets: Vec<usize>,
    pub flat_child: Box<Array>,
    pub validity: Option<Vec<bool>>,
}

/// An array of lists of `size` elements each: row `i` holds the elements of
/// the child from `i * size` up to `(i + 1) * size`.
#[derive(Debug, PartialEq, Eq)]
pub struct FixedSizeListArray {
    pub data_type: DataType,
    pub size: usize,
    pub flat_child: Box<Array>,
    pub validity: Option<Vec<bool>>,
}

/// An array of maps, held as a list of key/value entries.
#[derive(Debug, PartialEq, Eq)]
pub struct MapArray {
    pub data_type: DataType,
    pub physical: ListArray,
}

/// An array of structs: one child array per field.
#[derive(Debug, PartialEq, Eq)]
pub struct StructArray {
    pub data_type: DataType,
    pub values: Vec<Array>,
    pub validity: Option<Vec<bool>>,
}

/// An array of keys into an array of values.
#[derive(Debug, PartialEq, Eq)]
pub struct DictionaryArray {
    pub data_type: DataType,
    pub keys: Box<Array>,
    pub values: Box<Array>,
}

/// A decoded array of any type.
#[derive(Debug, PartialEq, Eq)]
pub enum Array {
    Null(NullArray),
    Boolean(DataArray<bool>),
    Int8(DataArray<i8>),
    Int16(DataArray<i16>),
    Int32(DataArray<i32>),
    Int64(DataArray<i64>),
    Int128(DataArray<i128>),
    Int256(DataArray<Int256>),
    UInt8(DataArray<u8>),
    UInt16(DataArray<u16>),
    UInt32(DataArray<u32>),
    UInt64(DataArray<u64>),
    Float32(DataArray<F32Bits>),
    Float64(DataArray<F64Bits>),
    /// Byte strings and text, under 32-bit or 64-bit offsets.
    Binary(DataArray<Vec<u8>>),
    FixedSizeBinary(FixedSizeBinaryArray),
    List(ListArray),
    FixedSizeList(FixedSizeListArray),
    MapOf(MapArray),
    Struct(StructArray),
    Dictionary(DictionaryArray),
}

/// The mathematical value of an [`Array`].
pub enum ArrayView {
    Null { data_type: DataTypeView, length: nat },
    Boolean(DataArrayView<bool>),
    Int8(DataArrayView<i8>),
    Int16(DataArrayView<i16>),
    Int32(DataArrayView<i32>),
    Int64(DataArrayView<i64>),
    Int128(DataArrayView<i128>),
    Int256(DataArrayView<Int256>),
    UInt8(DataArrayView<u8>),
    UInt16(DataArrayView<u16>),
    UInt32(DataArrayView<u32>),
    UInt64(DataArrayView<u64>),
    Float32(DataArrayView<F32Bits>),
    Float64(DataArrayView<F64Bits>),
    Binary(DataArrayView<Seq<u8>>),
    FixedSizeBinary {
        data_type: DataTypeView,
        size: usize,
        values: Seq<Seq<u8>>,
        validity: Option<Seq<bool>>,
    },
    List {
        data_type: DataTypeView,
        offsets: Seq<usize>,
        flat_child: Box<ArrayView>,
        validity: Option<Seq<bool>>,
    },
    FixedSizeList {
        data_type: DataTypeView,
        size: usize,
        flat_child: Box<ArrayView>,
        validity: Option<Seq<bool>>,
    },
    MapOf { data_type: DataTypeView, physical: Box<ArrayView> },
    Struct { data_type: DataTypeView, children: Seq<ArrayView>, validity: Option<Seq<bool>> },
    Dictionary { data_type: DataTypeView, keys: Box<ArrayView>, dictionary: Box<ArrayView> },
}

/// The bits of an optional bitmap.
pub open spec fn bits_view(v: Option<Vec<bool>>) -> Option<Seq<bool>> {
    match v {
        Some(b) => Some(b@),
        None => None,
    }
}

impl<T: DeepView> View for DataArray<T> {
    type V = DataArrayView<T::V>;

    open spec fn view(&self) -> DataArrayView<T::V> {
        DataArrayView {
            data_type: self.data_type@,
            values: self.values.deep_view(),
            validity: bits_view(self.validity),
        }
    }
}

pub open spec fn list_view(l: ListArray) -> ArrayView {
    array_view(Array::List(l))
}

pub open spec fn array_view(a: Array) -> ArrayView
    decreases a,
{
    match a {
        Array::Null(n) => ArrayView::Null { data_type: n.data_type@, length: n.length as nat },
        Array::Boolean(d) => ArrayView::Boolean(d@),
        Array::Int8(d) => ArrayView::Int8(d@),
        Array::Int16(d) => ArrayView::Int16(d@),
        Array::Int32(d) => ArrayView::Int32(d@),
        Array::Int64(d) => ArrayView::Int64(d@),
        Array::Int128(d) => ArrayView::Int128(d@),
        Array::Int256(d) => ArrayView::Int256(d@),
        Array::UInt8(d) => ArrayView::UInt8(d@),
        Array::UInt16(d) => ArrayView::UInt16(d@),
        Array::UInt32(d) => ArrayView::UInt32(d@),
        Array::UInt64(d) => ArrayView::UInt64(d@),
        Array::Float32(d) => ArrayView::Float32(d@),
        Array::Float64(d) => ArrayView::Float64(d@),
        Array::Binary(d) => ArrayView::Binary(d@),
        Array::FixedSizeBinary(f) => ArrayView::FixedSizeBinary {
            data_type: f.data_type@,
            size: f.size,
            values: f.values.deep_view(),
            validity: bits_view(f.validity),
        },
        Array::List(l) => ArrayView::List {
            data_type: l.data_type@,
            offsets: l.offsets@,
            flat_child: Box::new(array_view(*l.flat_child)),
            validity: bits_view(l.validity),
        },
        Array::FixedSizeList(l) => ArrayView::FixedSizeList {
            data_type: l.data_type@,
            size: l.size,
            flat_child: Box::new(array_view(*l.flat_child)),
            validity: bits_view(l.validity),
        },
        Array::MapOf(m) => ArrayView::MapOf {
            data_type: m.data_type@,
            physical: Box::new(
                ArrayView::List {
                    data_type: m.physical.data_type@,
                    offsets: m.physical.offsets@,
                    flat_child: Box::new(array_view(*m.physical.flat_child)),
                    validity: bits_view(m.physical.validity),
                },
            ),
        },
        Array::Struct(s) => ArrayView::Struct {
            data_type: s.data_type@,
            children: Seq::new(
                s.values.len() as nat,
                |i: int|
                    if 0 <= i < s.values.len() {
                        array_view(s.values[i])
                    } else {
                        arbitrary()
                    },
            ),
            validity: bits_view(s.validity),
        },
        Array::Dictionary(d) => ArrayView::Dictionary {
            data_type: d.data_type@,
            keys: Box::new(array_view(*d.keys)),
            dictionary: Box::new(array_view(*d.values)),
        },
    }
}

/// The views of a list of arrays.
pub open spec fn arrays_view(arrays: Seq<Array>) -> Seq<ArrayView> {
    Seq::new(arrays.len(), |i: int| array_view(arrays[i]))
}

impl View for Array {
    type V = ArrayView;

    open spec fn view(&self) -> ArrayView {
        array_view(*self)
    }
}

impl View for NullArray {
    type V = ArrayView;

    open spec fn view(&self) -> ArrayView {
        array_view(Array::Null(*self))
    }
}

impl View for FixedSizeBinaryArray {
    type V = ArrayView;

    open spec fn view(&self) -> ArrayView {
        array_view(Array::FixedSizeBinary(*self))
    }
}

impl View for ListArray {
    type V = ArrayView;

    open spec fn view(&self) -> ArrayView {
        list_view(*self)
    }
}

impl View for FixedSizeListArray {
    type V = ArrayView;

    open spec fn view(&self) -> ArrayView {
        array_view(Array::FixedSizeList(*self))
    }
}

impl View for MapArray {
    type V = ArrayView;

    open spec fn view(&self) -> ArrayView {
        array_view(Array::MapOf(*self))
    }
}

impl View for StructArray {
    type V = ArrayView;

    open spec fn view(&self) -> ArrayView {
        array_view(Array::Struct(*self))
    }
}

impl View for DictionaryArray {
    type V = ArrayView;

    open spec fn view(&self) -> ArrayView {
        array_view(Array::Dictionary(*self))
    }
}

/// The view of a struct array lists the views of its children.
pub proof fn lemma_struct_view(s: StructArray)
    ensures
        s@ == (ArrayView::Struct {
            data_type: s.data_type@,
            children: arrays_view(s.values@),
            validity: bits_view(s.validity),
        }),
{
    assert(s@->children =~= arrays_view(s.values@));
}

/// A validity bitmap, where there is one, has one bit per element.
pub open spec fn validity_fits(validity: Option<Seq<bool>>, len: nat) -> bool {
    validity matches Some(bits) ==> bits.len() == len
}

/// The part of a bitmap from `start` up to `end`.
pub open spec fn slice_bits(validity: Option<Seq<bool>>, start: int, end: int) -> Option<
    Seq<bool>,
> {
    match validity {
        Some(bits) => Some(bits.subrange(start, end)),
        None => None,
    }
}

/// Offsets that never decrease.
pub open spec fn non_decreasing(offsets: Seq<usize>) -> bool {
    forall|i: int, j: int| 0 <= i <= j < offsets.len() ==> offsets[i] <= offsets[j]
}

impl<V> DataArrayView<V> {
    pub open spec fn wf(self) -> bool {
        validity_fits(self.validity, self.values.len())
    }

    pub open spec fn slice(self, start: int, end: int) -> DataArrayView<V> {
        DataArrayView {
            data_type: self.data_type,
            values: self.values.subrange(start, end),
            validity: slice_bits(self.validity, start, end),
        }
    }
}

impl ArrayView {
    /// The logical type of the array.
    pub open spec fn data_type(self) -> DataTypeView {
        match self {
            ArrayView::Null { data_type, .. } => data_type,
            ArrayView::Boolean(d) => d.data_type,
            ArrayView::Int8(d) => d.data_type,
            ArrayView::Int16(d) => d.data_type,
            ArrayView::Int32(d) => d.data_type,
            ArrayView::Int64(d) => d.data_type,
            ArrayView::Int128(d) => d.data_type,
            ArrayView::Int256(d) => d.data_type,
            ArrayView::UInt8(d) => d.data_type,
            ArrayView::UInt16(d) => d.data_type,
            ArrayView::UInt32(d) => d.data_type,
            ArrayView::UInt64(d) => d.data_type,
            ArrayView::Float32(d) => d.data_type,
            ArrayView::Float64(d) => d.data_type,
            ArrayView::Binary(d) => d.data_type,
            ArrayView::FixedSizeBinary { data_type, .. } => data_type,
            ArrayView::List { data_type, .. } => data_type,
            ArrayView::FixedSizeList { data_type, .. } => data_type,
            ArrayView::MapOf { data_type, .. } => data_type,
            ArrayView::Struct { data_type, .. } => data_type,
            ArrayView::Dictionary { data_type, .. } => data_type,
        }
    }

    /// The number of elements.
    pub open spec fn len(self) -> nat
        decreases self,
    {
        match self {
            ArrayView::Null { length, .. } => length,
            ArrayView::Boolean(d) => d.values.len(),
            ArrayView::Int8(d) => d.values.len(),
            ArrayView::Int16(d) => d.values.len(),
            ArrayView::Int32(d) => d.values.len(),
            ArrayView::Int64(d) => d.values.len(),
            ArrayView::Int128(d) => d.values.len(),
            ArrayView::Int256(d) => d.values.len(),
            ArrayView::UInt8(d) => d.values.len(),
            ArrayView::UInt16(d) => d.values.len(),
            ArrayView::UInt32(d) => d.values.len(),
            ArrayView::UInt64(d) => d.values.len(),
            ArrayView::Float32(d) => d.values.len(),
            ArrayView::Float64(d) => d.values.len(),
            ArrayView::Binary(d) => d.values.len(),
            ArrayView::FixedSizeBinary { values, .. } => values.len(),
            ArrayView::List { offsets, .. } => if offsets.len() == 0 {
                0
            } else {
                (offsets.len() - 1) as nat
            },
            ArrayView::FixedSizeList { size, flat_child, .. } => if size == 0 {
                0
            } else {
                flat_child.len() / (size as nat)
            },
            ArrayView::MapOf { physical, .. } => physical.len(),
            ArrayView::Struct { children, .. } => if children.len() == 0 {
                0
            } else {
                children[0].len()
            },
            ArrayView::Dictionary { keys, .. } => keys.len(),
        }
    }

    /// The validity bitmap, where the array has one of its own.
    pub open spec fn validity(self) -> Option<Seq<bool>>
        decreases self,
    {
        match self {
            ArrayView::Null { .. } => None,
            ArrayView::Boolean(d) => d.validity,
            ArrayView::Int8(d) => d.validity,
            ArrayView::Int16(d) => d.validity,
            ArrayView::Int32(d) => d.validity,
            ArrayView::Int64(d) => d.validity,
            ArrayView::Int128(d) => d.validity,
            ArrayView::Int256(d) => d.validity,
            ArrayView::UInt8(d) => d.validity,
            ArrayView::UInt16(d) => d.validity,
            ArrayView::UInt32(d) => d.validity,
            ArrayView::UInt64(d) => d.validity,
            ArrayView::Float32(d) => d.validity,
            ArrayView::Float64(d) => d.validity,
            ArrayView::Binary(d) => d.validity,
            ArrayView::FixedSizeBinary { validity, .. } => validity,
            ArrayView::List { validity, .. } => validity,
            ArrayView::FixedSizeList { validity, .. } => validity,
            ArrayView::MapOf { physical, .. } => physical.validity(),
            ArrayView::Struct { validity, .. } => validity,
            ArrayView::Dictionary { keys, .. } => keys.validity(),
        }
    }

    /// Whether element `i` is not null.
    pub open spec fn is_valid(self, i: int) -> bool {
        match self {
            ArrayView::Null { .. } => false,
            _ => match self.validity() {
                Some(bits) => bits[i],
                None => true,
            },
        }
    }

    /// The keys of an integer array, as integers.
    pub open spec fn key(self, i: int) -> int {
        match self {
            ArrayView::Int8(d) => d.values[i] as int,
            ArrayView::Int16(d) => d.values[i] as int,
            ArrayView::Int32(d) => d.values[i] as int,
            ArrayView::Int64(d) => d.values[i] as int,
            ArrayView::UInt8(d) => d.values[i] as int,
            ArrayView::UInt16(d) => d.values[i] as int,
            ArrayView::UInt32(d) => d.values[i] as int,
            ArrayView::UInt64(d) => d.values[i] as int,
            _ => -1,
        }
    }

    /// Whether the parts of the array fit together: a validity bitmap has one
    /// bit per element, offsets start a non-decreasing walk through the
    /// child, fixed-size values fill their rows, the children of a struct
    /// have one length, dictionary keys that are not null lie inside the
    /// dictionary; and the same holds of every child.
    pub open spec fn wf(self) -> bool
        decreases self,
    {
        match self {
            ArrayView::Null { .. } => true,
            ArrayView::Boolean(d) => d.wf(),
            ArrayView::Int8(d) => d.wf(),
            ArrayView::Int16(d) => d.wf(),
            ArrayView::Int32(d) => d.wf(),
            ArrayView::Int64(d) => d.wf(),
            ArrayView::Int128(d) => d.wf(),
            ArrayView::Int256(d) => d.wf(),
            ArrayView::UInt8(d) => d.wf(),
            ArrayView::UInt16(d) => d.wf(),
            ArrayView::UInt32(d) => d.wf(),
            ArrayView::UInt64(d) => d.wf(),
            ArrayView::Float32(d) => d.wf(),
            ArrayView::Float64(d) => d.wf(),
            ArrayView::Binary(d) => d.wf(),
            ArrayView::FixedSizeBinary { size, values, validity, .. } => {
                &&& validity_fits(validity, values.len())
                &&& forall|i: int| 0 <= i < values.len() ==> (#[trigger] values[i]).len() == size
            },
            ArrayView::List { offsets, flat_child, validity, .. } => {
                &&& offsets.len() >= 1
                &&& non_decreasing(offsets)
                &&& offsets.last() <= flat_child.len()
                &&& validity_fits(validity, (offsets.len() - 1) as nat)
                &&& flat_child.wf()
            },
            ArrayView::FixedSizeList { size, flat_child, validity, .. } => {
                &&& size > 0
                &&& flat_child.len() % (size as nat) == 0
                &&& validity_fits(validity, flat_child.len() / (size as nat))
                &&& flat_child.wf()
            },
            ArrayView::MapOf { physical, .. } => {
                &&& *physical is List
                &&& physical.wf()
            },
            ArrayView::Struct { children, validity, .. } => {
                &&& children.len() > 0
                &&& validity_fits(validity, children[0].len())
                &&& forall|i: int|
                    0 <= i < children.len() ==> (#[trigger] children[i]).len() == children[0].len()
                &&& forall|i: int| 0 <= i < children.len() ==> (#[trigger] children[i]).wf()
            },
            ArrayView::Dictionary { keys, dictionary, .. } => {
                &&& keys.wf()
                &&& dictionary.wf()
                &&& forall|i: int|
                    0 <= i < keys.len() && #[trigger] keys.is_valid(i) ==> 0 <= keys.key(i)
                        < dictionary.len()
            },
        }
    }

    /// Whether every list and map in the array has offsets that never
    /// decrease and end at the length of its child.
    pub open spec fn offsets_cover(self) -> bool
        decreases self,
    {
        match self {
            ArrayView::List { offsets, flat_child, .. } => {
                &&& offsets.len() > 0
                &&& non_decreasing(offsets)
                &&& offsets.last() == flat_child.len()
                &&& flat_child.offsets_cover()
            },
            ArrayView::FixedSizeList { flat_child, .. } => flat_child.offsets_cover(),
            ArrayView::MapOf { physical, .. } => physical.offsets_cover(),
            ArrayView::Struct { children, .. } => forall|i: int|
                0 <= i < children.len() ==> (#[trigger] children[i]).offsets_cover(),
            ArrayView::Dictionary { dictionary, .. } => dictionary.offsets_cover(),
            _ => true,
        }
    }

    /// The arrays without children that the array is made of, in the order
    /// of the schema: the array itself where it has no children, the leaves
    /// of its children otherwise.
    pub open spec fn leaves(self) -> Seq<ArrayView>
        decreases self,
    {
        match self {
            ArrayView::List { flat_child, .. } => flat_child.leaves(),
            ArrayView::FixedSizeList { flat_child, .. } => flat_child.leaves(),
            ArrayView::MapOf { physical, .. } => physical.leaves(),
            ArrayView::Struct { children, .. } => leaves_of(children),
            _ => seq![self],
        }
    }

    /// The elements from `start` up to `end`.
    pub open spec fn slice(self, start: int, end: int) -> ArrayView
        decreases self,
    {
        match self {
            ArrayView::Null { data_type, .. } => ArrayView::Null {
                data_type,
                length: (end - start) as nat,
            },
            ArrayView::Boolean(d) => ArrayView::Boolean(d.slice(start, end)),
            ArrayView::Int8(d) => ArrayView::Int8(d.slice(start, end)),
            ArrayView::Int16(d) => ArrayView::Int16(d.slice(start, end)),
            ArrayView::Int32(d) => ArrayView::Int32(d.slice(start, end)),
            ArrayView::Int64(d) => ArrayView::Int64(d.slice(start, end)),
            ArrayView::Int128(d) => ArrayView::Int128(d.slice(start, end)),
            ArrayView::Int256(d) => ArrayView::Int256(d.slice(start, end)),
            ArrayView::UInt8(d) => ArrayView::UInt8(d.slice(start, end)),
            ArrayView::UInt16(d) => ArrayView::UInt16(d.slice(start, end)),
            ArrayView::UInt32(d) => ArrayView::UInt32(d.slice(start, end)),
            ArrayView::UInt64(d) => ArrayView::UInt64(d.slice(start, end)),
            ArrayView::Float32(d) => ArrayView::Float32(d.slice(start, end)),
            ArrayView::Float64(d) => ArrayView::Float64(d.slice(start, end)),
            ArrayView::Binary(d) => ArrayView::Binary(d.slice(start, end)),
            ArrayView::FixedSizeBinary { data_type, size, values, validity } => {
                ArrayView::FixedSizeBinary {
                    data_type,
                    size,
                    values: values.subrange(start, end),
                    validity: slice_bits(validity, start, end),
                }
            },
            ArrayView::List { data_type, offsets, flat_child, validity } => ArrayView::List {
                data_type,
                offsets: offsets.subrange(start, end + 1),
                flat_child,
                validity: slice_bits(validity, start, end),
            },
            ArrayView::FixedSizeList { data_type, size, flat_child, validity } => {
                ArrayView::FixedSizeList {
                    data_type,
                    size,
                    flat_child: Box::new(flat_child.slice(start * size, end * size)),
                    validity: slice_bits(validity, start, end),
                }
            },
            ArrayView::MapOf { data_type, physical } => ArrayView::MapOf {
                data_type,
                physical: Box::new(physical.slice(start, end)),
            },
            ArrayView::Struct { data_type, children, validity } => ArrayView::Struct {
                data_type,
                children: Seq::new(
                    children.len(),
                    |i: int|
                        if 0 <= i < children.len() {
                            children[i].slice(start, end)
                        } else {
                            arbitrary()
                        },
                ),
                validity: slice_bits(validity, start, end),
            },
            ArrayView::Dictionary { data_type, keys, dictionary } => ArrayView::Dictionary {
                data_type,
                keys: Box::new(keys.slice(start, end)),
                dictionary,
            },
        }
    }
}


/// The types of value that a [`DataArray`] can hold.
pub trait NativeType: Sized + DeepView {
    /// The value that a null slot holds.
    spec fn zero_view() -> Self::V;

    /// The value that a null slot holds.
    fn zero() -> (res: Self)
        ensures
            res.deep_view() == Self::zero_view(),
    ;

    /// A copy of the value.
    fn duplicate(&self) -> (res: Self)
        ensures
            res.deep_view() == self.deep_view(),
    ;

    /// The array of any type that an array of this type of value is.
    spec fn array_of(a: DataArrayView<Self::V>) -> ArrayView;

    /// The array as an array of any type.
    fn wrap(a: DataArray<Self>) -> (res: Array)
        ensures
            res@ == Self::array_of(a@),
    ;

    /// The array of any type has the parts of the array of values.
    proof fn lemma_array_of(a: DataArrayView<Self::V>)
        ensures
            Self::array_of(a).len() == a.values.len(),
            Self::array_of(a).wf() == a.wf(),
            Self::array_of(a).data_type() == a.data_type,
            Self::array_of(a).validity() == a.validity,
            Self::array_of(a).offsets_cover(),
            Self::array_of(a).leaves() == seq![Self::array_of(a)],
            !(Self::array_of(a) is Null),
    ;
}

impl NativeType for bool {
    open spec fn zero_view() -> bool {
        false
    }

    fn zero() -> (res: Self) {
        false
    }

    fn duplicate(&self) -> (res: Self) {
        *self
    }

    open spec fn array_of(a: DataArrayView<bool>) -> ArrayView {
        ArrayView::Boolean(a)
    }

    fn wrap(a: DataArray<Self>) -> (res: Array) {
        Array::Boolean(a)
    }

    proof fn lemma_array_of(a: DataArrayView<bool>) {
    }
}

impl NativeType for i8 {
    open spec fn zero_view() -> i8 {
        0
    }

    fn zero() -> (res: Self) {
        0
    }

    fn duplicate(&self) -> (res: Self) {
        *self
    }

    open spec fn array_of(a: DataArrayView<i8>) -> ArrayView {
        ArrayView::Int8(a)
    }

    fn wrap(a: DataArray<Self>) -> (res: Array) {
        Array::Int8(a)
    }

    proof fn lemma_array_of(a: DataArrayView<i8>) {
    }
}

impl NativeType for i16 {
    open spec fn zero_view() -> i16 {
        0
    }

    fn zero() -> (res: Self) {
        0
    }

    fn duplicate(&self) -> (res: Self) {
        *self
    }

    open spec fn array_of(a: DataArrayView<i16>) -> ArrayView {
        ArrayView::Int16(a)
    }

    fn wrap(a: DataArray<Self>) -> (res: Array) {
        Array::Int16(a)
    }

    proof fn lemma_array_of(a: DataArrayView<i16>) {
    }
}

impl NativeType for i32 {
    open spec fn zero_view() -> i32 {
        0
    }

    fn zero() -> (res: Self) {
        0
    }

    fn duplicate(&self) -> (res: Self) {
        *self
    }

    open spec fn array_of(a: DataArrayView<i32>) -> ArrayView {
        ArrayView::Int32(a)
    }

    fn wrap(a: DataArray<Self>) -> (res: Array) {
        Array::Int32(a)
    }

    proof fn lemma_array_of(a: DataArrayView<i32>) {
    }
}

impl NativeType for i64 {
    open spec fn zero_view() -> i64 {
        0
    }

    fn zero() -> (res: Self) {
        0
    }

    fn duplicate(&self) -> (res: Self) {
        *self
    }

    open spec fn array_of(a: DataArrayView<i64>) -> ArrayView {
        ArrayView::Int64(a)
    }

    fn wrap(a: DataArray<Self>) -> (res: Array) {
        Array::Int64(a)
    }

    proof fn lemma_array_of(a: DataArrayView<i64>) {
    }
}

impl NativeType for i128 {
    open spec fn zero_view() -> i128 {
        0
    }

    fn zero() -> (res: Self) {
        0
    }

    fn duplicate(&self) -> (res: Self) {
        *self
    }

    open spec fn array_of(a: DataArrayView<i128>) -> ArrayView {
        ArrayView::Int128(a)
    }

    fn wrap(a: DataArray<Self>) -> (res: Array) {
        Array::Int128(a)
    }

    proof fn lemma_array_of(a: DataArrayView<i128>) {
    }
}

impl NativeType for Int256 {
    open spec fn zero_view() -> Int256 {
        Int256 { high: 0, low: 0 }
    }

    fn zero() -> (res: Self) {
        Int256 { high: 0, low: 0 }
    }

    fn duplicate(&self) -> (res: Self) {
        *self
    }

    open spec fn array_of(a: DataArrayView<Int256>) -> ArrayView {
        ArrayView::Int256(a)
    }

    fn wrap(a: DataArray<Self>) -> (res: Array) {
        Array::Int256(a)
    }

    proof fn lemma_array_of(a: DataArrayView<Int256>) {
    }
}

impl NativeType for u8 {
    open spec fn zero_view() -> u8 {
        0
    }

    fn zero() -> (res: Self) {
        0
    }

    fn duplicate(&self) -> (res: Self) {
        *self
    }

    open spec fn array_of(a: DataArrayView<u8>) -> ArrayView {
        ArrayView::UInt8(a)
    }

    fn wrap(a: DataArray<Self>) -> (res: Array) {
        Array::UInt8(a)
    }

    proof fn lemma_array_of(a: DataArrayView<u8>) {
    }
}

impl NativeType for u16 {
    open spec fn zero_view() -> u16 {
        0
    }

    fn zero() -> (res: Self) {
        0
    }

    fn duplicate(&self) -> (res: Self) {
        *self
    }

    open spec fn array_of(a: DataArrayView<u16>) -> ArrayView {
        ArrayView::UInt16(a)
    }

    fn wrap(a: DataArray<Self>) -> (res: Array) {
        Array::UInt16(a)
    }

    proof fn lemma_array_of(a: DataArrayView<u16>) {
    }
}

impl NativeType for u32 {
    open spec fn zero_view() -> u32 {
        0
    }

    fn zero() -> (res: Self) {
        0
    }

    fn duplicate(&self) -> (res: Self) {
        *self
    }

    open spec fn array_of(a: DataArrayView<u32>) -> ArrayView {
        ArrayView::UInt32(a)
    }

    fn wrap(a: DataArray<Self>) -> (res: Array) {
        Array::UInt32(a)
    }

    proof fn lemma_array_of(a: DataArrayView<u32>) {
    }
}

impl NativeType for u64 {
    open spec fn zero_view() -> u64 {
        0
    }

    fn zero() -> (res: Self) {
        0
    }

    fn duplicate(&self) -> (res: Self) {
        *self
    }

    open spec fn array_of(a: DataArrayView<u64>) -> ArrayView {
        ArrayView::UInt64(a)
    }

    fn wrap(a: DataArray<Self>) -> (res: Array) {
        Array::UInt64(a)
    }

    proof fn lemma_array_of(a: DataArrayView<u64>) {
    }
}

impl NativeType for F32Bits {
    open spec fn zero_view() -> F32Bits {
        F32Bits(0)
    }

    fn zero() -> (res: Self) {
        F32Bits(0)
    }

    fn duplicate(&self) -> (res: Self) {
        *self
    }

    open spec fn array_of(a: DataArrayView<F32Bits>) -> ArrayView {
        ArrayView::Float32(a)
    }

    fn wrap(a: DataArray<Self>) -> (res: Array) {
        Array::Float32(a)
    }

    proof fn lemma_array_of(a: DataArrayView<F32Bits>) {
    }
}

impl NativeType for F64Bits {
    open spec fn zero_view() -> F64Bits {
        F64Bits(0)
    }

    fn zero() -> (res: Self) {
        F64Bits(0)
    }

    fn duplicate(&self) -> (res: Self) {
        *self
    }

    open spec fn array_of(a: DataArrayView<F64Bits>) -> ArrayView {
        ArrayView::Float64(a)
    }

    fn wrap(a: DataArray<Self>) -> (res: Array) {
        Array::Float64(a)
    }

    proof fn lemma_array_of(a: DataArrayView<F64Bits>) {
    }
}

impl NativeType for Vec<u8> {
    open spec fn zero_view() -> Seq<u8> {
        Seq::empty()
    }

    fn zero() -> (res: Self) {
        let res: Vec<u8> = Vec::new();
        assert(res.deep_view() =~= Seq::<u8>::empty());
        res
    }

    fn duplicate(&self) -> (res: Self) {
        let res = copy_bytes(self);
        assert(res.deep_view() =~= self.deep_view());
        res
    }

    open spec fn array_of(a: DataArrayView<Seq<u8>>) -> ArrayView {
        ArrayView::Binary(a)
    }

    fn wrap(a: DataArray<Self>) -> (res: Array) {
        Array::Binary(a)
    }

    proof fn lemma_array_of(a: DataArrayView<Seq<u8>>) {
    }
}

/// A copy of a bitmap.
pub fn copy_bits(bits: &Vec<bool>) -> (res: Vec<bool>)
    ensures
        res@ == bits@,
{
    let mut res: Vec<bool> = Vec::new();
    let mut i: usize = 0;
    while i < bits.len()
        invariant
            i <= bits.len(),
            res@ == bits@.subrange(0, i as int),
        decreases bits.len() - i,
    {
        res.push(bits[i]);
        i += 1;
        assert(res@ =~= bits@.subrange(0, i as int));
    }
    assert(bits@.subrange(0, i as int) =~= bits@);
    res
}

/// The deep view of a byte string is its view.
pub broadcast proof fn lemma_bytes_deep_view(v: Vec<u8>)
    ensures
        #[trigger] v.deep_view() == v@,
{
    assert(v.deep_view() =~= v@);
}

/// A copy of a byte string.
pub fn copy_bytes(bytes: &Vec<u8>) -> (res: Vec<u8>)
    ensures
        res@ == bytes@,
{
    let mut res: Vec<u8> = Vec::new();
    let mut i: usize = 0;
    while i < bytes.len()
        invariant
            i <= bytes.len(),
            res@ == bytes@.subrange(0, i as int),
        decreases bytes.len() - i,
    {
        res.push(bytes[i]);
        i += 1;
        assert(res@ =~= bytes@.subrange(0, i as int));
    }
    assert(bytes@.subrange(0, i as int) =~= bytes@);
    res
}

impl Array {
    /// The number of elements.
    pub fn len(&self) -> (res: usize)
        ensures
            res == self@.len(),
        decreases self,
    {
        match self {
            Array::Null(n) => n.length,
            Array::Boolean(d) => d.values.len(),
            Array::Int8(d) => d.values.len(),
            Array::Int16(d) => d.values.len(),
            Array::Int32(d) => d.values.len(),
            Array::Int64(d) => d.values.len(),
            Array::Int128(d) => d.values.len(),
            Array::Int256(d) => d.values.len(),
            Array::UInt8(d) => d.values.len(),
            Array::UInt16(d) => d.values.len(),
            Array::UInt32(d) => d.values.len(),
            Array::UInt64(d) => d.values.len(),
            Array::Float32(d) => d.values.len(),
            Array::Float64(d) => d.values.len(),
            Array::Binary(d) => d.values.len(),
            Array::FixedSizeBinary(f) => f.values.len(),
            Array::List(l) => l.len(),
            Array::FixedSizeList(l) => l.len(),
            Array::MapOf(m) => m.physical.len(),
            Array::Struct(s) => s.len(),
            Array::Dictionary(d) => d.keys.len(),
        }
    }

    /// The logical type of the array.
    pub fn data_type(&self) -> (res: &DataType)
        ensures
            res@ == self@.data_type(),
    {
        match self {
            Array::Null(n) => &n.data_type,
            Array::Boolean(d) => &d.data_type,
            Array::Int8(d) => &d.data_type,
            Array::Int16(d) => &d.data_type,
            Array::Int32(d) => &d.data_type,
            Array::Int64(d) => &d.data_type,
            Array::Int128(d) => &d.data_type,
            Array::Int256(d) => &d.data_type,
            Array::UInt8(d) => &d.data_type,
            Array::UInt16(d) => &d.data_type,
            Array::UInt32(d) => &d.data_type,
            Array::UInt64(d) => &d.data_type,
            Array::Float32(d) => &d.data_type,
            Array::Float64(d) => &d.data_type,
            Array::Binary(d) => &d.data_type,
            Array::FixedSizeBinary(f) => &f.data_type,
            Array::List(l) => &l.data_type,
            Array::FixedSizeList(l) => &l.data_type,
            Array::MapOf(m) => &m.data_type,
            Array::Struct(s) => &s.data_type,
            Array::Dictionary(d) => &d.data_type,
        }
    }
}

impl ListArray {
    /// The number of lists.
    pub fn len(&self) -> (res: usize)
        ensures
            res == self@.len(),
    {
        if self.offsets.len() == 0 {
            0
        } else {
            self.offsets.len() - 1
        }
    }
}

impl FixedSizeListArray {
    /// The number of lists.
    pub fn len(&self) -> (res: usize)
        ensures
            res == self@.len(),
        decreases self,
    {
        if self.size == 0 {
            0
        } else {
            self.flat_child.len() / self.size
        }
    }

    /// The number of elements of every list.
    pub fn fixed_element_len(&self) -> (res: usize)
        ensures
            self@ matches ArrayView::FixedSizeList { size, .. } && res == size,
    {
        self.size
    }
}

impl StructArray {
    /// The number of structs.
    pub fn len(&self) -> (res: usize)
        ensures
            res == self@.len(),
        decreases self,
    {
        if self.values.len() == 0 {
            0
        } else {
            self.values[0].len()
        }
    }
}

impl NullArray {
    /// The number of elements.
    pub fn len(&self) -> (res: usize)
        ensures
            res == self@.len(),
    {
        self.length
    }
}


/// The arrays of one type that are arrays of any type.
pub trait IntoArray: Sized {
    /// The mathematical value of the array.
    spec fn array_view(&self) -> ArrayView;

    /// The array as an array of any type.
    fn into_array(self) -> (res: Array)
        ensures
            res@ == self.array_view(),
    ;
}

impl<T: NativeType> IntoArray for DataArray<T> {
    open spec fn array_view(&self) -> ArrayView {
        T::array_of(self@)
    }

    fn into_array(self) -> (res: Array) {
        T::wrap(self)
    }
}

impl IntoArray for NullArray {
    open spec fn array_view(&self) -> ArrayView {
        self@
    }

    fn into_array(self) -> (res: Array) {
        Array::Null(self)
    }
}

impl IntoArray for FixedSizeBinaryArray {
    open spec fn array_view(&self) -> ArrayView {
        self@
    }

    fn into_array(self) -> (res: Array) {
        Array::FixedSizeBinary(self)
    }
}

impl IntoArray for DictionaryArray {
    open spec fn array_view(&self) -> ArrayView {
        self@
    }

    fn into_array(self) -> (res: Array) {
        Array::Dictionary(self)
    }
}


/// A copy of the values from `start` up to `end`.
pub fn copy_range<T: NativeType>(values: &Vec<T>, start: usize, end: usize) -> (res: Vec<T>)
    requires
        start <= end <= values.len(),
    ensures
        res.deep_view() == values.deep_view().subrange(start as int, end as int),
{
    let mut res: Vec<T> = Vec::new();
    let mut i: usize = start;
    while i < end
        invariant
            start <= i <= end <= values.len(),
            res.len() == i - start,
            forall|j: int|
                0 <= j < res.len() ==> (#[trigger] res[j]).deep_view() == values[start
                    + j].deep_view(),
        decreases end - i,
    {
        res.push(values[i].duplicate());
        i += 1;
    }
    assert(res.deep_view() =~= values.deep_view().subrange(start as int, end as int));
    res
}

/// A copy of the offsets from `start` up to `end`.
pub fn copy_offsets(offsets: &Vec<usize>, start: usize, end: usize) -> (res: Vec<usize>)
    requires
        start <= end <= offsets.len(),
    ensures
        res@ == offsets@.subrange(start as int, end as int),
{
    let mut res: Vec<usize> = Vec::new();
    let mut i: usize = start;
    while i < end
        invariant
            start <= i <= end <= offsets.len(),
            res@ == offsets@.subrange(start as int, i as int),
        decreases end - i,
    {
        res.push(offsets[i]);
        i += 1;
        assert(res@ =~= offsets@.subrange(start as int, i as int));
    }
    res
}

/// A copy of the part of a bitmap from `start` up to `end`.
pub fn copy_validity(validity: &Option<Vec<bool>>, start: usize, end: usize) -> (res: Option<
    Vec<bool>,
>)
    requires
        validity matches Some(bits) ==> start <= end <= bits.len(),
    ensures
        bits_view(res) == slice_bits(bits_view(*validity), start as int, end as int),
{
    match validity {
        Some(bits) => {
            let mut res: Vec<bool> = Vec::new();
            let mut i: usize = start;
            while i < end
                invariant
                    start <= i <= end <= bits.len(),
                    res@ == bits@.subrange(start as int, i as int),
                decreases end - i,
            {
                res.push(bits[i]);
                i += 1;
                assert(res@ =~= bits@.subrange(start as int, i as int));
            }
            Some(res)
        },
        None => None,
    }
}

/// A copy of a bitmap.
pub fn clone_validity(validity: &Option<Vec<bool>>) -> (res: Option<Vec<bool>>)
    ensures
        bits_view(res) == bits_view(*validity),
{
    match validity {
        Some(bits) => Some(copy_bits(bits)),
        None => None,
    }
}

impl<T: NativeType> DataArray<T> {
    /// The number of elements.
    pub fn len(&self) -> (res: usize)
        ensures
            res == self@.values.len(),
    {
        self.values.len()
    }

    /// The elements from `start` up to `end`.
    pub fn slice(&self, start: usize, end: usize) -> (res: DataArray<T>)
        requires
            self@.wf(),
            start <= end <= self@.values.len(),
        ensures
            res@ == self@.slice(start as int, end as int),
    {
        DataArray {
            data_type: self.data_type.clone(),
            values: copy_range(&self.values, start, end),
            validity: copy_validity(&self.validity, start, end),
        }
    }
}

impl<T: NativeType> Clone for DataArray<T> {
    fn clone(&self) -> (res: Self)
        ensures
            res@ == self@,
    {
        let values = copy_range(&self.values, 0, self.values.len());
        assert(self.values.deep_view().subrange(0, self.values.len() as int)
            =~= self.values.deep_view());
        DataArray {
            data_type: self.data_type.clone(),
            values,
            validity: clone_validity(&self.validity),
        }
    }
}

/// A copy of a list of arrays.
fn clone_arrays(arrays: &Vec<Array>) -> (res: Vec<Array>)
    ensures
        arrays_view(res@) == arrays_view(arrays@),
    decreases arrays,
{
    let mut res: Vec<Array> = Vec::new();
    let mut i: usize = 0;
    while i < arrays.len()
        invariant
            i <= arrays.len(),
            res.len() == i,
            forall|j: int| 0 <= j < i ==> (#[trigger] res[j])@ == arrays[j]@,
        decreases arrays.len() - i,
    {
        res.push(arrays[i].clone());
        i += 1;
    }
    assert(arrays_view(res@) =~= arrays_view(arrays@));
    res
}

/// The leaves of a list of arrays, one array after the other.
pub open spec fn leaves_of(arrays: Seq<ArrayView>) -> Seq<ArrayView>
    decreases arrays,
{
    if arrays.len() == 0 {
        Seq::empty()
    } else {
        leaves_of(arrays.drop_last()) + arrays.last().leaves()
    }
}

/// The validity bitmap of a well-formed array has one bit per element.
pub proof fn lemma_wf_validity(array: ArrayView)
    requires
        array.wf(),
    ensures
        validity_fits(array.validity(), array.len()),
    decreases array,
{
    match array {
        ArrayView::MapOf { physical, .. } => {
            lemma_wf_validity(*physical);
        },
        ArrayView::Dictionary { keys, .. } => {
            lemma_wf_validity(*keys);
        },
        _ => {},
    }
}

/// Whether the elements from `start` up to `end` can be cut out of the
/// array.
pub open spec fn sliceable(array: ArrayView, start: int, end: int) -> bool {
    array.wf() && 0 <= start <= end <= array.len()
}

/// A copy of the arrays, each cut to the elements from `start` up to `end`.
fn slice_arrays(arrays: &Vec<Array>, start: usize, end: usize) -> (res: Vec<Array>)
    requires
        forall|j: int|
            0 <= j < arrays.len() ==> sliceable(#[trigger] arrays[j]@, start as int, end as int),
    ensures
        res.len() == arrays.len(),
        forall|j: int|
            0 <= j < arrays.len() ==> (#[trigger] res[j])@ == arrays[j]@.slice(
                start as int,
                end as int,
            ),
    decreases arrays,
{
    let mut res: Vec<Array> = Vec::new();
    let mut i: usize = 0;
    while i < arrays.len()
        invariant
            i <= arrays.len(),
            res.len() == i,
            forall|j: int|
                0 <= j < arrays.len() ==> sliceable(
                    #[trigger] arrays[j]@,
                    start as int,
                    end as int,
                ),
            forall|j: int|
                0 <= j < i ==> (#[trigger] res[j])@ == arrays[j]@.slice(start as int, end as int),
        decreases arrays.len() - i,
    {
        assert(sliceable(arrays[i as int]@, start as int, end as int));
        res.push(arrays[i].slice(start, end));
        i += 1;
    }
    res
}

impl Clone for ListArray {
    fn clone(&self) -> (res: Self)
        ensures
            res@ == self@,
        decreases self,
    {
        let offsets = copy_offsets(&self.offsets, 0, self.offsets.len());
        assert(self.offsets@.subrange(0, self.offsets.len() as int) =~= self.offsets@);
        ListArray {
            data_type: self.data_type.clone(),
            offsets,
            flat_child: Box::new((*self.flat_child).clone()),
            validity: clone_validity(&self.validity),
        }
    }
}

impl ListArray {
    /// The lists from `start` up to `end`, over the same child.
    pub fn slice(&self, start: usize, end: usize) -> (res: ListArray)
        requires
            self@.wf(),
            start <= end <= self@.len(),
        ensures
            res@ == self@.slice(start as int, end as int),
        decreases self,
    {
        assert(self@ == array_view(Array::List(*self)));
        assert(self.offsets.len() >= 1 && end < self.offsets.len());
        ListArray {
            data_type: self.data_type.clone(),
            offsets: copy_offsets(&self.offsets, start, end + 1),
            flat_child: Box::new((*self.flat_child).clone()),
            validity: copy_validity(&self.validity, start, end),
        }
    }
}

impl Clone for Array {
    fn clone(&self) -> (res: Self)
        ensures
            res@ == self@,
        decreases self,
    {
        broadcast use lemma_bytes_deep_view;

        match self {
            Array::Null(n) => Array::Null(
                NullArray { data_type: n.data_type.clone(), length: n.length },
            ),
            Array::Boolean(d) => Array::Boolean(d.clone()),
            Array::Int8(d) => Array::Int8(d.clone()),
            Array::Int16(d) => Array::Int16(d.clone()),
            Array::Int32(d) => Array::Int32(d.clone()),
            Array::Int64(d) => Array::Int64(d.clone()),
            Array::Int128(d) => Array::Int128(d.clone()),
            Array::Int256(d) => Array::Int256(d.clone()),
            Array::UInt8(d) => Array::UInt8(d.clone()),
            Array::UInt16(d) => Array::UInt16(d.clone()),
            Array::UInt32(d) => Array::UInt32(d.clone()),
            Array::UInt64(d) => Array::UInt64(d.clone()),
            Array::Float32(d) => Array::Float32(d.clone()),
            Array::Float64(d) => Array::Float64(d.clone()),
            Array::Binary(d) => Array::Binary(d.clone()),
            Array::FixedSizeBinary(f) => {
                let values = copy_range(&f.values, 0, f.values.len());
                assert(f.values.deep_view().subrange(0, f.values.len() as int)
                    =~= f.values.deep_view());
                Array::FixedSizeBinary(
                    FixedSizeBinaryArray {
                        data_type: f.data_type.clone(),
                        size: f.size,
                        values,
                        validity: clone_validity(&f.validity),
                    },
                )
            },
            Array::List(l) => Array::List(l.clone()),
            Array::FixedSizeList(l) => Array::FixedSizeList(
                FixedSizeListArray {
                    data_type: l.data_type.clone(),
                    size: l.size,
                    flat_child: Box::new((*l.flat_child).clone()),
                    validity: clone_validity(&l.validity),
                },
            ),
            Array::MapOf(m) => Array::MapOf(
                MapArray { data_type: m.data_type.clone(), physical: m.physical.clone() },
            ),
            Array::Struct(s) => {
                let values = clone_arrays(&s.values);
                let res = StructArray {
                    data_type: s.data_type.clone(),
                    values,
                    validity: clone_validity(&s.validity),
                };
                proof {
                    lemma_struct_view(*s);
                    lemma_struct_view(res);
                }
                Array::Struct(res)
            },
            Array::Dictionary(d) => Array::Dictionary(
                DictionaryArray {
                    data_type: d.data_type.clone(),
                    keys: Box::new((*d.keys).clone()),
                    values: Box::new((*d.values).clone()),
                },
            ),
        }
    }
}

/// The part of a fixed-size list from row `start` up to row `end` lies
/// within the child.
pub proof fn lemma_fixed_rows(len: int, size: int, start: int, end: int)
    requires
        size > 0,
        len >= 0,
        len % size == 0,
        0 <= start <= end <= len / size,
    ensures
        0 <= start * size <= end * size <= len,
        (len / size) * size == len,
{
    assert(len == size * (len / size) + len % size) by (nonlinear_arith)
        requires
            size > 0,
    ;
    assert(0 <= start * size <= end * size) by (nonlinear_arith)
        requires
            0 <= start <= end,
            size > 0,
    ;
    assert(end * size <= (len / size) * size) by (nonlinear_arith)
        requires
            end <= len / size,
            size > 0,
    ;
    assert(size * (len / size) == (len / size) * size) by (nonlinear_arith);
}

impl Array {
    /// A copy of the elements from `start` up to `end`.
    #[verifier::rlimit(30)]
    pub fn slice(&self, start: usize, end: usize) -> (res: Array)
        requires
            self@.wf(),
            start <= end <= self@.len(),
        ensures
            res@ == self@.slice(start as int, end as int),
        decreases self,
    {
        broadcast use lemma_bytes_deep_view;

        match self {
            Array::Null(n) => Array::Null(
                NullArray { data_type: n.data_type.clone(), length: end - start },
            ),
            Array::Boolean(d) => Array::Boolean(d.slice(start, end)),
            Array::Int8(d) => Array::Int8(d.slice(start, end)),
            Array::Int16(d) => Array::Int16(d.slice(start, end)),
            Array::Int32(d) => Array::Int32(d.slice(start, end)),
            Array::Int64(d) => Array::Int64(d.slice(start, end)),
            Array::Int128(d) => Array::Int128(d.slice(start, end)),
            Array::Int256(d) => Array::Int256(d.slice(start, end)),
            Array::UInt8(d) => Array::UInt8(d.slice(start, end)),
            Array::UInt16(d) => Array::UInt16(d.slice(start, end)),
            Array::UInt32(d) => Array::UInt32(d.slice(start, end)),
            Array::UInt64(d) => Array::UInt64(d.slice(start, end)),
            Array::Float32(d) => Array::Float32(d.slice(start, end)),
            Array::Float64(d) => Array::Float64(d.slice(start, end)),
            Array::Binary(d) => Array::Binary(d.slice(start, end)),
            Array::FixedSizeBinary(f) => Array::FixedSizeBinary(
                FixedSizeBinaryArray {
                    data_type: f.data_type.clone(),
                    size: f.size,
                    values: copy_range(&f.values, start, end),
                    validity: copy_validity(&f.validity, start, end),
                },
            ),
            Array::List(l) => Array::List(l.slice(start, end)),
            Array::FixedSizeList(l) => {
                let child_len = l.flat_child.len();
                assert(l.size > 0 && l.flat_child@.wf());
                assert(self@.len() == child_len as nat / (l.size as nat));
                proof {
                    lemma_fixed_rows(
                        l.flat_child@.len() as int,
                        l.size as int,
                        start as int,
                        end as int,
                    );
                }
                Array::FixedSizeList(
                    FixedSizeListArray {
                        data_type: l.data_type.clone(),
                        size: l.size,
                        flat_child: Box::new(l.flat_child.slice(start * l.size, end * l.size)),
                        validity: copy_validity(&l.validity, start, end),
                    },
                )
            },
            Array::MapOf(m) => Array::MapOf(
                MapArray { data_type: m.data_type.clone(), physical: m.physical.slice(start, end) },
            ),
            Array::Struct(s) => {
                proof {
                    lemma_struct_view(*s);
                    assert forall|j: int| 0 <= j < s.values.len() implies sliceable(
                        #[trigger] s.values[j]@,
                        start as int,
                        end as int,
                    ) by {
                        assert(s.values[j]@ == arrays_view(s.values@)[j]);
                        assert(arrays_view(s.values@)[0].len() == self@.len());
                    }
                }
                let values = slice_arrays(&s.values, start, end);
                let res = StructArray {
                    data_type: s.data_type.clone(),
                    values,
                    validity: copy_validity(&s.validity, start, end),
                };
                proof {
                    lemma_struct_view(res);
                    assert(arrays_view(values@) =~= self@.slice(start as int, end as int)->children);
                }
                Array::Struct(res)
            },
            Array::Dictionary(d) => Array::Dictionary(
                DictionaryArray {
                    data_type: d.data_type.clone(),
                    keys: Box::new(d.keys.slice(start, end)),
                    values: Box::new((*d.values).clone()),
                },
            ),
        }
    }
}

} // verus!
