//! Reading one element of an array: `None` for a null, the value or the
//! nested array of the element otherwise.

use crate::array::{
    lemma_bytes_deep_view, lemma_fixed_rows, lemma_wf_validity, non_decreasing, Array, ArrayView,
    DataArray, FixedSizeBinaryArray, FixedSizeListArray, ListArray, MapArray, NativeType, NullArray,
};
use crate::datatypes::{DataType, Field};
use crate::error::{Error, ErrorView, Unsupported, UnsupportedView};
use core::marker::PhantomData;
use vstd::prelude::*;

verus! {

/// An array of a logical type `L` that is stored as the physical array `P`.
pub struct LogicalArrayImpl<L, P> {
    pub field: Field,
    pub physical: P,
    pub marker: PhantomData<L>,
}

/// The logical type of embeddings: lists of one fixed length of numbers.
pub struct EmbeddingType;

/// The logical type of images of one fixed shape.
pub struct FixedShapeImageType;

/// The logical type of tensors of one fixed shape.
pub struct FixedShapeTensorType;

/// An array of an extension type, stored as the array of its values.
#[derive(Debug, PartialEq, Eq)]
pub struct ExtensionArray {
    pub field: Field,
    pub data: Box<Array>,
}

/// One element of an array, held as an array of that element alone.
#[derive(Debug, PartialEq, Eq)]
pub struct Scalar {
    pub value: Array,
}

/// Whether element `idx` is not null under the validity bitmap.
fn bit_is_set(validity: &Option<Vec<bool>>, idx: usize) -> (res: bool)
    requires
        validity matches Some(bits) ==> idx < bits.len(),
    ensures
        res == (match validity {
            Some(bits) => bits[idx as int],
            None => true,
        }),
{
    match validity {
        Some(bits) => bits[idx],
        None => true,
    }
}

impl<T: NativeType> DataArray<T> {
    /// The value of element `idx`, or `None` where the element is null.
    pub fn get(&self, idx: usize) -> (res: Option<&T>)
        requires
            self@.wf(),
            idx < self@.values.len(),
        ensures
            match res {
                Some(value) => T::array_of(self@).is_valid(idx as int) && value.deep_view()
                    == self@.values[idx as int],
                None => !T::array_of(self@).is_valid(idx as int),
            },
    {
        proof {
            T::lemma_array_of(self@);
        }
        if bit_is_set(&self.validity, idx) {
            Some(&self.values[idx])
        } else {
            None
        }
    }
}

impl NullArray {
    /// Element `idx`, which is null as every element is.
    pub fn get(&self, idx: usize) -> (res: Option<()>)
        requires
            idx < self@.len(),
        ensures
            res is None,
    {
        None
    }
}

impl ExtensionArray {
    /// The number of elements.
    pub fn len(&self) -> (res: usize)
        ensures
            res == self.data@.len(),
    {
        self.data.len()
    }

    /// Element `idx` as a scalar, or `None` where the validity bitmap of the
    /// storage marks the element as null. Storage without a bitmap, as that
    /// of nulls is, gives the scalar of every element.
    pub fn get(&self, idx: usize) -> (res: Option<Scalar>)
        requires
            self.data@.wf(),
            idx < self.data@.len(),
        ensures
            match res {
                Some(scalar) => (self.data@.validity() matches Some(bits) ==> bits[idx as int])
                    && scalar.value@ == self.data@.slice(idx as int, idx + 1),
                None => self.data@.validity() matches Some(bits) && !bits[idx as int],
            },
    {
        let len = self.data.len();
        proof {
            lemma_wf_validity(self.data@);
        }
        let is_valid = match self.data.validity() {
            Some(validity) => validity[idx],
            None => true,
        };
        if is_valid {
            Some(Scalar { value: self.data.slice(idx, idx + 1) })
        } else {
            None
        }
    }
}

impl FixedSizeBinaryArray {
    /// The number of byte strings.
    pub fn len(&self) -> (res: usize)
        ensures
            res == self@.len(),
    {
        self.values.len()
    }

    /// The byte string of element `idx`, or `None` where the element is
    /// null.
    pub fn get(&self, idx: usize) -> (res: Option<&Vec<u8>>)
        requires
            self@.wf(),
            idx < self@.len(),
        ensures
            match res {
                Some(bytes) => self@.is_valid(idx as int) && bytes@
                    == self@->FixedSizeBinary_values[idx as int],
                None => !self@.is_valid(idx as int),
            },
    {
        broadcast use lemma_bytes_deep_view;

        if bit_is_set(&self.validity, idx) {
            Some(&self.values[idx])
        } else {
            None
        }
    }
}

impl Array {
    /// The validity bitmap, where the array has one of its own.
    pub fn validity(&self) -> (res: Option<&Vec<bool>>)
        ensures
            match res {
                Some(bits) => self@.validity() == Some(bits@),
                None => self@.validity() is None,
            },
        decreases self,
    {
        proof {
            reveal_with_fuel(ArrayView::validity, 2);
        }
        match self {
            Array::Null(_) => None,
            Array::Boolean(d) => d.validity.as_ref(),
            Array::Int8(d) => d.validity.as_ref(),
            Array::Int16(d) => d.validity.as_ref(),
            Array::Int32(d) => d.validity.as_ref(),
            Array::Int64(d) => d.validity.as_ref(),
            Array::Int128(d) => d.validity.as_ref(),
            Array::Int256(d) => d.validity.as_ref(),
            Array::UInt8(d) => d.validity.as_ref(),
            Array::UInt16(d) => d.validity.as_ref(),
            Array::UInt32(d) => d.validity.as_ref(),
            Array::UInt64(d) => d.validity.as_ref(),
            Array::Float32(d) => d.validity.as_ref(),
            Array::Float64(d) => d.validity.as_ref(),
            Array::Binary(d) => d.validity.as_ref(),
            Array::FixedSizeBinary(f) => f.validity.as_ref(),
            Array::List(l) => l.validity.as_ref(),
            Array::FixedSizeList(l) => l.validity.as_ref(),
            Array::MapOf(m) => m.physical.validity.as_ref(),
            Array::Struct(s) => s.validity.as_ref(),
            Array::Dictionary(d) => d.keys.validity(),
        }
    }

    /// Whether element `idx` is not null.
    pub fn is_valid(&self, idx: usize) -> (res: bool)
        requires
            self@.validity() matches Some(bits) ==> idx < bits.len(),
        ensures
            res == self@.is_valid(idx as int),
        decreases self,
    {
        proof {
            reveal_with_fuel(ArrayView::validity, 2);
        }
        match self {
            Array::Null(_) => false,
            Array::Boolean(d) => bit_is_set(&d.validity, idx),
            Array::Int8(d) => bit_is_set(&d.validity, idx),
            Array::Int16(d) => bit_is_set(&d.validity, idx),
            Array::Int32(d) => bit_is_set(&d.validity, idx),
            Array::Int64(d) => bit_is_set(&d.validity, idx),
            Array::Int128(d) => bit_is_set(&d.validity, idx),
            Array::Int256(d) => bit_is_set(&d.validity, idx),
            Array::UInt8(d) => bit_is_set(&d.validity, idx),
            Array::UInt16(d) => bit_is_set(&d.validity, idx),
            Array::UInt32(d) => bit_is_set(&d.validity, idx),
            Array::UInt64(d) => bit_is_set(&d.validity, idx),
            Array::Float32(d) => bit_is_set(&d.validity, idx),
            Array::Float64(d) => bit_is_set(&d.validity, idx),
            Array::Binary(d) => bit_is_set(&d.validity, idx),
            Array::FixedSizeBinary(f) => bit_is_set(&f.validity, idx),
            Array::List(l) => bit_is_set(&l.validity, idx),
            Array::FixedSizeList(l) => bit_is_set(&l.validity, idx),
            Array::MapOf(m) => bit_is_set(&m.physical.validity, idx),
            Array::Struct(s) => bit_is_set(&s.validity, idx),
            Array::Dictionary(d) => match &*d.keys {
                Array::Null(_) => true,
                keys => keys.is_valid(idx),
            },
        }
    }
}

impl<L> LogicalArrayImpl<L, FixedSizeListArray> {
    /// The list of row `idx`, or `None` where the row is null.
    pub fn get(&self, idx: usize) -> (res: Option<Array>)
        requires
            self.physical@.wf(),
            idx < self.physical@.len(),
        ensures
            match res {
                Some(list) => self.physical@.is_valid(idx as int) && list@ == fixed_row(
                    self.physical@,
                    idx as int,
                ),
                None => !self.physical@.is_valid(idx as int),
            },
    {
        self.physical.get(idx)
    }
}

/// The elements of row `idx` of a fixed-size list.
pub open spec fn fixed_row(list: ArrayView, idx: int) -> ArrayView {
    list->FixedSizeList_flat_child.slice(
        idx * list->FixedSizeList_size,
        (idx + 1) * list->FixedSizeList_size,
    )
}

/// The elements of row `idx` of a list.
pub open spec fn list_row(list: ArrayView, idx: int) -> ArrayView {
    list->List_flat_child.slice(list->offsets[idx] as int, list->offsets[idx + 1] as int)
}

impl FixedSizeListArray {
    /// An array of fixed-size lists over the child.
    pub fn new(field: Field, flat_child: Array, validity: Option<Vec<bool>>) -> (res: Self)
        requires
            field@.data_type.to_logical_type() matches crate::datatypes::DataTypeView::FixedSizeList(
                _,
                size,
            ) && size > 0 && flat_child@.len() % (size as nat) == 0 && (validity matches Some(bits)
                ==> bits.len() == flat_child@.len() / (size as nat)),
            flat_child@.wf(),
        ensures
            res@.wf(),
            res@ == (ArrayView::FixedSizeList {
                data_type: field@.data_type,
                size: field@.data_type.to_logical_type()->FixedSizeList_1,
                flat_child: Box::new(flat_child@),
                validity: crate::array::bits_view(validity),
            }),
    {
        let size: usize = match field.data_type.to_logical_type() {
            crate::datatypes::DataType::FixedSizeList(_, size) => *size,
            _ => 1,
        };
        FixedSizeListArray { data_type: field.data_type, size, flat_child: Box::new(flat_child), validity }
    }

    /// Whether row `idx` is not null.
    pub fn is_valid(&self, idx: usize) -> (res: bool)
        requires
            self@.wf(),
            idx < self@.len(),
        ensures
            res == self@.is_valid(idx as int),
    {
        bit_is_set(&self.validity, idx)
    }

    /// The list of row `idx`, or `None` where the row is null.
    pub fn get(&self, idx: usize) -> (res: Option<Array>)
        requires
            self@.wf(),
            idx < self@.len(),
        ensures
            match res {
                Some(list) => self@.is_valid(idx as int) && list@ == fixed_row(self@, idx as int),
                None => !self@.is_valid(idx as int),
            },
    {
        let fixed_len = self.fixed_element_len();
        let valid = self.is_valid(idx);
        if valid {
            let child_len = self.flat_child.len();
            proof {
                lemma_fixed_rows(child_len as int, fixed_len as int, idx as int, idx + 1);
                assert(0 <= idx * fixed_len <= (idx + 1) * fixed_len) by (nonlinear_arith)
                    requires
                        0 <= idx,
                        0 < fixed_len,
                ;
            }
            Some(self.flat_child.slice(idx * fixed_len, (idx + 1) * fixed_len))
        } else {
            None
        }
    }

    /// The same lists under offsets: every row keeps its `size` elements,
    /// and a null row stays null.
    pub fn to_list(&self, data_type: crate::datatypes::DataType) -> (res: ListArray)
        requires
            self@.wf(),
        ensures
            res@.wf(),
            res@.len() == self@.len(),
            res@->List_flat_child == self@->FixedSizeList_flat_child,
            res@.validity() == self@.validity(),
            res@.data_type() == data_type@,
            forall|i: int|
                0 <= i <= self@.len() ==> #[trigger] res@->offsets[i] == i
                    * self@->FixedSizeList_size,
    {
        let len = self.len();
        let child_len = self.flat_child.len();
        let size = self.size;
        let mut offsets: Vec<usize> = Vec::new();
        let mut i: usize = 0;
        offsets.push(0);
        proof {
            lemma_fixed_rows(child_len as int, size as int, 0, len as int);
        }
        while i < len
            invariant
                i <= len,
                size > 0,
                len == child_len as nat / (size as nat),
                child_len as nat % (size as nat) == 0,
                len * size == child_len,
                offsets.len() == i + 1,
                forall|j: int| 0 <= j <= i ==> #[trigger] offsets[j] == j * size,
            decreases len - i,
        {
            proof {
                lemma_fixed_rows(child_len as int, size as int, i as int, i + 1);
                assert((i + 1) * size == i * size + size) by (nonlinear_arith);
            }
            offsets.push(offsets[i] + size);
            i += 1;
        }
        let res = ListArray {
            data_type,
            offsets,
            flat_child: Box::new((*self.flat_child).clone()),
            validity: crate::array::clone_validity(&self.validity),
        };
        proof {
            assert(res@ == crate::array::array_view(Array::List(res)));
            assert forall|a: int, b: int| 0 <= a <= b < res.offsets.len() implies res.offsets[a]
                <= res.offsets[b] by {
                assert(a * size <= b * size) by (nonlinear_arith)
                    requires
                        0 <= a <= b,
                        size > 0,
                ;
            }
            assert(non_decreasing(res.offsets@));
        }
        res
    }
}

impl FixedSizeListArray {
    /// The array under another type. Only a cast to a list type is made: it
    /// gives the same lists under offsets, over the same child.
    pub fn cast(&self, dtype: &DataType) -> (res: Result<Array, Error>)
        requires
            self@.wf(),
        ensures
            match res {
                Ok(array) => {
                    &&& dtype@ is List
                    &&& array@ is List
                    &&& array@.wf()
                    &&& array@.len() == self@.len()
                    &&& array@.data_type() == dtype@
                    &&& array@.validity() == self@.validity()
                    &&& array@->List_flat_child == self@->FixedSizeList_flat_child
                    &&& forall|i: int|
                        0 <= i <= self@.len() ==> #[trigger] array@->offsets[i] == i
                            * self@->FixedSizeList_size
                },
                Err(e) => !(dtype@ is List) && e@ == ErrorView::NotYetImplemented(
                    UnsupportedView::Type(dtype@),
                ),
            },
    {
        match dtype {
            DataType::List(_) => {
                let list = self.to_list(dtype.clone());
                assert(list@ == crate::array::array_view(Array::List(list)));
                Ok(Array::List(list))
            },
            other => Err(Error::NotYetImplemented(Unsupported::Type(other.clone()))),
        }
    }
}

impl Array {
    /// The array as an array of lists, where it is one.
    pub fn list(&self) -> (res: Option<&ListArray>)
        ensures
            match res {
                Some(list) => *self == Array::List(*list),
                None => !(self@ is List),
            },
    {
        match self {
            Array::List(list) => Some(list),
            _ => None,
        }
    }

    /// The array as an array of 32-bit integers, where it is one.
    pub fn i32(&self) -> (res: Option<&DataArray<i32>>)
        ensures
            match res {
                Some(values) => *self == Array::Int32(*values),
                None => !(self@ is Int32),
            },
    {
        match self {
            Array::Int32(values) => Some(values),
            _ => None,
        }
    }
}

impl ListArray {
    /// An array of lists over the child.
    pub fn new(
        field: Field,
        flat_child: Array,
        offsets: Vec<usize>,
        validity: Option<Vec<bool>>,
    ) -> (res: Self)
        requires
            offsets.len() >= 1,
            non_decreasing(offsets@),
            offsets@.last() <= flat_child@.len(),
            validity matches Some(bits) ==> bits.len() == offsets.len() - 1,
            flat_child@.wf(),
        ensures
            res@.wf(),
            res@ == (ArrayView::List {
                data_type: field@.data_type,
                offsets: offsets@,
                flat_child: Box::new(flat_child@),
                validity: crate::array::bits_view(validity),
            }),
    {
        let res = ListArray {
            data_type: field.data_type,
            offsets,
            flat_child: Box::new(flat_child),
            validity,
        };
        assert(res@ == crate::array::array_view(Array::List(res)));
        res
    }

    /// Whether row `idx` is not null.
    pub fn is_valid(&self, idx: usize) -> (res: bool)
        requires
            self@.wf(),
            idx < self@.len(),
        ensures
            res == self@.is_valid(idx as int),
    {
        assert(self@ == crate::array::array_view(Array::List(*self)));
        bit_is_set(&self.validity, idx)
    }

    /// The list of row `idx`, or `None` where the row is null.
    pub fn get(&self, idx: usize) -> (res: Option<Array>)
        requires
            self@.wf(),
            idx < self@.len(),
        ensures
            match res {
                Some(list) => self@.is_valid(idx as int) && list@ == list_row(self@, idx as int),
                None => !self@.is_valid(idx as int),
            },
    {
        assert(self@ == crate::array::array_view(Array::List(*self)));
        let valid = self.is_valid(idx);
        assert(idx + 1 < self.offsets.len());
        if valid {
            let start = self.offsets[idx];
            let end = self.offsets[idx + 1];
            let child_len = self.flat_child.len();
            assert(start <= end <= self.offsets@.last());
            Some(self.flat_child.slice(start, end))
        } else {
            None
        }
    }
}

impl MapArray {
    /// The number of maps.
    pub fn len(&self) -> (res: usize)
        ensures
            res == self@.len(),
    {
        self.physical.len()
    }

    /// The entries of row `idx`, or `None` where the row is null.
    pub fn get(&self, idx: usize) -> (res: Option<Array>)
        requires
            self@.wf(),
            idx < self@.len(),
        ensures
            match res {
                Some(entries) => self@.is_valid(idx as int) && entries@ == list_row(
                    self.physical@,
                    idx as int,
                ),
                None => !self@.is_valid(idx as int),
            },
    {
        assert(self.physical@ == crate::array::array_view(Array::List(self.physical)));
        self.physical.get(idx)
    }
}

} // verus!
