//! Decimals stored as big-endian two's-complement byte strings of one
//! length.

use crate::array::{Array, ArrayView, DataArray, DataArrayView, FixedSizeBinaryArray, NativeType};
use crate::convert::{
    be_signed, convert_i128, convert_i256, lemma_be_unsigned_bounds, lemma_int256_unique,
    lemma_pow256_values, pow256, Int256,
};
use crate::datatypes::{DataType, DataTypeView};
use crate::deserialize::primitive::int256_of;
use vstd::prelude::*;

verus! {

/// How the byte string of a decimal becomes the integer of the array.
pub trait BytesCast {
    /// The type of the integers of the array.
    type To: NativeType;

    /// The longest byte string that the integer can hold.
    spec fn max_len() -> nat;

    /// The integer of a byte string.
    spec fn convert_spec(bytes: Seq<u8>) -> <Self::To as DeepView>::V;

    /// The integer of a byte string.
    fn convert(bytes: &Vec<u8>) -> (res: Self::To)
        requires
            bytes.len() <= Self::max_len(),
        ensures
            res.deep_view() == Self::convert_spec(bytes@),
    ;
}

/// A byte string of up to 16 bytes read as a 128-bit integer.
pub struct BytesToInt128;

/// A byte string of up to 16 bytes read as a 128-bit integer and widened to
/// 256 bits.
pub struct BytesToInt256Narrow;

/// A byte string of up to 32 bytes read as a 256-bit integer.
pub struct BytesToInt256;

/// A byte string of up to 32 bytes spells an integer of 256 bits.
pub proof fn lemma_int256_of_bytes(bytes: Seq<u8>)
    requires
        bytes.len() <= 32,
    ensures
        int256_of(be_signed(bytes)).to_int() == be_signed(bytes),
{
    lemma_be_unsigned_bounds(bytes);
    lemma_pow256_values();
    assert(pow256(bytes.len()) <= pow256(32));
}

impl BytesCast for BytesToInt128 {
    type To = i128;

    open spec fn max_len() -> nat {
        16
    }

    open spec fn convert_spec(bytes: Seq<u8>) -> i128 {
        be_signed(bytes) as i128
    }

    fn convert(bytes: &Vec<u8>) -> (res: i128) {
        assert(bytes@.subrange(0, bytes.len() as int) =~= bytes@);
        convert_i128(bytes.as_slice(), bytes.len())
    }
}

impl BytesCast for BytesToInt256Narrow {
    type To = Int256;

    open spec fn max_len() -> nat {
        16
    }

    open spec fn convert_spec(bytes: Seq<u8>) -> Int256 {
        int256_of(be_signed(bytes))
    }

    fn convert(bytes: &Vec<u8>) -> (res: Int256) {
        assert(bytes@.subrange(0, bytes.len() as int) =~= bytes@);
        let res = Int256::from_i128(convert_i128(bytes.as_slice(), bytes.len()));
        proof {
            lemma_int256_of_bytes(bytes@);
            lemma_int256_unique(res, int256_of(be_signed(bytes@)));
        }
        res
    }
}

impl BytesCast for BytesToInt256 {
    type To = Int256;

    open spec fn max_len() -> nat {
        32
    }

    open spec fn convert_spec(bytes: Seq<u8>) -> Int256 {
        int256_of(be_signed(bytes))
    }

    fn convert(bytes: &Vec<u8>) -> (res: Int256) {
        let res = convert_i256(bytes.as_slice());
        proof {
            lemma_int256_of_bytes(bytes@);
            lemma_int256_unique(res, int256_of(be_signed(bytes@)));
        }
        res
    }
}

/// The array of decimals that an array of byte strings stands for: the
/// integer of every byte string, under the validity of the byte strings.
pub open spec fn decimal_array<B: BytesCast>(fixed: ArrayView, data_type: DataTypeView) -> ArrayView {
    B::To::array_of(
        DataArrayView {
            data_type,
            values: Seq::new(fixed->values.len(), |i: int| B::convert_spec(fixed->values[i])),
            validity: fixed.validity(),
        },
    )
}

/// Reads every byte string of the array as a decimal.
pub fn to_decimal<B: BytesCast>(array: FixedSizeBinaryArray, data_type: DataType) -> (res: Array)
    requires
        array@.wf(),
        array.size <= B::max_len(),
    ensures
        res@ == decimal_array::<B>(array@, data_type@),
{
    broadcast use crate::array::lemma_bytes_deep_view;

    let FixedSizeBinaryArray { data_type: _, size, values: strings, validity } = array;
    let mut values: Vec<B::To> = Vec::new();
    let mut i: usize = 0;
    while i < strings.len()
        invariant
            i <= strings.len(),
            values.len() == i,
            size <= B::max_len(),
            forall|j: int| 0 <= j < strings.len() ==> (#[trigger] strings.deep_view()[j]).len() == size,
            forall|j: int|
                0 <= j < i ==> (#[trigger] values[j]).deep_view() == B::convert_spec(
                    strings.deep_view()[j],
                ),
        decreases strings.len() - i,
    {
        assert(strings.deep_view()[i as int] == strings[i as int]@);
        values.push(B::convert(&strings[i]));
        i += 1;
    }
    assert(values.deep_view() =~= Seq::new(
        strings.len() as nat,
        |i: int| B::convert_spec(strings.deep_view()[i]),
    ));
    B::To::wrap(DataArray { data_type, values, validity })
}

} // verus!
