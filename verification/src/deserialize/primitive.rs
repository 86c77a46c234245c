//! The leaf decoder of fixed-width values, and the casts from a physical
//! value to a value of the array.

use crate::array::{DataArray, NativeType};
use crate::convert::{lemma_int256_unique, Int256};
use crate::datatypes::DataType;
use crate::error::Error;
use crate::nested_utils::{decode_leaf, leaf_result, result_matches, InitNested, NestedState, ValueCast};
use crate::page::{F32Bits, F64Bits, PageValues, PageValuesView, Pages, PagesView};
use vstd::prelude::*;

verus! {

/// The 256-bit integer of a value.
pub open spec fn int256_of(value: int) -> Int256 {
    Int256 {
        high: (value / 0x1_0000_0000_0000_0000_0000_0000_0000_0000int) as i128,
        low: (value % 0x1_0000_0000_0000_0000_0000_0000_0000_0000int) as u128,
    }
}

/// The 256-bit integer of a value has that value, where the value fits 128
/// bits.
pub proof fn lemma_int256_of(value: i128)
    ensures
        int256_of(value as int).to_int() == value,
{
}

/// An on-disk 32-bit integer truncated to 8 bits.
pub struct Int32ToInt8;

impl ValueCast for Int32ToInt8 {
    type From = i32;

    type To = i8;

    open spec fn select(pages: PagesView) -> Option<Seq<i32>> {
        match pages.values {
            PageValuesView::Int32(v) => Some(v),
            _ => None,
        }
    }

    fn values(pages: &Pages) -> (res: Option<&Vec<i32>>) {
        match &pages.values {
            PageValues::Int32(v) => {
                assert(v.deep_view() =~= v@);
                Some(v)
            },
            _ => None,
        }
    }

    open spec fn cast_spec(x: i32) -> i8 {
        x as i8
    }

    fn cast(x: &i32) -> (res: i8) {
        #[verifier::truncate] (*x as i8)
    }
}

/// An on-disk 32-bit integer truncated to 16 bits.
pub struct Int32ToInt16;

impl ValueCast for Int32ToInt16 {
    type From = i32;

    type To = i16;

    open spec fn select(pages: PagesView) -> Option<Seq<i32>> {
        match pages.values {
            PageValuesView::Int32(v) => Some(v),
            _ => None,
        }
    }

    fn values(pages: &Pages) -> (res: Option<&Vec<i32>>) {
        match &pages.values {
            PageValues::Int32(v) => {
                assert(v.deep_view() =~= v@);
                Some(v)
            },
            _ => None,
        }
    }

    open spec fn cast_spec(x: i32) -> i16 {
        x as i16
    }

    fn cast(x: &i32) -> (res: i16) {
        #[verifier::truncate] (*x as i16)
    }
}

/// An on-disk 32-bit integer as it is.
pub struct Int32ToInt32;

impl ValueCast for Int32ToInt32 {
    type From = i32;

    type To = i32;

    open spec fn select(pages: PagesView) -> Option<Seq<i32>> {
        match pages.values {
            PageValuesView::Int32(v) => Some(v),
            _ => None,
        }
    }

    fn values(pages: &Pages) -> (res: Option<&Vec<i32>>) {
        match &pages.values {
            PageValues::Int32(v) => {
                assert(v.deep_view() =~= v@);
                Some(v)
            },
            _ => None,
        }
    }

    open spec fn cast_spec(x: i32) -> i32 {
        x
    }

    fn cast(x: &i32) -> (res: i32) {
        *x
    }
}

/// An on-disk 64-bit integer as it is.
pub struct Int64ToInt64;

impl ValueCast for Int64ToInt64 {
    type From = i64;

    type To = i64;

    open spec fn select(pages: PagesView) -> Option<Seq<i64>> {
        match pages.values {
            PageValuesView::Int64(v) => Some(v),
            _ => None,
        }
    }

    fn values(pages: &Pages) -> (res: Option<&Vec<i64>>) {
        match &pages.values {
            PageValues::Int64(v) => {
                assert(v.deep_view() =~= v@);
                Some(v)
            },
            _ => None,
        }
    }

    open spec fn cast_spec(x: i64) -> i64 {
        x
    }

    fn cast(x: &i64) -> (res: i64) {
        *x
    }
}

/// An on-disk 32-bit integer truncated to 8 bits, unsigned.
pub struct Int32ToUInt8;

impl ValueCast for Int32ToUInt8 {
    type From = i32;

    type To = u8;

    open spec fn select(pages: PagesView) -> Option<Seq<i32>> {
        match pages.values {
            PageValuesView::Int32(v) => Some(v),
            _ => None,
        }
    }

    fn values(pages: &Pages) -> (res: Option<&Vec<i32>>) {
        match &pages.values {
            PageValues::Int32(v) => {
                assert(v.deep_view() =~= v@);
                Some(v)
            },
            _ => None,
        }
    }

    open spec fn cast_spec(x: i32) -> u8 {
        x as u8
    }

    fn cast(x: &i32) -> (res: u8) {
        #[verifier::truncate] (*x as u8)
    }
}

/// An on-disk 32-bit integer truncated to 16 bits, unsigned.
pub struct Int32ToUInt16;

impl ValueCast for Int32ToUInt16 {
    type From = i32;

    type To = u16;

    open spec fn select(pages: PagesView) -> Option<Seq<i32>> {
        match pages.values {
            PageValuesView::Int32(v) => Some(v),
            _ => None,
        }
    }

    fn values(pages: &Pages) -> (res: Option<&Vec<i32>>) {
        match &pages.values {
            PageValues::Int32(v) => {
                assert(v.deep_view() =~= v@);
                Some(v)
            },
            _ => None,
        }
    }

    open spec fn cast_spec(x: i32) -> u16 {
        x as u16
    }

    fn cast(x: &i32) -> (res: u16) {
        #[verifier::truncate] (*x as u16)
    }
}

/// The bits of an on-disk 32-bit integer read as unsigned.
pub struct Int32ToUInt32;

impl ValueCast for Int32ToUInt32 {
    type From = i32;

    type To = u32;

    open spec fn select(pages: PagesView) -> Option<Seq<i32>> {
        match pages.values {
            PageValuesView::Int32(v) => Some(v),
            _ => None,
        }
    }

    fn values(pages: &Pages) -> (res: Option<&Vec<i32>>) {
        match &pages.values {
            PageValues::Int32(v) => {
                assert(v.deep_view() =~= v@);
                Some(v)
            },
            _ => None,
        }
    }

    open spec fn cast_spec(x: i32) -> u32 {
        x as u32
    }

    fn cast(x: &i32) -> (res: u32) {
        #[verifier::truncate] (*x as u32)
    }
}

/// An on-disk 64-bit integer truncated to 32 bits, unsigned.
pub struct Int64ToUInt32;

impl ValueCast for Int64ToUInt32 {
    type From = i64;

    type To = u32;

    open spec fn select(pages: PagesView) -> Option<Seq<i64>> {
        match pages.values {
            PageValuesView::Int64(v) => Some(v),
            _ => None,
        }
    }

    fn values(pages: &Pages) -> (res: Option<&Vec<i64>>) {
        match &pages.values {
            PageValues::Int64(v) => {
                assert(v.deep_view() =~= v@);
                Some(v)
            },
            _ => None,
        }
    }

    open spec fn cast_spec(x: i64) -> u32 {
        x as u32
    }

    fn cast(x: &i64) -> (res: u32) {
        #[verifier::truncate] (*x as u32)
    }
}

/// The bits of an on-disk 64-bit integer read as unsigned.
pub struct Int64ToUInt64;

impl ValueCast for Int64ToUInt64 {
    type From = i64;

    type To = u64;

    open spec fn select(pages: PagesView) -> Option<Seq<i64>> {
        match pages.values {
            PageValuesView::Int64(v) => Some(v),
            _ => None,
        }
    }

    fn values(pages: &Pages) -> (res: Option<&Vec<i64>>) {
        match &pages.values {
            PageValues::Int64(v) => {
                assert(v.deep_view() =~= v@);
                Some(v)
            },
            _ => None,
        }
    }

    open spec fn cast_spec(x: i64) -> u64 {
        x as u64
    }

    fn cast(x: &i64) -> (res: u64) {
        #[verifier::truncate] (*x as u64)
    }
}

/// An on-disk 32-bit float as it is.
pub struct Float32ToFloat32;

impl ValueCast for Float32ToFloat32 {
    type From = F32Bits;

    type To = F32Bits;

    open spec fn select(pages: PagesView) -> Option<Seq<F32Bits>> {
        match pages.values {
            PageValuesView::Float(v) => Some(v),
            _ => None,
        }
    }

    fn values(pages: &Pages) -> (res: Option<&Vec<F32Bits>>) {
        match &pages.values {
            PageValues::Float(v) => {
                assert(v.deep_view() =~= v@);
                Some(v)
            },
            _ => None,
        }
    }

    open spec fn cast_spec(x: F32Bits) -> F32Bits {
        x
    }

    fn cast(x: &F32Bits) -> (res: F32Bits) {
        *x
    }
}

/// An on-disk 64-bit float as it is.
pub struct Float64ToFloat64;

impl ValueCast for Float64ToFloat64 {
    type From = F64Bits;

    type To = F64Bits;

    open spec fn select(pages: PagesView) -> Option<Seq<F64Bits>> {
        match pages.values {
            PageValuesView::Double(v) => Some(v),
            _ => None,
        }
    }

    fn values(pages: &Pages) -> (res: Option<&Vec<F64Bits>>) {
        match &pages.values {
            PageValues::Double(v) => {
                assert(v.deep_view() =~= v@);
                Some(v)
            },
            _ => None,
        }
    }

    open spec fn cast_spec(x: F64Bits) -> F64Bits {
        x
    }

    fn cast(x: &F64Bits) -> (res: F64Bits) {
        *x
    }
}

/// An on-disk 32-bit integer widened to 128 bits.
pub struct Int32ToInt128;

impl ValueCast for Int32ToInt128 {
    type From = i32;

    type To = i128;

    open spec fn select(pages: PagesView) -> Option<Seq<i32>> {
        match pages.values {
            PageValuesView::Int32(v) => Some(v),
            _ => None,
        }
    }

    fn values(pages: &Pages) -> (res: Option<&Vec<i32>>) {
        match &pages.values {
            PageValues::Int32(v) => {
                assert(v.deep_view() =~= v@);
                Some(v)
            },
            _ => None,
        }
    }

    open spec fn cast_spec(x: i32) -> i128 {
        x as i128
    }

    fn cast(x: &i32) -> (res: i128) {
        *x as i128
    }
}

/// An on-disk 64-bit integer widened to 128 bits.
pub struct Int64ToInt128;

impl ValueCast for Int64ToInt128 {
    type From = i64;

    type To = i128;

    open spec fn select(pages: PagesView) -> Option<Seq<i64>> {
        match pages.values {
            PageValuesView::Int64(v) => Some(v),
            _ => None,
        }
    }

    fn values(pages: &Pages) -> (res: Option<&Vec<i64>>) {
        match &pages.values {
            PageValues::Int64(v) => {
                assert(v.deep_view() =~= v@);
                Some(v)
            },
            _ => None,
        }
    }

    open spec fn cast_spec(x: i64) -> i128 {
        x as i128
    }

    fn cast(x: &i64) -> (res: i128) {
        *x as i128
    }
}

/// An on-disk 64-bit integer truncated to 32 bits, held in 64.
pub struct Int64ToInt32;

impl ValueCast for Int64ToInt32 {
    type From = i64;

    type To = i64;

    open spec fn select(pages: PagesView) -> Option<Seq<i64>> {
        match pages.values {
            PageValuesView::Int64(v) => Some(v),
            _ => None,
        }
    }

    fn values(pages: &Pages) -> (res: Option<&Vec<i64>>) {
        match &pages.values {
            PageValues::Int64(v) => {
                assert(v.deep_view() =~= v@);
                Some(v)
            },
            _ => None,
        }
    }

    open spec fn cast_spec(x: i64) -> i64 {
        (x as i32) as i64
    }

    fn cast(x: &i64) -> (res: i64) {
        (#[verifier::truncate] (*x as i32)) as i64
    }
}

/// An on-disk 32-bit integer widened to 256 bits.
pub struct Int32ToInt256;

impl ValueCast for Int32ToInt256 {
    type From = i32;

    type To = Int256;

    open spec fn select(pages: PagesView) -> Option<Seq<i32>> {
        match pages.values {
            PageValuesView::Int32(v) => Some(v),
            _ => None,
        }
    }

    fn values(pages: &Pages) -> (res: Option<&Vec<i32>>) {
        match &pages.values {
            PageValues::Int32(v) => {
                assert(v.deep_view() =~= v@);
                Some(v)
            },
            _ => None,
        }
    }

    open spec fn cast_spec(x: i32) -> Int256 {
        int256_of(x as int)
    }

    fn cast(x: &i32) -> (res: Int256) {
        let res = Int256::from_i128(*x as i128);
        proof {
            lemma_int256_of(*x as i128);
            lemma_int256_unique(res, int256_of(*x as int));
        }
        res
    }
}

/// An on-disk 64-bit integer widened to 256 bits.
pub struct Int64ToInt256;

impl ValueCast for Int64ToInt256 {
    type From = i64;

    type To = Int256;

    open spec fn select(pages: PagesView) -> Option<Seq<i64>> {
        match pages.values {
            PageValuesView::Int64(v) => Some(v),
            _ => None,
        }
    }

    fn values(pages: &Pages) -> (res: Option<&Vec<i64>>) {
        match &pages.values {
            PageValues::Int64(v) => {
                assert(v.deep_view() =~= v@);
                Some(v)
            },
            _ => None,
        }
    }

    open spec fn cast_spec(x: i64) -> Int256 {
        int256_of(x as int)
    }

    fn cast(x: &i64) -> (res: Int256) {
        let res = Int256::from_i128(*x as i128);
        proof {
            lemma_int256_of(*x as i128);
            lemma_int256_unique(res, int256_of(*x as int));
        }
        res
    }
}

/// Decodes a leaf column of fixed-width values into chunks of rows, casting
/// each value as `C` says.
pub fn nested_iter<C: ValueCast>(
    pages: Pages,
    init: Vec<InitNested>,
    data_type: DataType,
    num_rows: usize,
    chunk_size: Option<usize>,
    num_values: usize,
    is_parent_nullable: bool,
) -> (res: Result<Vec<(NestedState, DataArray<C::To>)>, Error>)
    requires
        chunk_size != Some(0usize),
    ensures
        result_matches(
            res,
            leaf_result::<C>(
                pages@,
                init@,
                data_type@,
                num_rows as nat,
                chunk_size,
                num_values as nat,
                is_parent_nullable,
            ),
        ),
{
    decode_leaf::<C>(&pages, &init, &data_type, num_rows, chunk_size, num_values, is_parent_nullable)
}

} // verus!
