//! The leaf decoder of dictionary-encoded columns: the keys of the entries,
//! decoded like any other leaf, over the values of the dictionary.

use crate::array::{
    Array, ArrayView, DataArray, DataArrayView, DictionaryArray, FixedSizeBinaryArray, NativeType,
};
use crate::deserialize::fixed_size_binary::{fixed_values, FixedBytes};
use crate::datatypes::{DataType, DataTypeView};
use crate::error::{Error, ErrorView, Invalid};
use crate::nested_utils::{
    cast_values, chunks_view, decode_leaf, leaf_chunks, result_matches, InitNested, NestedState,
    NestedView, ValueCast,
};
use crate::page::{Pages, PagesView};
use vstd::prelude::*;

verus! {

/// An integer type that can key a dictionary: how a key of the column
/// becomes a key of the array.
pub trait DictionaryKey: ValueCast<From = u32> {
    /// The largest key of a column that the type can hold. The keys of a
    /// column are 32-bit numbers, so a type of 32 unsigned bits or more holds
    /// every key.
    spec fn max_key() -> int;

    /// Whether the type can hold the key.
    fn fits(key: u32) -> (res: bool)
        ensures
            res == (key <= Self::max_key()),
    ;

    /// The type of the keys.
    spec fn key_type() -> DataTypeView;

    /// The type of the keys.
    fn data_type() -> (res: DataType)
        ensures
            res@ == Self::key_type(),
    ;

    /// The entry of the dictionary that a key of the array points at.
    spec fn index_spec(key: <Self::To as DeepView>::V) -> int;

    /// Whether a key of the array points at one of `len` entries.
    fn index_within(key: &Self::To, len: usize) -> (res: bool)
        ensures
            res == (0 <= Self::index_spec(key.deep_view()) < len),
    ;

    /// The key of an array of keys is the entry that it points at.
    proof fn lemma_key(a: DataArrayView<<Self::To as DeepView>::V>, i: int)
        requires
            0 <= i < a.values.len(),
        ensures
            Self::To::array_of(a).key(i) == Self::index_spec(a.values[i]),
    ;
}

/// Keys of type `i8`.
pub struct Int8Key;

impl ValueCast for Int8Key {
    type From = u32;

    type To = i8;

    open spec fn select(pages: PagesView) -> Option<Seq<u32>> {
        pages.keys
    }

    fn values(pages: &Pages) -> (res: Option<&Vec<u32>>) {
        match &pages.keys {
            Some(k) => {
                assert(k.deep_view() =~= k@);
                Some(k)
            },
            None => None,
        }
    }

    open spec fn cast_spec(x: u32) -> i8 {
        x as i8
    }

    fn cast(x: &u32) -> (res: i8) {
        #[verifier::truncate] (*x as i8)
    }
}

impl DictionaryKey for Int8Key {
    open spec fn max_key() -> int {
        0x7f
    }

    fn fits(key: u32) -> (res: bool) {
        key <= 0x7f
    }

    open spec fn key_type() -> DataTypeView {
        DataTypeView::Int8
    }

    fn data_type() -> (res: DataType) {
        DataType::Int8
    }

    open spec fn index_spec(key: i8) -> int {
        key as int
    }

    fn index_within(key: &i8, len: usize) -> (res: bool) {
        *key >= 0 && (*key as u64) < len as u64
    }

    proof fn lemma_key(a: DataArrayView<i8>, i: int) {
        assert(<i8 as NativeType>::array_of(a) == ArrayView::Int8(a));
        assert(ArrayView::Int8(a).key(i) == a.values[i] as int);
    }
}

/// Keys of type `i16`.
pub struct Int16Key;

impl ValueCast for Int16Key {
    type From = u32;

    type To = i16;

    open spec fn select(pages: PagesView) -> Option<Seq<u32>> {
        pages.keys
    }

    fn values(pages: &Pages) -> (res: Option<&Vec<u32>>) {
        match &pages.keys {
            Some(k) => {
                assert(k.deep_view() =~= k@);
                Some(k)
            },
            None => None,
        }
    }

    open spec fn cast_spec(x: u32) -> i16 {
        x as i16
    }

    fn cast(x: &u32) -> (res: i16) {
        #[verifier::truncate] (*x as i16)
    }
}

impl DictionaryKey for Int16Key {
    open spec fn max_key() -> int {
        0x7fff
    }

    fn fits(key: u32) -> (res: bool) {
        key <= 0x7fff
    }

    open spec fn key_type() -> DataTypeView {
        DataTypeView::Int16
    }

    fn data_type() -> (res: DataType) {
        DataType::Int16
    }

    open spec fn index_spec(key: i16) -> int {
        key as int
    }

    fn index_within(key: &i16, len: usize) -> (res: bool) {
        *key >= 0 && (*key as u64) < len as u64
    }

    proof fn lemma_key(a: DataArrayView<i16>, i: int) {
        assert(<i16 as NativeType>::array_of(a) == ArrayView::Int16(a));
        assert(ArrayView::Int16(a).key(i) == a.values[i] as int);
    }
}

/// Keys of type `i32`.
pub struct Int32Key;

impl ValueCast for Int32Key {
    type From = u32;

    type To = i32;

    open spec fn select(pages: PagesView) -> Option<Seq<u32>> {
        pages.keys
    }

    fn values(pages: &Pages) -> (res: Option<&Vec<u32>>) {
        match &pages.keys {
            Some(k) => {
                assert(k.deep_view() =~= k@);
                Some(k)
            },
            None => None,
        }
    }

    open spec fn cast_spec(x: u32) -> i32 {
        x as i32
    }

    fn cast(x: &u32) -> (res: i32) {
        #[verifier::truncate] (*x as i32)
    }
}

impl DictionaryKey for Int32Key {
    open spec fn max_key() -> int {
        0x7fff_ffff
    }

    fn fits(key: u32) -> (res: bool) {
        key <= 0x7fff_ffff
    }

    open spec fn key_type() -> DataTypeView {
        DataTypeView::Int32
    }

    fn data_type() -> (res: DataType) {
        DataType::Int32
    }

    open spec fn index_spec(key: i32) -> int {
        key as int
    }

    fn index_within(key: &i32, len: usize) -> (res: bool) {
        *key >= 0 && (*key as u64) < len as u64
    }

    proof fn lemma_key(a: DataArrayView<i32>, i: int) {
        assert(<i32 as NativeType>::array_of(a) == ArrayView::Int32(a));
        assert(ArrayView::Int32(a).key(i) == a.values[i] as int);
    }
}

/// Keys of type `i64`.
pub struct Int64Key;

impl ValueCast for Int64Key {
    type From = u32;

    type To = i64;

    open spec fn select(pages: PagesView) -> Option<Seq<u32>> {
        pages.keys
    }

    fn values(pages: &Pages) -> (res: Option<&Vec<u32>>) {
        match &pages.keys {
            Some(k) => {
                assert(k.deep_view() =~= k@);
                Some(k)
            },
            None => None,
        }
    }

    open spec fn cast_spec(x: u32) -> i64 {
        x as i64
    }

    fn cast(x: &u32) -> (res: i64) {
        #[verifier::truncate] (*x as i64)
    }
}

impl DictionaryKey for Int64Key {
    open spec fn max_key() -> int {
        0xffff_ffff
    }

    fn fits(key: u32) -> (res: bool) {
        key <= 0xffff_ffff
    }

    open spec fn key_type() -> DataTypeView {
        DataTypeView::Int64
    }

    fn data_type() -> (res: DataType) {
        DataType::Int64
    }

    open spec fn index_spec(key: i64) -> int {
        key as int
    }

    fn index_within(key: &i64, len: usize) -> (res: bool) {
        *key >= 0 && (*key as u64) < len as u64
    }

    proof fn lemma_key(a: DataArrayView<i64>, i: int) {
        assert(<i64 as NativeType>::array_of(a) == ArrayView::Int64(a));
        assert(ArrayView::Int64(a).key(i) == a.values[i] as int);
    }
}

/// Keys of type `u8`.
pub struct UInt8Key;

impl ValueCast for UInt8Key {
    type From = u32;

    type To = u8;

    open spec fn select(pages: PagesView) -> Option<Seq<u32>> {
        pages.keys
    }

    fn values(pages: &Pages) -> (res: Option<&Vec<u32>>) {
        match &pages.keys {
            Some(k) => {
                assert(k.deep_view() =~= k@);
                Some(k)
            },
            None => None,
        }
    }

    open spec fn cast_spec(x: u32) -> u8 {
        x as u8
    }

    fn cast(x: &u32) -> (res: u8) {
        #[verifier::truncate] (*x as u8)
    }
}

impl DictionaryKey for UInt8Key {
    open spec fn max_key() -> int {
        0xff
    }

    fn fits(key: u32) -> (res: bool) {
        key <= 0xff
    }

    open spec fn key_type() -> DataTypeView {
        DataTypeView::UInt8
    }

    fn data_type() -> (res: DataType) {
        DataType::UInt8
    }

    open spec fn index_spec(key: u8) -> int {
        key as int
    }

    fn index_within(key: &u8, len: usize) -> (res: bool) {
        (*key as u64) < len as u64
    }

    proof fn lemma_key(a: DataArrayView<u8>, i: int) {
        assert(<u8 as NativeType>::array_of(a) == ArrayView::UInt8(a));
        assert(ArrayView::UInt8(a).key(i) == a.values[i] as int);
    }
}

/// Keys of type `u16`.
pub struct UInt16Key;

impl ValueCast for UInt16Key {
    type From = u32;

    type To = u16;

    open spec fn select(pages: PagesView) -> Option<Seq<u32>> {
        pages.keys
    }

    fn values(pages: &Pages) -> (res: Option<&Vec<u32>>) {
        match &pages.keys {
            Some(k) => {
                assert(k.deep_view() =~= k@);
                Some(k)
            },
            None => None,
        }
    }

    open spec fn cast_spec(x: u32) -> u16 {
        x as u16
    }

    fn cast(x: &u32) -> (res: u16) {
        #[verifier::truncate] (*x as u16)
    }
}

impl DictionaryKey for UInt16Key {
    open spec fn max_key() -> int {
        0xffff
    }

    fn fits(key: u32) -> (res: bool) {
        key <= 0xffff
    }

    open spec fn key_type() -> DataTypeView {
        DataTypeView::UInt16
    }

    fn data_type() -> (res: DataType) {
        DataType::UInt16
    }

    open spec fn index_spec(key: u16) -> int {
        key as int
    }

    fn index_within(key: &u16, len: usize) -> (res: bool) {
        (*key as u64) < len as u64
    }

    proof fn lemma_key(a: DataArrayView<u16>, i: int) {
        assert(<u16 as NativeType>::array_of(a) == ArrayView::UInt16(a));
        assert(ArrayView::UInt16(a).key(i) == a.values[i] as int);
    }
}

/// Keys of type `u32`.
pub struct UInt32Key;

impl ValueCast for UInt32Key {
    type From = u32;

    type To = u32;

    open spec fn select(pages: PagesView) -> Option<Seq<u32>> {
        pages.keys
    }

    fn values(pages: &Pages) -> (res: Option<&Vec<u32>>) {
        match &pages.keys {
            Some(k) => {
                assert(k.deep_view() =~= k@);
                Some(k)
            },
            None => None,
        }
    }

    open spec fn cast_spec(x: u32) -> u32 {
        x
    }

    fn cast(x: &u32) -> (res: u32) {
        *x
    }
}

impl DictionaryKey for UInt32Key {
    open spec fn max_key() -> int {
        0xffff_ffff
    }

    fn fits(key: u32) -> (res: bool) {
        key <= 0xffff_ffff
    }

    open spec fn key_type() -> DataTypeView {
        DataTypeView::UInt32
    }

    fn data_type() -> (res: DataType) {
        DataType::UInt32
    }

    open spec fn index_spec(key: u32) -> int {
        key as int
    }

    fn index_within(key: &u32, len: usize) -> (res: bool) {
        (*key as u64) < len as u64
    }

    proof fn lemma_key(a: DataArrayView<u32>, i: int) {
        assert(<u32 as NativeType>::array_of(a) == ArrayView::UInt32(a));
        assert(ArrayView::UInt32(a).key(i) == a.values[i] as int);
    }
}

/// Keys of type `u64`.
pub struct UInt64Key;

impl ValueCast for UInt64Key {
    type From = u32;

    type To = u64;

    open spec fn select(pages: PagesView) -> Option<Seq<u32>> {
        pages.keys
    }

    fn values(pages: &Pages) -> (res: Option<&Vec<u32>>) {
        match &pages.keys {
            Some(k) => {
                assert(k.deep_view() =~= k@);
                Some(k)
            },
            None => None,
        }
    }

    open spec fn cast_spec(x: u32) -> u64 {
        x as u64
    }

    fn cast(x: &u32) -> (res: u64) {
        #[verifier::truncate] (*x as u64)
    }
}

impl DictionaryKey for UInt64Key {
    open spec fn max_key() -> int {
        0xffff_ffff
    }

    fn fits(key: u32) -> (res: bool) {
        key <= 0xffff_ffff
    }

    open spec fn key_type() -> DataTypeView {
        DataTypeView::UInt64
    }

    fn data_type() -> (res: DataType) {
        DataType::UInt64
    }

    open spec fn index_spec(key: u64) -> int {
        key as int
    }

    fn index_within(key: &u64, len: usize) -> (res: bool) {
        (*key as u64) < len as u64
    }

    proof fn lemma_key(a: DataArrayView<u64>, i: int) {
        assert(<u64 as NativeType>::array_of(a) == ArrayView::UInt64(a));
        assert(ArrayView::UInt64(a).key(i) == a.values[i] as int);
    }
}

/// The array of the values of a dictionary: every value of the column, cast
/// as `C` says; none of them is null.
pub open spec fn dictionary_values<C: ValueCast>(
    values: Seq<<C::From as DeepView>::V>,
    data_type: DataTypeView,
) -> ArrayView {
    C::To::array_of(
        DataArrayView { data_type, values: cast_values::<C>(values), validity: None },
    )
}

/// The array of the values of a dictionary of byte strings of one length.
pub open spec fn dictionary_fixed_values(
    values: Seq<Seq<u8>>,
    size: usize,
    data_type: DataTypeView,
) -> ArrayView {
    ArrayView::FixedSizeBinary { data_type, size, values, validity: None }
}

/// Whether every key of the column can be held by the key type `K`.
pub open spec fn keys_fit<K: DictionaryKey>(keys: Seq<u32>) -> bool {
    forall|i: int| 0 <= i < keys.len() ==> #[trigger] keys[i] <= K::max_key()
}

/// Whether every key of the array that is not null points into a
/// dictionary of `len` entries.
pub open spec fn keys_within<K: DictionaryKey>(
    keys: DataArrayView<<K::To as DeepView>::V>,
    len: nat,
) -> bool {
    forall|i: int|
        0 <= i < keys.values.len() && (keys.validity matches Some(bits) ==> bits[i]) ==> 0
            <= #[trigger] K::index_spec(keys.values[i]) < len
}

/// The chunks of the keys of a column: the keys, decoded like the values of
/// any other leaf. The number of values of the column is not taken into
/// account, and the validity of the keys is kept whatever the schema says.
pub open spec fn key_chunks<K: DictionaryKey>(
    pages: PagesView,
    keys: Seq<u32>,
    init: Seq<InitNested>,
    num_rows: nat,
    chunk_size: Option<usize>,
) -> Seq<(Seq<NestedView>, DataArrayView<<K::To as DeepView>::V>)> {
    leaf_chunks(
        init,
        pages.levels,
        cast_values::<K>(keys),
        K::To::zero_view(),
        K::key_type(),
        num_rows,
        chunk_size,
        usize::MAX as nat,
        true,
    )
}

/// What the decoder yields for a dictionary-encoded column over the
/// dictionary `values`: for each chunk of rows the state of every level of
/// nesting and the dictionary array of the keys. Fails where the column has
/// no keys, where a key does not fit the key type, and where a key that is
/// not null points outside the dictionary.
pub open spec fn dictionary_result<K: DictionaryKey>(
    pages: PagesView,
    values: ArrayView,
    init: Seq<InitNested>,
    data_type: DataTypeView,
    num_rows: nat,
    chunk_size: Option<usize>,
) -> Result<Seq<(Seq<NestedView>, ArrayView)>, ErrorView> {
    match K::select(pages) {
        None => Err(ErrorView::InvalidArgumentError(Invalid::PhysicalValues)),
        Some(keys) => {
            let items = key_chunks::<K>(pages, keys, init, num_rows, chunk_size);
            if keys_fit::<K>(keys) && (forall|k: int|
                0 <= k < items.len() ==> keys_within::<K>((#[trigger] items[k]).1, values.len())) {
                Ok(
                    Seq::new(
                        items.len(),
                        |k: int|
                            (
                                items[k].0,
                                ArrayView::Dictionary {
                                    data_type,
                                    keys: Box::new(K::To::array_of(items[k].1)),
                                    dictionary: Box::new(values),
                                },
                            ),
                    ),
                )
            } else {
                Err(ErrorView::InvalidArgumentError(Invalid::DictionaryKey))
            }
        },
    }
}

/// Whether every key can be held by the key type `K`.
fn all_fit<K: DictionaryKey>(keys: &Vec<u32>) -> (res: bool)
    ensures
        res == keys_fit::<K>(keys@),
{
    let mut i: usize = 0;
    while i < keys.len()
        invariant
            i <= keys.len(),
            forall|j: int| 0 <= j < i ==> #[trigger] keys[j] <= K::max_key(),
        decreases keys.len() - i,
    {
        if !K::fits(keys[i]) {
            return false;
        }
        i += 1;
    }
    true
}

/// Whether every key of the array that is not null points into a
/// dictionary of `len` entries.
fn all_within<K: DictionaryKey>(keys: &DataArray<K::To>, len: usize) -> (res: bool)
    requires
        keys@.wf(),
    ensures
        res == keys_within::<K>(keys@, len as nat),
{
    let mut i: usize = 0;
    while i < keys.values.len()
        invariant
            i <= keys.values.len(),
            keys@.wf(),
            forall|j: int|
                0 <= j < i && (keys@.validity matches Some(bits) ==> bits[j]) ==> 0
                    <= #[trigger] K::index_spec(keys@.values[j]) < len,
        decreases keys.values.len() - i,
    {
        let valid = match &keys.validity {
            Some(bits) => bits[i],
            None => true,
        };
        if valid && !K::index_within(&keys.values[i], len) {
            assert(keys@.values[i as int] == keys.values[i as int].deep_view());
            return false;
        }
        assert(keys@.values[i as int] == keys.values[i as int].deep_view());
        i += 1;
    }
    true
}

/// The array of the values of a dictionary: every value of the column, cast
/// as `C` says.
pub fn read_dict<C: ValueCast>(pages: &Pages, data_type: DataType) -> (res: Result<
    DataArray<C::To>,
    Error,
>)
    ensures
        match res {
            Ok(array) => C::select(pages@) matches Some(values) && array@ == (DataArrayView {
                data_type: data_type@,
                values: cast_values::<C>(values),
                validity: None,
            }),
            Err(e) => C::select(pages@) is None && e@ == ErrorView::InvalidArgumentError(
                Invalid::PhysicalValues,
            ),
        },
{
    let source = match C::values(pages) {
        Some(v) => v,
        None => {
            return Err(Error::InvalidArgumentError(Invalid::PhysicalValues));
        },
    };
    let mut values: Vec<C::To> = Vec::new();
    let mut i: usize = 0;
    while i < source.len()
        invariant
            i <= source.len(),
            values.len() == i,
            forall|j: int|
                0 <= j < i ==> (#[trigger] values[j]).deep_view() == C::cast_spec(
                    source.deep_view()[j],
                ),
        decreases source.len() - i,
    {
        values.push(C::cast(&source[i]));
        i += 1;
    }
    assert(values.deep_view() =~= cast_values::<C>(source.deep_view()));
    Ok(DataArray { data_type, values, validity: None })
}

/// Decodes the keys of a dictionary-encoded leaf column into chunks of rows
/// and pairs each chunk with a copy of the dictionary.
#[verifier::rlimit(30)]
pub fn nested_dict_iter<K: DictionaryKey>(
    pages: &Pages,
    values: Array,
    init: &Vec<InitNested>,
    data_type: &DataType,
    num_rows: usize,
    chunk_size: Option<usize>,
) -> (res: Result<Vec<(NestedState, DictionaryArray)>, Error>)
    requires
        chunk_size != Some(0usize),
    ensures
        result_matches(
            res,
            dictionary_result::<K>(
                pages@,
                values@,
                init@,
                data_type@,
                num_rows as nat,
                chunk_size,
            ),
        ),
{
    let keys = match K::values(pages) {
        Some(k) => k,
        None => {
            return Err(Error::InvalidArgumentError(Invalid::PhysicalValues));
        },
    };
    assert(keys.deep_view() =~= keys@);
    if !all_fit::<K>(keys) {
        return Err(Error::InvalidArgumentError(Invalid::DictionaryKey));
    }
    let key_type = K::data_type();
    let decoded = match decode_leaf::<K>(
        pages,
        init,
        &key_type,
        num_rows,
        chunk_size,
        usize::MAX,
        true,
    ) {
        Ok(items) => items,
        Err(e) => {
            return Err(e);
        },
    };
    let ghost items = key_chunks::<K>(pages@, keys@, init@, num_rows as nat, chunk_size);
    let ghost dictionary = values@;
    proof {
        assert(chunks_view(decoded@) == items);
    }
    let len = values.len();
    let ghost all = decoded@;
    let mut res: Vec<(NestedState, DictionaryArray)> = Vec::new();
    for item in it: decoded
        invariant
            it.seq() == all,
            chunks_view(all) == items,
            items == key_chunks::<K>(pages@, keys@, init@, num_rows as nat, chunk_size),
            dictionary == values@,
            dictionary.len() == len,
            keys_fit::<K>(keys@),
            K::select(pages@) == Some(keys@),
            res.len() == it.index(),
            forall|k: int| 0 <= k < it.index() ==> keys_within::<K>((#[trigger] items[k]).1, len as nat),
            forall|k: int|
                0 <= k < res.len() ==> (#[trigger] res[k]).0@ == items[k].0 && res[k].1@
                    == (ArrayView::Dictionary {
                    data_type: data_type@,
                    keys: Box::new(K::To::array_of(items[k].1)),
                    dictionary: Box::new(dictionary),
                }),
    {
        let ghost k = it.index() as int;
        assert(chunks_view(all)[k] == (all[k].0@, all[k].1@));
        let (nested, array) = item;
        proof {
            lemma_keys_chunks_wf::<K>(pages@, keys@, init@, num_rows as nat, chunk_size, k);
        }
        if !all_within::<K>(&array, len) {
            return Err(Error::InvalidArgumentError(Invalid::DictionaryKey));
        }
        let dictionary_copy = values.clone();
        let dict = DictionaryArray {
            data_type: data_type.clone(),
            keys: Box::new(K::To::wrap(array)),
            values: Box::new(dictionary_copy),
        };
        res.push((nested, dict));
    }
    proof {
        let expected = dictionary_result::<K>(
            pages@,
            dictionary,
            init@,
            data_type@,
            num_rows as nat,
            chunk_size,
        );
        assert(expected is Ok);
        assert(chunks_view(res@) =~= expected->Ok_0);
    }
    Ok(res)
}

/// The arrays of keys have one validity bit per key.
pub proof fn lemma_keys_chunks_wf<K: DictionaryKey>(
    pages: PagesView,
    keys: Seq<u32>,
    init: Seq<InitNested>,
    num_rows: nat,
    chunk_size: Option<usize>,
    k: int,
)
    requires
        0 <= k < key_chunks::<K>(pages, keys, init, num_rows, chunk_size).len(),
    ensures
        key_chunks::<K>(pages, keys, init, num_rows, chunk_size)[k].1.wf(),
{
}


/// The array of the values of a dictionary of byte strings of the length
/// `size`.
pub fn read_fixed_dict(pages: &Pages, size: usize, data_type: DataType) -> (res: Result<
    FixedSizeBinaryArray,
    Error,
>)
    ensures
        match res {
            Ok(array) => fixed_values(pages@, size) matches Some(values) && array@
                == dictionary_fixed_values(values, size, data_type@),
            Err(e) => fixed_values(pages@, size) is None && e@ == ErrorView::InvalidArgumentError(
                Invalid::PhysicalValues,
            ),
        },
{
    broadcast use crate::array::lemma_bytes_deep_view;

    let source = match FixedBytes::values(pages) {
        Some(v) => v,
        None => {
            return Err(Error::InvalidArgumentError(Invalid::PhysicalValues));
        },
    };
    let mut values: Vec<Vec<u8>> = Vec::new();
    let mut i: usize = 0;
    while i < source.len()
        invariant
            i <= source.len(),
            values.len() == i,
            FixedBytes::select(pages@) == Some(source.deep_view()),
            forall|j: int| 0 <= j < i ==> (#[trigger] values[j])@ == source[j]@,
            forall|j: int| 0 <= j < i ==> (#[trigger] source.deep_view()[j]).len() == size,
        decreases source.len() - i,
    {
        if source[i].len() != size {
            assert(source.deep_view()[i as int].len() != size);
            return Err(Error::InvalidArgumentError(Invalid::PhysicalValues));
        }
        values.push(crate::array::copy_bytes(&source[i]));
        i += 1;
    }
    assert(values.deep_view() =~= source.deep_view());
    Ok(FixedSizeBinaryArray { data_type, size, values, validity: None })
}

/// The dictionary arrays of a decoder are well-formed: the keys have one
/// validity bit each, and every key that is not null points into the
/// dictionary.
pub proof fn lemma_dictionary_result<K: DictionaryKey>(
    pages: PagesView,
    values: ArrayView,
    init: Seq<InitNested>,
    data_type: DataTypeView,
    num_rows: nat,
    chunk_size: Option<usize>,
    k: int,
)
    requires
        init.len() > 0,
        pages.levels.len() <= usize::MAX,
        values.wf(),
        values.offsets_cover(),
        dictionary_result::<K>(pages, values, init, data_type, num_rows, chunk_size) matches Ok(
            items,
        ) && 0 <= k < items.len(),
    ensures
        ({
            let c = dictionary_result::<K>(
                pages,
                values,
                init,
                data_type,
                num_rows,
                chunk_size,
            )->Ok_0[k];
            &&& c.0.len() == init.len()
            &&& forall|j: int| 0 <= j < init.len() ==> (#[trigger] c.0[j]).init == init[j]
            &&& crate::nested_utils::aligned(c.0.drop_last(), c.1.len())
            &&& c.1.wf()
            &&& c.1.offsets_cover()
        }),
{
    let keys = K::select(pages)->Some_0;
    let items = key_chunks::<K>(pages, keys, init, num_rows, chunk_size);
    crate::nested_utils::lemma_leaf_chunks(
        init,
        pages.levels,
        cast_values::<K>(keys),
        K::To::zero_view(),
        K::key_type(),
        num_rows,
        chunk_size,
        usize::MAX as nat,
        true,
        k,
    );
    K::To::lemma_array_of(items[k].1);
    let array = K::To::array_of(items[k].1);
    assert(keys_within::<K>(items[k].1, values.len()));
    assert forall|i: int| 0 <= i < array.len() && #[trigger] array.is_valid(i) implies 0
        <= array.key(i) < values.len() by {
        K::lemma_key(items[k].1, i);
    }
}

} // verus!
