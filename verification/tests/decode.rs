use columnar_decode::array::{Array, DataArray, NullArray, StructArray};
use columnar_decode::convert::Int256;
use columnar_decode::datatypes::{DataType, Field, IntegerType, IntervalUnit, TimeUnit, UnionMode};
use columnar_decode::deserialize::nested::{
    columns_to_iter_recursive, create_list, create_map, dict_read, primitive, remove_nested,
};
use columnar_decode::deserialize::dictionary::{Int8Key, UInt16Key};
use columnar_decode::error::{Error, Invalid, Unsupported};
use columnar_decode::nested_utils::{InitNested, Nested, NestedState};
use columnar_decode::page::{F32Bits, F64Bits, Level, PageValues, Pages, ParquetPhysicalType, ParquetType};

fn levels(pairs: &[(u32, u32)]) -> Vec<Level> {
    pairs.iter().map(|(rep, def)| Level { rep: *rep, def: *def }).collect()
}

fn pages(pairs: &[(u32, u32)], values: PageValues) -> Pages {
    Pages { levels: levels(pairs), values, keys: None }
}

fn physical(physical_type: ParquetPhysicalType) -> ParquetType {
    ParquetType { physical_type }
}

fn field(name: &str, data_type: DataType, is_nullable: bool) -> Field {
    Field::new(name.to_string(), data_type, is_nullable)
}

fn flat(rows: usize, valid: &[bool]) -> Vec<(u32, u32)> {
    (0..rows).map(|i| (0, if valid[i] { 1 } else { 0 })).collect()
}

fn decode_one(
    column: Pages,
    ty: ParquetPhysicalType,
    f: Field,
    num_rows: usize,
) -> Result<Vec<(NestedState, Array)>, Error> {
    let count = column.levels.len();
    columns_to_iter_recursive(
        vec![column],
        vec![physical(ty)],
        f,
        vec![],
        num_rows,
        None,
        vec![count],
        false,
    )
}

fn only(chunks: Result<Vec<(NestedState, Array)>, Error>) -> Array {
    let mut chunks = chunks.unwrap();
    assert_eq!(chunks.len(), 1);
    let (nested, array) = chunks.pop().unwrap();
    assert_eq!(nested.nested.len(), 0);
    array
}

#[test]
fn list_of_int32_with_a_null_and_an_empty_row() {
    let item = field("item", DataType::Int32, true);
    let data_type = DataType::List(Box::new(item));
    let column = pages(&[(0, 3), (1, 3), (0, 0), (0, 1)], PageValues::Int32(vec![1, 2]));
    let array = only(decode_one(
        column,
        ParquetPhysicalType::Int32,
        field("l", data_type.clone(), true),
        3,
    ));
    match array {
        Array::List(list) => {
            assert_eq!(list.offsets, vec![0, 2, 2, 2]);
            assert_eq!(list.validity, Some(vec![true, false, true]));
            assert_eq!(list.data_type, data_type);
            assert_eq!(
                *list.flat_child,
                Array::Int32(DataArray {
                    data_type: DataType::Int32,
                    values: vec![1, 2],
                    validity: None,
                })
            );
        },
        other => panic!("not a list: {:?}", other),
    }
}

#[test]
fn struct_of_int32_and_utf8_with_a_null_row() {
    let fields = vec![field("a", DataType::Int32, true), field("b", DataType::Utf8, true)];
    let entries = [(0, 2), (0, 0), (0, 2)];
    let a = pages(&entries, PageValues::Int32(vec![5, 7]));
    let b = pages(&entries, PageValues::ByteArray(vec![b"x".to_vec(), b"y".to_vec()]));
    let chunks = columns_to_iter_recursive(
        vec![a, b],
        vec![physical(ParquetPhysicalType::Int32), physical(ParquetPhysicalType::ByteArray)],
        field("s", DataType::Struct(fields.clone()), true),
        vec![],
        3,
        None,
        vec![3, 3],
        false,
    );
    match only(chunks) {
        Array::Struct(s) => {
            assert_eq!(s.len(), 3);
            assert_eq!(s.validity, Some(vec![true, false, true]));
            assert_eq!(s.data_type, DataType::Struct(fields));
            assert_eq!(
                s.values[0],
                Array::Int32(DataArray {
                    data_type: DataType::Int32,
                    values: vec![5, 0, 7],
                    validity: Some(vec![true, false, true]),
                })
            );
            assert_eq!(
                s.values[1],
                Array::Binary(DataArray {
                    data_type: DataType::Utf8,
                    values: vec![b"x".to_vec(), vec![], b"y".to_vec()],
                    validity: Some(vec![true, false, true]),
                })
            );
        },
        other => panic!("not a struct: {:?}", other),
    }
}

#[test]
fn struct_nullability_is_apart_from_field_nullability() {
    let fields = vec![field("a", DataType::Int32, true)];
    // row 0: struct present, field null; row 1: struct null; row 2: both present
    let a = pages(&[(0, 1), (0, 0), (0, 2)], PageValues::Int32(vec![9]));
    let array = only(decode_one(
        a,
        ParquetPhysicalType::Int32,
        field("s", DataType::Struct(fields), true),
        3,
    ));
    match array {
        Array::Struct(s) => {
            assert_eq!(s.validity, Some(vec![true, false, true]));
            assert_eq!(
                s.values[0],
                Array::Int32(DataArray {
                    data_type: DataType::Int32,
                    values: vec![0, 0, 9],
                    validity: Some(vec![false, false, true]),
                })
            );
        },
        other => panic!("not a struct: {:?}", other),
    }
}

#[test]
fn required_leaf_without_nullable_parent_has_no_validity() {
    let column = pages(&[(0, 0), (0, 0)], PageValues::Int64(vec![3, 4]));
    let array = only(decode_one(
        column,
        ParquetPhysicalType::Int64,
        field("x", DataType::Int64, false),
        2,
    ));
    assert_eq!(
        array,
        Array::Int64(DataArray { data_type: DataType::Int64, values: vec![3, 4], validity: None })
    );
}

#[test]
fn narrowing_casts_truncate() {
    let values = PageValues::Int32(vec![300, -1, 65537]);
    let entries = flat(3, &[true, true, true]);
    let cases: Vec<(DataType, Array)> = vec![
        (
            DataType::Int8,
            Array::Int8(DataArray { data_type: DataType::Int8, values: vec![44, -1, 1], validity: None }),
        ),
        (
            DataType::Int16,
            Array::Int16(DataArray {
                data_type: DataType::Int16,
                values: vec![300, -1, 1],
                validity: None,
            }),
        ),
        (
            DataType::UInt8,
            Array::UInt8(DataArray {
                data_type: DataType::UInt8,
                values: vec![44, 255, 1],
                validity: None,
            }),
        ),
        (
            DataType::UInt16,
            Array::UInt16(DataArray {
                data_type: DataType::UInt16,
                values: vec![300, 65535, 1],
                validity: None,
            }),
        ),
        (
            DataType::Date32,
            Array::Int32(DataArray {
                data_type: DataType::Date32,
                values: vec![300, -1, 65537],
                validity: None,
            }),
        ),
        (
            DataType::Interval(IntervalUnit::YearMonth),
            Array::Int32(DataArray {
                data_type: DataType::Interval(IntervalUnit::YearMonth),
                values: vec![300, -1, 65537],
                validity: None,
            }),
        ),
    ];
    for (data_type, expected) in cases {
        let column = pages(&entries, values.clone());
        let array = only(decode_one(
            column,
            ParquetPhysicalType::Int32,
            field("x", data_type, true),
            3,
        ));
        assert_eq!(array, expected);
    }
}

#[test]
fn sixty_four_bit_types_read_int64() {
    let entries = flat(2, &[true, true]);
    let column = pages(&entries, PageValues::Int64(vec![-1, 5]));
    let array = only(decode_one(
        column,
        ParquetPhysicalType::Int64,
        field("x", DataType::UInt64, true),
        2,
    ));
    assert_eq!(
        array,
        Array::UInt64(DataArray {
            data_type: DataType::UInt64,
            values: vec![u64::MAX, 5],
            validity: None,
        })
    );
    let data_type = DataType::Timestamp(TimeUnit::Millisecond, Some("UTC".to_string()));
    let column = pages(&entries, PageValues::Int64(vec![-1, 5]));
    let array = only(decode_one(
        column,
        ParquetPhysicalType::Int64,
        field("x", data_type.clone(), true),
        2,
    ));
    assert_eq!(array, Array::Int64(DataArray { data_type, values: vec![-1, 5], validity: None }));
}

#[test]
fn uint32_from_int32_and_from_int64_agree() {
    let entries = flat(3, &[true, false, true]);
    let narrow = pages(&entries, PageValues::Int32(vec![-1, 7]));
    let wide = pages(&entries, PageValues::Int64(vec![4294967295, 7]));
    let from_narrow = only(decode_one(
        narrow,
        ParquetPhysicalType::Int32,
        field("u", DataType::UInt32, true),
        3,
    ));
    let from_wide = only(decode_one(
        wide,
        ParquetPhysicalType::Int64,
        field("u", DataType::UInt32, true),
        3,
    ));
    assert_eq!(from_narrow, from_wide);
    assert_eq!(
        from_narrow,
        Array::UInt32(DataArray {
            data_type: DataType::UInt32,
            values: vec![4294967295, 0, 7],
            validity: Some(vec![true, false, true]),
        })
    );
}

#[test]
fn uint32_from_another_physical_type_is_not_implemented() {
    let column = pages(&flat(1, &[true]), PageValues::ByteArray(vec![vec![1]]));
    let res = decode_one(
        column,
        ParquetPhysicalType::ByteArray,
        field("u", DataType::UInt32, true),
        1,
    );
    assert_eq!(
        res,
        Err(Error::NotYetImplemented(Unsupported::UInt32From(ParquetPhysicalType::ByteArray)))
    );
    assert!(res.unwrap_err().is_not_yet_implemented());
}

#[test]
fn floats_keep_their_bits() {
    let entries = flat(2, &[true, true]);
    let bits = vec![F32Bits(1.5f32.to_bits()), F32Bits(f32::NAN.to_bits())];
    let column = pages(&entries, PageValues::Float(bits.clone()));
    let array = only(decode_one(
        column,
        ParquetPhysicalType::Float,
        field("f", DataType::Float32, true),
        2,
    ));
    assert_eq!(
        array,
        Array::Float32(DataArray { data_type: DataType::Float32, values: bits, validity: None })
    );
    let bits = vec![F64Bits((-2.25f64).to_bits()), F64Bits(0f64.to_bits())];
    let column = pages(&entries, PageValues::Double(bits.clone()));
    let array = only(decode_one(
        column,
        ParquetPhysicalType::Double,
        field("f", DataType::Float64, true),
        2,
    ));
    assert_eq!(
        array,
        Array::Float64(DataArray { data_type: DataType::Float64, values: bits, validity: None })
    );
}

#[test]
fn booleans_and_nulls() {
    let entries = flat(3, &[true, false, true]);
    let column = pages(&entries, PageValues::Boolean(vec![true, false]));
    let array = only(decode_one(
        column,
        ParquetPhysicalType::Boolean,
        field("b", DataType::Boolean, true),
        3,
    ));
    assert_eq!(
        array,
        Array::Boolean(DataArray {
            data_type: DataType::Boolean,
            values: vec![true, false, false],
            validity: Some(vec![true, false, true]),
        })
    );
    // a null column is never asked for values
    let column = pages(&entries, PageValues::Int64(vec![]));
    let array = only(decode_one(
        column,
        ParquetPhysicalType::Int32,
        field("n", DataType::Null, true),
        3,
    ));
    assert_eq!(array, Array::Null(NullArray { data_type: DataType::Null, length: 3 }));
}

#[test]
fn large_binary_keeps_its_type() {
    let entries = flat(2, &[true, false]);
    let column = pages(&entries, PageValues::ByteArray(vec![b"abc".to_vec()]));
    let array = only(decode_one(
        column,
        ParquetPhysicalType::ByteArray,
        field("t", DataType::LargeUtf8, true),
        2,
    ));
    assert_eq!(
        array,
        Array::Binary(DataArray {
            data_type: DataType::LargeUtf8,
            values: vec![b"abc".to_vec(), vec![]],
            validity: Some(vec![true, false]),
        })
    );
}

#[test]
fn extension_types_decode_as_their_inner_type() {
    let data_type = DataType::Extension("uuid".to_string(), Box::new(DataType::Int32), None);
    let column = pages(&flat(1, &[true]), PageValues::Int32(vec![11]));
    let array = only(decode_one(
        column,
        ParquetPhysicalType::Int32,
        field("x", data_type.clone(), true),
        1,
    ));
    assert_eq!(array, Array::Int32(DataArray { data_type, values: vec![11], validity: None }));
}

#[test]
fn values_of_another_physical_type_are_an_invalid_argument() {
    let column = pages(&flat(1, &[true]), PageValues::Int64(vec![1]));
    let res = decode_one(column, ParquetPhysicalType::Int64, field("x", DataType::Int8, true), 1);
    assert_eq!(res, Err(Error::InvalidArgumentError(Invalid::PhysicalValues)));
    assert!(res.unwrap_err().is_invalid_argument());
}

#[test]
fn a_column_that_runs_out_of_values_gives_zeros() {
    let column = pages(&flat(3, &[true, true, true]), PageValues::Int32(vec![8]));
    let array = only(decode_one(
        column,
        ParquetPhysicalType::Int32,
        field("x", DataType::Int32, true),
        3,
    ));
    assert_eq!(
        array,
        Array::Int32(DataArray { data_type: DataType::Int32, values: vec![8, 0, 0], validity: None })
    );
}

fn fixed(n: usize, values: Vec<Vec<u8>>, rows: usize) -> (Pages, ParquetPhysicalType) {
    let valid = vec![true; rows];
    (
        pages(&flat(rows, &valid), PageValues::FixedLenByteArray(values)),
        ParquetPhysicalType::FixedLenByteArray(n),
    )
}

#[test]
fn decimal_width_boundary() {
    let mut wide = vec![0u8; 16];
    wide[0] = 0xff;
    wide[15] = 0x01;
    let (column, ty) = fixed(16, vec![wide], 1);
    let array = only(decode_one(column, ty, field("d", DataType::Decimal(38, 2), true), 1));
    assert_eq!(
        array,
        Array::Int128(DataArray {
            data_type: DataType::Decimal(38, 2),
            values: vec![(-1i128 << 120) + 1],
            validity: None,
        })
    );
    let (column, ty) = fixed(17, vec![vec![0u8; 17]], 1);
    let res = decode_one(column, ty, field("d", DataType::Decimal(38, 2), true), 1);
    assert_eq!(res, Err(Error::InvalidArgumentError(Invalid::Decimal128Width(17))));
    assert!(res.unwrap_err().is_invalid_argument());
}

#[test]
fn decimal_from_short_byte_strings_and_nulls() {
    let column = pages(
        &[(0, 1), (0, 0), (0, 1)],
        PageValues::FixedLenByteArray(vec![vec![0x01, 0x00], vec![0xff, 0xfe]]),
    );
    let array = only(decode_one(
        column,
        ParquetPhysicalType::FixedLenByteArray(2),
        field("d", DataType::Decimal(4, 1), true),
        3,
    ));
    assert_eq!(
        array,
        Array::Int128(DataArray {
            data_type: DataType::Decimal(4, 1),
            values: vec![256, 0, -2],
            validity: Some(vec![true, false, true]),
        })
    );
}

#[test]
fn decimal_from_integers() {
    let column = pages(&flat(2, &[true, true]), PageValues::Int32(vec![-5, 6]));
    let array = only(decode_one(
        column,
        ParquetPhysicalType::Int32,
        field("d", DataType::Decimal(9, 0), true),
        2,
    ));
    assert_eq!(
        array,
        Array::Int128(DataArray {
            data_type: DataType::Decimal(9, 0),
            values: vec![-5, 6],
            validity: None,
        })
    );
    let column = pages(&flat(2, &[true, true]), PageValues::Int64(vec![-5, 1 << 40]));
    let array = only(decode_one(
        column,
        ParquetPhysicalType::Int64,
        field("d", DataType::Decimal256(40, 0), true),
        2,
    ));
    assert_eq!(
        array,
        Array::Int256(DataArray {
            data_type: DataType::Decimal256(40, 0),
            values: vec![Int256 { high: -1, low: u128::MAX - 4 }, Int256 { high: 0, low: 1 << 40 }],
            validity: None,
        })
    );
}

#[test]
fn decimal256_width_boundary() {
    let mut narrow = vec![0xffu8; 16];
    narrow[15] = 0xfe;
    let (column, ty) = fixed(16, vec![narrow], 1);
    let array = only(decode_one(column, ty, field("d", DataType::Decimal256(40, 2), true), 1));
    assert_eq!(
        array,
        Array::Int256(DataArray {
            data_type: DataType::Decimal256(40, 2),
            values: vec![Int256 { high: -1, low: u128::MAX - 1 }],
            validity: None,
        })
    );
    let mut wide = vec![0u8; 32];
    wide[0] = 0x01;
    wide[31] = 0x02;
    let (column, ty) = fixed(32, vec![wide], 1);
    let array = only(decode_one(column, ty, field("d", DataType::Decimal256(76, 2), true), 1));
    assert_eq!(
        array,
        Array::Int256(DataArray {
            data_type: DataType::Decimal256(76, 2),
            values: vec![Int256 { high: 1 << 120, low: 2 }],
            validity: None,
        })
    );
    let (column, ty) = fixed(33, vec![vec![0u8; 33]], 1);
    let res = decode_one(column, ty, field("d", DataType::Decimal256(76, 2), true), 1);
    assert_eq!(res, Err(Error::InvalidArgumentError(Invalid::Decimal256Width(33))));
}

#[test]
fn decimal_of_empty_byte_strings_is_zero() {
    let column = pages(&[(0, 1), (0, 0)], PageValues::FixedLenByteArray(vec![vec![]]));
    let array = only(decode_one(
        column,
        ParquetPhysicalType::FixedLenByteArray(0),
        field("d", DataType::Decimal(1, 0), true),
        2,
    ));
    assert_eq!(
        array,
        Array::Int128(DataArray {
            data_type: DataType::Decimal(1, 0),
            values: vec![0, 0],
            validity: Some(vec![true, false]),
        })
    );
}

#[test]
fn decimal_from_another_physical_type_is_not_implemented() {
    let column = pages(&flat(1, &[true]), PageValues::Boolean(vec![true]));
    let res = decode_one(
        column,
        ParquetPhysicalType::Boolean,
        field("d", DataType::Decimal(4, 1), true),
        1,
    );
    assert_eq!(
        res,
        Err(Error::NotYetImplemented(Unsupported::DecimalFrom(ParquetPhysicalType::Boolean)))
    );
    let column = pages(&flat(1, &[true]), PageValues::Double(vec![F64Bits(0)]));
    let res = decode_one(
        column,
        ParquetPhysicalType::Double,
        field("d", DataType::Decimal256(4, 1), true),
        1,
    );
    assert_eq!(
        res,
        Err(Error::NotYetImplemented(Unsupported::DecimalFrom(ParquetPhysicalType::Double)))
    );
}

#[test]
fn byte_strings_of_another_length_are_an_invalid_argument() {
    let (column, ty) = fixed(4, vec![vec![0u8; 3]], 1);
    let res = decode_one(column, ty, field("d", DataType::Decimal(4, 1), true), 1);
    assert_eq!(res, Err(Error::InvalidArgumentError(Invalid::PhysicalValues)));
}

#[test]
fn types_without_decoder_are_not_implemented() {
    let cases = vec![
        DataType::Float16,
        DataType::FixedSizeBinary(3),
        DataType::Interval(IntervalUnit::DayTime),
        DataType::Interval(IntervalUnit::MonthDayNano),
        DataType::Union(vec![field("a", DataType::Int32, true)], UnionMode::Dense),
    ];
    for data_type in cases {
        let column = pages(&flat(1, &[true]), PageValues::Int32(vec![1]));
        let res = decode_one(
            column,
            ParquetPhysicalType::Int32,
            field("x", data_type.clone(), true),
            1,
        );
        assert_eq!(res, Err(Error::NotYetImplemented(Unsupported::Type(data_type))));
    }
    // the error names the type under the extension wrapper
    let wrapped = DataType::Extension("e".to_string(), Box::new(DataType::Float16), None);
    let column = pages(&flat(1, &[true]), PageValues::Int32(vec![1]));
    let res = decode_one(column, ParquetPhysicalType::Int32, field("x", wrapped, true), 1);
    assert_eq!(res, Err(Error::NotYetImplemented(Unsupported::Type(DataType::Float16))));
}

#[test]
fn chunks_hold_at_most_chunk_size_rows() {
    let item = field("item", DataType::Int32, false);
    let data_type = DataType::List(Box::new(item));
    // rows: [1], [2, 3], [], [4], [5, 6, 7]
    let entries =
        [(0, 1), (0, 1), (1, 1), (0, 0), (0, 1), (0, 1), (1, 1), (1, 1)];
    let column = pages(&entries, PageValues::Int32(vec![1, 2, 3, 4, 5, 6, 7]));
    let chunks = columns_to_iter_recursive(
        vec![column],
        vec![physical(ParquetPhysicalType::Int32)],
        field("l", data_type, false),
        vec![],
        5,
        Some(2),
        vec![8],
        false,
    )
    .unwrap();
    assert_eq!(chunks.len(), 3);
    let mut offsets = vec![];
    let mut values = vec![];
    for (nested, array) in &chunks {
        assert_eq!(nested.nested.len(), 0);
        match array {
            Array::List(list) => {
                assert_eq!(list.validity, None);
                offsets.push(list.offsets.clone());
                values.push(list.flat_child.i32().unwrap().values.clone());
            },
            other => panic!("not a list: {:?}", other),
        }
    }
    assert_eq!(offsets, vec![vec![0, 1, 3], vec![0, 0, 1], vec![0, 3]]);
    assert_eq!(values, vec![vec![1, 2, 3], vec![4], vec![5, 6, 7]]);
}

#[test]
fn rows_and_values_are_capped() {
    let entries = flat(5, &[true, true, true, true, true]);
    let decode = |num_rows: usize, chunk_size: Option<usize>, num_values: usize| {
        columns_to_iter_recursive(
            vec![pages(&entries, PageValues::Int32(vec![1, 2, 3, 4, 5]))],
            vec![physical(ParquetPhysicalType::Int32)],
            field("x", DataType::Int32, true),
            vec![],
            num_rows,
            chunk_size,
            vec![num_values],
            false,
        )
        .unwrap()
        .into_iter()
        .map(|(_, array)| array.i32().unwrap().values.clone())
        .collect::<Vec<Vec<i32>>>()
    };
    assert_eq!(decode(5, None, 5), vec![vec![1, 2, 3, 4, 5]]);
    assert_eq!(decode(3, None, 5), vec![vec![1, 2, 3]]);
    assert_eq!(decode(5, None, 2), vec![vec![1, 2]]);
    assert_eq!(decode(9, Some(2), 5), vec![vec![1, 2], vec![3, 4], vec![5]]);
    assert_eq!(decode(3, Some(2), 5), vec![vec![1, 2], vec![3]]);
    assert_eq!(decode(0, None, 5), vec![Vec::<i32>::new()]);
    assert_eq!(decode(0, Some(4), 5), Vec::<Vec<i32>>::new());
    assert_eq!(decode(5, Some(1), 0), Vec::<Vec<i32>>::new());
}

#[test]
fn the_nesting_context_is_left_as_it_was_given() {
    let item = field("item", DataType::Int32, true);
    let data_type = DataType::List(Box::new(item));
    // decoded as the only field of a nullable struct: the struct level is the caller's
    let column = pages(&[(0, 4), (1, 4), (0, 0), (0, 2)], PageValues::Int32(vec![1, 2]));
    let chunks = columns_to_iter_recursive(
        vec![column],
        vec![physical(ParquetPhysicalType::Int32)],
        field("l", data_type, true),
        vec![InitNested::Struct(true)],
        3,
        None,
        vec![4],
        true,
    )
    .unwrap();
    assert_eq!(chunks.len(), 1);
    let (nested, array) = &chunks[0];
    assert_eq!(
        nested.nested,
        vec![Nested {
            init: InitNested::Struct(true),
            length: 3,
            offsets: vec![],
            validity: vec![true, false, true],
        }]
    );
    match array {
        Array::List(list) => {
            assert_eq!(list.offsets, vec![0, 2, 2, 2]);
            assert_eq!(list.validity, Some(vec![true, false, true]));
        },
        other => panic!("not a list: {:?}", other),
    }
}

#[test]
fn struct_children_that_do_not_line_up_are_an_invalid_argument() {
    let fields = vec![field("a", DataType::Int32, false), field("b", DataType::Int32, false)];
    let a = pages(&[(0, 0), (0, 0)], PageValues::Int32(vec![1, 2]));
    let b = pages(&[(0, 0)], PageValues::Int32(vec![1]));
    let res = columns_to_iter_recursive(
        vec![a, b],
        vec![physical(ParquetPhysicalType::Int32), physical(ParquetPhysicalType::Int32)],
        field("s", DataType::Struct(fields), false),
        vec![],
        2,
        None,
        vec![2, 1],
        false,
    );
    assert_eq!(res, Err(Error::InvalidArgumentError(Invalid::StructChildren)));
    let res = columns_to_iter_recursive(
        vec![],
        vec![],
        field("s", DataType::Struct(vec![]), false),
        vec![],
        2,
        None,
        vec![],
        false,
    );
    assert_eq!(res, Err(Error::InvalidArgumentError(Invalid::StructChildren)));
}

#[test]
fn the_last_field_of_a_struct_fails_first() {
    let union = DataType::Union(vec![], UnionMode::Sparse);
    let fields = vec![field("a", DataType::Float16, false), field("b", union.clone(), false)];
    let a = pages(&[(0, 0)], PageValues::Int32(vec![1]));
    let res = columns_to_iter_recursive(
        vec![a],
        vec![physical(ParquetPhysicalType::Int32)],
        field("s", DataType::Struct(fields), false),
        vec![],
        1,
        None,
        vec![1],
        false,
    );
    assert_eq!(res, Err(Error::NotYetImplemented(Unsupported::Type(union))));
}

#[test]
fn the_schema_is_refused_before_any_column_is_read() {
    // the values of `b` are of another physical type than an 8-bit integer reads
    let fields = vec![field("a", DataType::Float16, false), field("b", DataType::Int8, false)];
    let a = pages(&[(0, 0)], PageValues::Int32(vec![1]));
    let b = pages(&[(0, 0)], PageValues::Int64(vec![1]));
    let res = columns_to_iter_recursive(
        vec![a, b],
        vec![physical(ParquetPhysicalType::Int32), physical(ParquetPhysicalType::Int64)],
        field("s", DataType::Struct(fields), false),
        vec![],
        1,
        None,
        vec![1, 1],
        false,
    );
    assert_eq!(res, Err(Error::NotYetImplemented(Unsupported::Type(DataType::Float16))));
    let item = field("item", DataType::Decimal(40, 0), true);
    let column = pages(&[(0, 0)], PageValues::Boolean(vec![]));
    let res = decode_one(
        column,
        ParquetPhysicalType::FixedLenByteArray(20),
        field("l", DataType::LargeList(Box::new(item)), true),
        1,
    );
    assert_eq!(res, Err(Error::InvalidArgumentError(Invalid::Decimal128Width(20))));
}

#[test]
fn fixed_size_lists_must_be_filled() {
    let item = field("item", DataType::Int32, false);
    let data_type = DataType::FixedSizeList(Box::new(item), 2);
    let column = pages(&[(0, 1), (1, 1), (0, 1), (1, 1)], PageValues::Int32(vec![1, 2, 3, 4]));
    let array = only(decode_one(
        column,
        ParquetPhysicalType::Int32,
        field("l", data_type.clone(), false),
        2,
    ));
    match array {
        Array::FixedSizeList(list) => {
            assert_eq!(list.size, 2);
            assert_eq!(list.len(), 2);
            assert_eq!(list.validity, None);
            assert_eq!(list.flat_child.i32().unwrap().values, vec![1, 2, 3, 4]);
        },
        other => panic!("not a fixed-size list: {:?}", other),
    }
    let column = pages(&[(0, 1), (1, 1), (0, 1)], PageValues::Int32(vec![1, 2, 3]));
    let res = decode_one(column, ParquetPhysicalType::Int32, field("l", data_type, false), 2);
    assert_eq!(res, Err(Error::InvalidArgumentError(Invalid::FixedSizeListItems)));
}

#[test]
fn map_is_a_list_of_entries() {
    let entries = field(
        "entries",
        DataType::Struct(vec![
            field("key", DataType::Int32, false),
            field("value", DataType::Utf8, true),
        ]),
        false,
    );
    let data_type = DataType::MapOf(Box::new(entries.clone()), false);
    // rows: {1: "a", 2: null}, null, {}
    let keys = pages(&[(0, 2), (1, 2), (0, 0), (0, 1)], PageValues::Int32(vec![1, 2]));
    let values = pages(
        &[(0, 3), (1, 2), (0, 0), (0, 1)],
        PageValues::ByteArray(vec![b"a".to_vec()]),
    );
    let chunks = columns_to_iter_recursive(
        vec![keys, values],
        vec![physical(ParquetPhysicalType::Int32), physical(ParquetPhysicalType::ByteArray)],
        field("m", data_type.clone(), true),
        vec![],
        3,
        None,
        vec![4, 4],
        false,
    );
    match only(chunks) {
        Array::MapOf(map) => {
            assert_eq!(map.data_type, data_type);
            assert_eq!(map.physical.data_type, DataType::List(Box::new(entries)));
            assert_eq!(map.physical.offsets, vec![0, 2, 2, 2]);
            assert_eq!(map.physical.validity, Some(vec![true, false, true]));
            match &*map.physical.flat_child {
                Array::Struct(s) => {
                    assert_eq!(s.validity, None);
                    assert_eq!(s.values[0].i32().unwrap().values, vec![1, 2]);
                    assert_eq!(
                        s.values[1],
                        Array::Binary(DataArray {
                            data_type: DataType::Utf8,
                            values: vec![b"a".to_vec(), vec![]],
                            validity: Some(vec![true, false]),
                        })
                    );
                },
                other => panic!("not a struct: {:?}", other),
            }
        },
        other => panic!("not a map: {:?}", other),
    }
}

fn dictionary_column(keys: Vec<u32>, valid: &[bool]) -> Pages {
    Pages {
        levels: levels(&flat(valid.len(), valid)),
        values: PageValues::ByteArray(vec![b"red".to_vec(), b"green".to_vec()]),
        keys: Some(keys),
    }
}

#[test]
fn dictionary_keys_point_into_the_dictionary() {
    let data_type = DataType::Dictionary(IntegerType::Int8, Box::new(DataType::Utf8), false);
    let column = dictionary_column(vec![1, 0, 1], &[true, false, true, true]);
    let array = only(decode_one(
        column,
        ParquetPhysicalType::ByteArray,
        field("d", data_type.clone(), true),
        4,
    ));
    match array {
        Array::Dictionary(d) => {
            assert_eq!(d.data_type, data_type);
            assert_eq!(
                *d.keys,
                Array::Int8(DataArray {
                    data_type: DataType::Int8,
                    values: vec![1, 0, 0, 1],
                    validity: Some(vec![true, false, true, true]),
                })
            );
            assert_eq!(
                *d.values,
                Array::Binary(DataArray {
                    data_type: DataType::Utf8,
                    values: vec![b"red".to_vec(), b"green".to_vec()],
                    validity: None,
                })
            );
            let keys = match &*d.keys {
                Array::Int8(keys) => keys,
                other => panic!("not keys: {:?}", other),
            };
            for i in 0..keys.len() {
                if let Some(key) = keys.get(i) {
                    assert!((*key as usize) < d.values.len());
                }
            }
        },
        other => panic!("not a dictionary: {:?}", other),
    }
}

#[test]
fn dictionary_keys_outside_the_dictionary_are_an_invalid_argument() {
    let data_type = DataType::Dictionary(IntegerType::UInt16, Box::new(DataType::Utf8), false);
    let res = decode_one(
        dictionary_column(vec![0, 2], &[true, true]),
        ParquetPhysicalType::ByteArray,
        field("d", data_type.clone(), true),
        2,
    );
    assert_eq!(res, Err(Error::InvalidArgumentError(Invalid::DictionaryKey)));
    // a key that the key type cannot hold
    let narrow = DataType::Dictionary(IntegerType::Int8, Box::new(DataType::Int32), false);
    let column = Pages {
        levels: levels(&flat(1, &[true])),
        values: PageValues::Int32((0..200).collect()),
        keys: Some(vec![128]),
    };
    let res = decode_one(column, ParquetPhysicalType::Int32, field("d", narrow, true), 1);
    assert_eq!(res, Err(Error::InvalidArgumentError(Invalid::DictionaryKey)));
    // a column without keys
    let column = pages(&flat(1, &[true]), PageValues::ByteArray(vec![b"a".to_vec()]));
    let res = decode_one(column, ParquetPhysicalType::ByteArray, field("d", data_type, true), 1);
    assert_eq!(res, Err(Error::InvalidArgumentError(Invalid::PhysicalValues)));
}

#[test]
fn dictionary_values_of_sixty_four_bits_keep_their_lower_half() {
    let data_type = DataType::Dictionary(IntegerType::UInt16, Box::new(DataType::Int64), false);
    let column = Pages {
        levels: levels(&flat(2, &[true, true])),
        values: PageValues::Int64(vec![(1 << 32) + 5, -1]),
        keys: Some(vec![1, 0]),
    };
    let res = dict_read::<UInt16Key>(
        column,
        vec![InitNested::Primitive(true)],
        &physical(ParquetPhysicalType::Int64),
        data_type,
        2,
        None,
    )
    .unwrap();
    assert_eq!(res.len(), 1);
    assert_eq!(res[0].0.nested.len(), 0);
    match &res[0].1 {
        Array::Dictionary(d) => {
            assert_eq!(
                *d.values,
                Array::Int64(DataArray {
                    data_type: DataType::Int64,
                    values: vec![5, -1],
                    validity: None,
                })
            );
            assert_eq!(
                *d.keys,
                Array::UInt16(DataArray {
                    data_type: DataType::UInt16,
                    values: vec![1, 0],
                    validity: None,
                })
            );
        },
        other => panic!("not a dictionary: {:?}", other),
    }
}

#[test]
fn dictionary_of_fixed_size_binary_and_of_an_unsupported_type() {
    let data_type =
        DataType::Dictionary(IntegerType::Int8, Box::new(DataType::FixedSizeBinary(2)), false);
    let column = Pages {
        levels: levels(&flat(1, &[true])),
        values: PageValues::FixedLenByteArray(vec![vec![1, 2], vec![3, 4]]),
        keys: Some(vec![1]),
    };
    let res = dict_read::<Int8Key>(
        column,
        vec![InitNested::Primitive(false)],
        &physical(ParquetPhysicalType::FixedLenByteArray(2)),
        data_type,
        1,
        None,
    )
    .unwrap();
    match &res[0].1 {
        Array::Dictionary(d) => match &*d.values {
            Array::FixedSizeBinary(values) => {
                assert_eq!(values.size, 2);
                assert_eq!(values.values, vec![vec![1, 2], vec![3, 4]]);
            },
            other => panic!("not byte strings: {:?}", other),
        },
        other => panic!("not a dictionary: {:?}", other),
    }
    let data_type = DataType::Dictionary(IntegerType::Int8, Box::new(DataType::UInt64), false);
    let column = Pages {
        levels: levels(&flat(1, &[true])),
        values: PageValues::Int64(vec![1]),
        keys: Some(vec![0]),
    };
    let res = decode_one(column, ParquetPhysicalType::Int64, field("d", data_type, true), 1);
    assert_eq!(res, Err(Error::NotYetImplemented(Unsupported::DictionaryOf(DataType::UInt64))));
}

#[test]
fn a_list_under_32_bit_offsets_cannot_hold_more_than_its_offsets_address() {
    let item = field("item", DataType::Null, true);
    let child = Array::Null(NullArray { data_type: DataType::Null, length: (i32::MAX as usize) + 1 });
    let level = Nested {
        init: InitNested::List(false),
        length: 1,
        offsets: vec![0],
        validity: vec![],
    };
    let mut nested = NestedState { nested: vec![level.clone()] };
    let res = create_list(DataType::List(Box::new(item.clone())), &mut nested, child.clone());
    assert_eq!(res, Err(Error::InvalidArgumentError(Invalid::ListOffsets)));
    assert_eq!(nested.nested.len(), 0);
    let mut nested = NestedState { nested: vec![level.clone()] };
    let res = create_list(DataType::LargeList(Box::new(item.clone())), &mut nested, child.clone());
    match res.unwrap() {
        Array::List(list) => assert_eq!(list.offsets, vec![0, (i32::MAX as usize) + 1]),
        other => panic!("not a list: {:?}", other),
    }
    let pair = vec![field("key", DataType::Null, true), field("value", DataType::Null, true)];
    let entries = Array::Struct(StructArray {
        data_type: DataType::Struct(pair.clone()),
        values: vec![child.clone(), child],
        validity: None,
    });
    let mut nested = NestedState { nested: vec![level] };
    let map_type = DataType::MapOf(Box::new(field("entries", DataType::Struct(pair), false)), false);
    let res = create_map(map_type, &mut nested, entries);
    assert_eq!(res, Err(Error::InvalidArgumentError(Invalid::ListOffsets)));
}

#[test]
fn the_entries_of_a_map_are_pairs() {
    let single = field(
        "entries",
        DataType::Struct(vec![field("key", DataType::Int32, false)]),
        false,
    );
    let column = pages(&[(0, 1)], PageValues::Int32(vec![1]));
    let res = decode_one(
        column,
        ParquetPhysicalType::Int32,
        field("m", DataType::MapOf(Box::new(single), false), false),
        1,
    );
    assert_eq!(res, Err(Error::InvalidArgumentError(Invalid::MapEntries)));
    let column = pages(&[(0, 1)], PageValues::Int32(vec![1]));
    let scalar = field("entries", DataType::Int32, false);
    let res = decode_one(
        column,
        ParquetPhysicalType::Int32,
        field("m", DataType::MapOf(Box::new(scalar), false), false),
        1,
    );
    assert_eq!(res, Err(Error::InvalidArgumentError(Invalid::MapEntries)));
    // what the entries cannot be decoded for goes first
    let column = pages(&[(0, 1)], PageValues::Int32(vec![1]));
    let unread = field("entries", DataType::Float16, false);
    let res = decode_one(
        column,
        ParquetPhysicalType::Int32,
        field("m", DataType::MapOf(Box::new(unread), false), false),
        1,
    );
    assert_eq!(res, Err(Error::NotYetImplemented(Unsupported::Type(DataType::Float16))));
}

#[test]
fn primitive_and_remove_nested_take_off_the_innermost_level() {
    let state = || NestedState {
        nested: vec![Nested::new(InitNested::List(true)), Nested::new(InitNested::Primitive(true))],
    };
    let array = DataArray { data_type: DataType::Int32, values: vec![1], validity: None };
    let res = primitive(vec![(state(), array)]);
    assert_eq!(res.len(), 1);
    assert_eq!(res[0].0.nested, vec![Nested::new(InitNested::List(true))]);
    assert_eq!(
        res[0].1,
        Array::Int32(DataArray { data_type: DataType::Int32, values: vec![1], validity: None })
    );
    let boxed = Array::Null(NullArray { data_type: DataType::Null, length: 1 });
    let res = remove_nested(vec![(state(), boxed.clone())]);
    assert_eq!(res[0].0.nested, vec![Nested::new(InitNested::List(true))]);
    assert_eq!(res[0].1, boxed);
}

#[test]
fn a_null_list_within_a_struct_is_empty() {
    let item = field("item", DataType::Int32, true);
    let list_type = DataType::List(Box::new(item));
    let fields = vec![field("l", list_type.clone(), true)];
    // {l: [1, 2]}, {l: null}, null, {l: []}
    let column = pages(&[(0, 4), (1, 4), (0, 1), (0, 0), (0, 2)], PageValues::Int32(vec![1, 2]));
    let array = only(decode_one(
        column,
        ParquetPhysicalType::Int32,
        field("s", DataType::Struct(fields), true),
        4,
    ));
    match array {
        Array::Struct(s) => {
            assert_eq!(s.validity, Some(vec![true, true, false, true]));
            match &s.values[0] {
                Array::List(list) => {
                    assert_eq!(list.offsets, vec![0, 2, 2, 2, 2]);
                    assert_eq!(list.validity, Some(vec![true, false, false, true]));
                    let bits = list.validity.as_ref().unwrap();
                    for j in 0..bits.len() {
                        if !bits[j] {
                            assert_eq!(list.offsets[j + 1], list.offsets[j]);
                        }
                    }
                    assert_eq!(
                        *list.flat_child,
                        Array::Int32(DataArray {
                            data_type: DataType::Int32,
                            values: vec![1, 2],
                            validity: None,
                        })
                    );
                },
                other => panic!("not a list: {:?}", other),
            }
        },
        other => panic!("not a struct: {:?}", other),
    }
}

#[test]
fn entries_that_carry_on_a_null_list_fill_it() {
    let item = field("item", DataType::Int32, true);
    let data_type = DataType::List(Box::new(item));
    let column = pages(&[(0, 0), (1, 3)], PageValues::Int32(vec![9]));
    let array = only(decode_one(
        column,
        ParquetPhysicalType::Int32,
        field("l", data_type, true),
        1,
    ));
    match array {
        Array::List(list) => {
            assert_eq!(list.offsets, vec![0, 1]);
            assert_eq!(list.validity, Some(vec![false]));
        },
        other => panic!("not a list: {:?}", other),
    }
}

#[test]
fn a_dictionary_column_has_one_key_for_each_row() {
    let data_type = DataType::Dictionary(IntegerType::Int8, Box::new(DataType::Utf8), false);
    let column = dictionary_column(vec![1, 0, 1], &[true, false, true, true]);
    let chunks = columns_to_iter_recursive(
        vec![column],
        vec![physical(ParquetPhysicalType::ByteArray)],
        field("d", data_type, true),
        vec![],
        4,
        Some(3),
        vec![4],
        false,
    )
    .unwrap();
    let lengths: Vec<usize> = chunks
        .iter()
        .map(|(nested, array)| {
            assert_eq!(nested.nested.len(), 0);
            match array {
                Array::Dictionary(d) => d.keys.len(),
                other => panic!("not a dictionary: {:?}", other),
            }
        })
        .collect();
    assert_eq!(lengths, vec![3, 1]);
}

#[test]
fn an_extension_type_over_booleans_gives_boolean_arrays() {
    let data_type = DataType::Extension("flag".to_string(), Box::new(DataType::Boolean), None);
    let column = pages(&flat(2, &[true, true]), PageValues::Boolean(vec![true, false]));
    let array = only(decode_one(
        column,
        ParquetPhysicalType::Boolean,
        field("x", data_type, true),
        2,
    ));
    assert_eq!(
        array,
        Array::Boolean(DataArray {
            data_type: DataType::Boolean,
            values: vec![true, false],
            validity: None,
        })
    );
}

#[test]
fn a_nested_field_decodes_to_the_arrays_of_its_leaf_columns() {
    // struct {a: list<int32>, b: int64}, rows: {a: [1, null], b: 7}, null, {a: null, b: null}
    let item = field("item", DataType::Int32, true);
    let fields = vec![
        field("a", DataType::List(Box::new(item)), true),
        field("b", DataType::Int64, true),
    ];
    let a = pages(&[(0, 4), (1, 3), (0, 0), (0, 1)], PageValues::Int32(vec![1]));
    let b = pages(&[(0, 2), (0, 0), (0, 1)], PageValues::Int64(vec![7]));
    let data_type = DataType::Struct(fields);
    let chunks = columns_to_iter_recursive(
        vec![a, b],
        vec![physical(ParquetPhysicalType::Int32), physical(ParquetPhysicalType::Int64)],
        field("s", data_type.clone(), true),
        vec![],
        3,
        None,
        vec![4, 3],
        false,
    );
    match only(chunks) {
        Array::Struct(s) => {
            assert_eq!(s.data_type, data_type);
            assert_eq!(s.len(), 3);
            assert_eq!(s.validity, Some(vec![true, false, true]));
            match &s.values[0] {
                Array::List(list) => {
                    assert_eq!(list.offsets, vec![0, 2, 2, 2]);
                    assert_eq!(list.validity, Some(vec![true, false, false]));
                    assert_eq!(
                        *list.flat_child,
                        Array::Int32(DataArray {
                            data_type: DataType::Int32,
                            values: vec![1, 0],
                            validity: Some(vec![true, false]),
                        })
                    );
                },
                other => panic!("not a list: {:?}", other),
            }
            assert_eq!(
                s.values[1],
                Array::Int64(DataArray {
                    data_type: DataType::Int64,
                    values: vec![7, 0, 0],
                    validity: Some(vec![true, false, false]),
                })
            );
        },
        other => panic!("not a struct: {:?}", other),
    }
}
