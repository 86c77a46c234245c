use columnar_decode::array::{
    Array, DataArray, FixedSizeBinaryArray, FixedSizeListArray, ListArray, MapArray, NullArray,
    StructArray,
};
use columnar_decode::datatypes::{DataType, Field};
use columnar_decode::ops::get::{EmbeddingType, ExtensionArray, LogicalArrayImpl, Scalar};
use std::marker::PhantomData;

fn int32(values: Vec<i32>) -> Array {
    Array::Int32(DataArray { data_type: DataType::Int32, values, validity: None })
}

fn item() -> Box<Field> {
    Box::new(Field::new("item".to_string(), DataType::Int32, true))
}

fn fixed_of_three(validity: Option<Vec<bool>>) -> FixedSizeListArray {
    let field = Field::new("foo".to_string(), DataType::FixedSizeList(item(), 3), true);
    let flat_child = int32((0..9).collect::<Vec<i32>>());
    FixedSizeListArray::new(field, flat_child, validity)
}

fn data_of(element: &Array) -> Vec<Option<i32>> {
    let values = element.i32().unwrap();
    (0..values.len()).map(|i| values.get(i).copied()).collect::<Vec<Option<i32>>>()
}

#[test]
fn test_fixed_size_list_get_all_valid() {
    let arr = fixed_of_three(None);
    assert_eq!(arr.len(), 3);

    for i in 0..3 {
        let element = arr.get(i);
        assert!(element.is_some());

        let element = element.unwrap();
        assert_eq!(element.len(), 3);
        assert_eq!(element.data_type(), &DataType::Int32);

        let data = data_of(&element);
        let expected = ((i * 3) as i32..((i + 1) * 3) as i32).map(Some).collect::<Vec<Option<i32>>>();
        assert_eq!(data, expected);
    }
}

#[test]
fn test_fixed_size_list_get_some_valid() {
    let arr = fixed_of_three(Some(vec![true, false, true]));
    assert_eq!(arr.len(), 3);

    let element = arr.get(0);
    assert!(element.is_some());
    let element = element.unwrap();
    assert_eq!(element.len(), 3);
    assert_eq!(element.data_type(), &DataType::Int32);
    let data = data_of(&element);
    let expected = vec![Some(0), Some(1), Some(2)];
    assert_eq!(data, expected);

    let element = arr.get(1);
    assert!(element.is_none());

    let element = arr.get(2);
    assert!(element.is_some());
    let element = element.unwrap();
    assert_eq!(element.len(), 3);
    assert_eq!(element.data_type(), &DataType::Int32);
    let data = data_of(&element);
    let expected = vec![Some(6), Some(7), Some(8)];
    assert_eq!(data, expected);
}

#[test]
fn test_list_get_some_valid() {
    let arr = fixed_of_three(Some(vec![true, false, true]));
    let list_dtype = DataType::List(item());
    let list_arr = arr.cast(&list_dtype).unwrap();
    let l = list_arr.list().unwrap();
    let element = l.get(0).unwrap();
    let data = data_of(&element);
    let expected = vec![Some(0), Some(1), Some(2)];
    assert_eq!(data, expected);
    let element = l.get(2).unwrap();
    let data = data_of(&element);
    let expected = vec![Some(6), Some(7), Some(8)];
    assert_eq!(data, expected);
}

#[test]
fn list_cast_keeps_rows_and_validity() {
    let arr = fixed_of_three(Some(vec![true, false, true]));
    let list_arr = arr.cast(&DataType::List(item())).unwrap();
    let l = list_arr.list().unwrap();
    assert_eq!(l.offsets, vec![0, 3, 6, 9]);
    assert_eq!(l.validity, Some(vec![true, false, true]));
    assert_eq!(l.len(), 3);
    assert!(l.get(1).is_none());
    assert!(arr.cast(&DataType::Int32).unwrap_err().is_not_yet_implemented());
}

#[test]
fn list_get_follows_offsets() {
    let field = Field::new("l".to_string(), DataType::List(item()), true);
    let list = ListArray::new(
        field,
        int32(vec![10, 11, 12, 13]),
        vec![0, 1, 1, 4],
        Some(vec![true, true, false]),
    );
    assert_eq!(list.len(), 3);
    assert_eq!(data_of(&list.get(0).unwrap()), vec![Some(10)]);
    assert_eq!(data_of(&list.get(1).unwrap()), Vec::<Option<i32>>::new());
    assert!(list.get(2).is_none());
}

#[test]
fn data_array_get_reads_validity_first() {
    let values = DataArray {
        data_type: DataType::Int32,
        values: vec![4, 5, 6],
        validity: Some(vec![true, false, true]),
    };
    assert_eq!(values.get(0).copied(), Some(4));
    assert_eq!(values.get(1).copied(), None);
    assert_eq!(values.get(2).copied(), Some(6));
    let text = DataArray {
        data_type: DataType::Utf8,
        values: vec![b"ab".to_vec(), b"".to_vec()],
        validity: None,
    };
    assert_eq!(text.get(0), Some(&b"ab".to_vec()));
    assert_eq!(text.get(1), Some(&Vec::new()));
}

#[test]
fn null_array_get_is_none() {
    let nulls = NullArray { data_type: DataType::Null, length: 2 };
    assert_eq!(nulls.len(), 2);
    assert_eq!(nulls.get(0), None);
    assert_eq!(nulls.get(1), None);
}

#[test]
fn logical_array_get_reads_the_physical_list() {
    let logical: LogicalArrayImpl<EmbeddingType, FixedSizeListArray> = LogicalArrayImpl {
        field: Field::new("e".to_string(), DataType::FixedSizeList(item(), 3), true),
        physical: fixed_of_three(Some(vec![false, true, true])),
        marker: PhantomData,
    };
    assert!(logical.get(0).is_none());
    assert_eq!(data_of(&logical.get(1).unwrap()), vec![Some(3), Some(4), Some(5)]);
}

#[test]
fn map_array_get_gives_the_entries_of_the_row() {
    let entries = Field::new("entries".to_string(), DataType::Int32, false);
    let data_type = DataType::MapOf(Box::new(entries), false);
    let physical = ListArray::new(
        Field::new("m".to_string(), DataType::List(item()), true),
        int32(vec![1, 2, 3]),
        vec![0, 2, 3],
        None,
    );
    let map = MapArray { data_type, physical };
    assert_eq!(map.len(), 2);
    assert_eq!(data_of(&map.get(0).unwrap()), vec![Some(1), Some(2)]);
    assert_eq!(data_of(&map.get(1).unwrap()), vec![Some(3)]);
}

#[test]
fn extension_array_get_gives_a_scalar_of_one_element() {
    let inner = Array::Int32(DataArray {
        data_type: DataType::Int32,
        values: vec![7, 8, 9],
        validity: Some(vec![true, false, true]),
    });
    let data_type = DataType::Extension("ext".to_string(), Box::new(DataType::Int32), None);
    let array = ExtensionArray {
        field: Field::new("x".to_string(), data_type, true),
        data: Box::new(inner),
    };
    assert_eq!(array.len(), 3);
    let expected = Scalar {
        value: Array::Int32(DataArray {
            data_type: DataType::Int32,
            values: vec![9],
            validity: Some(vec![true]),
        }),
    };
    assert_eq!(array.get(2), Some(expected));
    assert_eq!(array.get(1), None);
}

#[test]
fn slice_of_a_struct_slices_every_child() {
    let fields = vec![
        Field::new("a".to_string(), DataType::Int32, true),
        Field::new("l".to_string(), DataType::List(item()), true),
    ];
    let list = ListArray::new(
        Field::new("l".to_string(), DataType::List(item()), true),
        int32(vec![1, 2, 3]),
        vec![0, 1, 1, 3],
        None,
    );
    let array = Array::Struct(StructArray {
        data_type: DataType::Struct(fields),
        values: vec![int32(vec![5, 6, 7]), Array::List(list)],
        validity: Some(vec![true, true, false]),
    });
    let part = array.slice(1, 3);
    assert_eq!(part.len(), 2);
    match part {
        Array::Struct(s) => {
            assert_eq!(s.validity, Some(vec![true, false]));
            assert_eq!(data_of(&s.values[0]), vec![Some(6), Some(7)]);
            assert_eq!(s.values[1].list().unwrap().offsets, vec![1, 1, 3]);
        },
        other => panic!("not a struct: {:?}", other),
    }
    assert_eq!(array.clone(), array);
}

#[test]
fn extension_array_over_storage_without_a_bitmap_gives_every_scalar() {
    let data_type = DataType::Extension("ext".to_string(), Box::new(DataType::Null), None);
    let array = ExtensionArray {
        field: Field::new("x".to_string(), data_type, true),
        data: Box::new(Array::Null(NullArray { data_type: DataType::Null, length: 3 })),
    };
    let expected =
        Scalar { value: Array::Null(NullArray { data_type: DataType::Null, length: 1 }) };
    assert_eq!(array.get(0), Some(expected));
    assert!(array.get(2).is_some());
    let array = ExtensionArray {
        field: Field::new("x".to_string(), DataType::Int32, true),
        data: Box::new(int32(vec![1, 2])),
    };
    assert_eq!(array.get(1), Some(Scalar { value: int32(vec![2]) }));
}

#[test]
fn fixed_size_binary_get_reads_validity_first() {
    let array = FixedSizeBinaryArray {
        data_type: DataType::FixedSizeBinary(2),
        size: 2,
        values: vec![vec![1, 2], vec![0, 0], vec![5, 6]],
        validity: Some(vec![true, false, true]),
    };
    assert_eq!(array.len(), 3);
    assert_eq!(array.get(0), Some(&vec![1, 2]));
    assert_eq!(array.get(1), None);
    assert_eq!(array.get(2), Some(&vec![5, 6]));
    let array = FixedSizeBinaryArray {
        data_type: DataType::FixedSizeBinary(1),
        size: 1,
        values: vec![vec![9]],
        validity: None,
    };
    assert_eq!(array.get(0), Some(&vec![9]));
}

#[test]
fn the_validity_of_an_array_is_its_own_bitmap() {
    assert_eq!(Array::Null(NullArray { data_type: DataType::Null, length: 2 }).validity(), None);
    assert_eq!(int32(vec![1]).validity(), None);
    let bits = vec![false, true];
    let array = Array::Int32(DataArray {
        data_type: DataType::Int32,
        values: vec![1, 2],
        validity: Some(bits.clone()),
    });
    assert_eq!(array.validity(), Some(&bits));
    assert!(!array.is_valid(0));
    assert!(array.is_valid(1));
}
