use columnar_decode::array::Array;
use columnar_decode::datatypes::{DataType, Field};
use columnar_decode::deserialize::nested::columns_to_iter_recursive;
use columnar_decode::page::{Level, PageValues, Pages, ParquetPhysicalType, ParquetType};

/// A row, or a part of one.
#[derive(Clone, Debug, PartialEq)]
enum Value {
    Null,
    Int(i64),
    Text(Vec<u8>),
    List(Vec<Value>),
    Struct(Vec<Value>),
}

fn leaf_count(data_type: &DataType) -> usize {
    match data_type {
        DataType::List(inner) | DataType::LargeList(inner) => leaf_count(&inner.data_type),
        DataType::Struct(fields) => fields.iter().map(|f| leaf_count(&f.data_type)).sum(),
        _ => 1,
    }
}

/// Writes the entry `(rep, def)`, without a value, to every leaf under the type.
fn shred_absent(data_type: &DataType, rep: u32, def: u32, first: usize, out: &mut Vec<Pages>) {
    for leaf in first..first + leaf_count(data_type) {
        out[leaf].levels.push(Level { rep, def });
    }
}

/// Writes a value of the field to the leaves of the field, which start at `first`:
/// `rep` is the repetition level of the first entry, `def` the definition level above
/// the field, `depth` the number of lists above it.
fn shred(
    value: &Value,
    field: &Field,
    rep: u32,
    def: u32,
    depth: u32,
    first: usize,
    out: &mut Vec<Pages>,
) {
    if *value == Value::Null {
        assert!(field.is_nullable);
        shred_absent(&field.data_type, rep, def, first, out);
        return;
    }
    let def = def + if field.is_nullable { 1 } else { 0 };
    match (&field.data_type, value) {
        (DataType::Int64, Value::Int(v)) => {
            out[first].levels.push(Level { rep, def });
            match &mut out[first].values {
                PageValues::Int64(values) => values.push(*v),
                other => panic!("not integers: {:?}", other),
            }
        },
        (DataType::Utf8, Value::Text(v)) => {
            out[first].levels.push(Level { rep, def });
            match &mut out[first].values {
                PageValues::ByteArray(values) => values.push(v.clone()),
                other => panic!("not text: {:?}", other),
            }
        },
        (DataType::List(inner), Value::List(items)) | (DataType::LargeList(inner), Value::List(items)) => {
            if items.is_empty() {
                shred_absent(&field.data_type, rep, def, first, out);
            }
            for (i, item) in items.iter().enumerate() {
                let rep = if i == 0 { rep } else { depth + 1 };
                shred(item, inner, rep, def + 1, depth + 1, first, out);
            }
        },
        (DataType::Struct(fields), Value::Struct(values)) => {
            let mut leaf = first;
            for (f, v) in fields.iter().zip(values.iter()) {
                shred(v, f, rep, def, depth, leaf, out);
                leaf += leaf_count(&f.data_type);
            }
        },
        (data_type, value) => panic!("{:?} is not of type {:?}", value, data_type),
    }
}

fn empty_columns(data_type: &DataType, out: &mut Vec<Pages>, types: &mut Vec<ParquetType>) {
    match data_type {
        DataType::List(inner) | DataType::LargeList(inner) => {
            empty_columns(&inner.data_type, out, types)
        },
        DataType::Struct(fields) => {
            for f in fields {
                empty_columns(&f.data_type, out, types);
            }
        },
        DataType::Utf8 => {
            out.push(Pages { levels: vec![], values: PageValues::ByteArray(vec![]), keys: None });
            types.push(ParquetType { physical_type: ParquetPhysicalType::ByteArray });
        },
        _ => {
            out.push(Pages { levels: vec![], values: PageValues::Int64(vec![]), keys: None });
            types.push(ParquetType { physical_type: ParquetPhysicalType::Int64 });
        },
    }
}

fn is_valid(validity: &Option<Vec<bool>>, i: usize) -> bool {
    match validity {
        Some(bits) => bits[i],
        None => true,
    }
}

/// Reads the rows back out of a decoded array.
fn rows_of(array: &Array) -> Vec<Value> {
    match array {
        Array::Int64(values) => (0..values.len())
            .map(|i| match values.get(i) {
                Some(v) => Value::Int(*v),
                None => Value::Null,
            })
            .collect(),
        Array::Binary(values) => (0..values.len())
            .map(|i| match values.get(i) {
                Some(v) => Value::Text(v.clone()),
                None => Value::Null,
            })
            .collect(),
        Array::List(list) => {
            let items = rows_of(&list.flat_child);
            (0..list.len())
                .map(|i| {
                    if is_valid(&list.validity, i) {
                        Value::List(items[list.offsets[i]..list.offsets[i + 1]].to_vec())
                    } else {
                        assert_eq!(list.offsets[i], list.offsets[i + 1]);
                        Value::Null
                    }
                })
                .collect()
        },
        Array::Struct(s) => {
            let fields: Vec<Vec<Value>> = s.values.iter().map(rows_of).collect();
            (0..s.len())
                .map(|i| {
                    if is_valid(&s.validity, i) {
                        Value::Struct(fields.iter().map(|f| f[i].clone()).collect())
                    } else {
                        Value::Null
                    }
                })
                .collect()
        },
        other => panic!("no rows of {:?}", other),
    }
}

fn round_trip(field: Field, rows: Vec<Value>, chunk_size: Option<usize>) {
    let mut columns = vec![];
    let mut types = vec![];
    empty_columns(&field.data_type, &mut columns, &mut types);
    for row in &rows {
        shred(row, &field, 0, 0, 0, 0, &mut columns);
    }
    let num_values = columns.iter().map(|c| c.levels.len()).collect::<Vec<usize>>();
    let chunks = columns_to_iter_recursive(
        columns,
        types,
        field,
        vec![],
        rows.len(),
        chunk_size,
        num_values,
        false,
    )
    .unwrap();
    let expected_chunks = match chunk_size {
        None => 1,
        Some(n) => (rows.len() + n - 1) / n,
    };
    assert_eq!(chunks.len(), expected_chunks);
    let mut decoded = vec![];
    for (nested, array) in &chunks {
        assert_eq!(nested.nested.len(), 0);
        if let Some(n) = chunk_size {
            assert!(array.len() <= n);
        }
        decoded.extend(rows_of(array));
    }
    assert_eq!(decoded, rows);
}

fn integer(name: &str, nullable: bool) -> Field {
    Field::new(name.to_string(), DataType::Int64, nullable)
}

fn text(name: &str, nullable: bool) -> Field {
    Field::new(name.to_string(), DataType::Utf8, nullable)
}

fn list(name: &str, item: Field, nullable: bool) -> Field {
    Field::new(name.to_string(), DataType::List(Box::new(item)), nullable)
}

fn structure(name: &str, fields: Vec<Field>, nullable: bool) -> Field {
    Field::new(name.to_string(), DataType::Struct(fields), nullable)
}

fn integers(values: &[i64]) -> Value {
    Value::List(values.iter().map(|v| Value::Int(*v)).collect())
}

#[test]
fn round_trip_of_flat_columns() {
    let rows = vec![Value::Int(1), Value::Null, Value::Int(-3), Value::Null];
    round_trip(integer("x", true), rows.clone(), None);
    round_trip(integer("x", true), rows, Some(3));
    round_trip(integer("x", false), vec![Value::Int(4), Value::Int(5)], None);
    round_trip(text("t", true), vec![Value::Text(b"a".to_vec()), Value::Null], Some(1));
    round_trip(integer("x", true), vec![], None);
}

#[test]
fn round_trip_of_lists() {
    let rows = vec![integers(&[1, 2]), Value::Null, integers(&[]), integers(&[3]), Value::List(vec![Value::Null])];
    round_trip(list("l", integer("item", true), true), rows.clone(), None);
    round_trip(list("l", integer("item", true), true), rows.clone(), Some(2));
    round_trip(list("l", integer("item", true), true), rows, Some(1));
    let rows = vec![integers(&[]), integers(&[7, 8, 9]), integers(&[])];
    round_trip(list("l", integer("item", false), false), rows, Some(2));
}

#[test]
fn round_trip_of_lists_of_lists() {
    let field = list("l", list("inner", integer("item", true), true), true);
    let rows = vec![
        Value::List(vec![integers(&[1]), Value::Null, integers(&[]), integers(&[2, 3])]),
        Value::Null,
        Value::List(vec![]),
        Value::List(vec![Value::List(vec![Value::Null, Value::Int(4)])]),
    ];
    round_trip(field.clone(), rows.clone(), None);
    round_trip(field, rows, Some(3));
    let field = list("l", list("inner", integer("item", false), false), false);
    let rows = vec![
        Value::List(vec![integers(&[1]), integers(&[]), integers(&[2, 3])]),
        Value::List(vec![]),
        Value::List(vec![integers(&[])]),
    ];
    round_trip(field, rows, Some(2));
}

#[test]
fn round_trip_of_structs() {
    let field = structure("s", vec![integer("a", true), text("b", true)], true);
    let rows = vec![
        Value::Struct(vec![Value::Int(5), Value::Text(b"x".to_vec())]),
        Value::Null,
        Value::Struct(vec![Value::Null, Value::Text(b"y".to_vec())]),
        Value::Struct(vec![Value::Int(7), Value::Null]),
    ];
    round_trip(field.clone(), rows.clone(), None);
    round_trip(field, rows, Some(3));
    let field = structure("s", vec![integer("a", false), structure("t", vec![integer("b", true)], false)], false);
    let rows = vec![
        Value::Struct(vec![Value::Int(1), Value::Struct(vec![Value::Null])]),
        Value::Struct(vec![Value::Int(2), Value::Struct(vec![Value::Int(3)])]),
    ];
    round_trip(field, rows, None);
}

#[test]
fn round_trip_of_lists_of_structs_of_lists() {
    let inner = structure("e", vec![integer("a", true), list("b", text("item", true), true)], true);
    let field = list("l", inner, true);
    let entry = |a: Value, b: Value| Value::Struct(vec![a, b]);
    let texts = |values: &[&str]| {
        Value::List(values.iter().map(|v| Value::Text(v.as_bytes().to_vec())).collect())
    };
    let rows = vec![
        Value::List(vec![
            entry(Value::Int(1), texts(&["a", "b"])),
            Value::Null,
            entry(Value::Null, Value::Null),
            entry(Value::Int(2), texts(&[])),
        ]),
        Value::Null,
        Value::List(vec![]),
        Value::List(vec![entry(Value::Int(3), Value::List(vec![Value::Null]))]),
        Value::List(vec![entry(Value::Null, texts(&["c"])), entry(Value::Int(4), texts(&["d", "e", "f"]))]),
    ];
    round_trip(field.clone(), rows.clone(), None);
    round_trip(field.clone(), rows.clone(), Some(2));
    round_trip(field, rows, Some(1));
}

#[test]
fn round_trip_of_structs_of_lists_with_required_levels() {
    let field = structure(
        "s",
        vec![list("a", integer("item", false), false), list("b", integer("item", true), true), integer("c", false)],
        true,
    );
    let row = |a: Value, b: Value, c: i64| Value::Struct(vec![a, b, Value::Int(c)]);
    let rows = vec![
        row(integers(&[1, 2]), Value::Null, 10),
        Value::Null,
        row(integers(&[]), integers(&[3]), 11),
        row(integers(&[4]), Value::List(vec![Value::Null, Value::Int(5)]), 12),
    ];
    round_trip(field.clone(), rows.clone(), None);
    round_trip(field, rows, Some(3));
}
