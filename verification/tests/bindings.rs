use columnar_decode::collect::CollectNode;
use columnar_decode::python::{
    column_index, non_negative, series_rows, slice_bounds, IndexError, SliceError,
};
use columnar_decode::scan_task::{
    delete_map, delete_positions, file_column_names, stream_columns, task_line, StreamError,
    TaskLine,
};
use columnar_decode::table_stats::{column_position, union_names};

fn names(values: &[&str]) -> Vec<String> {
    values.iter().map(|v| v.to_string()).collect()
}

#[test]
fn counts_from_the_host_language_may_not_be_negative() {
    assert_eq!(non_negative(-1), None);
    assert_eq!(non_negative(0), Some(0));
    assert_eq!(non_negative(25), Some(25));
    assert_eq!(non_negative(i64::MIN), None);
}

#[test]
fn slice_bounds_are_checked_in_order() {
    assert_eq!(slice_bounds(2, 5), Ok((2, 5)));
    assert_eq!(slice_bounds(3, 3), Ok((3, 3)));
    assert_eq!(slice_bounds(-1, -1), Err(SliceError::NegativeStart(-1)));
    assert_eq!(slice_bounds(4, -2), Err(SliceError::NegativeEnd(4)));
    assert_eq!(slice_bounds(5, 2), Err(SliceError::NegativeLength(5, 2)));
}

#[test]
fn column_indices_lie_below_the_length() {
    assert_eq!(column_index(0, 1), Ok(0));
    assert_eq!(column_index(-3, 1), Err(IndexError::Negative(-3)));
    assert_eq!(column_index(1, 1), Err(IndexError::OutOfBounds(1, 1)));
    assert_eq!(column_index(0, 0), Err(IndexError::OutOfBounds(0, 0)));
}

#[test]
fn series_of_a_record_batch_have_one_length() {
    assert_eq!(series_rows(&vec![]), Ok(0));
    assert_eq!(series_rows(&vec![4]), Ok(4));
    assert_eq!(series_rows(&vec![4, 4, 4]), Ok(4));
    assert_eq!(series_rows(&vec![4, 4, 3, 5]), Err((3, 4)));
    assert_eq!(series_rows(&vec![0, 2]), Err((2, 0)));
}

#[test]
fn partition_columns_are_not_read_from_the_file() {
    let pushdown = names(&["a", "year", "b", "month"]);
    let partition = names(&["month", "year"]);
    assert_eq!(file_column_names(None, Some(&partition)), None);
    assert_eq!(file_column_names(None, None), None);
    assert_eq!(file_column_names(Some(&pushdown), None), Some(pushdown.clone()));
    assert_eq!(file_column_names(Some(&pushdown), Some(&partition)), Some(names(&["a", "b"])));
    assert_eq!(file_column_names(Some(&partition), Some(&partition)), Some(vec![]));
}

#[test]
fn delete_positions_are_gathered_by_path() {
    let paths = names(&["s3://b/1.parquet", "s3://b/2.parquet", "s3://b/3.parquet"]);
    let files = names(&[
        "s3://b/2.parquet",
        "s3://b/1.parquet",
        "s3://b/9.parquet",
        "s3://b/2.parquet",
    ]);
    let positions = vec![7, 3, 1, 5];
    assert_eq!(delete_positions(&paths, &files, &positions), vec![vec![3], vec![7, 5], vec![]]);
    // a row is a file and a position: what is left over of either is not a row
    assert_eq!(delete_positions(&paths, &files, &vec![7]), vec![vec![], vec![7], vec![]]);
    assert_eq!(delete_positions(&vec![], &files, &positions), Vec::<Vec<i64>>::new());
}

#[test]
fn the_default_display_lists_the_first_and_last_three_scan_tasks() {
    let lines = |len: usize| (0..len).map(|i| task_line(i, len)).collect::<Vec<TaskLine>>();
    assert_eq!(lines(1), vec![TaskLine::Shown]);
    assert_eq!(lines(6), vec![TaskLine::Shown; 6]);
    assert_eq!(
        lines(7),
        vec![
            TaskLine::Shown,
            TaskLine::Shown,
            TaskLine::Shown,
            TaskLine::Ellipsis,
            TaskLine::Shown,
            TaskLine::Shown,
            TaskLine::Shown,
        ]
    );
    let nine = lines(9);
    assert_eq!(nine[3], TaskLine::Ellipsis);
    assert_eq!(nine[4], TaskLine::Hidden);
    assert_eq!(nine[5], TaskLine::Hidden);
    assert_eq!(nine[6], TaskLine::Shown);
}

#[test]
fn a_collect_node_with_children_has_one_plan_and_no_partitions() {
    assert!(CollectNode::<u8, u8, u8>::accepts(&vec![1], &vec![2], &vec![]));
    assert!(CollectNode::<u8, u8, u8>::accepts(&vec![1, 2], &vec![], &vec![("a".to_string(), vec![3])]));
    assert!(!CollectNode::<u8, u8, u8>::accepts(&vec![], &vec![], &vec![]));
    assert!(!CollectNode::<u8, u8, u8>::accepts(&vec![1, 2], &vec![2], &vec![]));
    assert!(!CollectNode::<u8, u8, u8>::accepts(&vec![1], &vec![2], &vec![("a".to_string(), vec![])]));
    // an input has its partitions once
    let twice = vec![("a".to_string(), vec![1]), ("b".to_string(), vec![]), ("a".to_string(), vec![2])];
    assert!(!CollectNode::<u8, u8, u8>::accepts(&vec![1], &vec![], &twice));
    let once = vec![("a".to_string(), vec![1]), ("b".to_string(), vec![])];
    assert!(CollectNode::<u8, u8, u8>::accepts(&vec![1], &vec![], &once));
    let node = CollectNode::<u8, u8, u8>::new(vec![1], vec![2], vec![]);
    assert_eq!(node.local_physical_plans, vec![1]);
    assert_eq!(node.children, vec![2]);
    assert!(node.input_psets.is_empty());
}

#[test]
fn only_a_single_source_is_streamed() {
    let pushdown = names(&["a", "year"]);
    let partition = names(&["year"]);
    assert_eq!(stream_columns(Some(&pushdown), Some(&partition), 1), Ok(Some(names(&["a"]))));
    assert_eq!(stream_columns(None, Some(&partition), 1), Ok(None));
    assert_eq!(
        stream_columns(Some(&pushdown), Some(&partition), 2),
        Err(StreamError::Sources(2))
    );
    assert_eq!(stream_columns(None, None, 0), Err(StreamError::Sources(0)));
}

#[test]
fn without_delete_files_there_is_no_delete_map() {
    let paths = names(&["1.parquet", "2.parquet"]);
    let tables = vec![
        (names(&["2.parquet", "1.parquet", "9.parquet"]), vec![7, 3, 1]),
        (names(&["2.parquet", "2.parquet"]), vec![5, 8, 11]),
    ];
    assert_eq!(delete_map(&paths, &vec![], &tables), None);
    assert_eq!(
        delete_map(&paths, &names(&["d.parquet"]), &tables),
        Some(vec![vec![3], vec![7, 5, 8]])
    );
    assert_eq!(
        delete_map(&paths, &names(&["d.parquet"]), &vec![]),
        Some(vec![vec![], vec![]])
    );
}

#[test]
fn a_column_stands_where_its_name_first_occurs() {
    let columns = names(&["a", "b", "a"]);
    assert_eq!(column_position(&columns, &"a".to_string()), Some(0));
    assert_eq!(column_position(&columns, &"b".to_string()), Some(1));
    assert_eq!(column_position(&columns, &"c".to_string()), None);
    assert_eq!(column_position(&vec![], &"a".to_string()), None);
}

#[test]
fn two_tables_have_the_columns_of_the_first_and_then_of_the_second() {
    assert_eq!(
        union_names(&names(&["b", "a"]), &names(&["c", "a", "d"])),
        names(&["b", "a", "c", "d"])
    );
    assert_eq!(union_names(&vec![], &names(&["x"])), names(&["x"]));
    assert_eq!(union_names(&names(&["x"]), &vec![]), names(&["x"]));
    assert_eq!(union_names(&names(&["x", "x"]), &names(&["y", "y"])), names(&["x", "y"]));
}
