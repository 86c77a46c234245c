//! The decisions of a source that scans files: which columns are read from
//! a file, which rows of a file are deleted, and which scan tasks a display
//! lists.

use vstd::prelude::*;

verus! {

/// The texts of a list of names.
pub open spec fn names_view(names: Seq<String>) -> Seq<Seq<char>> {
    Seq::new(names.len(), |i: int| names[i]@)
}

/// The columns that are not among the partition columns, in their order.
pub open spec fn without(columns: Seq<Seq<char>>, partition: Seq<Seq<char>>) -> Seq<Seq<char>>
    decreases columns.len(),
{
    if columns.len() == 0 {
        Seq::empty()
    } else if partition.contains(columns.last()) {
        without(columns.drop_last(), partition)
    } else {
        without(columns.drop_last(), partition).push(columns.last())
    }
}

/// The columns to read from a file: all of them where no columns are pushed
/// down; else the columns pushed down, less those that the partition of the
/// file fills in.
pub open spec fn file_columns(
    pushdown: Option<Seq<Seq<char>>>,
    partition: Option<Seq<Seq<char>>>,
) -> Option<Seq<Seq<char>>> {
    match (pushdown, partition) {
        (None, _) => None,
        (Some(columns), None) => Some(columns),
        (Some(columns), Some(filled)) => Some(without(columns, filled)),
    }
}

/// The texts of an optional list of names.
pub open spec fn optional_names(names: Option<&Vec<String>>) -> Option<Seq<Seq<char>>> {
    match names {
        Some(n) => Some(names_view(n@)),
        None => None,
    }
}

/// Whether the name is among the names.
pub fn contains_name(names: &Vec<String>, name: &String) -> (res: bool)
    ensures
        res == names_view(names@).contains(name@),
{
    let mut i: usize = 0;
    while i < names.len()
        invariant
            i <= names.len(),
            forall|j: int| 0 <= j < i ==> names_view(names@)[j] != name@,
        decreases names.len() - i,
    {
        if names[i] == *name {
            assert(names_view(names@)[i as int] == name@);
            return true;
        }
        i += 1;
    }
    false
}

/// The names of the columns to read from a file.
pub fn file_column_names(
    pushdown_columns: Option<&Vec<String>>,
    partition_columns: Option<&Vec<String>>,
) -> (res: Option<Vec<String>>)
    ensures
        match res {
            Some(names) => file_columns(
                optional_names(pushdown_columns),
                optional_names(partition_columns),
            ) == Some(names_view(names@)),
            None => file_columns(
                optional_names(pushdown_columns),
                optional_names(partition_columns),
            ) is None,
        },
{
    let columns = match pushdown_columns {
        None => {
            return None;
        },
        Some(columns) => columns,
    };
    let mut res: Vec<String> = Vec::new();
    let mut i: usize = 0;
    let ghost all = names_view(columns@);
    let ghost filled = match partition_columns {
        Some(p) => names_view(p@),
        None => Seq::<Seq<char>>::empty(),
    };
    assert(all.subrange(0, 0) =~= Seq::<Seq<char>>::empty());
    while i < columns.len()
        invariant
            i <= columns.len(),
            all == names_view(columns@),
            filled == (match partition_columns {
                Some(p) => names_view(p@),
                None => Seq::<Seq<char>>::empty(),
            }),
            names_view(res@) == without(all.subrange(0, i as int), filled),
        decreases columns.len() - i,
    {
        let keep = match partition_columns {
            Some(p) => !contains_name(p, &columns[i]),
            None => true,
        };
        proof {
            assert(all.subrange(0, i + 1).drop_last() =~= all.subrange(0, i as int));
            assert(all.subrange(0, i + 1).last() == columns[i as int]@);
        }
        if keep {
            let ghost before = names_view(res@);
            res.push(columns[i].clone());
            assert(names_view(res@) =~= before.push(columns[i as int]@));
        }
        i += 1;
    }
    proof {
        assert(all.subrange(0, i as int) =~= all);
        if partition_columns is None {
            lemma_without_nothing(all);
        }
    }
    Some(res)
}

/// Why a scan task is not streamed.
#[derive(Clone, Copy, Debug, PartialEq, Eq, Structural)]
pub enum StreamError {
    /// The scan task has this many sources, and only one source is
    /// streamed.
    Sources(usize),
}

/// The names of the columns to read from the file of a scan task that is
/// streamed. Only a scan task of a single source is streamed.
pub fn stream_columns(
    pushdown_columns: Option<&Vec<String>>,
    partition_columns: Option<&Vec<String>>,
    num_sources: usize,
) -> (res: Result<Option<Vec<String>>, StreamError>)
    ensures
        match res {
            Ok(Some(names)) => num_sources == 1 && file_columns(
                optional_names(pushdown_columns),
                optional_names(partition_columns),
            ) == Some(names_view(names@)),
            Ok(None) => num_sources == 1 && file_columns(
                optional_names(pushdown_columns),
                optional_names(partition_columns),
            ) is None,
            Err(e) => num_sources != 1 && e == StreamError::Sources(num_sources),
        },
{
    let file_column_names = file_column_names(pushdown_columns, partition_columns);
    if num_sources != 1 {
        return Err(StreamError::Sources(num_sources));
    }
    Ok(file_column_names)
}

/// Without partition columns every column is read.
pub proof fn lemma_without_nothing(columns: Seq<Seq<char>>)
    ensures
        without(columns, Seq::empty()) == columns,
    decreases columns.len(),
{
    if columns.len() > 0 {
        lemma_without_nothing(columns.drop_last());
        assert(columns.drop_last().push(columns.last()) =~= columns);
    }
}

/// The positions of the rows of a delete file that name the path, in the
/// order of the rows.
pub open spec fn positions_of(path: Seq<char>, files: Seq<Seq<char>>, positions: Seq<i64>) -> Seq<
    i64,
>
    decreases files.len(),
{
    if files.len() == 0 {
        Seq::empty()
    } else if files.last() == path {
        positions_of(path, files.drop_last(), positions).push(positions[files.len() - 1])
    } else {
        positions_of(path, files.drop_last(), positions)
    }
}

/// The number of rows of a delete file: a row has a file and a position.
pub open spec fn delete_rows(files: Seq<Seq<char>>, positions: Seq<i64>) -> int {
    if files.len() <= positions.len() {
        files.len() as int
    } else {
        positions.len() as int
    }
}

/// For every path, the positions that the rows of a delete file delete in
/// the file of that path. Rows that name no path are left out.
pub fn delete_positions(paths: &Vec<String>, files: &Vec<String>, positions: &Vec<i64>) -> (res:
    Vec<Vec<i64>>)
    ensures
        res.len() == paths.len(),
        forall|p: int|
            0 <= p < paths.len() ==> (#[trigger] res[p])@ == positions_of(
                paths[p]@,
                names_view(files@).subrange(0, delete_rows(names_view(files@), positions@)),
                positions@,
            ),
{
    let rows: usize = if files.len() <= positions.len() {
        files.len()
    } else {
        positions.len()
    };
    let ghost named = names_view(files@).subrange(0, rows as int);
    let mut res: Vec<Vec<i64>> = Vec::new();
    let mut p: usize = 0;
    while p < paths.len()
        invariant
            p <= paths.len(),
            res.len() == p,
            rows == delete_rows(names_view(files@), positions@),
            named == names_view(files@).subrange(0, rows as int),
            forall|q: int|
                0 <= q < p ==> (#[trigger] res[q])@ == positions_of(paths[q]@, named, positions@),
        decreases paths.len() - p,
    {
        let mut found: Vec<i64> = Vec::new();
        let mut r: usize = 0;
        assert(named.subrange(0, 0) =~= Seq::<Seq<char>>::empty());
        while r < rows
            invariant
                r <= rows,
                p < paths.len(),
                rows <= files.len(),
                rows <= positions.len(),
                named == names_view(files@).subrange(0, rows as int),
                found@ == positions_of(paths[p as int]@, named.subrange(0, r as int), positions@),
            decreases rows - r,
        {
            proof {
                assert(named.subrange(0, r + 1).drop_last() =~= named.subrange(0, r as int));
                assert(named.subrange(0, r + 1).last() == files[r as int]@);
            }
            if files[r] == paths[p] {
                found.push(positions[r]);
            }
            r += 1;
        }
        assert(named.subrange(0, r as int) =~= named);
        res.push(found);
        p += 1;
    }
    res
}

/// The positions that the rows of one table of a delete file delete in the
/// file of the path.
pub open spec fn table_positions(path: Seq<char>, table: (Vec<String>, Vec<i64>)) -> Seq<i64> {
    positions_of(
        path,
        names_view(table.0@).subrange(0, delete_rows(names_view(table.0@), table.1@)),
        table.1@,
    )
}

/// The positions that the rows of the tables delete in the file of the
/// path, table after table.
pub open spec fn deleted_positions(path: Seq<char>, tables: Seq<(Vec<String>, Vec<i64>)>) -> Seq<
    i64,
>
    decreases tables.len(),
{
    if tables.len() == 0 {
        Seq::empty()
    } else {
        deleted_positions(path, tables.drop_last()) + table_positions(path, tables.last())
    }
}

/// For every path, the positions that the tables read from the delete files
/// delete in the file of that path; nothing at all where there are no
/// delete files.
pub fn delete_map(
    paths: &Vec<String>,
    delete_files: &Vec<String>,
    tables: &Vec<(Vec<String>, Vec<i64>)>,
) -> (res: Option<Vec<Vec<i64>>>)
    ensures
        match res {
            None => delete_files.len() == 0,
            Some(found) => {
                &&& delete_files.len() > 0
                &&& found.len() == paths.len()
                &&& forall|p: int|
                    0 <= p < paths.len() ==> (#[trigger] found[p])@ == deleted_positions(
                        paths[p]@,
                        tables@,
                    )
            },
        },
{
    if delete_files.len() == 0 {
        return None;
    }
    let mut found: Vec<Vec<i64>> = Vec::new();
    let mut p: usize = 0;
    assert(tables@.subrange(0, 0) =~= Seq::<(Vec<String>, Vec<i64>)>::empty());
    while p < paths.len()
        invariant
            p <= paths.len(),
            found.len() == p,
            forall|q: int|
                0 <= q < p ==> (#[trigger] found[q])@ == deleted_positions(
                    paths[q]@,
                    tables@.subrange(0, 0),
                ),
        decreases paths.len() - p,
    {
        found.push(Vec::new());
        p += 1;
    }
    let mut t: usize = 0;
    while t < tables.len()
        invariant
            t <= tables.len(),
            found.len() == paths.len(),
            forall|q: int|
                0 <= q < paths.len() ==> (#[trigger] found[q])@ == deleted_positions(
                    paths[q]@,
                    tables@.subrange(0, t as int),
                ),
        decreases tables.len() - t,
    {
        let deleted = delete_positions(paths, &tables[t].0, &tables[t].1);
        let ghost before = found@;
        proof {
            assert(tables@.subrange(0, t + 1).drop_last() =~= tables@.subrange(0, t as int));
            assert(tables@.subrange(0, t + 1).last() == tables[t as int]);
        }
        let mut q: usize = 0;
        while q < paths.len()
            invariant
                q <= paths.len(),
                t < tables.len(),
                found.len() == paths.len(),
                deleted.len() == paths.len(),
                before.len() == paths.len(),
                forall|r: int|
                    0 <= r < paths.len() ==> (#[trigger] deleted[r])@ == table_positions(
                        paths[r]@,
                        tables[t as int],
                    ),
                forall|r: int|
                    0 <= r < paths.len() ==> (#[trigger] before[r])@ == deleted_positions(
                        paths[r]@,
                        tables@.subrange(0, t as int),
                    ),
                forall|r: int| 0 <= r < q ==> (#[trigger] found[r])@ == before[r]@ + deleted[r]@,
                forall|r: int| q <= r < paths.len() ==> (#[trigger] found[r])@ == before[r]@,
            decreases paths.len() - q,
        {
            let mut k: usize = 0;
            while k < deleted[q as usize].len()
                invariant
                    q < paths.len(),
                    found.len() == paths.len(),
                    deleted.len() == paths.len(),
                    before.len() == paths.len(),
                    k <= deleted[q as int].len(),
                    found[q as int]@ == before[q as int]@ + deleted[q as int]@.subrange(0, k as int),
                    forall|r: int|
                        0 <= r < q ==> (#[trigger] found[r])@ == before[r]@ + deleted[r]@,
                    forall|r: int| q < r < paths.len() ==> (#[trigger] found[r])@ == before[r]@,
                decreases deleted[q as int].len() - k,
            {
                let position = deleted[q][k];
                found[q].push(position);
                k += 1;
                assert(found[q as int]@ =~= before[q as int]@ + deleted[q as int]@.subrange(
                    0,
                    k as int,
                ));
            }
            assert(deleted[q as int]@.subrange(0, k as int) =~= deleted[q as int]@);
            q += 1;
        }
        t += 1;
    }
    assert(tables@.subrange(0, t as int) =~= tables@);
    Some(found)
}

/// What the default display shows for a scan task.
#[derive(Clone, Copy, Debug, PartialEq, Eq, Structural)]
pub enum TaskLine {
    /// The scan task itself.
    Shown,
    /// An ellipsis, for all the scan tasks that are left out.
    Ellipsis,
    /// Nothing.
    Hidden,
}

/// What the default display shows for scan task `i` of `len`: the first
/// three and the last three scan tasks are listed, with one ellipsis between
/// them.
pub fn task_line(i: usize, len: usize) -> (res: TaskLine)
    requires
        i < len,
    ensures
        res == (if i < 3 || i >= len - 3 {
            TaskLine::Shown
        } else if i == 3 {
            TaskLine::Ellipsis
        } else {
            TaskLine::Hidden
        }),
{
    if i < 3 || i >= len - 3 {
        TaskLine::Shown
    } else if i == 3 {
        TaskLine::Ellipsis
    } else {
        TaskLine::Hidden
    }
}

} // verus!
