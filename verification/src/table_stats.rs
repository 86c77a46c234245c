//! The names of the columns of the statistics of a table: where a column
//! stands, and which columns the statistics of two tables have together.

use crate::scan_task::{names_view, without};
use vstd::prelude::*;

verus! {

/// The names in the order of their first occurrence, each once.
pub open spec fn distinct_in_order(names: Seq<Seq<char>>) -> Seq<Seq<char>>
    decreases names.len(),
{
    if names.len() == 0 {
        Seq::empty()
    } else if distinct_in_order(names.drop_last()).contains(names.last()) {
        distinct_in_order(names.drop_last())
    } else {
        distinct_in_order(names.drop_last()).push(names.last())
    }
}

/// The place of the column of the given name: the first among the names
/// that is the name, or none where no column has it.
pub fn column_position(names: &Vec<String>, name: &String) -> (res: Option<usize>)
    ensures
        match res {
            Some(i) => i < names.len() && names[i as int]@ == name@ && forall|j: int|
                0 <= j < i ==> (#[trigger] names[j])@ != name@,
            None => !names_view(names@).contains(name@),
        },
{
    let mut i: usize = 0;
    while i < names.len()
        invariant
            i <= names.len(),
            forall|j: int| 0 <= j < i ==> (#[trigger] names[j])@ != name@,
        decreases names.len() - i,
    {
        if names[i] == *name {
            return Some(i);
        }
        i += 1;
    }
    assert forall|j: int| 0 <= j < names_view(names@).len() implies names_view(names@)[j]
        != name@ by {
        assert(names[j]@ != name@);
    }
    None
}

/// Adds the names that are not yet among the collected ones, in their
/// order.
fn collect_names(collected: &mut Vec<String>, names: &Vec<String>, Ghost(before): Ghost<
    Seq<Seq<char>>,
>)
    requires
        names_view(old(collected)@) == distinct_in_order(before),
    ensures
        names_view(final(collected)@) == distinct_in_order(before + names_view(names@)),
{
    let ghost added = names_view(names@);
    let mut i: usize = 0;
    assert(before + added.subrange(0, 0) =~= before);
    while i < names.len()
        invariant
            i <= names.len(),
            added == names_view(names@),
            names_view(collected@) == distinct_in_order(before + added.subrange(0, i as int)),
        decreases names.len() - i,
    {
        proof {
            let next = before + added.subrange(0, i + 1);
            assert(next.drop_last() =~= before + added.subrange(0, i as int));
            assert(next.last() == names[i as int]@);
        }
        match column_position(collected, &names[i]) {
            Some(at) => {
                assert(names_view(collected@)[at as int] == names[i as int]@);
            },
            None => {
                let ghost held = names_view(collected@);
                collected.push(names[i].clone());
                assert(names_view(collected@) =~= held.push(names[i as int]@));
            },
        }
        i += 1;
    }
    assert(added.subrange(0, i as int) =~= added);
}

/// The names of the columns that the statistics of two tables have
/// together: those of the first table, then those of the second, each name
/// once, where it first occurs.
pub fn union_names(left: &Vec<String>, right: &Vec<String>) -> (res: Vec<String>)
    ensures
        names_view(res@) == distinct_in_order(names_view(left@) + names_view(right@)),
{
    let mut res: Vec<String> = Vec::new();
    assert(names_view(res@) =~= distinct_in_order(Seq::empty()));
    assert(Seq::<Seq<char>>::empty() + names_view(left@) =~= names_view(left@));
    collect_names(&mut res, left, Ghost(Seq::empty()));
    collect_names(&mut res, right, Ghost(names_view(left@)));
    res
}

/// Whether no name occurs twice.
pub open spec fn no_name_twice(names: Seq<Seq<char>>) -> bool {
    forall|i: int, j: int| 0 <= i < j < names.len() ==> names[i] != names[j]
}

/// Names of which none occurs twice are their own names in the order of
/// their first occurrence.
pub proof fn lemma_distinct_in_order(names: Seq<Seq<char>>)
    requires
        no_name_twice(names),
    ensures
        distinct_in_order(names) == names,
    decreases names.len(),
{
    if names.len() > 0 {
        lemma_distinct_in_order(names.drop_last());
        assert(names.drop_last().push(names.last()) =~= names);
        if names.drop_last().contains(names.last()) {
            let i = choose|i: int|
                0 <= i < names.drop_last().len() && names.drop_last()[i] == names.last();
            assert(names[i] == names[names.len() - 1]);
        }
    }
}


/// What is left of names without others is among the names.
proof fn lemma_without_within(names: Seq<Seq<char>>, others: Seq<Seq<char>>, name: Seq<char>)
    requires
        without(names, others).contains(name),
    ensures
        names.contains(name),
        !others.contains(name),
    decreases names.len(),
{
    if names.len() > 0 {
        let rest = without(names.drop_last(), others);
        if others.contains(names.last()) {
            lemma_without_within(names.drop_last(), others, name);
            let i = choose|i: int| 0 <= i < names.drop_last().len() && names.drop_last()[i] == name;
            assert(names[i] == name);
        } else {
            let i = choose|i: int| 0 <= i < rest.push(names.last()).len() && rest.push(
                names.last(),
            )[i] == name;
            if i < rest.len() {
                assert(rest[i] == name);
                lemma_without_within(names.drop_last(), others, name);
                let j = choose|j: int|
                    0 <= j < names.drop_last().len() && names.drop_last()[j] == name;
                assert(names[j] == name);
            } else {
                assert(names[names.len() - 1] == name);
            }
        }
    }
}

/// Where neither table has a column twice, the columns that two tables
/// have together are those of the first table, followed by those of the
/// second that the first has not.
pub proof fn lemma_union_names(left: Seq<Seq<char>>, right: Seq<Seq<char>>)
    requires
        no_name_twice(left),
        no_name_twice(right),
    ensures
        distinct_in_order(left + right) == left + without(right, left),
    decreases right.len(),
{
    if right.len() == 0 {
        assert(left + right =~= left);
        assert(left + without(right, left) =~= left);
        lemma_distinct_in_order(left);
    } else {
        let front = right.drop_last();
        let name = right.last();
        lemma_union_names(left, front);
        assert((left + right).drop_last() =~= left + front);
        assert((left + right).last() == name);
        let kept = without(front, left);
        if (left + kept).contains(name) {
            let i = choose|i: int| 0 <= i < (left + kept).len() && (left + kept)[i] == name;
            if i < left.len() {
                assert(left[i] == name);
            } else {
                assert(kept[i - left.len()] == name);
                lemma_without_within(front, left, name);
                let j = choose|j: int| 0 <= j < front.len() && front[j] == name;
                assert(right[j] == right[right.len() - 1]);
            }
        } else {
            if left.contains(name) {
                let i = choose|i: int| 0 <= i < left.len() && left[i] == name;
                assert((left + kept)[i] == name);
            }
            assert((left + kept).push(name) =~= left + kept.push(name));
        }
    }
}

} // verus!
