//! The nesting context of a leaf column and the state that is built from
//! its definition and repetition levels: for every level of nesting, how
//! many entries reach it, which of them are valid, and where lists start.

use crate::array::{bits_view, non_decreasing, DataArray, DataArrayView, NativeType};
use crate::datatypes::{DataType, DataTypeView};
use crate::error::{Error, ErrorView, Invalid};
use crate::page::{Level, Pages, PagesView};
use vstd::prelude::*;

verus! {

/// One level of nesting on the way from the root of the schema to a leaf,
/// with whether the level is nullable.
#[derive(Clone, Copy, Debug, PartialEq, Eq, Structural)]
pub enum InitNested {
    Primitive(bool),
    List(bool),
    Struct(bool),
}

impl InitNested {
    /// Whether the level can be null.
    pub open spec fn nullable(self) -> bool {
        match self {
            InitNested::Primitive(b) => b,
            InitNested::List(b) => b,
            InitNested::Struct(b) => b,
        }
    }

    /// Whether the level holds any number of items per entry.
    pub open spec fn repeated(self) -> bool {
        self is List
    }

    /// Whether the level needs an item in its child for each of its own
    /// entries, valid or not.
    pub open spec fn required(self) -> bool {
        self is Struct
    }

    /// Whether the level keeps a validity bitmap of its own.
    pub open spec fn tracks_validity(self) -> bool {
        self.nullable() && !(self is Primitive)
    }

    pub fn is_nullable(&self) -> (res: bool)
        ensures
            res == self.nullable(),
    {
        match self {
            InitNested::Primitive(b) => *b,
            InitNested::List(b) => *b,
            InitNested::Struct(b) => *b,
        }
    }

    pub fn is_repeated(&self) -> (res: bool)
        ensures
            res == self.repeated(),
    {
        match self {
            InitNested::List(_) => true,
            _ => false,
        }
    }

    pub fn is_required(&self) -> (res: bool)
        ensures
            res == self.required(),
    {
        match self {
            InitNested::Struct(_) => true,
            _ => false,
        }
    }

    pub fn is_primitive(&self) -> (res: bool)
        ensures
            res == (*self is Primitive),
    {
        match self {
            InitNested::Primitive(_) => true,
            _ => false,
        }
    }
}

/// The number of repeated levels above depth `d`: the highest repetition
/// level at which an entry still opens an item at that depth.
pub open spec fn cum_rep(init: Seq<InitNested>, d: int) -> nat
    decreases d,
{
    if d <= 0 {
        0
    } else {
        cum_rep(init, d - 1) + if init[d - 1].repeated() {
            1nat
        } else {
            0nat
        }
    }
}

/// The definition level that an entry needs to be defined down to depth
/// `d`: one for each nullable, and one for each repeated, level above.
pub open spec fn cum_def(init: Seq<InitNested>, d: int) -> nat
    decreases d,
{
    if d <= 0 {
        0
    } else {
        cum_def(init, d - 1) + if init[d - 1].nullable() {
            1nat
        } else {
            0nat
        } + if init[d - 1].repeated() {
            1nat
        } else {
            0nat
        }
    }
}

/// The entry opens an item at depth `d` by its own levels.
pub open spec fn right_level(init: Seq<InitNested>, e: Level, d: int) -> bool {
    e.rep <= cum_rep(init, d) && e.def >= cum_def(init, d)
}

/// The item that the entry opens at depth `d` is not null.
pub open spec fn is_valid(init: Seq<InitNested>, e: Level, d: int) -> bool {
    init[d].nullable() && e.def > cum_def(init, d)
}

/// The entry adds an item at depth `d`: by its own levels, or because the
/// level above needs an item for an entry that is null there.
pub open spec fn reaches(init: Seq<InitNested>, e: Level, d: int) -> bool
    decreases d,
{
    &&& 0 <= d < init.len()
    &&& (right_level(init, e, d) || (d > 0 && reaches(init, e, d - 1) && init[d - 1].required()
        && !is_valid(init, e, d - 1)))
}

/// The number of items that the entries add at depth `d`.
pub open spec fn level_len(init: Seq<InitNested>, es: Seq<Level>, d: int) -> nat
    decreases es.len(),
{
    if es.len() == 0 {
        0
    } else {
        level_len(init, es.drop_last(), d) + if reaches(init, es.last(), d) {
            1nat
        } else {
            0nat
        }
    }
}

/// For the items that the entries add at depth `d`, in order, whether each
/// is valid.
pub open spec fn level_validity(init: Seq<InitNested>, es: Seq<Level>, d: int) -> Seq<bool>
    decreases es.len(),
{
    if es.len() == 0 {
        Seq::empty()
    } else if reaches(init, es.last(), d) {
        level_validity(init, es.drop_last(), d).push(is_valid(init, es.last(), d))
    } else {
        level_validity(init, es.drop_last(), d)
    }
}

/// The number of items below depth `d` that the entries have added: those
/// of the next level, or one where `d` is the last level.
pub open spec fn child_count(init: Seq<InitNested>, es: Seq<Level>, d: int) -> nat {
    if d + 1 < init.len() {
        level_len(init, es, d + 1)
    } else {
        1
    }
}

/// For the items that the entries add at depth `d`, in order, the number of
/// items below that the entries before it had added: where the item starts
/// in its child.
pub open spec fn level_offsets(init: Seq<InitNested>, es: Seq<Level>, d: int) -> Seq<usize>
    decreases es.len(),
{
    if es.len() == 0 {
        Seq::empty()
    } else if reaches(init, es.last(), d) {
        level_offsets(init, es.drop_last(), d).push(child_count(init, es.drop_last(), d) as usize)
    } else {
        level_offsets(init, es.drop_last(), d)
    }
}

/// The entry holds a value: it opens the last level by its own levels and
/// is not null there.
pub open spec fn leaf_present(init: Seq<InitNested>, e: Level) -> bool {
    let d = init.len() - 1;
    &&& init.len() > 0
    &&& right_level(init, e, d)
    &&& (e.def != cum_def(init, d) || !init[d].nullable())
}

/// For the items that the entries add at the last level, in order, whether
/// each holds a value.
pub open spec fn leaf_slots(init: Seq<InitNested>, es: Seq<Level>) -> Seq<bool>
    decreases es.len(),
{
    if es.len() == 0 {
        Seq::empty()
    } else if reaches(init, es.last(), init.len() - 1) {
        leaf_slots(init, es.drop_last()).push(leaf_present(init, es.last()))
    } else {
        leaf_slots(init, es.drop_last())
    }
}

/// The number of entries that hold a value.
pub open spec fn present_count(init: Seq<InitNested>, es: Seq<Level>) -> nat
    decreases es.len(),
{
    if es.len() == 0 {
        0
    } else {
        present_count(init, es.drop_last()) + if leaf_present(init, es.last()) {
            1nat
        } else {
            0nat
        }
    }
}

/// The state of one level of nesting.
#[derive(Debug, PartialEq, Eq)]
pub struct Nested {
    pub init: InitNested,
    /// The number of items.
    pub length: usize,
    /// For a list level, where each item starts in its child.
    pub offsets: Vec<usize>,
    /// For a nullable list or struct level, whether each item is valid.
    pub validity: Vec<bool>,
}

/// The mathematical value of a [`Nested`].
pub struct NestedView {
    pub init: InitNested,
    pub length: nat,
    pub offsets: Seq<usize>,
    pub validity: Seq<bool>,
}

impl View for Nested {
    type V = NestedView;

    open spec fn view(&self) -> NestedView {
        NestedView {
            init: self.init,
            length: self.length as nat,
            offsets: self.offsets@,
            validity: self.validity@,
        }
    }
}

/// The state of every level of nesting of one chunk, from the root down.
#[derive(Debug, PartialEq, Eq)]
pub struct NestedState {
    pub nested: Vec<Nested>,
}

impl View for NestedState {
    type V = Seq<NestedView>;

    open spec fn view(&self) -> Seq<NestedView> {
        Seq::new(self.nested.len() as nat, |i: int| self.nested[i]@)
    }
}

/// The state of depth `d` after the entries.
pub open spec fn level_state(init: Seq<InitNested>, es: Seq<Level>, d: int) -> NestedView {
    NestedView {
        init: init[d],
        length: level_len(init, es, d),
        offsets: if init[d].repeated() {
            level_offsets(init, es, d)
        } else {
            Seq::empty()
        },
        validity: if init[d].tracks_validity() {
            level_validity(init, es, d)
        } else {
            Seq::empty()
        },
    }
}

/// The state of every level after the entries.
pub open spec fn state_of(init: Seq<InitNested>, es: Seq<Level>) -> Seq<NestedView> {
    Seq::new(init.len(), |d: int| level_state(init, es, d))
}

pub proof fn lemma_level_len_bound(init: Seq<InitNested>, es: Seq<Level>, d: int)
    ensures
        level_len(init, es, d) <= es.len(),
        level_validity(init, es, d).len() == level_len(init, es, d),
        level_offsets(init, es, d).len() == level_len(init, es, d),
        leaf_slots(init, es).len() == level_len(init, es, init.len() - 1),
        present_count(init, es) <= es.len(),
    decreases es.len(),
{
    if es.len() > 0 {
        lemma_level_len_bound(init, es.drop_last(), d);
    }
}

/// An entry that reaches a depth has a repetition level that fits it, and
/// adds an item below every struct level that it reaches.
pub proof fn lemma_reaches(init: Seq<InitNested>, e: Level, d: int)
    requires
        reaches(init, e, d),
    ensures
        e.rep <= cum_rep(init, d),
        init[d].required() && d + 1 < init.len() ==> reaches(init, e, d + 1),
    decreases d,
{
    if !right_level(init, e, d) {
        lemma_reaches(init, e, d - 1);
    }
    if d > 0 && reaches(init, e, d - 1) {
        lemma_reaches(init, e, d - 1);
    }
}

/// A struct level has as many items as the level below it.
pub proof fn lemma_struct_level_len(init: Seq<InitNested>, es: Seq<Level>, d: int)
    requires
        0 <= d,
        d + 1 < init.len(),
        init[d].required(),
    ensures
        level_len(init, es, d) == level_len(init, es, d + 1),
    decreases es.len(),
{
    if es.len() > 0 {
        lemma_struct_level_len(init, es.drop_last(), d);
        let e = es.last();
        if reaches(init, e, d) {
            lemma_reaches(init, e, d);
        }
    }
}

/// The outermost level of a state has one item for every row: an entry
/// opens an item there exactly where it starts a row.
pub proof fn lemma_rows(init: Seq<InitNested>, es: Seq<Level>)
    requires
        init.len() > 0,
    ensures
        level_len(init, es, 0) == count_rows(es, 0, es.len() as int),
    decreases es.len(),
{
    if es.len() > 0 {
        lemma_rows(init, es.drop_last());
        lemma_count_rows_prefix(es, es.len() - 1);
        assert(cum_rep(init, 0) == 0 && cum_def(init, 0) == 0);
    }
}

/// The rows that start among the first entries do not depend on the
/// entries that follow.
pub proof fn lemma_count_rows_prefix(es: Seq<Level>, n: int)
    requires
        0 <= n <= es.len(),
    ensures
        count_rows(es.subrange(0, n), 0, n) == count_rows(es, 0, n),
    decreases n,
{
    if n > 0 {
        lemma_count_rows_prefix(es, n - 1);
        lemma_count_rows_same(es.subrange(0, n), es.subrange(0, n - 1), n - 1);
    }
}

proof fn lemma_count_rows_same(a: Seq<Level>, b: Seq<Level>, n: int)
    requires
        0 <= n <= a.len(),
        n <= b.len(),
        forall|i: int| 0 <= i < n ==> a[i] == b[i],
    ensures
        count_rows(a, 0, n) == count_rows(b, 0, n),
    decreases n,
{
    if n > 0 {
        lemma_count_rows_same(a, b, n - 1);
    }
}

/// A null or empty list holds nothing: an entry that is not defined beyond
/// a list level adds no item below that level, so the next offset of the
/// level is that of the entry.
pub proof fn lemma_null_list_is_empty(init: Seq<InitNested>, es: Seq<Level>, e: Level, d: int)
    requires
        0 <= d,
        d + 1 < init.len(),
        init[d] is List,
        e.def < cum_def(init, d + 1),
    ensures
        !reaches(init, e, d + 1),
        level_len(init, es.push(e), d + 1) == level_len(init, es, d + 1),
{
    assert(es.push(e).drop_last() =~= es);
}

/// The entry opens a null item at the nullable level `d`.
pub open spec fn row_null(init: Seq<InitNested>, e: Level, d: int) -> bool {
    init[d].nullable() && e.def <= cum_def(init, d)
}

/// Whether the last item that the entries add at depth `d` is null.
pub open spec fn last_row_null(init: Seq<InitNested>, es: Seq<Level>, d: int) -> bool
    decreases es.len(),
{
    if es.len() == 0 {
        false
    } else if reaches(init, es.last(), d) {
        row_null(init, es.last(), d)
    } else {
        last_row_null(init, es.drop_last(), d)
    }
}

/// Whether the entries keep to the nesting at the list level `d`: no entry
/// adds an item below the level to a list that is null. An entry that
/// carries a list on, without opening an item at the level itself, follows
/// an item that is not null.
pub open spec fn nests_at(init: Seq<InitNested>, es: Seq<Level>, d: int) -> bool {
    forall|i: int|
        0 <= i < es.len() && reaches(init, #[trigger] es[i], d + 1) && !reaches(init, es[i], d)
            ==> !last_row_null(init, es.subrange(0, i), d)
}

/// Where item `j` of the list level `d` ends in the level below: where the
/// next item starts, or, for the last item, at the number of items below.
pub open spec fn item_end(init: Seq<InitNested>, es: Seq<Level>, d: int, j: int) -> usize {
    if j + 1 < level_offsets(init, es, d).len() {
        level_offsets(init, es, d)[j + 1]
    } else {
        level_len(init, es, d + 1) as usize
    }
}

/// A null list is empty: where the entries keep to the nesting at a list
/// level, every item of the level that is null ends where it starts.
pub proof fn lemma_null_rows_are_empty(init: Seq<InitNested>, es: Seq<Level>, d: int)
    requires
        0 <= d,
        d + 1 < init.len(),
        init[d] is List,
        es.len() <= usize::MAX,
        nests_at(init, es, d),
    ensures
        forall|j: int|
            0 <= j < level_len(init, es, d) && init[d].nullable() && !(#[trigger] level_validity(
                init,
                es,
                d,
            )[j]) ==> item_end(init, es, d, j) == level_offsets(init, es, d)[j],
        init[d].nullable() ==> last_row_null(init, es, d) == (level_len(init, es, d) > 0
            && !level_validity(init, es, d).last()),
    decreases es.len(),
{
    lemma_level_len_bound(init, es, d);
    lemma_level_len_bound(init, es, d + 1);
    if es.len() > 0 {
        let prev = es.drop_last();
        let e = es.last();
        assert(nests_at(init, prev, d)) by {
            assert forall|i: int|
                0 <= i < prev.len() && reaches(init, #[trigger] prev[i], d + 1) && !reaches(
                    init,
                    prev[i],
                    d,
                ) implies !last_row_null(init, prev.subrange(0, i), d) by {
                assert(prev[i] == es[i]);
                assert(prev.subrange(0, i) =~= es.subrange(0, i));
            }
        }
        lemma_null_rows_are_empty(init, prev, d);
        lemma_level_len_bound(init, prev, d);
        lemma_level_len_bound(init, prev, d + 1);
        assert(cum_def(init, d + 1) > cum_def(init, d));
        if reaches(init, e, d) {
            if row_null(init, e, d) {
                lemma_null_list_is_empty(init, prev, e, d);
                assert(prev.push(e) =~= es);
            }
            assert forall|j: int|
                0 <= j < level_len(init, es, d) && init[d].nullable() && !(
                #[trigger] level_validity(init, es, d)[j]) implies item_end(init, es, d, j)
                == level_offsets(init, es, d)[j] by {
                if j < level_len(init, prev, d) {
                    assert(level_validity(init, es, d)[j] == level_validity(init, prev, d)[j]);
                    assert(item_end(init, prev, d, j) == level_offsets(init, prev, d)[j]);
                }
            }
        } else {
            if reaches(init, e, d + 1) {
                assert(es.subrange(0, es.len() - 1) =~= prev);
                assert(!last_row_null(init, prev, d));
            }
            assert forall|j: int|
                0 <= j < level_len(init, es, d) && init[d].nullable() && !(
                #[trigger] level_validity(init, es, d)[j]) implies item_end(init, es, d, j)
                == level_offsets(init, es, d)[j] by {
                assert(level_validity(init, es, d)[j] == level_validity(init, prev, d)[j]);
                assert(item_end(init, prev, d, j) == level_offsets(init, prev, d)[j]);
            }
        }
    }
}

/// Entries that keep to the nesting at a list level do so in every run of
/// them.
pub proof fn lemma_nests_within(init: Seq<InitNested>, es: Seq<Level>, d: int, from: int, to: int)
    requires
        0 <= from <= to <= es.len(),
        nests_at(init, es, d),
    ensures
        nests_at(init, es.subrange(from, to), d),
{
    let part = es.subrange(from, to);
    assert forall|i: int|
        0 <= i < part.len() && reaches(init, #[trigger] part[i], d + 1) && !reaches(
            init,
            part[i],
            d,
        ) implies !last_row_null(init, part.subrange(0, i), d) by {
        assert(part[i] == es[from + i]);
        assert(part.subrange(0, i) =~= es.subrange(from, from + i));
        if last_row_null(init, es.subrange(from, from + i), d) {
            lemma_last_row_null_within(init, es, d, from, from + i);
        }
    }
}

proof fn lemma_last_row_null_within(
    init: Seq<InitNested>,
    es: Seq<Level>,
    d: int,
    from: int,
    to: int,
)
    requires
        0 <= from <= to <= es.len(),
        last_row_null(init, es.subrange(from, to), d),
    ensures
        last_row_null(init, es.subrange(0, to), d),
    decreases to - from,
{
    if from < to {
        assert(es.subrange(from, to).last() == es[to - 1]);
        assert(es.subrange(0, to).last() == es[to - 1]);
        assert(es.subrange(from, to).drop_last() =~= es.subrange(from, to - 1));
        assert(es.subrange(0, to).drop_last() =~= es.subrange(0, to - 1));
        if !reaches(init, es[to - 1], d) {
            lemma_last_row_null_within(init, es, d, from, to - 1);
        }
    }
}

/// The offsets of a level never decrease and stay within the number of
/// items of the level below.
pub proof fn lemma_level_offsets(init: Seq<InitNested>, es: Seq<Level>, d: int)
    requires
        0 <= d,
        d + 1 < init.len(),
        es.len() <= usize::MAX,
    ensures
        forall|i: int, j: int|
            0 <= i <= j < level_offsets(init, es, d).len() ==> level_offsets(init, es, d)[i]
                <= level_offsets(init, es, d)[j],
        forall|i: int|
            0 <= i < level_offsets(init, es, d).len() ==> #[trigger] level_offsets(init, es, d)[i]
                <= level_len(init, es, d + 1),
    decreases es.len(),
{
    if es.len() > 0 {
        let prev = es.drop_last();
        lemma_level_offsets(init, prev, d);
        lemma_level_len_bound(init, prev, d + 1);
        lemma_level_len_bound(init, prev, d);
    }
}

impl Clone for Nested {
    fn clone(&self) -> (res: Self)
        ensures
            res@ == self@,
    {
        let offsets = crate::array::copy_offsets(&self.offsets, 0, self.offsets.len());
        assert(self.offsets@.subrange(0, self.offsets.len() as int) =~= self.offsets@);
        Nested {
            init: self.init,
            length: self.length,
            offsets,
            validity: crate::array::copy_bits(&self.validity),
        }
    }
}

impl Clone for NestedState {
    fn clone(&self) -> (res: Self)
        ensures
            res@ == self@,
    {
        let mut nested: Vec<Nested> = Vec::new();
        let mut i: usize = 0;
        while i < self.nested.len()
            invariant
                i <= self.nested.len(),
                nested.len() == i,
                forall|j: int| 0 <= j < i ==> (#[trigger] nested[j])@ == self.nested[j]@,
            decreases self.nested.len() - i,
        {
            nested.push(self.nested[i].clone());
            i += 1;
        }
        let res = NestedState { nested };
        assert(res@ =~= self@);
        res
    }
}

impl Nested {
    /// An empty state for a level.
    pub fn new(init: InitNested) -> (res: Nested)
        ensures
            res@ == (NestedView {
                init,
                length: 0,
                offsets: Seq::empty(),
                validity: Seq::empty(),
            }),
    {
        Nested { init, length: 0, offsets: Vec::new(), validity: Vec::new() }
    }

    /// The offsets of the level, and its validity where it keeps one.
    pub fn inner(self) -> (res: (Vec<usize>, Option<Vec<bool>>))
        ensures
            res.0@ == self@.offsets,
            bits_view(res.1) == (if self@.init.tracks_validity() {
                Some(self@.validity)
            } else {
                None::<Seq<bool>>
            }),
    {
        let tracks = self.init.is_nullable() && !self.init.is_primitive();
        if tracks {
            (self.offsets, Some(self.validity))
        } else {
            (self.offsets, None)
        }
    }
}

/// The empty state of every level of a nesting context.
pub fn init_nested(init: &Vec<InitNested>) -> (res: NestedState)
    ensures
        res@ == state_of(init@, Seq::empty()),
{
    let mut nested: Vec<Nested> = Vec::new();
    let mut d: usize = 0;
    while d < init.len()
        invariant
            d <= init.len(),
            nested.len() == d,
            forall|j: int| 0 <= j < d ==> (#[trigger] nested[j])@ == level_state(init@, Seq::empty(), j),
        decreases init.len() - d,
    {
        nested.push(Nested::new(init[d]));
        d += 1;
    }
    let res = NestedState { nested };
    assert(res@ =~= state_of(init@, Seq::empty()));
    res
}

/// Adds one entry to the state of every level that it reaches, from the
/// root down, and to the slots of the leaf.
#[verifier::rlimit(30)]
fn push_entry(
    nested: &mut Vec<Nested>,
    slots: &mut Vec<bool>,
    init: &Vec<InitNested>,
    e: Level,
    Ghost(es): Ghost<Seq<Level>>,
) -> (present: bool)
    requires
        es.len() < usize::MAX,
        old(nested).len() == init.len(),
        forall|j: int|
            0 <= j < init.len() ==> (#[trigger] old(nested)[j])@ == level_state(init@, es, j),
        old(slots)@ == leaf_slots(init@, es),
    ensures
        final(nested).len() == init.len(),
        forall|j: int|
            0 <= j < init.len() ==> (#[trigger] final(nested)[j])@ == level_state(
                init@,
                es.push(e),
                j,
            ),
        final(slots)@ == leaf_slots(init@, es.push(e)),
        present == leaf_present(init@, e),
{
    let depth = init.len();
    let mut d: usize = 0;
    let mut is_required = false;
    let mut present = false;
    let mut rep_sum: u128 = 0;
    let mut def_sum: u128 = 0;
    proof {
        assert(es.push(e).drop_last() =~= es);
    }
    while d < depth
        invariant
            d <= depth,
            depth == init.len(),
            es.len() < usize::MAX,
            es.push(e).drop_last() == es,
            nested.len() == depth,
            forall|j: int|
                0 <= j < d ==> (#[trigger] nested[j])@ == level_state(init@, es.push(e), j),
            forall|j: int| d <= j < depth ==> (#[trigger] nested[j])@ == level_state(init@, es, j),
            rep_sum == cum_rep(init@, d as int),
            def_sum == cum_def(init@, d as int),
            def_sum <= 2 * d,
            rep_sum <= d,
            is_required == (d > 0 && reaches(init@, e, d - 1) && init@[d - 1].required()
                && !is_valid(init@, e, d - 1)),
            slots@ == if d == depth {
                leaf_slots(init@, es.push(e))
            } else {
                leaf_slots(init@, es)
            },
            present == (d == depth && leaf_present(init@, e)),
        decreases depth - d,
    {
        let level = init[d];
        let nullable = level.is_nullable();
        let right = e.rep as u128 <= rep_sum && e.def as u128 >= def_sum;
        proof {
            lemma_level_len_bound(init@, es, d as int);
            lemma_level_len_bound(init@, es, d + 1);
        }
        let mut valid = false;
        if is_required || right {
            let length: usize = if d + 1 < depth {
                nested[d + 1].length
            } else {
                1
            };
            valid = nullable && e.def as u128 > def_sum;
            nested[d].length = nested[d].length + 1;
            if level.is_repeated() {
                nested[d].offsets.push(length);
            }
            if nullable && !level.is_primitive() {
                nested[d].validity.push(valid);
            }
            is_required = level.is_required() && !valid;
            if d + 1 == depth {
                present = right && (e.def as u128 != def_sum || !nullable);
                slots.push(present);
            }
        } else {
            is_required = false;
        }
        if nullable {
            def_sum = def_sum + 1;
        }
        if level.is_repeated() {
            def_sum = def_sum + 1;
            rep_sum = rep_sum + 1;
        }
        d += 1;
    }
    present
}

/// The index at which a run of entries ends that starts at `pos` and holds
/// `rows` more starts of rows: the end of the entries, or the first entry
/// that starts a row when none is left to take.
pub open spec fn row_end(es: Seq<Level>, pos: int, rows: nat) -> int
    decreases es.len() - pos,
{
    if pos >= es.len() {
        es.len() as int
    } else if es[pos].rep == 0 && rows == 0 {
        pos
    } else {
        row_end(
            es,
            pos + 1,
            if es[pos].rep == 0 {
                (rows - 1) as nat
            } else {
                rows
            },
        )
    }
}

/// The number of rows that start among the entries from `start` up to
/// `end`.
pub open spec fn count_rows(es: Seq<Level>, start: int, end: int) -> nat
    decreases end - start,
{
    if end <= start {
        0
    } else {
        count_rows(es, start, end - 1) + if es[end - 1].rep == 0 {
            1nat
        } else {
            0nat
        }
    }
}

/// The smaller of two numbers.
pub open spec fn min_nat(a: nat, b: nat) -> nat {
    if a <= b {
        a
    } else {
        b
    }
}

/// Where the chunks of at most `size` rows each lie among the entries from
/// `start` on, while rows are left to deliver.
pub open spec fn chunk_bounds(es: Seq<Level>, start: int, rows_left: nat, size: nat) -> Seq<
    (int, int),
>
    decreases es.len() - start,
{
    let end = row_end(es, start, min_nat(size, rows_left));
    if start < 0 || start >= es.len() || rows_left == 0 || end <= start || end > es.len() {
        Seq::empty()
    } else {
        seq![(start, end)] + chunk_bounds(
            es,
            end,
            (rows_left - count_rows(es, start, end)) as nat,
            size,
        )
    }
}

/// Where the chunks lie among the entries: one chunk with all rows where no
/// chunk size is given, else chunks of at most that many rows.
pub open spec fn chunks(es: Seq<Level>, num_rows: nat, chunk_size: Option<usize>) -> Seq<
    (int, int),
> {
    match chunk_size {
        None => seq![(0int, row_end(es, 0, num_rows))],
        Some(size) => chunk_bounds(es, 0, num_rows, size as nat),
    }
}

pub proof fn lemma_row_end_bounds(es: Seq<Level>, pos: int, rows: nat)
    requires
        0 <= pos <= es.len(),
    ensures
        pos <= row_end(es, pos, rows) <= es.len(),
        count_rows(es, pos, row_end(es, pos, rows)) <= rows,
        pos < es.len() && rows > 0 ==> pos < row_end(es, pos, rows),
    decreases es.len() - pos,
{
    if pos < es.len() && !(es[pos].rep == 0 && rows == 0) {
        let rest: nat = if es[pos].rep == 0 {
            (rows - 1) as nat
        } else {
            rows
        };
        lemma_row_end_bounds(es, pos + 1, rest);
        lemma_count_rows_front(es, pos, row_end(es, pos + 1, rest));
    }
}

pub proof fn lemma_count_rows_front(es: Seq<Level>, start: int, end: int)
    requires
        0 <= start < end <= es.len(),
    ensures
        count_rows(es, start, end) == count_rows(es, start + 1, end) + if es[start].rep == 0 {
            1nat
        } else {
            0nat
        },
    decreases end - start,
{
    if end > start + 1 {
        lemma_count_rows_front(es, start, end - 1);
    } else {
        assert(count_rows(es, start, start) == 0);
        assert(count_rows(es, start + 1, start + 1) == 0);
    }
}

/// The levels and leaf slots of one chunk of a leaf column.
#[derive(Debug)]
pub struct LeafChunk {
    /// The state of every level of nesting.
    pub nested: NestedState,
    /// For every item of the leaf, whether it holds a value.
    pub slots: Vec<bool>,
    /// The number of values that the chunks before this one hold.
    pub first_value: usize,
}

/// What the chunk of the entries from `start` up to `end` holds.
pub open spec fn chunk_matches(
    chunk: LeafChunk,
    init: Seq<InitNested>,
    es: Seq<Level>,
    start: int,
    end: int,
) -> bool {
    &&& chunk.nested@ == state_of(init, es.subrange(start, end))
    &&& chunk.slots@ == leaf_slots(init, es.subrange(start, end))
    &&& chunk.first_value == present_count(init, es.subrange(0, start))
}

/// Decodes the run of entries that starts at `start` and holds up to
/// `additional` rows.
#[verifier::rlimit(30)]
fn extend_offsets(
    levels: &Vec<Level>,
    init: &Vec<InitNested>,
    start: usize,
    additional: usize,
    first_value: usize,
) -> (res: (LeafChunk, usize, usize, usize))
    requires
        start < levels.len(),
        additional > 0 || levels[start as int].rep != 0,
        first_value == present_count(init@, levels@.subrange(0, start as int)),
    ensures
        res.1 == row_end(levels@, start as int, additional as nat),
        start < res.1 <= levels.len(),
        chunk_matches(res.0, init@, levels@, start as int, res.1 as int),
        res.2 == count_rows(levels@, start as int, res.1 as int),
        res.2 <= additional,
        res.3 == present_count(init@, levels@.subrange(0, res.1 as int)),
{
    let ghost es = levels@;
    let state = init_nested(init);
    proof {
        assert(state@.len() == init.len());
        assert forall|j: int| 0 <= j < init.len() implies (#[trigger] state.nested[j])@
            == level_state(init@, es.subrange(start as int, start as int), j) by {
            assert(state@[j] == state.nested[j]@);
            assert(es.subrange(start as int, start as int) =~= Seq::<Level>::empty());
        }
    }
    let mut nested = state.nested;
    let mut slots: Vec<bool> = Vec::new();
    let mut rows: usize = 0;
    let mut pos: usize = start;
    let mut present: usize = first_value;
    proof {
        assert(es.subrange(start as int, start as int) =~= Seq::<Level>::empty());
        lemma_level_len_bound(init@, es.subrange(0, start as int), 0);
    }
    loop
        invariant_except_break
            start <= pos < levels.len(),
            rows < additional || es[pos as int].rep != 0,
            row_end(es, start as int, additional as nat) == row_end(
                es,
                pos as int,
                (additional - rows) as nat,
            ),
        invariant
            es == levels@,
            start <= pos <= levels.len(),
            rows <= additional,
            rows == count_rows(es, start as int, pos as int),
            rows <= pos - start,
            nested.len() == init.len(),
            forall|j: int|
                0 <= j < init.len() ==> (#[trigger] nested[j])@ == level_state(
                    init@,
                    es.subrange(start as int, pos as int),
                    j,
                ),
            slots@ == leaf_slots(init@, es.subrange(start as int, pos as int)),
            present == present_count(init@, es.subrange(0, pos as int)),
            present <= pos,
        ensures
            pos == row_end(es, start as int, additional as nat),
            start < pos,
        decreases levels.len() - pos,
    {
        let e = levels[pos];
        proof {
            assert(es.subrange(start as int, pos + 1) =~= es.subrange(start as int, pos as int).push(
                e,
            ));
            assert(es.subrange(0, pos + 1) =~= es.subrange(0, pos as int).push(e));
            assert(es.subrange(0, pos + 1).drop_last() =~= es.subrange(0, pos as int));
        }
        if e.rep == 0 {
            rows = rows + 1;
        }
        let holds = push_entry(
            &mut nested,
            &mut slots,
            init,
            e,
            Ghost(es.subrange(start as int, pos as int)),
        );
        if holds {
            present = present + 1;
        }
        pos = pos + 1;
        proof {
            assert(row_end(es, start as int, additional as nat) == row_end(
                es,
                pos as int,
                (additional - rows) as nat,
            ));
        }
        if pos == levels.len() {
            proof {
                assert(row_end(es, pos as int, (additional - rows) as nat) == pos);
            }
            break ;
        }
        if levels[pos].rep == 0 && rows == additional {
            proof {
                assert(row_end(es, pos as int, (additional - rows) as nat) == pos);
            }
            break ;
        }
    }
    let chunk = LeafChunk { nested: NestedState { nested }, slots, first_value };
    proof {
        assert(chunk.nested@ =~= state_of(init@, es.subrange(start as int, pos as int)));
    }
    (chunk, pos, rows, present)
}

/// Cuts the entries of a leaf column into chunks of rows and decodes the
/// state of every level of nesting for each chunk.
#[verifier::rlimit(30)]
pub fn decode_levels(
    levels: &Vec<Level>,
    init: &Vec<InitNested>,
    num_rows: usize,
    chunk_size: Option<usize>,
) -> (res: Vec<LeafChunk>)
    requires
        chunk_size != Some(0usize),
    ensures
        res.len() == chunks(levels@, num_rows as nat, chunk_size).len(),
        forall|k: int|
            0 <= k < res.len() ==> chunk_matches(
                #[trigger] res[k],
                init@,
                levels@,
                chunks(levels@, num_rows as nat, chunk_size)[k].0,
                chunks(levels@, num_rows as nat, chunk_size)[k].1,
            ),
        forall|k: int|
            0 <= k < res.len() ==> 0 <= (#[trigger] chunks(
                levels@,
                num_rows as nat,
                chunk_size,
            )[k]).0 <= chunks(levels@, num_rows as nat, chunk_size)[k].1 <= levels.len(),
{
    let ghost es = levels@;
    let mut res: Vec<LeafChunk> = Vec::new();
    match chunk_size {
        None => {
            proof {
                assert(es.subrange(0, 0) =~= Seq::<Level>::empty());
                lemma_row_end_bounds(es, 0, num_rows as nat);
            }
            if levels.len() == 0 || (num_rows == 0 && levels[0].rep == 0) {
                let chunk = LeafChunk { nested: init_nested(init), slots: Vec::new(), first_value: 0 };
                proof {
                    assert(row_end(es, 0, num_rows as nat) == 0);
                }
                res.push(chunk);
            } else {
                let (chunk, end, rows, present) = extend_offsets(levels, init, 0, num_rows, 0);
                res.push(chunk);
            }
            proof {
                let all = chunks(es, num_rows as nat, chunk_size);
                assert(all.len() == 1);
                assert(all[0] == (0int, row_end(es, 0, num_rows as nat)));
            }
        },
        Some(size) => {
            let mut pos: usize = 0;
            let mut rows_left: usize = num_rows;
            let mut present: usize = 0;
            let ghost all = chunk_bounds(es, 0, num_rows as nat, size as nat);
            proof {
                assert(es.subrange(0, 0) =~= Seq::<Level>::empty());
            }
            while pos < levels.len() && rows_left > 0
                invariant
                    es == levels@,
                    size > 0,
                    pos <= levels.len(),
                    present == present_count(init@, es.subrange(0, pos as int)),
                    all == chunks(es, num_rows as nat, chunk_size),
                    all == Seq::new(
                        res.len() as nat,
                        |k: int| all[k],
                    ) + chunk_bounds(es, pos as int, rows_left as nat, size as nat),
                    forall|k: int|
                        0 <= k < res.len() ==> chunk_matches(
                            #[trigger] res[k],
                            init@,
                            es,
                            all[k].0,
                            all[k].1,
                        ),
                    forall|k: int|
                        0 <= k < res.len() ==> 0 <= (#[trigger] all[k]).0 <= all[k].1
                            <= levels.len(),
                decreases levels.len() - pos,
            {
                let additional: usize = if size <= rows_left {
                    size
                } else {
                    rows_left
                };
                let (chunk, end, rows, next_present) = extend_offsets(
                    levels,
                    init,
                    pos,
                    additional,
                    present,
                );
                proof {
                    let rest = chunk_bounds(es, end as int, (rows_left - rows) as nat, size as nat);
                    let done = Seq::new(res.len() as nat, |k: int| all[k]);
                    assert(chunk_bounds(es, pos as int, rows_left as nat, size as nat) == seq![
                        (pos as int, end as int),
                    ] + rest);
                    assert(all =~= done.push((pos as int, end as int)) + rest);
                    assert(all[res.len() as int] == (pos as int, end as int));
                    assert(Seq::new((res.len() + 1) as nat, |k: int| all[k]) =~= done.push(
                        (pos as int, end as int),
                    ));
                }
                res.push(chunk);
                pos = end;
                rows_left = rows_left - rows;
                present = next_present;
            }
            proof {
                assert(chunk_bounds(es, pos as int, rows_left as nat, size as nat) =~= Seq::empty());
                assert(all =~= Seq::new(res.len() as nat, |k: int| all[k]));
            }
        },
    }
    res
}


/// A leaf decoder's reading of a column: which values of the column it
/// reads, and what value of the array each of them becomes.
pub trait ValueCast {
    /// The type of the values that the decoder reads.
    type From: DeepView;

    /// The type of the values of the array.
    type To: NativeType;

    /// The values that the decoder reads from the column, or none where the
    /// column does not hold values of that kind.
    spec fn select(pages: PagesView) -> Option<Seq<<Self::From as DeepView>::V>>;

    /// The values that the decoder reads from the column.
    fn values(pages: &Pages) -> (res: Option<&Vec<Self::From>>)
        ensures
            match res {
                Some(v) => Self::select(pages@) == Some(v.deep_view()),
                None => Self::select(pages@) is None,
            },
    ;

    /// The value of the array that a value of the column becomes.
    spec fn cast_spec(x: <Self::From as DeepView>::V) -> <Self::To as DeepView>::V;

    /// The value of the array that a value of the column becomes.
    fn cast(x: &Self::From) -> (res: Self::To)
        ensures
            res.deep_view() == Self::cast_spec(x.deep_view()),
    ;
}

/// The number of slots that hold a value.
pub open spec fn count_true(slots: Seq<bool>) -> nat
    decreases slots.len(),
{
    if slots.len() == 0 {
        0
    } else {
        count_true(slots.drop_last()) + if slots.last() {
            1nat
        } else {
            0nat
        }
    }
}

/// The values of the slots of a chunk: a slot that holds a value takes the
/// next value of the column, counted from `first`; a null slot, or one for
/// which the column has no value left, holds `zero`.
pub open spec fn slot_values<V>(slots: Seq<bool>, values: Seq<V>, first: nat, zero: V) -> Seq<V> {
    Seq::new(
        slots.len(),
        |i: int|
            {
                let k = count_true(slots.subrange(0, i)) + first;
                if slots[i] && k < values.len() {
                    values[k as int]
                } else {
                    zero
                }
            },
    )
}

/// The validity bitmap of a leaf array: none where neither the leaf nor an
/// ancestor is nullable, and none where every slot holds a value.
pub open spec fn leaf_validity(slots: Seq<bool>, keeps_bits: bool) -> Option<Seq<bool>> {
    if keeps_bits && slots.contains(false) {
        Some(slots)
    } else {
        None
    }
}

/// The entries of a column that are decoded: at most `num_values` of them.
pub open spec fn counted_levels(levels: Seq<Level>, num_values: nat) -> Seq<Level> {
    if num_values <= levels.len() {
        levels.subrange(0, num_values as int)
    } else {
        levels
    }
}

/// The leaf array of the chunk of entries within `bounds`.
pub open spec fn leaf_array<V>(
    init: Seq<InitNested>,
    levels: Seq<Level>,
    bounds: (int, int),
    values: Seq<V>,
    zero: V,
    data_type: DataTypeView,
    is_parent_nullable: bool,
) -> DataArrayView<V> {
    let slots = leaf_slots(init, levels.subrange(bounds.0, bounds.1));
    DataArrayView {
        data_type,
        values: slot_values(
            slots,
            values,
            present_count(init, levels.subrange(0, bounds.0)),
            zero,
        ),
        validity: leaf_validity(slots, init.len() > 0 && init.last().nullable() || is_parent_nullable),
    }
}

/// The chunks that a leaf decoder yields for a column whose values, as the
/// decoder reads them, are `values`: for each chunk of rows, the state of
/// every level of nesting and the array of the leaf.
pub open spec fn leaf_chunks<V>(
    init: Seq<InitNested>,
    levels: Seq<Level>,
    values: Seq<V>,
    zero: V,
    data_type: DataTypeView,
    num_rows: nat,
    chunk_size: Option<usize>,
    num_values: nat,
    is_parent_nullable: bool,
) -> Seq<(Seq<NestedView>, DataArrayView<V>)> {
    let es = counted_levels(levels, num_values);
    let bounds = chunks(es, num_rows, chunk_size);
    Seq::new(
        bounds.len(),
        |k: int|
            (
                state_of(init, es.subrange(bounds[k].0, bounds[k].1)),
                leaf_array(init, es, bounds[k], values, zero, data_type, is_parent_nullable),
            ),
    )
}

/// The values of a column after the cast of a decoder.
pub open spec fn cast_values<C: ValueCast>(values: Seq<<C::From as DeepView>::V>) -> Seq<
    <C::To as DeepView>::V,
> {
    Seq::new(values.len(), |i: int| C::cast_spec(values[i]))
}

/// The mathematical value of a list of chunks.
pub open spec fn chunks_view<A: View>(items: Seq<(NestedState, A)>) -> Seq<
    (Seq<NestedView>, A::V),
> {
    Seq::new(items.len(), |k: int| (items[k].0@, items[k].1@))
}

/// Whether a bitmap has an unset bit.
fn has_unset(bits: &Vec<bool>) -> (res: bool)
    ensures
        res == bits@.contains(false),
{
    let mut i: usize = 0;
    while i < bits.len()
        invariant
            i <= bits.len(),
            forall|j: int| 0 <= j < i ==> bits[j],
        decreases bits.len() - i,
    {
        if !bits[i] {
            return true;
        }
        i += 1;
    }
    false
}

/// The validity bitmap of an array from the bits that were collected for
/// it: none where every bit is set.
pub fn finish_validity(bits: Option<Vec<bool>>) -> (res: Option<Vec<bool>>)
    ensures
        bits_view(res) == (match bits_view(bits) {
            Some(b) => if b.contains(false) {
                Some(b)
            } else {
                None
            },
            None => None,
        }),
{
    match bits {
        Some(b) => if has_unset(&b) {
            Some(b)
        } else {
            None
        },
        None => None,
    }
}

/// The values of the slots of one chunk, after the cast of the decoder.
fn fill_slots<C: ValueCast>(slots: &Vec<bool>, values: &Vec<C::From>, first: usize) -> (res: Vec<
    C::To,
>)
    ensures
        res.deep_view() == slot_values(
            slots@,
            cast_values::<C>(values.deep_view()),
            first as nat,
            C::To::zero_view(),
        ),
{
    let mut res: Vec<C::To> = Vec::new();
    let mut next: usize = if first < values.len() {
        first
    } else {
        values.len()
    };
    let mut i: usize = 0;
    let ghost cast = cast_values::<C>(values.deep_view());
    let ghost zero = C::To::zero_view();
    proof {
        assert(slots@.subrange(0, 0) =~= Seq::<bool>::empty());
    }
    while i < slots.len()
        invariant
            i <= slots.len(),
            res.len() == i,
            cast == cast_values::<C>(values.deep_view()),
            zero == C::To::zero_view(),
            next <= values.len(),
            next == min_nat(
                count_true(slots@.subrange(0, i as int)) + first as nat,
                values.len() as nat,
            ),
            forall|j: int|
                0 <= j < i ==> (#[trigger] res[j]).deep_view() == slot_values(
                    slots@,
                    cast,
                    first as nat,
                    zero,
                )[j],
        decreases slots.len() - i,
    {
        proof {
            assert(slots@.subrange(0, i + 1).drop_last() =~= slots@.subrange(0, i as int));
        }
        if slots[i] && next < values.len() {
            res.push(C::cast(&values[next]));
            next = next + 1;
        } else {
            res.push(C::To::zero());
        }
        i += 1;
    }
    assert(res.deep_view() =~= slot_values(slots@, cast, first as nat, zero));
    res
}

/// The first `n` entries of a column, or all of them where it has fewer.
pub fn first_levels(levels: &Vec<Level>, n: usize) -> (res: Vec<Level>)
    ensures
        res@ == counted_levels(levels@, n as nat),
{
    let limit: usize = if n <= levels.len() {
        n
    } else {
        levels.len()
    };
    let mut res: Vec<Level> = Vec::new();
    let mut i: usize = 0;
    while i < limit
        invariant
            i <= limit <= levels.len(),
            res@ == levels@.subrange(0, i as int),
        decreases limit - i,
    {
        res.push(levels[i]);
        i += 1;
        assert(res@ =~= levels@.subrange(0, i as int));
    }
    assert(levels@.subrange(0, levels.len() as int) =~= levels@);
    res
}

/// What a leaf decoder yields for a column: the chunks of the values that
/// it reads, or an error where the column holds no values of that kind.
pub open spec fn leaf_result<C: ValueCast>(
    pages: PagesView,
    init: Seq<InitNested>,
    data_type: DataTypeView,
    num_rows: nat,
    chunk_size: Option<usize>,
    num_values: nat,
    is_parent_nullable: bool,
) -> Result<Seq<(Seq<NestedView>, DataArrayView<<C::To as DeepView>::V>)>, ErrorView> {
    match C::select(pages) {
        Some(values) => Ok(
            leaf_chunks(
                init,
                pages.levels,
                cast_values::<C>(values),
                C::To::zero_view(),
                data_type,
                num_rows,
                chunk_size,
                num_values,
                is_parent_nullable,
            ),
        ),
        None => Err(ErrorView::InvalidArgumentError(Invalid::PhysicalValues)),
    }
}

/// Whether a result is the one that its mathematical value describes.
pub open spec fn result_matches<A: View>(
    res: Result<Vec<(NestedState, A)>, Error>,
    expected: Result<Seq<(Seq<NestedView>, A::V)>, ErrorView>,
) -> bool {
    match res {
        Ok(items) => expected == Ok::<Seq<(Seq<NestedView>, A::V)>, ErrorView>(
            chunks_view(items@),
        ),
        Err(e) => expected == Err::<Seq<(Seq<NestedView>, A::V)>, ErrorView>(e@),
    }
}

/// Decodes a leaf column into chunks of rows: for each chunk the state of
/// every level of nesting and the array of the values, cast as the decoder
/// `C` says. Fails where the column holds no values of the kind that the
/// decoder reads.
#[verifier::rlimit(30)]
pub fn decode_leaf<C: ValueCast>(
    pages: &Pages,
    init: &Vec<InitNested>,
    data_type: &DataType,
    num_rows: usize,
    chunk_size: Option<usize>,
    num_values: usize,
    is_parent_nullable: bool,
) -> (res: Result<Vec<(NestedState, DataArray<C::To>)>, Error>)
    requires
        chunk_size != Some(0usize),
    ensures
        result_matches(
            res,
            leaf_result::<C>(
                pages@,
                init@,
                data_type@,
                num_rows as nat,
                chunk_size,
                num_values as nat,
                is_parent_nullable,
            ),
        ),
{
    let source = match C::values(pages) {
        Some(v) => v,
        None => {
            return Err(Error::InvalidArgumentError(Invalid::PhysicalValues));
        },
    };
    let levels = first_levels(&pages.levels, num_values);
    let ghost es = levels@;
    let keeps_bits = is_parent_nullable || (init.len() > 0 && init[init.len() - 1].is_nullable());
    let decoded = decode_levels(&levels, init, num_rows, chunk_size);
    let ghost bounds = chunks(es, num_rows as nat, chunk_size);
    let ghost expected = leaf_chunks(
        init@,
        pages@.levels,
        cast_values::<C>(source.deep_view()),
        C::To::zero_view(),
        data_type@,
        num_rows as nat,
        chunk_size,
        num_values as nat,
        is_parent_nullable,
    );
    let ghost all = decoded@;
    let mut items: Vec<(NestedState, DataArray<C::To>)> = Vec::new();
    for chunk in it: decoded
        invariant
            it.seq() == all,
            all.len() == bounds.len(),
            expected.len() == bounds.len(),
            bounds == chunks(es, num_rows as nat, chunk_size),
            es == counted_levels(pages@.levels, num_values as nat),
            keeps_bits == (init@.len() > 0 && init@.last().nullable() || is_parent_nullable),
            forall|k: int|
                0 <= k < all.len() ==> chunk_matches(
                    #[trigger] all[k],
                    init@,
                    es,
                    bounds[k].0,
                    bounds[k].1,
                ),
            expected == leaf_chunks(
                init@,
                pages@.levels,
                cast_values::<C>(source.deep_view()),
                C::To::zero_view(),
                data_type@,
                num_rows as nat,
                chunk_size,
                num_values as nat,
                is_parent_nullable,
            ),
            items.len() == it.index(),
            forall|k: int|
                0 <= k < items.len() ==> (#[trigger] items[k]).0@ == expected[k].0 && items[k].1@
                    == expected[k].1,
    {
        let ghost k = it.index() as int;
        assert(chunk_matches(all[k], init@, es, bounds[k].0, bounds[k].1));
        let LeafChunk { nested, slots, first_value } = chunk;
        let values = fill_slots::<C>(&slots, source, first_value);
        let validity = if keeps_bits && has_unset(&slots) {
            Some(slots)
        } else {
            None
        };
        let array = DataArray { data_type: data_type.clone(), values, validity };
        items.push((nested, array));
    }
    assert(chunks_view(items@) =~= expected);
    Ok(items)
}


impl NestedState {
    /// The number of rows of the chunk: the number of items of the
    /// outermost level.
    pub fn len(&self) -> (res: usize)
        requires
            self@.len() > 0,
        ensures
            res == self@[0].length,
    {
        self.nested[0].length
    }
}

/// The state of a level fits a child of `n` items: its validity has one bit
/// per item, a list level has one offset per item, and they walk through
/// the child without ever going back; a struct level has one item for each
/// item of the child.
pub open spec fn level_fits(level: NestedView, n: nat) -> bool {
    &&& level.init.tracks_validity() ==> level.validity.len() == level.length
    &&& level.init is List ==> {
        &&& level.offsets.len() == level.length
        &&& non_decreasing(level.offsets)
        &&& forall|i: int| 0 <= i < level.offsets.len() ==> #[trigger] level.offsets[i] <= n
    }
    &&& level.init is Struct ==> level.length == n
}

/// The levels of a state fit one another, from an innermost child of `n`
/// items up to the root.
pub open spec fn aligned(nested: Seq<NestedView>, n: nat) -> bool
    decreases nested.len(),
{
    nested.len() > 0 ==> level_fits(nested.last(), n) && aligned(
        nested.drop_last(),
        nested.last().length,
    )
}

/// The levels above depth `j` of a decoded state fit one another and the
/// items of depth `j`.
pub proof fn lemma_state_aligned(init: Seq<InitNested>, es: Seq<Level>, j: int)
    requires
        0 <= j < init.len(),
        es.len() <= usize::MAX,
    ensures
        aligned(state_of(init, es).subrange(0, j), level_len(init, es, j)),
    decreases j,
{
    if j > 0 {
        let upper = state_of(init, es).subrange(0, j);
        assert(upper.last() == level_state(init, es, j - 1));
        assert(upper.drop_last() =~= state_of(init, es).subrange(0, j - 1));
        lemma_level_len_bound(init, es, j - 1);
        lemma_level_offsets(init, es, j - 1);
        if init[j - 1].required() {
            lemma_struct_level_len(init, es, j - 1);
        }
        lemma_state_aligned(init, es, j - 1);
    }
}

/// The chunks of a leaf: every state has one level for each level of the
/// nesting context, the levels above the leaf fit one another and the
/// array, and the array has one validity bit per value where it has any.
pub proof fn lemma_leaf_chunks<V>(
    init: Seq<InitNested>,
    levels: Seq<Level>,
    values: Seq<V>,
    zero: V,
    data_type: DataTypeView,
    num_rows: nat,
    chunk_size: Option<usize>,
    num_values: nat,
    is_parent_nullable: bool,
    k: int,
)
    requires
        init.len() > 0,
        levels.len() <= usize::MAX,
        0 <= k < leaf_chunks(
            init,
            levels,
            values,
            zero,
            data_type,
            num_rows,
            chunk_size,
            num_values,
            is_parent_nullable,
        ).len(),
    ensures
        ({
            let c = leaf_chunks(
                init,
                levels,
                values,
                zero,
                data_type,
                num_rows,
                chunk_size,
                num_values,
                is_parent_nullable,
            )[k];
            &&& c.0.len() == init.len()
            &&& forall|j: int| 0 <= j < init.len() ==> (#[trigger] c.0[j]).init == init[j]
            &&& aligned(c.0.drop_last(), c.1.values.len())
            &&& c.1.wf()
            &&& c.1.data_type == data_type
        }),
{
    let es = counted_levels(levels, num_values);
    let bounds = chunks(es, num_rows, chunk_size);
    let chunk = es.subrange(bounds[k].0, bounds[k].1);
    lemma_chunks_bounds(es, num_rows, chunk_size, k);
    lemma_state_aligned(init, chunk, init.len() - 1);
    lemma_level_len_bound(init, chunk, init.len() - 1);
    assert(state_of(init, chunk).drop_last() =~= state_of(init, chunk).subrange(
        0,
        init.len() - 1,
    ));
}

/// Every chunk lies within the entries.
pub proof fn lemma_chunks_bounds(
    es: Seq<Level>,
    num_rows: nat,
    chunk_size: Option<usize>,
    k: int,
)
    requires
        0 <= k < chunks(es, num_rows, chunk_size).len(),
    ensures
        0 <= chunks(es, num_rows, chunk_size)[k].0 <= chunks(es, num_rows, chunk_size)[k].1
            <= es.len(),
{
    match chunk_size {
        None => {
            lemma_row_end_bounds(es, 0, num_rows);
        },
        Some(size) => {
            lemma_chunk_bounds(es, 0, num_rows, size as nat, k);
        },
    }
}

pub proof fn lemma_chunk_bounds(es: Seq<Level>, start: int, rows_left: nat, size: nat, k: int)
    requires
        0 <= k < chunk_bounds(es, start, rows_left, size).len(),
    ensures
        0 <= chunk_bounds(es, start, rows_left, size)[k].0 <= chunk_bounds(
            es,
            start,
            rows_left,
            size,
        )[k].1 <= es.len(),
    decreases es.len() - start,
{
    let end = row_end(es, start, min_nat(size, rows_left));
    if k > 0 {
        lemma_chunk_bounds(
            es,
            end,
            (rows_left - count_rows(es, start, end)) as nat,
            size,
            k - 1,
        );
    }
}


/// The levels of a column that is not nested and can be null: one entry per
/// row, defined where the row holds a value.
pub open spec fn flat_levels(valid: Seq<bool>) -> Seq<Level> {
    Seq::new(
        valid.len(),
        |i: int|
            Level {
                rep: 0,
                def: if valid[i] {
                    1u32
                } else {
                    0u32
                },
            },
    )
}

/// The values of the rows that hold one, in the order of the rows.
pub open spec fn present_values<V>(rows: Seq<V>, valid: Seq<bool>) -> Seq<V>
    decreases rows.len(),
{
    if rows.len() == 0 {
        Seq::empty()
    } else if valid[rows.len() - 1] {
        present_values(rows.drop_last(), valid).push(rows.last())
    } else {
        present_values(rows.drop_last(), valid)
    }
}

/// The rows with every row that holds no value set to `zero`.
pub open spec fn with_zeros<V>(rows: Seq<V>, valid: Seq<bool>, zero: V) -> Seq<V> {
    Seq::new(
        rows.len(),
        |i: int|
            if valid[i] {
                rows[i]
            } else {
                zero
            },
    )
}

proof fn lemma_flat_row_end(valid: Seq<bool>, pos: int)
    requires
        0 <= pos <= valid.len(),
    ensures
        row_end(flat_levels(valid), pos, (valid.len() - pos) as nat) == valid.len(),
    decreases valid.len() - pos,
{
    if pos < valid.len() {
        lemma_flat_row_end(valid, pos + 1);
    }
}

proof fn lemma_flat_slots(valid: Seq<bool>, n: int)
    requires
        0 <= n <= valid.len(),
    ensures
        leaf_slots(seq![InitNested::Primitive(true)], flat_levels(valid).subrange(0, n))
            == valid.subrange(0, n),
        level_len(seq![InitNested::Primitive(true)], flat_levels(valid).subrange(0, n), 0) == n,
    decreases n,
{
    let init = seq![InitNested::Primitive(true)];
    let es = flat_levels(valid).subrange(0, n);
    if n > 0 {
        lemma_flat_slots(valid, n - 1);
        assert(es.drop_last() =~= flat_levels(valid).subrange(0, n - 1));
        let e = es.last();
        assert(e == flat_levels(valid)[n - 1]);
        assert(cum_rep(init, 0) == 0 && cum_def(init, 0) == 0);
        assert(reaches(init, e, 0));
        assert(leaf_present(init, e) == valid[n - 1]);
        assert(leaf_slots(init, es) =~= valid.subrange(0, n));
    } else {
        assert(leaf_slots(init, es) =~= valid.subrange(0, n));
    }
}

proof fn lemma_present_values<V>(rows: Seq<V>, valid: Seq<bool>, n: int)
    requires
        rows.len() == valid.len(),
        0 <= n <= rows.len(),
    ensures
        present_values(rows.subrange(0, n), valid).len() == count_true(valid.subrange(0, n)),
        n < rows.len() && valid[n] ==> present_values(rows, valid).len() > count_true(
            valid.subrange(0, n),
        ) && present_values(rows, valid)[count_true(valid.subrange(0, n)) as int] == rows[n],
    decreases rows.len() - n,
{
    lemma_present_prefix(rows, valid, n);
    if n < rows.len() {
        lemma_present_values(rows, valid, n + 1);
        lemma_present_prefix(rows, valid, n + 1);
        assert(rows.subrange(0, n + 1).drop_last() =~= rows.subrange(0, n));
        assert(valid.subrange(0, n + 1).drop_last() =~= valid.subrange(0, n));
        if valid[n] {
            lemma_present_is_prefix(rows, valid, n + 1, count_true(valid.subrange(0, n)) as int);
        }
    }
}

proof fn lemma_present_prefix<V>(rows: Seq<V>, valid: Seq<bool>, n: int)
    requires
        rows.len() == valid.len(),
        0 <= n <= rows.len(),
    ensures
        present_values(rows.subrange(0, n), valid).len() == count_true(valid.subrange(0, n)),
    decreases n,
{
    if n > 0 {
        lemma_present_prefix(rows, valid, n - 1);
        assert(rows.subrange(0, n).drop_last() =~= rows.subrange(0, n - 1));
        assert(valid.subrange(0, n).drop_last() =~= valid.subrange(0, n - 1));
    }
}

/// The values of the first rows stay where they are when more rows follow.
proof fn lemma_present_is_prefix<V>(rows: Seq<V>, valid: Seq<bool>, n: int, k: int)
    requires
        rows.len() == valid.len(),
        0 <= n <= rows.len(),
        0 <= k < present_values(rows.subrange(0, n), valid).len(),
    ensures
        k < present_values(rows, valid).len(),
        present_values(rows, valid)[k] == present_values(rows.subrange(0, n), valid)[k],
    decreases rows.len() - n,
{
    if n < rows.len() {
        assert(rows.subrange(0, n + 1).drop_last() =~= rows.subrange(0, n));
        lemma_present_is_prefix(rows, valid, n + 1, k);
    } else {
        assert(rows.subrange(0, n) =~= rows);
    }
}

/// Decoding gives back what was stored: a column that is not nested, with
/// one entry per row and the values of the rows that hold one, decodes in
/// one chunk to the rows themselves, a null row holding `zero`, under the
/// validity of the rows.
pub proof fn lemma_flat_round_trip<V>(
    rows: Seq<V>,
    valid: Seq<bool>,
    zero: V,
    data_type: DataTypeView,
    num_values: nat,
    is_parent_nullable: bool,
)
    requires
        rows.len() == valid.len(),
        num_values >= rows.len(),
    ensures
        leaf_chunks(
            seq![InitNested::Primitive(true)],
            flat_levels(valid),
            present_values(rows, valid),
            zero,
            data_type,
            rows.len(),
            None,
            num_values,
            is_parent_nullable,
        ) == seq![
            (
                state_of(seq![InitNested::Primitive(true)], flat_levels(valid)),
                DataArrayView {
                    data_type,
                    values: with_zeros(rows, valid, zero),
                    validity: if valid.contains(false) {
                        Some(valid)
                    } else {
                        None
                    },
                },
            ),
        ],
{
    let init = seq![InitNested::Primitive(true)];
    let levels = flat_levels(valid);
    let n = rows.len() as int;
    let stored = present_values(rows, valid);
    let es = counted_levels(levels, num_values);
    assert(es =~= levels);
    lemma_flat_row_end(valid, 0);
    let bounds = chunks(es, rows.len(), None);
    assert(bounds =~= seq![(0int, n)]);
    assert(es.subrange(0, n) =~= levels);
    assert(es.subrange(0, 0) =~= Seq::<Level>::empty());
    lemma_flat_slots(valid, n);
    assert(valid.subrange(0, n) =~= valid);
    let slots = leaf_slots(init, levels);
    let values = slot_values(slots, stored, 0, zero);
    assert forall|i: int| 0 <= i < n implies values[i] == with_zeros(rows, valid, zero)[i] by {
        lemma_present_values(rows, valid, i);
    }
    assert(values =~= with_zeros(rows, valid, zero));
    let decoded = leaf_chunks(
        init,
        levels,
        stored,
        zero,
        data_type,
        rows.len(),
        None,
        num_values,
        is_parent_nullable,
    );
    assert(decoded.len() == 1);
    assert(decoded[0].0 == state_of(init, levels));
    assert(decoded[0].1.values == values);
    assert(decoded =~= seq![
        (
            state_of(init, levels),
            DataArrayView {
                data_type,
                values: with_zeros(rows, valid, zero),
                validity: if valid.contains(false) {
                    Some(valid)
                } else {
                    None
                },
            },
        ),
    ]);
}


/// With as many rows to take as there are starts of rows, or more, a run
/// of entries ends where the entries end.
pub proof fn lemma_row_end_all(es: Seq<Level>, pos: int, rows: nat)
    requires
        0 <= pos <= es.len(),
        rows >= count_rows(es, pos, es.len() as int),
    ensures
        row_end(es, pos, rows) == es.len(),
    decreases es.len() - pos,
{
    if pos < es.len() {
        lemma_count_rows_front(es, pos, es.len() as int);
        lemma_row_end_all(
            es,
            pos + 1,
            if es[pos].rep == 0 {
                (rows - 1) as nat
            } else {
                rows
            },
        );
    }
}

/// The values that are stored for the slots of a leaf, and only for those
/// that hold one, are the values that the slots decode to: a slot without
/// a value decodes to `zero`.
pub proof fn lemma_slot_values_round_trip<V>(rows: Seq<V>, valid: Seq<bool>, zero: V)
    requires
        rows.len() == valid.len(),
    ensures
        slot_values(valid, present_values(rows, valid), 0, zero) == with_zeros(rows, valid, zero),
{
    let values = slot_values(valid, present_values(rows, valid), 0, zero);
    assert forall|i: int| 0 <= i < rows.len() implies values[i] == with_zeros(rows, valid, zero)[i] by {
        lemma_present_values(rows, valid, i);
    }
    assert(values =~= with_zeros(rows, valid, zero));
}

/// Decoding gives back what was stored, whatever the nesting: where a leaf
/// column under any nesting context stores, for the slots of the leaf that
/// its levels describe, the values of the slots that hold one, the column
/// decodes in one chunk to the array of the slots, under the validity that
/// the levels describe.
pub proof fn lemma_leaf_round_trip<V>(
    init: Seq<InitNested>,
    levels: Seq<Level>,
    slots: Seq<V>,
    zero: V,
    data_type: DataTypeView,
    num_rows: nat,
    is_parent_nullable: bool,
)
    requires
        slots.len() == leaf_slots(init, levels).len(),
        num_rows >= count_rows(levels, 0, levels.len() as int),
    ensures
        leaf_chunks(
            init,
            levels,
            present_values(slots, leaf_slots(init, levels)),
            zero,
            data_type,
            num_rows,
            None,
            levels.len(),
            is_parent_nullable,
        ) == seq![
            (
                state_of(init, levels),
                DataArrayView {
                    data_type,
                    values: with_zeros(slots, leaf_slots(init, levels), zero),
                    validity: leaf_validity(
                        leaf_slots(init, levels),
                        init.len() > 0 && init.last().nullable() || is_parent_nullable,
                    ),
                },
            ),
        ],
{
    let valid = leaf_slots(init, levels);
    let stored = present_values(slots, valid);
    let es = counted_levels(levels, levels.len());
    assert(es =~= levels);
    lemma_row_end_all(levels, 0, num_rows);
    let bounds = chunks(es, num_rows, None);
    assert(bounds =~= seq![(0int, levels.len() as int)]);
    assert(es.subrange(0, levels.len() as int) =~= levels);
    assert(es.subrange(0, 0) =~= Seq::<Level>::empty());
    lemma_slot_values_round_trip(slots, valid, zero);
    let decoded = leaf_chunks(
        init,
        levels,
        stored,
        zero,
        data_type,
        num_rows,
        None,
        levels.len(),
        is_parent_nullable,
    );
    assert(decoded.len() == 1);
    assert(decoded[0].0 == state_of(init, levels));
    assert(decoded[0].1.values == with_zeros(slots, valid, zero));
    assert(decoded =~= seq![
        (
            state_of(init, levels),
            DataArrayView {
                data_type,
                values: with_zeros(slots, valid, zero),
                validity: leaf_validity(
                    valid,
                    init.len() > 0 && init.last().nullable() || is_parent_nullable,
                ),
            },
        ),
    ]);
}

} // verus!
