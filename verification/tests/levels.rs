use columnar_decode::nested_utils::{
    decode_levels, finish_validity, first_levels, init_nested, InitNested, Nested, NestedState,
};
use columnar_decode::page::Level;

fn levels(pairs: &[(u32, u32)]) -> Vec<Level> {
    pairs.iter().map(|(rep, def)| Level { rep: *rep, def: *def }).collect()
}

#[test]
fn levels_of_a_nullable_list_of_nullable_items() {
    // rows: [1, null], null, [], [2]
    let init = vec![InitNested::List(true), InitNested::Primitive(true)];
    let entries = levels(&[(0, 3), (1, 2), (0, 0), (0, 1), (0, 3)]);
    let chunks = decode_levels(&entries, &init, 4, None);
    assert_eq!(chunks.len(), 1);
    let chunk = &chunks[0];
    assert_eq!(chunk.first_value, 0);
    assert_eq!(chunk.slots, vec![true, false, true]);
    assert_eq!(chunk.nested.len(), 4);
    assert_eq!(
        chunk.nested.nested,
        vec![
            Nested {
                init: InitNested::List(true),
                length: 4,
                offsets: vec![0, 2, 2, 2],
                validity: vec![true, false, true, true],
            },
            Nested { init: InitNested::Primitive(true), length: 3, offsets: vec![], validity: vec![] },
        ]
    );
}

#[test]
fn chunks_of_levels_carry_on_where_the_last_chunk_ended() {
    let init = vec![InitNested::List(false), InitNested::Primitive(true)];
    // rows: [1], [null, 2], [], [3]
    let entries = levels(&[(0, 2), (0, 1), (1, 2), (0, 0), (0, 2)]);
    let chunks = decode_levels(&entries, &init, 4, Some(3));
    assert_eq!(chunks.len(), 2);
    assert_eq!(chunks[0].first_value, 0);
    assert_eq!(chunks[0].slots, vec![true, false, true]);
    assert_eq!(chunks[0].nested.nested[0].offsets, vec![0, 1, 3]);
    assert_eq!(chunks[0].nested.nested[0].validity, Vec::<bool>::new());
    assert_eq!(chunks[0].nested.len(), 3);
    assert_eq!(chunks[1].first_value, 2);
    assert_eq!(chunks[1].slots, vec![true]);
    assert_eq!(chunks[1].nested.nested[0].offsets, vec![0]);
    assert_eq!(chunks[1].nested.len(), 1);
}

#[test]
fn a_null_struct_asks_its_children_for_an_item() {
    let init =
        vec![InitNested::Struct(true), InitNested::Struct(false), InitNested::Primitive(false)];
    let entries = levels(&[(0, 1), (0, 0), (0, 1)]);
    let chunks = decode_levels(&entries, &init, 3, None);
    let chunk = &chunks[0];
    assert_eq!(chunk.slots, vec![true, false, true]);
    assert_eq!(chunk.nested.nested[0].validity, vec![true, false, true]);
    assert_eq!(chunk.nested.nested[1].length, 3);
    assert_eq!(chunk.nested.nested[2].length, 3);
}

#[test]
fn entries_that_open_no_row_within_their_levels_are_left_out() {
    let init = vec![InitNested::Primitive(true)];
    // a repetition level without a list above it opens nothing
    let entries = levels(&[(0, 1), (1, 1), (0, 0)]);
    let chunks = decode_levels(&entries, &init, 2, None);
    assert_eq!(chunks.len(), 1);
    assert_eq!(chunks[0].slots, vec![true, false]);
    assert_eq!(chunks[0].nested.len(), 2);
}

#[test]
fn the_first_entries_of_a_column_are_counted_off() {
    let entries = levels(&[(0, 1), (0, 0), (0, 1)]);
    assert_eq!(first_levels(&entries, 2), levels(&[(0, 1), (0, 0)]));
    assert_eq!(first_levels(&entries, 7), entries);
    assert_eq!(first_levels(&entries, 0), vec![]);
}

#[test]
fn a_bitmap_without_an_unset_bit_is_dropped() {
    assert_eq!(finish_validity(Some(vec![true, true])), None);
    assert_eq!(finish_validity(Some(vec![true, false])), Some(vec![true, false]));
    assert_eq!(finish_validity(Some(vec![])), None);
    assert_eq!(finish_validity(None), None);
}

#[test]
fn the_state_of_a_context_starts_empty() {
    let init = vec![InitNested::Struct(true), InitNested::List(false), InitNested::Primitive(true)];
    let state: NestedState = init_nested(&init);
    assert_eq!(state.nested.len(), 3);
    for (level, kind) in state.nested.iter().zip(init.iter()) {
        assert_eq!(*level, Nested::new(*kind));
        assert_eq!(level.length, 0);
    }
    let level = Nested {
        init: InitNested::List(true),
        length: 1,
        offsets: vec![0],
        validity: vec![false],
    };
    assert_eq!(level.clone().inner(), (vec![0], Some(vec![false])));
    let level = Nested { init: InitNested::List(false), length: 1, offsets: vec![4], validity: vec![] };
    assert_eq!(level.inner(), (vec![4], None));
    let level = Nested { init: InitNested::Primitive(true), length: 2, offsets: vec![], validity: vec![] };
    assert_eq!(level.inner(), (vec![], None));
}
