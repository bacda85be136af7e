use legion_prof_viewer::data::{EntryID, EntryIndex};
use legion_prof_viewer::entry_id::PathOrder;
use std::cmp::Ordering;

#[test]
fn the_root_is_the_empty_path() {
    let root = EntryID::root();
    assert_eq!(root.level(), 0);
    assert_eq!(root.last_index(), None);
    assert_eq!(root.last_slot_index(), None);
    assert_eq!(root.index(0), None);
    assert_eq!(root.slot_index(0), None);
}

#[test]
fn child_appends_an_ordinary_step() {
    let id = EntryID::root().child(3);
    assert_eq!(id.level(), 1);
    assert_eq!(id.index(0), Some(EntryIndex::Slot(3)));
    assert_eq!(id.slot_index(0), Some(3));
    assert_eq!(id.last_index(), Some(EntryIndex::Slot(3)));
    assert_eq!(id.last_slot_index(), Some(3));
    assert_eq!(id.index(1), None);
}

#[test]
fn summary_appends_a_summary_step() {
    let id = EntryID::root().child(2).summary();
    assert_eq!(id.level(), 2);
    assert_eq!(id.index(0), Some(EntryIndex::Slot(2)));
    assert_eq!(id.index(1), Some(EntryIndex::Summary));
    assert_eq!(id.slot_index(1), None);
    assert_eq!(id.last_index(), Some(EntryIndex::Summary));
    assert_eq!(id.last_slot_index(), None);
}

#[test]
fn child_leaves_its_parent_as_it_was() {
    let parent = EntryID::root().child(1);
    let child = parent.child(7);
    assert_eq!(parent.level(), 1);
    assert_eq!(parent.last_slot_index(), Some(1));
    assert_eq!(child.level(), 2);
    assert_eq!(child.last_slot_index(), Some(7));
}

#[test]
fn the_largest_child_index_is_kept() {
    let id = EntryID::root().child(i64::MAX as u64);
    assert_eq!(id.last_slot_index(), Some(i64::MAX as u64));
    assert_eq!(id.last_index(), Some(EntryIndex::Slot(i64::MAX as u64)));
}

#[test]
fn child_zero_is_not_the_summary() {
    let zero = EntryID::root().child(0);
    let summary = EntryID::root().summary();
    assert_eq!(zero.last_index(), Some(EntryIndex::Slot(0)));
    assert_eq!(summary.last_index(), Some(EntryIndex::Summary));
    assert!(zero != summary);
}

#[test]
fn a_path_reads_back_the_steps_it_was_built_with() {
    let calls = [
        EntryIndex::Slot(5),
        EntryIndex::Slot(0),
        EntryIndex::Slot(8191),
        EntryIndex::Summary,
    ];
    let mut id = EntryID::root();
    for call in calls {
        id = match call {
            EntryIndex::Summary => id.summary(),
            EntryIndex::Slot(i) => id.child(i),
        };
    }
    assert_eq!(id.level(), 4);
    for (level, call) in calls.iter().enumerate() {
        assert_eq!(id.index(level as u64), Some(*call));
        match call {
            EntryIndex::Summary => assert_eq!(id.slot_index(level as u64), None),
            EntryIndex::Slot(i) => assert_eq!(id.slot_index(level as u64), Some(*i)),
        }
    }
    assert_eq!(id.index(4), None);
    assert_eq!(id.index(u64::MAX), None);
}

#[test]
fn equal_paths_are_equal() {
    let a = EntryID::root().child(1).child(2);
    let b = EntryID::root().child(1).child(2);
    let c = EntryID::root().child(1).child(3);
    let d = EntryID::root().child(1);
    assert!(a == b);
    assert!(a != c);
    assert!(a != d);
    assert_eq!(a.clone(), a);
}

#[test]
fn paths_are_ordered_step_by_step() {
    let root = EntryID::root();
    let a = root.child(1);
    let a_summary = a.summary();
    let a0 = a.child(0);
    let a5 = a.child(5);
    let b = root.child(2);
    assert_eq!(root.order(&a), PathOrder::Before);
    assert_eq!(a.order(&root), PathOrder::After);
    assert_eq!(a.order(&a), PathOrder::Same);
    assert_eq!(a.order(&a_summary), PathOrder::Before);
    assert_eq!(a_summary.order(&a0), PathOrder::Before);
    assert_eq!(a0.order(&a5), PathOrder::Before);
    assert_eq!(a5.order(&b), PathOrder::Before);
    assert_eq!(b.order(&a5), PathOrder::After);
}

#[test]
fn the_comparison_operators_follow_the_order_of_paths() {
    let a = EntryID::root().child(1);
    let a0 = a.child(0);
    let b = EntryID::root().child(2);
    assert!(a < a0);
    assert!(a0 < b);
    assert!(b > a);
    assert_eq!(a.partial_cmp(&a0), Some(Ordering::Less));
    assert_eq!(a0.partial_cmp(&a0), Some(Ordering::Equal));
    assert_eq!(b.partial_cmp(&a0), Some(Ordering::Greater));
    assert_eq!(a.cmp(&a0), Ordering::Less);
    assert_eq!(b.cmp(&a), Ordering::Greater);
    assert_eq!(a.summary().cmp(&a0), Ordering::Less);
}

#[test]
fn paths_can_be_keys_of_a_map() {
    let mut map = std::collections::BTreeMap::new();
    map.insert(EntryID::root().child(2), "two");
    map.insert(EntryID::root().child(1), "one");
    map.insert(EntryID::root().child(1).summary(), "sum");
    let order: Vec<&str> = map.values().copied().collect();
    assert_eq!(order, vec!["one", "sum", "two"]);
    assert_eq!(map.get(&EntryID::root().child(1)), Some(&"one"));
}

#[test]
fn of_two_paths_one_comes_first_unless_they_are_the_same() {
    let root = EntryID::root();
    let paths = vec![
        root.clone(),
        root.summary(),
        root.child(0),
        root.child(0).summary(),
        root.child(0).child(0),
        root.child(0).child(1),
        root.child(1),
        root.child(1).child(0).child(0),
    ];
    for (i, a) in paths.iter().enumerate() {
        for (j, b) in paths.iter().enumerate() {
            let expected = if i < j {
                PathOrder::Before
            } else if i == j {
                PathOrder::Same
            } else {
                PathOrder::After
            };
            assert_eq!(a.order(b), expected);
            assert_eq!(a == b, i == j);
            assert_eq!(a < b, i < j);
        }
    }
}
