use egui::Color32;
use legion_prof_viewer::data::{EntryID, EntryInfo, Field, Item, TileID};
use legion_prof_viewer::timestamp::{Interval, Timestamp};

fn slot(name: &str, rows: u64) -> EntryInfo {
    EntryInfo::Slot {
        short_name: name.to_string(),
        long_name: format!("long {}", name),
        max_rows: rows,
    }
}

fn panel(name: &str, summary: bool, slots: Vec<EntryInfo>) -> EntryInfo {
    EntryInfo::Panel {
        short_name: name.to_string(),
        long_name: format!("long {}", name),
        summary: if summary {
            Some(Box::new(EntryInfo::Summary { color: Color32::RED }))
        } else {
            None
        },
        slots,
    }
}

fn profile() -> EntryInfo {
    panel(
        "root",
        false,
        vec![
            panel(
                "n0",
                false,
                vec![
                    panel("cpu", true, vec![slot("c0", 3), slot("c1", 4)]),
                    panel("gpu", true, vec![slot("g0", 1)]),
                ],
            ),
            panel(
                "n1",
                false,
                vec![
                    panel("gpu", true, vec![slot("g0", 2)]),
                    panel("cpu", false, vec![]),
                    panel("mem", true, vec![slot("m0", 9)]),
                ],
            ),
        ],
    )
}

fn name_of(info: &EntryInfo) -> String {
    match info {
        EntryInfo::Panel { short_name, .. } => short_name.clone(),
        EntryInfo::Slot { short_name, .. } => short_name.clone(),
        EntryInfo::Summary { .. } => "summary".to_string(),
    }
}

#[test]
fn get_of_the_root_is_the_tree() {
    let info = profile();
    let found = info.get(&EntryID::root()).unwrap();
    assert_eq!(name_of(found), "root");
}

#[test]
fn get_walks_down_one_step_per_level() {
    let info = profile();
    let root = EntryID::root();
    assert_eq!(name_of(info.get(&root.child(1)).unwrap()), "n1");
    assert_eq!(name_of(info.get(&root.child(0).child(1)).unwrap()), "gpu");
    assert_eq!(name_of(info.get(&root.child(1).child(2).child(0)).unwrap()), "m0");
    match info.get(&root.child(0).child(0).child(1)).unwrap() {
        EntryInfo::Slot { max_rows, .. } => assert_eq!(*max_rows, 4),
        _ => panic!("not a slot"),
    }
}

#[test]
fn get_finds_the_summary_of_a_panel() {
    let info = profile();
    let id = EntryID::root().child(0).child(0).summary();
    match info.get(&id).unwrap() {
        EntryInfo::Summary { color } => assert_eq!(*color, Color32::RED),
        _ => panic!("not a summary"),
    }
}

#[test]
fn get_finds_nothing_where_a_child_is_missing() {
    let info = profile();
    let root = EntryID::root();
    assert!(info.get(&root.child(2)).is_none());
    assert!(info.get(&root.child(0).child(5)).is_none());
    assert!(info.get(&root.child(0).child(5).child(1)).is_none());
    assert!(info.get(&root.summary()).is_none());
    assert!(info.get(&root.child(1).child(1).summary()).is_none());
}

#[test]
fn accepts_refuses_a_path_below_a_leaf() {
    let info = profile();
    let root = EntryID::root();
    assert!(info.accepts(&root));
    assert!(info.accepts(&root.child(0).child(0).child(1)));
    assert!(info.accepts(&root.child(7)));
    assert!(info.accepts(&root.child(0).child(0).summary()));
    assert!(!info.accepts(&root.child(0).child(0).child(1).child(0)));
    assert!(!info.accepts(&root.child(0).child(0).child(1).summary()));
    assert!(!info.accepts(&root.child(0).child(0).summary().child(0)));
    assert!(!slot("s", 1).accepts(&root.child(0)));
}

#[test]
fn nodes_counts_the_children_of_the_root() {
    assert_eq!(profile().nodes(), 2);
    assert_eq!(panel("empty", false, vec![]).nodes(), 0);
}

#[test]
fn kinds_are_the_second_level_names_each_once_in_order() {
    assert_eq!(profile().kinds(), vec!["cpu".to_string(), "gpu".to_string(), "mem".to_string()]);
    assert_eq!(panel("empty", false, vec![]).kinds(), Vec::<String>::new());
}

#[test]
fn names_kinds_tells_a_profile_from_other_trees() {
    assert!(profile().names_kinds());
    assert!(panel("empty", false, vec![]).names_kinds());
    assert!(!slot("s", 1).names_kinds());
    assert!(!panel("root", false, vec![slot("s", 1)]).names_kinds());
    assert!(!panel("root", false, vec![panel("n", false, vec![slot("s", 1)])]).names_kinds());
}

#[test]
fn the_clone_of_a_tree_is_the_same_tree() {
    let info = profile();
    let copy = info.clone();
    assert_eq!(format!("{:?}", copy), format!("{:?}", info));
}

#[test]
fn the_clone_of_an_item_holds_what_the_item_holds() {
    let item = Item {
        interval: Interval::new(Timestamp(1), Timestamp(2)),
        color: Color32::GREEN,
        fields: vec![
            ("Name".to_string(), Field::String("task".to_string())),
            ("Span".to_string(), Field::Interval(Interval::new(Timestamp(1), Timestamp(2)))),
            ("None".to_string(), Field::Empty),
        ],
    };
    let copy = item.clone();
    assert_eq!(copy.interval, item.interval);
    assert_eq!(copy.color, item.color);
    assert_eq!(format!("{:?}", copy.fields), format!("{:?}", item.fields));
}

#[test]
fn a_tile_is_named_by_its_interval() {
    let a = TileID(Interval::new(Timestamp(0), Timestamp(10)));
    let b = TileID(Interval::new(Timestamp(0), Timestamp(10)));
    let c = TileID(Interval::new(Timestamp(0), Timestamp(11)));
    assert_eq!(a, b);
    assert_ne!(a, c);
}
