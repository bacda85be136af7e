use egui::Color32;
use legion_prof_viewer::cache::TileCache;
use legion_prof_viewer::data::{EntryID, EntryInfo, SlotTile, SummaryTile, TileID, UTIL_ONE};
use legion_prof_viewer::window::is_layable;
use legion_prof_viewer::random::{midpoint, palette_rgb, RandomDataSource, NODES};
use legion_prof_viewer::source::{fetch_tiles, DataSource};
use legion_prof_viewer::data::UtilPoint;
use legion_prof_viewer::timestamp::{Interval, Timestamp};

fn interval(start: i64, stop: i64) -> Interval {
    Interval::new(Timestamp(start), Timestamp(stop))
}

fn point(time: i64, util: u32) -> UtilPoint {
    UtilPoint { time: Timestamp(time), util }
}

fn names(info: &EntryInfo) -> (String, String) {
    match info {
        EntryInfo::Panel { short_name, long_name, .. } => (short_name.clone(), long_name.clone()),
        EntryInfo::Slot { short_name, long_name, .. } => (short_name.clone(), long_name.clone()),
        EntryInfo::Summary { .. } => (String::new(), String::new()),
    }
}

fn children(info: &EntryInfo) -> &Vec<EntryInfo> {
    match info {
        EntryInfo::Panel { slots, .. } => slots,
        _ => panic!("not a panel"),
    }
}

#[test]
fn the_time_range_starts_at_zero_and_lasts_between_one_and_two_milliseconds() {
    let mut source = RandomDataSource::new();
    let range = source.interval();
    assert_eq!(range.start, Timestamp(0));
    assert!(range.stop.0 >= 1_000_000 && range.stop.0 < 2_000_000);
}

#[test]
fn the_time_range_stays_the_same() {
    let mut source = RandomDataSource::default();
    let first = source.interval();
    source.fetch_info();
    let id = EntryID::root().child(0).child(0).child(0);
    source.fetch_slot_tile(&id, TileID(interval(0, 1000)));
    assert_eq!(source.interval(), first);
    assert_eq!(source.interval(), first);
}

#[test]
fn the_time_range_is_drawn_at_random() {
    let stops: Vec<i64> = (0..6).map(|_| RandomDataSource::new().interval().stop.0).collect();
    assert!(stops.iter().any(|s| *s != 1_000_000));
    assert!(stops.iter().any(|s| *s != stops[0]));
}

#[test]
fn the_schema_has_nodes_kinds_and_slots() {
    let mut source = RandomDataSource::new();
    let info = source.fetch_info();
    assert_eq!(names(info), ("root".to_string(), "root".to_string()));
    assert_eq!(info.nodes(), NODES);
    assert_eq!(info.nodes(), 8192);
    assert!(is_layable(info));
    assert!(info.names_kinds());
    assert_eq!(
        info.kinds(),
        vec!["cpu", "gpu", "omp", "py", "util", "chan", "sysmem"]
            .into_iter()
            .map(String::from)
            .collect::<Vec<String>>()
    );
    let node = &children(info)[17];
    assert_eq!(names(node), ("n17".to_string(), "Node 17".to_string()));
    assert_eq!(children(node).len(), 7);
    let kind = &children(node)[1];
    assert_eq!(names(kind), ("gpu".to_string(), "Node 17 GPU".to_string()));
    assert_eq!(children(kind).len(), 8);
    let slot = &children(kind)[5];
    assert_eq!(names(slot), ("g5".to_string(), "Node 17 GPU 5".to_string()));
    let last = &children(&children(&children(info)[8191])[6])[7];
    assert_eq!(names(last), ("s7".to_string(), "Node 8191 SysMem 7".to_string()));
}

#[test]
fn each_kind_has_a_summary_in_one_of_four_colors() {
    let mut source = RandomDataSource::new();
    let info = source.fetch_info();
    let expected = [Color32::BLUE, Color32::GREEN, Color32::RED, Color32::YELLOW];
    for (k, kind) in children(&children(info)[0]).iter().enumerate() {
        match kind {
            EntryInfo::Panel { summary: Some(s), .. } => match &**s {
                EntryInfo::Summary { color } => assert_eq!(*color, expected[k % 4]),
                _ => panic!("not a summary"),
            },
            _ => panic!("no summary"),
        }
    }
    match &children(info)[0] {
        EntryInfo::Panel { summary, .. } => assert!(summary.is_none()),
        _ => panic!("not a panel"),
    }
}

#[test]
fn slots_have_fewer_than_64_rows_drawn_at_random() {
    let mut source = RandomDataSource::new();
    let info = source.fetch_info();
    let mut seen = std::collections::BTreeSet::new();
    for node in children(info).iter().take(64) {
        for kind in children(node) {
            for slot in children(kind) {
                match slot {
                    EntryInfo::Slot { max_rows, .. } => {
                        assert!(*max_rows < 64);
                        seen.insert(*max_rows);
                    }
                    _ => panic!("not a slot"),
                }
            }
        }
    }
    assert!(seen.len() > 8);
}

#[test]
fn the_schema_is_made_once() {
    let mut source = RandomDataSource::new();
    let first = format!("{:?}", children(source.fetch_info())[3]);
    let second = format!("{:?}", children(source.fetch_info())[3]);
    assert_eq!(first, second);
}

#[test]
fn the_palette_has_the_colors_of_the_viewer() {
    let colors = [
        Color32::BLUE,
        Color32::GREEN,
        Color32::RED,
        Color32::YELLOW,
        Color32::KHAKI,
        Color32::DARK_GREEN,
        Color32::DARK_BLUE,
        Color32::WHITE,
        Color32::WHITE,
    ];
    for (i, color) in colors.iter().enumerate() {
        let (r, g, b) = palette_rgb(i as u64);
        assert_eq!(Color32::from_rgb(r, g, b), *color);
    }
}

#[test]
fn a_requested_window_is_cut_into_three_tiles() {
    let mut source = RandomDataSource::new();
    let tiles = source.request_tiles(&EntryID::root(), interval(0, 900));
    assert_eq!(
        tiles,
        vec![TileID(interval(0, 300)), TileID(interval(300, 600)), TileID(interval(600, 900))]
    );
}

#[test]
fn a_slot_tile_holds_the_items_of_its_interval_clipped() {
    let mut source = RandomDataSource::new();
    let range = source.interval();
    let id = EntryID::root().child(1).child(2).child(3);
    let rows = match source.fetch_info().get(&id) {
        Some(EntryInfo::Slot { max_rows, .. }) => *max_rows,
        _ => panic!("not a slot"),
    };
    let whole = source.fetch_slot_tile(&id, TileID(range));
    assert_eq!(whole.tile_id, TileID(range));
    assert_eq!(whole.items.len() as u64, rows);
    for (r, row) in whole.items.iter().enumerate() {
        assert_eq!(row.len(), 1000);
        for (i, item) in row.iter().enumerate() {
            let d = range.stop.0 as i128;
            let start = ((100 * i as i128 + 5) * d * 2 + 100_000) / 200_000;
            let stop = ((100 * i as i128 + 95) * d * 2 + 100_000) / 200_000;
            assert_eq!(item.interval, interval(start as i64, stop as i64));
            let (red, green, blue) = palette_rgb(((r * 1000 + i) % 7) as u64);
            assert_eq!(item.color, Color32::from_rgb(red, green, blue));
        }
    }
    let tile = TileID(interval(range.stop.0 / 3, range.stop.0 / 2));
    let part = source.fetch_slot_tile(&id, tile);
    assert_eq!(part.items.len() as u64, rows);
    for row in &part.items {
        assert!(row.len() > 100 && row.len() < 200);
        for item in row {
            assert!(item.interval.start <= item.interval.stop);
            assert!(item.interval.start >= tile.0.start);
            assert!(item.interval.stop <= tile.0.stop);
        }
    }
}

#[test]
fn a_slot_tile_is_the_same_each_time() {
    let mut source = RandomDataSource::new();
    source.fetch_info();
    let id = EntryID::root().child(0).child(0).child(0);
    let tile = TileID(interval(1000, 50_000));
    let first = format!("{:?}", source.fetch_slot_tile(&id, tile));
    let second = format!("{:?}", source.fetch_slot_tile(&id, tile));
    assert_eq!(first, second);
}

#[test]
fn a_summary_tile_holds_a_curve_in_the_order_of_time() {
    let mut source = RandomDataSource::new();
    let range = source.interval();
    source.fetch_info();
    let id = EntryID::root().child(0).child(0).summary();
    let whole = source.fetch_summary_tile(&id, TileID(range));
    assert_eq!(whole.tile_id, TileID(range));
    assert!(whole.utilization.len() >= 513);
    assert_eq!(whole.utilization.first().unwrap().time, range.start);
    assert_eq!(whole.utilization.last().unwrap().time, range.stop);
    for p in &whole.utilization {
        assert!(p.util <= UTIL_ONE);
        assert!(range.contains(p.time));
    }
    for pair in whole.utilization.windows(2) {
        assert!(pair[0].time <= pair[1].time);
    }
    assert!(whole.utilization.iter().any(|p| p.util != whole.utilization[0].util));
    let tile = TileID(interval(range.stop.0 / 4, range.stop.0 / 2));
    let part = source.fetch_summary_tile(&id, tile);
    assert_eq!(part.utilization.first().unwrap().time, tile.0.start);
    assert_eq!(part.utilization.last().unwrap().time, tile.0.stop);
    for p in &part.utilization {
        assert!(p.util <= UTIL_ONE);
        assert!(tile.0.contains(p.time));
    }
    let again = source.fetch_summary_tile(&id, tile);
    assert_eq!(again.utilization, part.utilization);
}

#[test]
fn the_sample_in_the_middle_is_moved_by_the_noise() {
    let (first, last) = (point(0, 200_000), point(1001, 400_000));
    assert_eq!(midpoint(first, last, 500_000, 0), point(500, 300_000));
    assert_eq!(midpoint(first, last, 600_000, 0), point(500, 400_000));
    assert_eq!(midpoint(first, last, 400_000, 0), point(500, 200_000));
    assert_eq!(midpoint(first, last, 600_000, 1), point(500, 383_333));
    assert_eq!(midpoint(first, last, 400_000, 1), point(500, 216_667));
    assert_eq!(midpoint(first, last, 600_000, 2), point(500, 369_444));
    assert_eq!(midpoint(first, last, 0, 0), point(500, 0));
    assert_eq!(midpoint(first, last, 999_999, 0), point(500, 799_999));
    assert_eq!(midpoint(point(0, 900_000), point(10, 1_000_000), 999_999, 0), point(5, 1_000_000));
    assert_eq!(midpoint(point(-11, 0), point(0, 0), 500_000, 3), point(-5, 0));
}

#[test]
fn the_tiles_of_a_window_are_fetched_once() {
    let mut source = RandomDataSource::new();
    source.fetch_info();
    let mut cache: TileCache<SlotTile> = TileCache::new();
    let id = EntryID::root().child(2).child(0).child(1);
    let window = interval(0, 900_000);
    let first = fetch_tiles(&mut source, &mut cache, &id, window);
    assert_eq!(first.tiles.len(), 3);
    assert_eq!(first.fetched, first.tiles);
    let content: Vec<String> =
        first.tiles.iter().map(|t| format!("{:?}", cache.get(&id, *t).unwrap())).collect();
    let second = fetch_tiles(&mut source, &mut cache, &id, window);
    assert_eq!(second.tiles, first.tiles);
    assert_eq!(second.fetched, vec![]);
    for (tile, before) in first.tiles.iter().zip(&content) {
        let cached = cache.get(&id, *tile).unwrap();
        assert_eq!(&format!("{:?}", cached), before);
        assert_eq!(cached.tile_id, *tile);
    }
}

#[test]
fn another_window_fetches_only_the_tiles_that_are_new() {
    let mut source = RandomDataSource::new();
    source.fetch_info();
    let mut cache: TileCache<SlotTile> = TileCache::new();
    let id = EntryID::root().child(2).child(0).child(1);
    fetch_tiles(&mut source, &mut cache, &id, interval(0, 900));
    cache.complete(&id, TileID(interval(1200, 1500)), SlotTile {
        tile_id: TileID(interval(1200, 1500)),
        items: vec![],
    });
    let next = fetch_tiles(&mut source, &mut cache, &id, interval(600, 1500));
    assert_eq!(
        next.tiles,
        vec![TileID(interval(600, 900)), TileID(interval(900, 1200)), TileID(interval(1200, 1500))]
    );
    assert_eq!(next.fetched, vec![TileID(interval(900, 1200))]);
    assert!(cache.get(&id, TileID(interval(1200, 1500))).unwrap().items.is_empty());
    let other = EntryID::root().child(2).child(0).child(2);
    let third = fetch_tiles(&mut source, &mut cache, &other, interval(600, 1500));
    assert_eq!(third.fetched, third.tiles);
}

#[test]
fn equal_tiles_of_one_window_are_fetched_once() {
    let mut source = RandomDataSource::new();
    source.fetch_info();
    let mut cache: TileCache<SlotTile> = TileCache::new();
    let id = EntryID::root().child(0).child(0).child(0);
    let got = fetch_tiles(&mut source, &mut cache, &id, interval(7, 7));
    assert_eq!(got.tiles, vec![TileID(interval(7, 7)); 3]);
    assert_eq!(got.fetched, vec![TileID(interval(7, 7))]);
}

#[test]
fn the_tiles_of_a_summary_are_fetched_once() {
    let mut source = RandomDataSource::new();
    source.fetch_info();
    let mut cache: TileCache<SummaryTile> = TileCache::new();
    let id = EntryID::root().child(5).child(1).summary();
    let window = interval(100_000, 400_000);
    let first = fetch_tiles(&mut source, &mut cache, &id, window);
    assert_eq!(first.fetched, first.tiles);
    let curve = cache.get(&id, first.tiles[1]).unwrap().utilization.clone();
    let second = fetch_tiles(&mut source, &mut cache, &id, window);
    assert_eq!(second.fetched, vec![]);
    assert_eq!(cache.get(&id, first.tiles[1]).unwrap().utilization, curve);
}
