use egui::Color32;
use legion_prof_viewer::data::{Field, Item, SummaryTile, TileID, UtilPoint, UTIL_ONE};
use legion_prof_viewer::tiles::{
    clip_items, clip_items_of_row, interpolate_at, split_interval, summary_tile, utilization_text,
};
use legion_prof_viewer::timestamp::{Interval, Timestamp};

fn interval(start: i64, stop: i64) -> Interval {
    Interval::new(Timestamp(start), Timestamp(stop))
}

fn item(start: i64, stop: i64) -> Item {
    Item {
        interval: interval(start, stop),
        color: Color32::BLUE,
        fields: vec![("Name".to_string(), Field::String(format!("{}-{}", start, stop)))],
    }
}

fn point(time: i64, util: u32) -> UtilPoint {
    UtilPoint { time: Timestamp(time), util }
}

fn spans(row: &[Item]) -> Vec<(i64, i64)> {
    row.iter().map(|i| (i.interval.start.0, i.interval.stop.0)).collect()
}

#[test]
fn a_window_is_cut_into_three_equal_tiles() {
    let tiles = split_interval(interval(0, 900), 3);
    assert_eq!(
        tiles,
        vec![TileID(interval(0, 300)), TileID(interval(300, 600)), TileID(interval(600, 900))]
    );
}

#[test]
fn tile_boundaries_are_rounded_down() {
    let tiles = split_interval(interval(10, 20), 3);
    assert_eq!(
        tiles,
        vec![TileID(interval(10, 13)), TileID(interval(13, 16)), TileID(interval(16, 20))]
    );
}

#[test]
fn one_tile_is_the_window() {
    assert_eq!(split_interval(interval(-5, 7), 1), vec![TileID(interval(-5, 7))]);
}

#[test]
fn a_window_without_duration_is_cut_into_points() {
    let tiles = split_interval(interval(4, 4), 3);
    assert_eq!(tiles, vec![TileID(interval(4, 4)); 3]);
}

#[test]
fn the_widest_window_is_cut_without_overflow() {
    let window = interval(i64::MIN, i64::MAX);
    let tiles = split_interval(window, 3);
    assert_eq!(tiles.len(), 3);
    assert_eq!(tiles[0].0.start, window.start);
    assert_eq!(tiles[2].0.stop, window.stop);
    assert_eq!(tiles[0].0.stop, Timestamp(-3074457345618258603));
    assert_eq!(tiles[1].0.stop, Timestamp(3074457345618258602));
}

#[test]
fn tiles_cover_the_window_without_gap_or_double_cover() {
    for (start, stop, count) in [(0i64, 1_000_000i64, 3u64), (17, 23, 5), (-100, 100, 7), (0, 2, 4)] {
        let window = interval(start, stop);
        let tiles = split_interval(window, count);
        assert_eq!(tiles.len() as u64, count);
        assert_eq!(tiles[0].0.start, window.start);
        assert_eq!(tiles[tiles.len() - 1].0.stop, window.stop);
        let mut union = tiles[0].0;
        for pair in tiles.windows(2) {
            assert_eq!(pair[0].0.stop, pair[1].0.start);
        }
        for tile in &tiles {
            assert!(tile.0.start <= tile.0.stop);
            union = union.union(tile.0);
        }
        assert_eq!(union, window);
        for i in 0..tiles.len() {
            for j in (i + 1)..tiles.len() {
                assert!(tiles[i].0.stop <= tiles[j].0.start);
            }
        }
        for t in start..=stop {
            assert!(tiles.iter().any(|tile| tile.0.contains(Timestamp(t))));
        }
    }
}

#[test]
fn an_item_over_the_edge_of_a_tile_is_clipped() {
    let row = vec![item(90, 110)];
    let clipped = clip_items_of_row(&row, TileID(interval(0, 100)));
    assert_eq!(spans(&clipped), vec![(90, 100)]);
    assert_eq!(clipped[0].color, Color32::BLUE);
    assert_eq!(format!("{:?}", clipped[0].fields), format!("{:?}", row[0].fields));
}

#[test]
fn items_outside_a_tile_are_left_out() {
    let row = vec![item(0, 10), item(20, 30), item(95, 100), item(100, 120), item(101, 130)];
    let clipped = clip_items_of_row(&row, TileID(interval(25, 100)));
    assert_eq!(spans(&clipped), vec![(25, 30), (95, 100), (100, 100)]);
}

#[test]
fn an_item_wider_than_the_tile_is_cut_on_both_sides() {
    let clipped = clip_items_of_row(&vec![item(0, 1000)], TileID(interval(100, 200)));
    assert_eq!(spans(&clipped), vec![(100, 200)]);
}

#[test]
fn rows_are_clipped_one_by_one() {
    let rows = vec![vec![item(0, 10), item(50, 60)], vec![], vec![item(55, 70)]];
    let tile = clip_items(&rows, TileID(interval(52, 58)));
    assert_eq!(tile.tile_id, TileID(interval(52, 58)));
    assert_eq!(tile.items.len(), 3);
    assert_eq!(spans(&tile.items[0]), vec![(52, 58)]);
    assert_eq!(spans(&tile.items[1]), vec![]);
    assert_eq!(spans(&tile.items[2]), vec![(55, 58)]);
}

#[test]
fn the_curve_is_read_off_the_line_between_two_samples() {
    assert_eq!(interpolate_at(point(0, 0), point(100, 1000), Timestamp(25)), 250);
    assert_eq!(interpolate_at(point(0, 1000), point(100, 0), Timestamp(25)), 750);
    assert_eq!(interpolate_at(point(0, 10), point(3, 11), Timestamp(1)), 10);
    assert_eq!(interpolate_at(point(0, 10), point(3, 11), Timestamp(2)), 11);
    assert_eq!(interpolate_at(point(0, 500), point(100, 500), Timestamp(60)), 500);
    assert_eq!(interpolate_at(point(7, 123), point(7, 999), Timestamp(7)), 123);
}

#[test]
fn a_summary_tile_holds_the_samples_of_its_interval() {
    let samples = vec![point(0, 0), point(100, 1000), point(200, 0), point(300, 500)];
    let tile = summary_tile(&samples, TileID(interval(50, 250)));
    assert_eq!(tile.tile_id, TileID(interval(50, 250)));
    assert_eq!(
        tile.utilization,
        vec![point(50, 500), point(100, 1000), point(200, 0), point(250, 250)]
    );
}

#[test]
fn a_summary_tile_inside_one_stretch_has_only_its_two_ends() {
    let samples = vec![point(0, 0), point(1000, 1000)];
    let tile = summary_tile(&samples, TileID(interval(100, 300)));
    assert_eq!(tile.utilization, vec![point(100, 100), point(300, 300)]);
}

#[test]
fn a_summary_tile_outside_the_curve_is_empty() {
    let samples = vec![point(0, 0), point(100, 1000)];
    assert_eq!(summary_tile(&samples, TileID(interval(200, 300))).utilization, vec![]);
    assert_eq!(summary_tile(&vec![], TileID(interval(0, 300))).utilization, vec![]);
    assert_eq!(summary_tile(&vec![point(5, 1)], TileID(interval(0, 300))).utilization, vec![]);
}

#[test]
fn a_summary_tile_over_the_whole_curve_starts_and_stops_with_it() {
    let samples = vec![point(0, 7), point(50, 900), point(100, 3)];
    let tile = summary_tile(&samples, TileID(interval(0, 100)));
    assert_eq!(tile.utilization.first(), Some(&point(0, 7)));
    assert_eq!(tile.utilization.last(), Some(&point(100, 3)));
    for p in &tile.utilization {
        assert!(p.time.0 >= 0 && p.time.0 <= 100);
        assert!(p.util <= UTIL_ONE);
    }
    for pair in tile.utilization.windows(2) {
        assert!(pair[0].time <= pair[1].time);
    }
}

#[test]
fn the_utilization_at_a_time_is_read_off_the_curve() {
    let tile = SummaryTile {
        tile_id: TileID(interval(0, 300)),
        utilization: vec![point(0, 0), point(100, 1000), point(200, 0), point(300, 500)],
    };
    assert_eq!(tile.utilization_at(Timestamp(0)), Some(0));
    assert_eq!(tile.utilization_at(Timestamp(25)), Some(250));
    assert_eq!(tile.utilization_at(Timestamp(100)), Some(1000));
    assert_eq!(tile.utilization_at(Timestamp(150)), Some(500));
    assert_eq!(tile.utilization_at(Timestamp(299)), Some(495));
    assert_eq!(tile.utilization_at(Timestamp(300)), None);
    assert_eq!(tile.utilization_at(Timestamp(-1)), None);
}

#[test]
fn the_utilization_is_shown_in_whole_percent() {
    assert_eq!(utilization_text(0), "0% Utilization");
    assert_eq!(utilization_text(UTIL_ONE), "100% Utilization");
    assert_eq!(utilization_text(500_000), "50% Utilization");
    assert_eq!(utilization_text(4_999), "0% Utilization");
    assert_eq!(utilization_text(5_000), "1% Utilization");
    assert_eq!(utilization_text(994_999), "99% Utilization");
    assert_eq!(utilization_text(995_000), "100% Utilization");
}
