use egui::Color32;
use legion_prof_viewer::cache::TileCache;
use legion_prof_viewer::data::{
    EntryID, EntryInfo, Item, SlotTile, SummaryTile, TileID, UtilPoint,
};
use legion_prof_viewer::source::{
    fetch_tiles, DataSource, Path, SlotContent, SummaryContent, Tiling,
};
use legion_prof_viewer::tiles::{clip_items, split_interval, summary_tile};
use legion_prof_viewer::timestamp::{Interval, Timestamp};

fn interval(start: i64, stop: i64) -> Interval {
    Interval::new(Timestamp(start), Timestamp(stop))
}

/// A backend with one slot and one summary that counts how often it is
/// asked to fetch.
struct CountingSource {
    info: EntryInfo,
    slot_fetches: Vec<TileID>,
    summary_fetches: Vec<TileID>,
}

impl CountingSource {
    fn new() -> Self {
        CountingSource {
            info: EntryInfo::Panel {
                short_name: "root".to_string(),
                long_name: "root".to_string(),
                summary: Some(Box::new(EntryInfo::Summary { color: Color32::RED })),
                slots: vec![EntryInfo::Slot {
                    short_name: "s".to_string(),
                    long_name: "slot".to_string(),
                    max_rows: 1,
                }],
            },
            slot_fetches: Vec::new(),
            summary_fetches: Vec::new(),
        }
    }
}

impl DataSource for CountingSource {
    fn wf(&self) -> bool {
        true
    }

    fn known_interval(&self) -> Option<Interval> {
        Some(interval(0, 1000))
    }

    fn schema(&self) -> Option<EntryInfo> {
        Some(self.info.clone())
    }

    fn tiling(&self, _path: Path, _window: Interval) -> Option<Tiling> {
        None
    }

    fn slot_content(&self, _path: Path, _tile_id: TileID) -> Option<SlotContent> {
        None
    }

    fn summary_content(&self, _path: Path, _tile_id: TileID) -> Option<SummaryContent> {
        None
    }

    fn interval(&mut self) -> Interval {
        interval(0, 1000)
    }

    fn fetch_info(&mut self) -> &EntryInfo {
        &self.info
    }

    fn request_tiles(&mut self, _entry_id: &EntryID, request_interval: Interval) -> Vec<TileID> {
        // tiles of 100 ns on a fixed grid
        let first = request_interval.start.0.div_euclid(100);
        let last = (request_interval.stop.0 - 1).div_euclid(100).max(first);
        let count = (last - first + 1) as u64;
        let grid = interval(first * 100, (last + 1) * 100);
        let mut tiles = split_interval(grid, count);
        assert!(tiles.len() as u64 == count);
        tiles[0].0.start = request_interval.start;
        let end = tiles.len() - 1;
        tiles[end].0.stop = request_interval.stop;
        tiles
    }

    fn fetch_summary_tile(&mut self, _entry_id: &EntryID, tile_id: TileID) -> SummaryTile {
        self.summary_fetches.push(tile_id);
        let curve = vec![
            UtilPoint { time: Timestamp(0), util: 0 },
            UtilPoint { time: Timestamp(1000), util: 1_000_000 },
        ];
        summary_tile(&curve, tile_id)
    }

    fn fetch_slot_tile(&mut self, _entry_id: &EntryID, tile_id: TileID) -> SlotTile {
        self.slot_fetches.push(tile_id);
        let rows = vec![vec![
            Item { interval: interval(0, 250), color: Color32::BLUE, fields: vec![] },
            Item { interval: interval(250, 1000), color: Color32::GREEN, fields: vec![] },
        ]];
        clip_items(&rows, tile_id)
    }
}

#[test]
fn the_backend_is_asked_once_for_each_tile() {
    let mut source = CountingSource::new();
    let mut cache: TileCache<SlotTile> = TileCache::new();
    let id = EntryID::root().child(0);
    let first = fetch_tiles(&mut source, &mut cache, &id, interval(0, 300));
    assert_eq!(
        first.tiles,
        vec![TileID(interval(0, 100)), TileID(interval(100, 200)), TileID(interval(200, 300))]
    );
    assert_eq!(first.fetched, first.tiles);
    assert_eq!(source.slot_fetches, first.tiles);

    let again = fetch_tiles(&mut source, &mut cache, &id, interval(0, 300));
    assert_eq!(again.tiles, first.tiles);
    assert_eq!(again.fetched, vec![]);
    assert_eq!(source.slot_fetches.len(), 3);
}

#[test]
fn an_overlapping_window_asks_the_backend_for_the_new_tiles_only() {
    let mut source = CountingSource::new();
    let mut cache: TileCache<SlotTile> = TileCache::new();
    let id = EntryID::root().child(0);
    fetch_tiles(&mut source, &mut cache, &id, interval(0, 300));
    let next = fetch_tiles(&mut source, &mut cache, &id, interval(100, 500));
    assert_eq!(next.tiles.len(), 4);
    assert_eq!(next.fetched, vec![TileID(interval(300, 400)), TileID(interval(400, 500))]);
    assert_eq!(source.slot_fetches.len(), 5);
    let back = fetch_tiles(&mut source, &mut cache, &id, interval(0, 500));
    assert_eq!(back.fetched, vec![]);
    assert_eq!(source.slot_fetches.len(), 5);
}

#[test]
fn the_cache_gives_what_the_backend_gave() {
    let mut source = CountingSource::new();
    let mut cache: TileCache<SlotTile> = TileCache::new();
    let id = EntryID::root().child(0);
    fetch_tiles(&mut source, &mut cache, &id, interval(200, 300));
    for _ in 0..2 {
        let tile = cache.get(&id, TileID(interval(200, 300))).unwrap();
        assert_eq!(tile.tile_id, TileID(interval(200, 300)));
        let spans: Vec<(i64, i64)> =
            tile.items[0].iter().map(|i| (i.interval.start.0, i.interval.stop.0)).collect();
        assert_eq!(spans, vec![(200, 250), (250, 300)]);
    }
    assert_eq!(source.slot_fetches.len(), 1);
}

#[test]
fn a_tile_in_flight_is_left_to_the_fetch_that_goes_on() {
    let mut source = CountingSource::new();
    let mut cache: TileCache<SlotTile> = TileCache::new();
    let id = EntryID::root().child(0);
    cache.request(&id, TileID(interval(100, 200)));
    let got = fetch_tiles(&mut source, &mut cache, &id, interval(0, 300));
    assert_eq!(got.fetched, vec![TileID(interval(0, 100)), TileID(interval(200, 300))]);
    assert!(cache.get(&id, TileID(interval(100, 200))).is_none());
    assert!(cache.get(&id, TileID(interval(0, 100))).is_some());
}

#[test]
fn summaries_and_slots_are_cached_apart() {
    let mut source = CountingSource::new();
    let mut slots: TileCache<SlotTile> = TileCache::new();
    let mut summaries: TileCache<SummaryTile> = TileCache::new();
    let slot = EntryID::root().child(0);
    let summary = EntryID::root().summary();
    fetch_tiles(&mut source, &mut slots, &slot, interval(0, 200));
    let got = fetch_tiles(&mut source, &mut summaries, &summary, interval(0, 200));
    assert_eq!(got.fetched, got.tiles);
    assert_eq!(source.summary_fetches.len(), 2);
    let tile = summaries.get(&summary, TileID(interval(100, 200))).unwrap();
    assert_eq!(
        tile.utilization,
        vec![
            UtilPoint { time: Timestamp(100), util: 100_000 },
            UtilPoint { time: Timestamp(200), util: 200_000 },
        ]
    );
    fetch_tiles(&mut source, &mut summaries, &summary, interval(0, 200));
    assert_eq!(source.summary_fetches.len(), 2);
    assert_eq!(source.slot_fetches.len(), 2);
}
