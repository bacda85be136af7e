use legion_prof_viewer::cache::{Request, TileCache};
use legion_prof_viewer::data::{EntryID, TileID};
use legion_prof_viewer::timestamp::{Interval, Timestamp};

fn tile(start: i64, stop: i64) -> TileID {
    TileID(Interval::new(Timestamp(start), Timestamp(stop)))
}

#[test]
fn a_new_cache_holds_nothing() {
    let cache: TileCache<u32> = TileCache::new();
    assert_eq!(cache.get(&EntryID::root(), tile(0, 10)), None);
}

#[test]
fn the_first_request_for_a_tile_asks_for_a_fetch() {
    let mut cache: TileCache<u32> = TileCache::new();
    let id = EntryID::root().child(0);
    assert_eq!(cache.request(&id, tile(0, 10)), Request::Fetch);
    assert_eq!(cache.get(&id, tile(0, 10)), None);
}

#[test]
fn a_tile_in_flight_is_not_fetched_twice() {
    let mut cache: TileCache<u32> = TileCache::new();
    let id = EntryID::root().child(0);
    assert_eq!(cache.request(&id, tile(0, 10)), Request::Fetch);
    assert_eq!(cache.request(&id, tile(0, 10)), Request::Wait);
    assert_eq!(cache.request(&id, tile(0, 10)), Request::Wait);
}

#[test]
fn a_fetched_tile_is_ready_and_is_not_fetched_again() {
    let mut cache: TileCache<String> = TileCache::new();
    let id = EntryID::root().child(3).child(1);
    let mut backend_calls = 0;
    for _ in 0..2 {
        if cache.request(&id, tile(0, 10)) == Request::Fetch {
            backend_calls += 1;
            cache.complete(&id, tile(0, 10), "content".to_string());
        }
        assert_eq!(cache.get(&id, tile(0, 10)), Some(&"content".to_string()));
    }
    assert_eq!(backend_calls, 1);
    assert_eq!(cache.request(&id, tile(0, 10)), Request::Ready);
}

#[test]
fn what_is_cached_never_changes() {
    let mut cache: TileCache<u32> = TileCache::new();
    let id = EntryID::root();
    cache.complete(&id, tile(0, 10), 1);
    cache.complete(&id, tile(0, 10), 2);
    assert_eq!(cache.get(&id, tile(0, 10)), Some(&1));
    cache.fail(&id, tile(0, 10));
    assert_eq!(cache.get(&id, tile(0, 10)), Some(&1));
}

#[test]
fn a_fetch_that_was_not_asked_for_is_cached_all_the_same() {
    let mut cache: TileCache<u32> = TileCache::new();
    let id = EntryID::root().child(9);
    cache.complete(&id, tile(5, 6), 42);
    assert_eq!(cache.get(&id, tile(5, 6)), Some(&42));
    assert_eq!(cache.request(&id, tile(5, 6)), Request::Ready);
}

#[test]
fn a_failed_fetch_can_be_asked_for_again() {
    let mut cache: TileCache<u32> = TileCache::new();
    let id = EntryID::root().child(0);
    assert_eq!(cache.request(&id, tile(0, 10)), Request::Fetch);
    cache.fail(&id, tile(0, 10));
    assert_eq!(cache.get(&id, tile(0, 10)), None);
    assert_eq!(cache.request(&id, tile(0, 10)), Request::Fetch);
    cache.complete(&id, tile(0, 10), 7);
    assert_eq!(cache.get(&id, tile(0, 10)), Some(&7));
}

#[test]
fn a_failure_of_a_tile_that_is_absent_changes_nothing() {
    let mut cache: TileCache<u32> = TileCache::new();
    let id = EntryID::root().child(0);
    cache.complete(&id, tile(0, 10), 7);
    cache.fail(&id, tile(10, 20));
    assert_eq!(cache.get(&id, tile(0, 10)), Some(&7));
    assert_eq!(cache.request(&id, tile(10, 20)), Request::Fetch);
}

#[test]
fn tiles_are_kept_apart_by_entry_and_by_interval() {
    let mut cache: TileCache<u32> = TileCache::new();
    let a = EntryID::root().child(0);
    let b = EntryID::root().child(1);
    let s = EntryID::root().summary();
    cache.complete(&a, tile(0, 10), 1);
    cache.complete(&a, tile(10, 20), 2);
    cache.complete(&b, tile(0, 10), 3);
    cache.complete(&s, tile(0, 10), 4);
    assert_eq!(cache.get(&a, tile(0, 10)), Some(&1));
    assert_eq!(cache.get(&a, tile(10, 20)), Some(&2));
    assert_eq!(cache.get(&b, tile(0, 10)), Some(&3));
    assert_eq!(cache.get(&s, tile(0, 10)), Some(&4));
    assert_eq!(cache.get(&b, tile(10, 20)), None);
    assert_eq!(cache.get(&a.child(0), tile(0, 10)), None);
}

#[test]
fn a_failure_of_one_tile_leaves_the_others() {
    let mut cache: TileCache<u32> = TileCache::new();
    let id = EntryID::root().child(0);
    cache.complete(&id, tile(0, 10), 1);
    assert_eq!(cache.request(&id, tile(10, 20)), Request::Fetch);
    cache.complete(&id, tile(20, 30), 3);
    cache.fail(&id, tile(10, 20));
    assert_eq!(cache.get(&id, tile(0, 10)), Some(&1));
    assert_eq!(cache.get(&id, tile(20, 30)), Some(&3));
    assert_eq!(cache.request(&id, tile(10, 20)), Request::Fetch);
}
