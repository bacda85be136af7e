//! The cache of fetched tiles. A tile of an entry is absent, being fetched,
//! or cached; what has been cached for a tile never changes.

use vstd::prelude::*;
use crate::data::TileID;
use crate::entry_id::{EntryID, EntryIndex};

verus! {

/// What the cache knows of one tile that is not absent.
#[derive(Debug)]
pub enum TileState<T> {
    /// A fetch of the tile has been asked for and has not yet ended.
    InFlight,
    /// The tile has been fetched: this is what it holds.
    Cached(T),
}

/// What is to be done for a tile that is wanted.
#[derive(Debug, Copy, Clone, PartialEq, Eq, Structural)]
pub enum Request {
    /// The tile was absent and is now marked as being fetched: fetch it.
    Fetch,
    /// The tile is already being fetched: show a placeholder meanwhile.
    Wait,
    /// The tile is cached: use it.
    Ready,
}

/// The name of a cached tile: the path of its entry and the tile.
pub type TileKey = (Seq<EntryIndex>, TileID);

struct CacheSlot<T> {
    entry_id: EntryID,
    tile_id: TileID,
    state: TileState<T>,
}

/// The tiles fetched so far, each under its entry and its interval.
pub struct TileCache<T> {
    slots: Vec<CacheSlot<T>>,
}

/// The key of the slot `i`.
spec fn key_at<T>(slots: Seq<CacheSlot<T>>, i: int) -> TileKey {
    (slots[i].entry_id@, slots[i].tile_id)
}

/// Whether the slot `i` holds the key `key`.
spec fn holds_key<T>(slots: Seq<CacheSlot<T>>, key: TileKey, i: int) -> bool {
    0 <= i < slots.len() && key_at(slots, i) == key
}

/// Whether no two slots hold the same key.
spec fn distinct_keys<T>(slots: Seq<CacheSlot<T>>) -> bool {
    forall|i: int, j: int|
        0 <= i < slots.len() && 0 <= j < slots.len() && #[trigger] key_at(slots, i)
            == #[trigger] key_at(slots, j) ==> i == j
}

/// The states that the slots hold, by key.
spec fn map_of<T>(slots: Seq<CacheSlot<T>>) -> Map<TileKey, TileState<T>> {
    Map::new(
        |key: TileKey| exists|i: int| holds_key(slots, key, i),
        |key: TileKey| slots[choose|i: int| holds_key(slots, key, i)].state,
    )
}

/// What a request for `key` leaves in the cache: an absent tile becomes one
/// that is being fetched, and nothing else changes.
pub open spec fn after_request<T>(cache: Map<TileKey, TileState<T>>, key: TileKey) -> Map<
    TileKey,
    TileState<T>,
> {
    if cache.dom().contains(key) {
        cache
    } else {
        cache.insert(key, TileState::InFlight)
    }
}

/// What a request for `key` answers.
pub open spec fn answer_to<T>(cache: Map<TileKey, TileState<T>>, key: TileKey) -> Request {
    if !cache.dom().contains(key) {
        Request::Fetch
    } else if cache[key] is InFlight {
        Request::Wait
    } else {
        Request::Ready
    }
}

/// What the end of a fetch of `key` with the result `value` leaves in the
/// cache: the tile is cached with that result, unless it was cached before:
/// then it keeps what it had.
pub open spec fn after_complete<T>(cache: Map<TileKey, TileState<T>>, key: TileKey, value: T) -> Map<
    TileKey,
    TileState<T>,
> {
    if cache.dom().contains(key) && cache[key] is Cached {
        cache
    } else {
        cache.insert(key, TileState::Cached(value))
    }
}

/// What a failed fetch of `key` leaves in the cache: a tile that was being
/// fetched is absent again, and nothing else changes.
pub open spec fn after_failure<T>(cache: Map<TileKey, TileState<T>>, key: TileKey) -> Map<
    TileKey,
    TileState<T>,
> {
    if cache.dom().contains(key) && cache[key] is InFlight {
        cache.remove(key)
    } else {
        cache
    }
}

/// What the cache holds for `key`, if the tile is cached.
pub open spec fn cached<T>(cache: Map<TileKey, TileState<T>>, key: TileKey) -> Option<T> {
    if cache.dom().contains(key) {
        match cache[key] {
            TileState::Cached(value) => Some(value),
            TileState::InFlight => None,
        }
    } else {
        None
    }
}

/// A slot that holds a key is the one that is chosen for that key.
proof fn lemma_chosen<T>(slots: Seq<CacheSlot<T>>, key: TileKey, i: int)
    requires
        distinct_keys(slots),
        holds_key(slots, key, i),
    ensures
        map_of(slots).dom().contains(key),
        map_of(slots)[key] == slots[i].state,
{
    let j = choose|j: int| holds_key(slots, key, j);
    assert(key_at(slots, i) == key_at(slots, j));
}

/// A key that no slot holds is absent.
proof fn lemma_absent<T>(slots: Seq<CacheSlot<T>>, key: TileKey)
    requires
        forall|i: int| 0 <= i < slots.len() ==> key_at(slots, i) != key,
    ensures
        !map_of(slots).dom().contains(key),
{
    if map_of(slots).dom().contains(key) {
        let j = choose|j: int| holds_key(slots, key, j);
        assert(key_at(slots, j) == key);
    }
}

/// One more slot with a new key is one more key in the map.
proof fn lemma_pushed<T>(slots: Seq<CacheSlot<T>>, slot: CacheSlot<T>)
    requires
        distinct_keys(slots),
        forall|i: int| 0 <= i < slots.len() ==> key_at(slots, i) != (slot.entry_id@, slot.tile_id),
    ensures
        distinct_keys(slots.push(slot)),
        map_of(slots.push(slot)) == map_of(slots).insert(
            (slot.entry_id@, slot.tile_id),
            slot.state,
        ),
{
    let more = slots.push(slot);
    let key = (slot.entry_id@, slot.tile_id);
    assert forall|i: int, j: int|
        0 <= i < more.len() && 0 <= j < more.len() && #[trigger] key_at(more, i)
            == #[trigger] key_at(more, j) implies i == j by {
        if i < slots.len() {
            assert(key_at(more, i) == key_at(slots, i));
        }
        if j < slots.len() {
            assert(key_at(more, j) == key_at(slots, j));
        }
    }
    let target = map_of(slots).insert(key, slot.state);
    assert forall|k: TileKey| map_of(more).dom().contains(k) <==> target.dom().contains(k) by {
        if map_of(more).dom().contains(k) {
            let i = choose|i: int| holds_key(more, k, i);
            if i < slots.len() {
                assert(holds_key(slots, k, i));
            }
        }
        if target.dom().contains(k) {
            if k == key {
                assert(holds_key(more, k, slots.len() as int));
            } else {
                let i = choose|i: int| holds_key(slots, k, i);
                assert(holds_key(more, k, i));
            }
        }
    }
    assert forall|k: TileKey| map_of(more).dom().contains(k) implies map_of(more)[k]
        == target[k] by {
        let i = choose|i: int| holds_key(more, k, i);
        lemma_chosen(more, k, i);
        if i < slots.len() {
            assert(holds_key(slots, k, i));
            lemma_chosen(slots, k, i);
        }
    }
    assert(map_of(more) =~= target);
}

/// A slot that takes a new state under its old key changes that key in the
/// map.
proof fn lemma_updated<T>(slots: Seq<CacheSlot<T>>, at: int, slot: CacheSlot<T>)
    requires
        distinct_keys(slots),
        0 <= at < slots.len(),
        key_at(slots, at) == (slot.entry_id@, slot.tile_id),
    ensures
        distinct_keys(slots.update(at, slot)),
        map_of(slots.update(at, slot)) == map_of(slots).insert(
            (slot.entry_id@, slot.tile_id),
            slot.state,
        ),
{
    let other = slots.update(at, slot);
    let key = (slot.entry_id@, slot.tile_id);
    assert forall|i: int| 0 <= i < slots.len() implies key_at(other, i) == key_at(slots, i) by {}
    assert forall|i: int, j: int|
        0 <= i < other.len() && 0 <= j < other.len() && #[trigger] key_at(other, i)
            == #[trigger] key_at(other, j) implies i == j by {
        assert(key_at(slots, i) == key_at(slots, j));
    }
    let target = map_of(slots).insert(key, slot.state);
    assert forall|k: TileKey| map_of(other).dom().contains(k) <==> target.dom().contains(k) by {
        if map_of(other).dom().contains(k) {
            let i = choose|i: int| holds_key(other, k, i);
            assert(holds_key(slots, k, i));
        }
        if target.dom().contains(k) {
            if k == key {
                assert(holds_key(other, k, at));
            } else {
                let i = choose|i: int| holds_key(slots, k, i);
                assert(holds_key(other, k, i));
            }
        }
    }
    assert forall|k: TileKey| map_of(other).dom().contains(k) implies map_of(other)[k]
        == target[k] by {
        let i = choose|i: int| holds_key(other, k, i);
        lemma_chosen(other, k, i);
        assert(holds_key(slots, k, i));
        lemma_chosen(slots, k, i);
    }
    assert(map_of(other) =~= target);
}

/// A slot taken out is a key taken out of the map.
proof fn lemma_removed<T>(slots: Seq<CacheSlot<T>>, at: int)
    requires
        distinct_keys(slots),
        0 <= at < slots.len(),
    ensures
        distinct_keys(slots.remove(at)),
        map_of(slots.remove(at)) == map_of(slots).remove(key_at(slots, at)),
{
    let fewer = slots.remove(at);
    let key = key_at(slots, at);
    assert forall|i: int| 0 <= i < fewer.len() implies key_at(fewer, i) == key_at(
        slots,
        if i < at {
            i
        } else {
            i + 1
        },
    ) by {}
    assert forall|i: int, j: int|
        0 <= i < fewer.len() && 0 <= j < fewer.len() && #[trigger] key_at(fewer, i)
            == #[trigger] key_at(fewer, j) implies i == j by {
        let a = if i < at {
            i
        } else {
            i + 1
        };
        let b = if j < at {
            j
        } else {
            j + 1
        };
        assert(key_at(slots, a) == key_at(slots, b));
    }
    let target = map_of(slots).remove(key);
    assert forall|k: TileKey| map_of(fewer).dom().contains(k) <==> target.dom().contains(k) by {
        if map_of(fewer).dom().contains(k) {
            let i = choose|i: int| holds_key(fewer, k, i);
            let a = if i < at {
                i
            } else {
                i + 1
            };
            assert(holds_key(slots, k, a));
            assert(key_at(slots, a) == k);
            if k == key {
                assert(key_at(slots, a) == key_at(slots, at));
            }
        }
        if target.dom().contains(k) {
            let a = choose|a: int| holds_key(slots, k, a);
            assert(a != at);
            let i = if a < at {
                a
            } else {
                a - 1
            };
            assert(holds_key(fewer, k, i));
        }
    }
    assert forall|k: TileKey| map_of(fewer).dom().contains(k) implies map_of(fewer)[k]
        == target[k] by {
        let i = choose|i: int| holds_key(fewer, k, i);
        lemma_chosen(fewer, k, i);
        let a = if i < at {
            i
        } else {
            i + 1
        };
        assert(holds_key(slots, k, a));
        lemma_chosen(slots, k, a);
    }
    assert(map_of(fewer) =~= target);
}

impl<T> View for TileCache<T> {
    type V = Map<TileKey, TileState<T>>;

    closed spec fn view(&self) -> Map<TileKey, TileState<T>> {
        map_of(self.slots@)
    }
}

impl<T> TileCache<T> {
    /// The cache is well formed when it holds each tile once.
    pub closed spec fn wf(&self) -> bool {
        distinct_keys(self.slots@)
    }

    /// A cache that holds nothing.
    pub fn new() -> (cache: Self)
        ensures
            cache.wf(),
            cache@ == Map::<TileKey, TileState<T>>::empty(),
    {
        let cache = TileCache { slots: Vec::new() };
        assert(cache@ =~= Map::<TileKey, TileState<T>>::empty()) by {
            assert forall|k: TileKey| !map_of(cache.slots@).dom().contains(k) by {
                lemma_absent(cache.slots@, k);
            }
        }
        cache
    }

    /// The slot that holds the tile, if one does.
    fn find(&self, entry_id: &EntryID, tile_id: TileID) -> (at: Option<usize>)
        ensures
            match at {
                Some(i) => holds_key(self.slots@, (entry_id@, tile_id), i as int),
                None => forall|i: int|
                    0 <= i < self.slots@.len() ==> key_at(self.slots@, i) != (entry_id@, tile_id),
            },
    {
        let mut i: usize = 0;
        while i < self.slots.len()
            invariant
                i <= self.slots@.len(),
                forall|k: int| 0 <= k < i ==> key_at(self.slots@, k) != (entry_id@, tile_id),
            decreases self.slots@.len() - i,
        {
            if self.slots[i].tile_id == tile_id && self.slots[i].entry_id == *entry_id {
                return Some(i);
            }
            i += 1;
        }
        None
    }

    /// What the cache holds for the tile `tile_id` of the entry `entry_id`,
    /// if the tile is cached.
    pub fn get(&self, entry_id: &EntryID, tile_id: TileID) -> (r: Option<&T>)
        requires
            self.wf(),
        ensures
            match r {
                Some(value) => cached(self@, (entry_id@, tile_id)) == Some(*value),
                None => cached(self@, (entry_id@, tile_id)) is None,
            },
    {
        match self.find(entry_id, tile_id) {
            Some(i) => {
                proof {
                    lemma_chosen(self.slots@, (entry_id@, tile_id), i as int);
                }
                match &self.slots[i].state {
                    TileState::Cached(value) => Some(value),
                    TileState::InFlight => None,
                }
            },
            None => {
                proof {
                    lemma_absent(self.slots@, (entry_id@, tile_id));
                }
                None
            },
        }
    }

    /// Asks for the tile `tile_id` of the entry `entry_id`. A tile that is
    /// cached is ready; one that is being fetched is waited for; one that is
    /// absent is marked as being fetched, and the caller is to fetch it.
    pub fn request(&mut self, entry_id: &EntryID, tile_id: TileID) -> (r: Request)
        requires
            old(self).wf(),
        ensures
            final(self).wf(),
            r == answer_to(old(self)@, (entry_id@, tile_id)),
            final(self)@ == after_request(old(self)@, (entry_id@, tile_id)),
    {
        match self.find(entry_id, tile_id) {
            Some(i) => {
                proof {
                    lemma_chosen(self.slots@, (entry_id@, tile_id), i as int);
                }
                match &self.slots[i].state {
                    TileState::Cached(_) => Request::Ready,
                    TileState::InFlight => Request::Wait,
                }
            },
            None => {
                let slot = CacheSlot { entry_id: entry_id.clone(), tile_id, state: TileState::InFlight };
                proof {
                    lemma_absent(self.slots@, (entry_id@, tile_id));
                    lemma_pushed(self.slots@, slot);
                }
                self.slots.push(slot);
                Request::Fetch
            },
        }
    }

    /// Takes in the result of a fetch of the tile `tile_id` of the entry
    /// `entry_id`. The tile is cached from now on, with that result; a tile
    /// that was cached before keeps what it had, and the result is dropped.
    pub fn complete(&mut self, entry_id: &EntryID, tile_id: TileID, value: T)
        requires
            old(self).wf(),
        ensures
            final(self).wf(),
            final(self)@ == after_complete(old(self)@, (entry_id@, tile_id), value),
    {
        match self.find(entry_id, tile_id) {
            Some(i) => {
                proof {
                    lemma_chosen(self.slots@, (entry_id@, tile_id), i as int);
                }
                let fresh = match &self.slots[i].state {
                    TileState::Cached(_) => false,
                    TileState::InFlight => true,
                };
                if fresh {
                    let slot = CacheSlot {
                        entry_id: entry_id.clone(),
                        tile_id,
                        state: TileState::Cached(value),
                    };
                    proof {
                        lemma_updated(self.slots@, i as int, slot);
                    }
                    self.slots.set(i, slot);
                }
            },
            None => {
                let slot = CacheSlot {
                    entry_id: entry_id.clone(),
                    tile_id,
                    state: TileState::Cached(value),
                };
                proof {
                    lemma_absent(self.slots@, (entry_id@, tile_id));
                    lemma_pushed(self.slots@, slot);
                }
                self.slots.push(slot);
            },
        }
    }

    /// Notes that the fetch of the tile `tile_id` of the entry `entry_id`
    /// has failed: the tile is absent again, so that it can be asked for
    /// once more. A tile that is cached stays cached.
    pub fn fail(&mut self, entry_id: &EntryID, tile_id: TileID)
        requires
            old(self).wf(),
        ensures
            final(self).wf(),
            final(self)@ == after_failure(old(self)@, (entry_id@, tile_id)),
    {
        match self.find(entry_id, tile_id) {
            Some(i) => {
                proof {
                    lemma_chosen(self.slots@, (entry_id@, tile_id), i as int);
                }
                let waiting = match &self.slots[i].state {
                    TileState::Cached(_) => false,
                    TileState::InFlight => true,
                };
                if waiting {
                    proof {
                        lemma_removed(self.slots@, i as int);
                    }
                    let _ = self.slots.remove(i);
                }
            },
            None => {
                proof {
                    lemma_absent(self.slots@, (entry_id@, tile_id));
                }
            },
        }
    }
}

/// A tile is fetched once: after the first request for it has been answered
/// by a fetch and the fetch has ended, every further request finds the tile
/// ready, asks for no fetch, and leaves the cache as it is; the cache gives
/// the same content each time, also after a later fetch of the same tile
/// has ended with another result.
pub proof fn lemma_fetched_once<T>(cache: Map<TileKey, TileState<T>>, key: TileKey, first: T, later: T)
    requires
        !cache.dom().contains(key),
    ensures
        answer_to(cache, key) == Request::Fetch,
        ({
            let fetched = after_complete(after_request(cache, key), key, first);
            &&& cached(fetched, key) == Some(first)
            &&& answer_to(fetched, key) == Request::Ready
            &&& after_request(fetched, key) == fetched
            &&& after_complete(fetched, key, later) == fetched
            &&& after_failure(fetched, key) == fetched
        }),
{
}

/// What is cached stays cached, with the same content, whatever is asked
/// for, fetched or failed afterwards.
pub proof fn lemma_cached_stays<T>(
    cache: Map<TileKey, TileState<T>>,
    key: TileKey,
    other: TileKey,
    value: T,
)
    requires
        cached(cache, key) is Some,
    ensures
        cached(after_request(cache, other), key) == cached(cache, key),
        cached(after_complete(cache, other, value), key) == cached(cache, key),
        cached(after_failure(cache, other), key) == cached(cache, key),
{
}

} // verus!
