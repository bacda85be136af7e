//! The boundary to the backend that holds the data of a profile, and the
//! fetching of tiles through the cache.

use vstd::prelude::*;
use crate::cache::{TileCache, TileKey, TileState, Request, cached};
use crate::data::{EntryInfo, ItemView, SlotTile, SummaryTile, TileID, UtilPoint, UTIL_ONE, row_views};
use crate::entry_id::{EntryID, EntryIndex};
use crate::window::layable;
use crate::tiles::{is_partition, ordered_by_time, sampled_within, utilization_between};
use crate::timestamp::Interval;

verus! {

/// The path of an entry, as the backend is asked for it.
pub type Path = Seq<EntryIndex>;

/// The tiles into which a window is cut, in their order.
pub type Tiling = Seq<TileID>;

/// What a slot holds in one tile: row by row, what each item holds.
pub type SlotContent = Seq<Seq<ItemView>>;

/// What a summary holds in one tile: its samples.
pub type SummaryContent = Seq<UtilPoint>;

/// Whether every item of every row of `tile` lies in the interval of the
/// tile and does not end before it starts.
pub open spec fn items_within(tile: SlotTile) -> bool {
    forall|row: int, i: int|
        0 <= row < tile.items@.len() && 0 <= i < tile.items@[row]@.len() ==> {
            let item = #[trigger] row_views(tile.items@[row]@)[i];
            &&& item.interval.wf()
            &&& tile.tile_id.0.start.0 <= item.interval.start.0
            &&& item.interval.stop.0 <= tile.tile_id.0.stop.0
        }
}

/// What the rows of a slot tile hold.
pub open spec fn slot_content_of(tile: SlotTile) -> SlotContent {
    Seq::new(tile.items@.len(), |row: int| row_views(tile.items@[row]@))
}

/// What a backend has to offer for a profile to be shown.
///
/// Besides the five things that it is asked for, a backend says what it
/// has given so far: each of these is `None` until the backend has given
/// it, and never changes afterwards. Every call leaves what was given
/// before as it was.
pub trait DataSource {
    /// What must hold of the backend between two calls.
    spec fn wf(&self) -> bool;

    /// The time range of the data, once the backend has given it.
    spec fn known_interval(&self) -> Option<Interval>;

    /// The schema of the hierarchy, once the backend has given it.
    spec fn schema(&self) -> Option<EntryInfo>;

    /// The tiles into which the backend cuts `window` for the entry at
    /// `path`, once it has given them.
    spec fn tiling(&self, path: Path, window: Interval) -> Option<Tiling>;

    /// What the slot at `path` holds in the tile `tile_id`, once the
    /// backend has given it.
    spec fn slot_content(&self, path: Path, tile_id: TileID) -> Option<SlotContent>;

    /// What the summary at `path` holds in the tile `tile_id`, once the
    /// backend has given it.
    spec fn summary_content(&self, path: Path, tile_id: TileID) -> Option<SummaryContent>;

    /// The time range of all the data. Every call gives the same range.
    fn interval(&mut self) -> (r: Interval)
        requires
            old(self).wf(),
        ensures
            final(self).wf(),
            r.wf(),
            final(self).known_interval() == Some(r),
            old(self).known_interval() is Some ==> final(self).known_interval() == old(self).known_interval(),
            old(self).schema() is Some ==> final(self).schema() == old(self).schema(),
            forall|path: Path, window: Interval|
                (#[trigger] old(self).tiling(path, window)) is Some ==> final(self).tiling(
                    path,
                    window,
                ) == old(self).tiling(path, window),
            forall|path: Path, tile_id: TileID|
                (#[trigger] old(self).slot_content(path, tile_id)) is Some ==> final(self).slot_content(path, tile_id) == old(self).slot_content(path, tile_id),
            forall|path: Path, tile_id: TileID|
                (#[trigger] old(self).summary_content(path, tile_id)) is Some ==> final(self).summary_content(path, tile_id) == old(self).summary_content(path, tile_id),
    ;

    /// The schema of the hierarchy. It is made once; every call gives the
    /// same schema.
    fn fetch_info(&mut self) -> (r: &EntryInfo)
        requires
            old(self).wf(),
        ensures
            final(self).wf(),
            layable(*r),
            *r is Panel,
            final(self).schema() == Some(*r),
            old(self).known_interval() is Some ==> final(self).known_interval() == old(self).known_interval(),
            old(self).schema() is Some ==> final(self).schema() == old(self).schema(),
            forall|path: Path, window: Interval|
                (#[trigger] old(self).tiling(path, window)) is Some ==> final(self).tiling(
                    path,
                    window,
                ) == old(self).tiling(path, window),
            forall|path: Path, tile_id: TileID|
                (#[trigger] old(self).slot_content(path, tile_id)) is Some ==> final(self).slot_content(path, tile_id) == old(self).slot_content(path, tile_id),
            forall|path: Path, tile_id: TileID|
                (#[trigger] old(self).summary_content(path, tile_id)) is Some ==> final(self).summary_content(path, tile_id) == old(self).summary_content(path, tile_id),
    ;

    /// Cuts `request_interval` into the tiles in which the data of the
    /// entry is handed out: consecutive pieces without a gap. Every call
    /// for the same entry and interval gives the same tiles.
    fn request_tiles(&mut self, entry_id: &EntryID, request_interval: Interval) -> (r: Vec<TileID>)
        requires
            old(self).wf(),
            request_interval.wf(),
        ensures
            final(self).wf(),
            is_partition(r@, request_interval),
            final(self).tiling(entry_id@, request_interval) == Some(r@),
            old(self).known_interval() is Some ==> final(self).known_interval() == old(self).known_interval(),
            old(self).schema() is Some ==> final(self).schema() == old(self).schema(),
            forall|path: Path, window: Interval|
                (#[trigger] old(self).tiling(path, window)) is Some ==> final(self).tiling(
                    path,
                    window,
                ) == old(self).tiling(path, window),
            forall|path: Path, tile_id: TileID|
                (#[trigger] old(self).slot_content(path, tile_id)) is Some ==> final(self).slot_content(path, tile_id) == old(self).slot_content(path, tile_id),
            forall|path: Path, tile_id: TileID|
                (#[trigger] old(self).summary_content(path, tile_id)) is Some ==> final(self).summary_content(path, tile_id) == old(self).summary_content(path, tile_id),
    ;

    /// The part of the utilization curve of a summary that lies in one
    /// tile. Every call for the same summary and tile gives the same
    /// samples.
    fn fetch_summary_tile(&mut self, entry_id: &EntryID, tile_id: TileID) -> (r: SummaryTile)
        requires
            old(self).wf(),
            tile_id.0.wf(),
            names_summary(old(self).schema(), entry_id@),
        ensures
            final(self).wf(),
            r.tile_id == tile_id,
            sampled_within(r.utilization@, tile_id.0),
            ordered_by_time(r.utilization@),
            utilization_between(r.utilization@, 0, UTIL_ONE as int),
            final(self).summary_content(entry_id@, tile_id) == Some(r.utilization@),
            old(self).known_interval() is Some ==> final(self).known_interval() == old(self).known_interval(),
            old(self).schema() is Some ==> final(self).schema() == old(self).schema(),
            forall|path: Path, window: Interval|
                (#[trigger] old(self).tiling(path, window)) is Some ==> final(self).tiling(
                    path,
                    window,
                ) == old(self).tiling(path, window),
            forall|path: Path, tile_id: TileID|
                (#[trigger] old(self).slot_content(path, tile_id)) is Some ==> final(self).slot_content(path, tile_id) == old(self).slot_content(path, tile_id),
            forall|path: Path, tile_id: TileID|
                (#[trigger] old(self).summary_content(path, tile_id)) is Some ==> final(self).summary_content(path, tile_id) == old(self).summary_content(path, tile_id),
    ;

    /// The items of a slot that lie in one tile, each cut down to the part
    /// of it that lies in the tile. Every call for the same slot and tile
    /// gives the same items.
    fn fetch_slot_tile(&mut self, entry_id: &EntryID, tile_id: TileID) -> (r: SlotTile)
        requires
            old(self).wf(),
            tile_id.0.wf(),
            names_slot(old(self).schema(), entry_id@),
        ensures
            final(self).wf(),
            r.tile_id == tile_id,
            items_within(r),
            final(self).slot_content(entry_id@, tile_id) == Some(slot_content_of(r)),
            old(self).known_interval() is Some ==> final(self).known_interval() == old(self).known_interval(),
            old(self).schema() is Some ==> final(self).schema() == old(self).schema(),
            forall|path: Path, window: Interval|
                (#[trigger] old(self).tiling(path, window)) is Some ==> final(self).tiling(
                    path,
                    window,
                ) == old(self).tiling(path, window),
            forall|path: Path, tile_id: TileID|
                (#[trigger] old(self).slot_content(path, tile_id)) is Some ==> final(self).slot_content(path, tile_id) == old(self).slot_content(path, tile_id),
            forall|path: Path, tile_id: TileID|
                (#[trigger] old(self).summary_content(path, tile_id)) is Some ==> final(self).summary_content(path, tile_id) == old(self).summary_content(path, tile_id),
    ;
}

/// Whether `path` names a slot of the schema, which must be known.
pub open spec fn names_slot(schema: Option<EntryInfo>, path: Seq<EntryIndex>) -> bool {
    schema matches Some(info) && info.admits(path) && info.lookup(path) matches Some(
        EntryInfo::Slot { .. },
    )
}

/// Whether `path` names a summary of the schema, which must be known.
pub open spec fn names_summary(schema: Option<EntryInfo>, path: Seq<EntryIndex>) -> bool {
    schema matches Some(info) && info.admits(path) && info.lookup(path) matches Some(
        EntryInfo::Summary { .. },
    )
}

/// Whether the backend `after` still gives all that the backend `before`
/// had given: the same time range, schema, tiles and contents.
pub open spec fn keeps<D: DataSource + ?Sized>(before: &D, after: &D) -> bool {
    &&& before.known_interval() is Some ==> after.known_interval() == before.known_interval()
    &&& before.schema() is Some ==> after.schema() == before.schema()
    &&& forall|path: Path, window: Interval|
        (#[trigger] before.tiling(path, window)) is Some ==> after.tiling(path, window)
            == before.tiling(path, window)
    &&& forall|path: Path, tile_id: TileID|
        (#[trigger] before.slot_content(path, tile_id)) is Some ==> after.slot_content(
            path,
            tile_id,
        ) == before.slot_content(path, tile_id)
    &&& forall|path: Path, tile_id: TileID|
        (#[trigger] before.summary_content(path, tile_id)) is Some ==> after.summary_content(
            path,
            tile_id,
        ) == before.summary_content(path, tile_id)
}

/// A kind of tile that a backend of the type `D` hands out and the cache
/// keeps.
pub trait Tile<D: DataSource>: Sized {
    /// Whether `path` names an entry of the schema that has tiles of this
    /// kind.
    spec fn named(schema: Option<EntryInfo>, path: Path) -> bool;

    /// Only an entry of a schema that is known has tiles.
    proof fn named_is_known(schema: Option<EntryInfo>, path: Path)
        requires
            Self::named(schema, path),
        ensures
            schema is Some,
    ;

    /// Whether this tile is what the backend `source` has given for the
    /// tile `tile_id` of the entry at `path`.
    spec fn held_by(&self, source: &D, path: Path, tile_id: TileID) -> bool;

    /// What a backend has given for a tile, it gives ever after.
    proof fn held_stays(&self, before: &D, after: &D, path: Path, tile_id: TileID)
        requires
            self.held_by(before, path, tile_id),
            keeps(before, after),
        ensures
            self.held_by(after, path, tile_id),
    ;

    /// Fetches the tile `tile_id` of the entry `entry_id` from the backend.
    fn fetch(source: &mut D, entry_id: &EntryID, tile_id: TileID) -> (tile: Self)
        requires
            old(source).wf(),
            tile_id.0.wf(),
            Self::named(old(source).schema(), entry_id@),
        ensures
            final(source).wf(),
            keeps(old(source), final(source)),
            tile.held_by(final(source), entry_id@, tile_id),
    ;
}

impl<D: DataSource> Tile<D> for SlotTile {
    open spec fn named(schema: Option<EntryInfo>, path: Path) -> bool {
        names_slot(schema, path)
    }

    open spec fn held_by(&self, source: &D, path: Path, tile_id: TileID) -> bool {
        &&& self.tile_id == tile_id
        &&& items_within(*self)
        &&& source.slot_content(path, tile_id) == Some(slot_content_of(*self))
    }

    proof fn named_is_known(schema: Option<EntryInfo>, path: Path) {
    }

    proof fn held_stays(&self, before: &D, after: &D, path: Path, tile_id: TileID) {
    }

    fn fetch(source: &mut D, entry_id: &EntryID, tile_id: TileID) -> (tile: Self) {
        source.fetch_slot_tile(entry_id, tile_id)
    }
}

impl<D: DataSource> Tile<D> for SummaryTile {
    open spec fn named(schema: Option<EntryInfo>, path: Path) -> bool {
        names_summary(schema, path)
    }

    open spec fn held_by(&self, source: &D, path: Path, tile_id: TileID) -> bool {
        &&& self.tile_id == tile_id
        &&& sampled_within(self.utilization@, tile_id.0)
        &&& ordered_by_time(self.utilization@)
        &&& utilization_between(self.utilization@, 0, UTIL_ONE as int)
        &&& source.summary_content(path, tile_id) == Some(self.utilization@)
    }

    proof fn named_is_known(schema: Option<EntryInfo>, path: Path) {
    }

    proof fn held_stays(&self, before: &D, after: &D, path: Path, tile_id: TileID) {
    }

    fn fetch(source: &mut D, entry_id: &EntryID, tile_id: TileID) -> (tile: Self) {
        source.fetch_summary_tile(entry_id, tile_id)
    }
}

/// Whether `after` is `before` with the tiles `added` of the entry at
/// `path` put in, cached, and nothing taken away or changed.
pub open spec fn grown_by<T>(
    before: Map<TileKey, TileState<T>>,
    after: Map<TileKey, TileState<T>>,
    path: Seq<EntryIndex>,
    added: Seq<TileID>,
) -> bool {
    &&& forall|key: TileKey|
        after.dom().contains(key) <==> before.dom().contains(key) || (key.0 == path
            && added.contains(key.1))
    &&& forall|key: TileKey| #[trigger]
        before.dom().contains(key) ==> after[key] == before[key]
    &&& forall|i: int|
        0 <= i < added.len() ==> !before.dom().contains((path, #[trigger] added[i])) && after[(
            path,
            added[i],
        )] is Cached
}

/// What a request for the tiles of a window has brought: the tiles that
/// cover the window, and those of them that had to be fetched.
#[derive(Debug)]
pub struct Fetched {
    pub tiles: Vec<TileID>,
    pub fetched: Vec<TileID>,
}

/// Those of the first `n` of `tiles` that are absent from a cache with the
/// keys `before`, in order and each once.
pub open spec fn fetched_of(
    before: Set<TileKey>,
    path: Seq<EntryIndex>,
    tiles: Seq<TileID>,
    n: int,
) -> Seq<TileID>
    decreases n,
{
    if n <= 0 || n > tiles.len() {
        Seq::empty()
    } else {
        let earlier = fetched_of(before, path, tiles, n - 1);
        if before.contains((path, tiles[n - 1])) || earlier.contains(tiles[n - 1]) {
            earlier
        } else {
            earlier.push(tiles[n - 1])
        }
    }
}

/// One more tile gone through: what the cache has grown by is what had to
/// be fetched of the tiles so far.
proof fn lemma_grown_step<T>(
    before: Map<TileKey, TileState<T>>,
    held: Map<TileKey, TileState<T>>,
    after: Map<TileKey, TileState<T>>,
    path: Seq<EntryIndex>,
    tiles: Seq<TileID>,
    n: int,
    fetched: bool,
)
    requires
        0 <= n < tiles.len(),
        grown_by(before, held, path, fetched_of(before.dom(), path, tiles, n)),
        fetched == !held.dom().contains((path, tiles[n])),
        !fetched ==> after == held,
        fetched ==> after.dom() == held.dom().insert((path, tiles[n])) && after[(
            path,
            tiles[n],
        )] is Cached && forall|key: TileKey| #[trigger]
            held.dom().contains(key) ==> after[key] == held[key],
    ensures
        grown_by(before, after, path, fetched_of(before.dom(), path, tiles, n + 1)),
        after.dom().contains((path, tiles[n])),
        fetched_of(before.dom(), path, tiles, n + 1) == if fetched {
            fetched_of(before.dom(), path, tiles, n).push(tiles[n])
        } else {
            fetched_of(before.dom(), path, tiles, n)
        },
{
    let earlier = fetched_of(before.dom(), path, tiles, n);
    let later = fetched_of(before.dom(), path, tiles, n + 1);
    let key = (path, tiles[n]);
    if fetched {
        assert(!before.dom().contains(key));
        assert(!earlier.contains(tiles[n]));
        assert(later == earlier.push(tiles[n]));
        assert forall|k: TileKey|
            after.dom().contains(k) <==> before.dom().contains(k) || (k.0 == path
                && later.contains(k.1)) by {
            if k.0 == path && later.contains(k.1) {
                let at = choose|at: int| 0 <= at < later.len() && later[at] == k.1;
                if at < earlier.len() {
                    assert(earlier[at] == k.1);
                }
            }
            if k.0 == path && earlier.contains(k.1) {
                let at = choose|at: int| 0 <= at < earlier.len() && earlier[at] == k.1;
                assert(later[at] == k.1);
            }
            if k == key {
                assert(later[earlier.len() as int] == k.1);
            }
        }
        assert forall|i: int| 0 <= i < later.len() implies !before.dom().contains(
            (path, #[trigger] later[i]),
        ) && after[(path, later[i])] is Cached by {
            if i < earlier.len() {
                assert(later[i] == earlier[i]);
                assert(held.dom().contains((path, earlier[i])));
            }
        }
    } else {
        assert(held.dom().contains(key));
        if !before.dom().contains(key) {
            assert(earlier.contains(tiles[n]));
        }
        assert(later == earlier);
    }
}

/// Whether each of the tiles `fetched` of the entry at `path` is cached
/// with what the backend `source` has given for it.
pub open spec fn cached_from<D: DataSource, T: Tile<D>>(
    cache: Map<TileKey, TileState<T>>,
    source: &D,
    path: Path,
    fetched: Seq<TileID>,
) -> bool {
    forall|i: int|
        0 <= i < fetched.len() ==> (cached(cache, (path, #[trigger] fetched[i])) matches Some(
            tile,
        ) && tile.held_by(source, path, fetched[i]))
}

/// Brings one tile of an entry into the cache: if it is absent it is
/// fetched from the backend and cached with what the backend gave; if not,
/// nothing is done. The answer says whether the tile was fetched.
fn fetch_tile_into<D: DataSource, T: Tile<D>>(
    source: &mut D,
    cache: &mut TileCache<T>,
    entry_id: &EntryID,
    tile_id: TileID,
) -> (fetched: bool)
    requires
        old(source).wf(),
        old(cache).wf(),
        tile_id.0.wf(),
        T::named(old(source).schema(), entry_id@),
    ensures
        final(source).wf(),
        final(cache).wf(),
        keeps(old(source), final(source)),
        fetched == !old(cache)@.dom().contains((entry_id@, tile_id)),
        !fetched ==> final(cache)@ == old(cache)@ && final(source).schema() == old(source).schema(),
        fetched ==> final(cache)@.dom() == old(cache)@.dom().insert((entry_id@, tile_id))
            && (cached(final(cache)@, (entry_id@, tile_id)) matches Some(tile) && tile.held_by(
            final(source),
            entry_id@,
            tile_id,
        )) && forall|key: TileKey| #[trigger]
            old(cache)@.dom().contains(key) ==> final(cache)@[key] == old(cache)@[key],
{
    match cache.request(entry_id, tile_id) {
        Request::Fetch => {
            let tile = T::fetch(source, entry_id, tile_id);
            cache.complete(entry_id, tile_id, tile);
            assert(final(cache)@.dom() =~= old(cache)@.dom().insert((entry_id@, tile_id)));
            true
        },
        _ => false,
    }
}

/// Brings the tiles of the entry `entry_id` that cover `window` into the
/// cache. The backend says which tiles these are; each of them that is
/// absent from the cache is fetched from the backend, once, and cached with
/// what the backend gave. A tile that is cached, or being fetched, is not
/// fetched again.
pub fn fetch_tiles<D: DataSource, T: Tile<D>>(
    source: &mut D,
    cache: &mut TileCache<T>,
    entry_id: &EntryID,
    window: Interval,
) -> (r: Fetched)
    requires
        old(source).wf(),
        old(cache).wf(),
        window.wf(),
        T::named(old(source).schema(), entry_id@),
    ensures
        final(source).wf(),
        final(cache).wf(),
        keeps(old(source), final(source)),
        final(source).tiling(entry_id@, window) == Some(r.tiles@),
        is_partition(r.tiles@, window),
        r.fetched@ == fetched_of(old(cache)@.dom(), entry_id@, r.tiles@, r.tiles@.len() as int),
        grown_by(old(cache)@, final(cache)@, entry_id@, r.fetched@),
        cached_from(final(cache)@, final(source), entry_id@, r.fetched@),
        forall|i: int|
            0 <= i < r.tiles@.len() ==> final(cache)@.dom().contains(
                (entry_id@, #[trigger] r.tiles@[i]),
            ),
{
    proof {
        T::named_is_known(old(source).schema(), entry_id@);
    }
    let tiles = source.request_tiles(entry_id, window);
    let mut fetched: Vec<TileID> = Vec::new();
    let ghost before = cache@;
    let mut i: usize = 0;
    while i < tiles.len()
        invariant
            source.wf(),
            cache.wf(),
            keeps(old(source), source),
            old(source).schema() is Some,
            T::named(old(source).schema(), entry_id@),
            source.tiling(entry_id@, window) == Some(tiles@),
            is_partition(tiles@, window),
            before == old(cache)@,
            i <= tiles@.len(),
            fetched@ == fetched_of(before.dom(), entry_id@, tiles@, i as int),
            grown_by(before, cache@, entry_id@, fetched@),
            cached_from(cache@, source, entry_id@, fetched@),
            forall|k: int|
                0 <= k < i ==> cache@.dom().contains((entry_id@, #[trigger] tiles@[k])),
        decreases tiles@.len() - i,
    {
        let tile_id = tiles[i];
        let ghost held = cache@;
        let ghost names = fetched@;
        let ghost earlier = *source;
        assert(tiles@[i as int].0.wf());
        let was_fetched = fetch_tile_into(source, cache, entry_id, tile_id);
        if was_fetched {
            fetched.push(tile_id);
        }
        proof {
            lemma_grown_step(before, held, cache@, entry_id@, tiles@, i as int, was_fetched);
            assert forall|k: int| 0 <= k < i implies cache@.dom().contains(
                (entry_id@, #[trigger] tiles@[k]),
            ) by {
                assert(held.dom().contains((entry_id@, tiles@[k])));
            }
            assert forall|k: int| 0 <= k < fetched@.len() implies (cached(
                cache@,
                (entry_id@, #[trigger] fetched@[k]),
            ) matches Some(tile) && tile.held_by(source, entry_id@, fetched@[k])) by {
                if k < names.len() {
                    let kept = cached(held, (entry_id@, names[k]))->Some_0;
                    assert(held.dom().contains((entry_id@, names[k])));
                    kept.held_stays(&earlier, source, entry_id@, names[k]);
                }
            }
        }
        i += 1;
    }
    Fetched { tiles, fetched }
}

} // verus!
