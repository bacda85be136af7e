//! Tiles: how a window of time is cut into them, and how the items of a
//! slot are cut down to one of them.

use vstd::prelude::*;
use vstd::string::StringExecFns;
use crate::text::{append_decimal, decimal};
use crate::fraction::round_div;
use crate::data::UTIL_ONE;
use crate::data::{Item, ItemView, SlotTile, SummaryTile, TileID, UtilPoint, row_views};
use crate::fraction::{lerp_between, spec_lerp_between, lemma_lerp_between_bounded};
use crate::timestamp::{Interval, Timestamp};

verus! {

/// Whether `tiles` cut `window` into consecutive pieces: the first piece
/// starts where the window starts, each next piece starts where the one
/// before it stops, and the last piece stops where the window stops.
pub open spec fn is_partition(tiles: Seq<TileID>, window: Interval) -> bool {
    &&& tiles.len() > 0
    &&& tiles[0].0.start == window.start
    &&& tiles.last().0.stop == window.stop
    &&& forall|i: int| 0 <= i < tiles.len() ==> (#[trigger] tiles[i]).0.wf()
    &&& forall|i: int|
        0 <= i < tiles.len() - 1 ==> (#[trigger] tiles[i]).0.stop == tiles[i + 1].0.start
}

/// The smallest interval that covers all of `tiles`, which must not be
/// empty.
pub open spec fn union_all(tiles: Seq<TileID>) -> Interval
    decreases tiles.len(),
{
    if tiles.len() <= 1 {
        tiles[0].0
    } else {
        union_all(tiles.drop_last()).union(tiles.last().0)
    }
}

/// Where the piece number `i` of `count` equal pieces of `window` starts.
pub open spec fn boundary(window: Interval, count: int, i: int) -> int {
    window.start.0 + (i * window.duration()) / count
}

/// The pieces of a partition lie in the window one after another: a later
/// piece starts no earlier than an earlier piece stops, so that two pieces
/// have at most one point in common.
pub proof fn lemma_partition_ordered(tiles: Seq<TileID>, window: Interval, i: int, j: int)
    requires
        is_partition(tiles, window),
        0 <= i < j < tiles.len(),
    ensures
        window.start.0 <= tiles[i].0.start.0,
        tiles[i].0.stop.0 <= tiles[j].0.start.0,
        tiles[j].0.stop.0 <= window.stop.0,
    decreases j - i, tiles.len() - j, i,
{
    if i + 1 < j {
        lemma_partition_ordered(tiles, window, i + 1, j);
        assert(tiles[i].0.stop == tiles[i + 1].0.start);
        assert(tiles[i + 1].0.wf());
        lemma_starts_after(tiles, window, i);
    } else {
        assert(tiles[i].0.stop == tiles[i + 1].0.start);
        lemma_starts_after(tiles, window, i);
        lemma_stops_before(tiles, window, j);
    }
}

/// No piece of a partition starts before the window.
proof fn lemma_starts_after(tiles: Seq<TileID>, window: Interval, i: int)
    requires
        is_partition(tiles, window),
        0 <= i < tiles.len(),
    ensures
        window.start.0 <= tiles[i].0.start.0,
    decreases i,
{
    if i > 0 {
        lemma_starts_after(tiles, window, i - 1);
        assert(tiles[i - 1].0.stop == tiles[i - 1 + 1].0.start);
        assert(tiles[i - 1].0.wf());
    }
}

/// No piece of a partition stops after the window.
proof fn lemma_stops_before(tiles: Seq<TileID>, window: Interval, i: int)
    requires
        is_partition(tiles, window),
        0 <= i < tiles.len(),
    ensures
        tiles[i].0.stop.0 <= window.stop.0,
    decreases tiles.len() - i,
{
    if i < tiles.len() - 1 {
        lemma_stops_before(tiles, window, i + 1);
        assert(tiles[i].0.stop == tiles[i + 1].0.start);
        assert(tiles[i + 1].0.wf());
    }
}

/// A partition leaves no gap: every point of the window lies in a piece.
pub proof fn lemma_partition_covers(tiles: Seq<TileID>, window: Interval, point: Timestamp) -> (i: int)
    requires
        is_partition(tiles, window),
        window.contains(point),
    ensures
        0 <= i < tiles.len(),
        tiles[i].0.contains(point),
{
    lemma_covers_from(tiles, window, point, 0)
}

/// A point of the window that is not before piece `from` lies in that piece
/// or in a later one.
proof fn lemma_covers_from(tiles: Seq<TileID>, window: Interval, point: Timestamp, from: int) -> (i:
    int)
    requires
        is_partition(tiles, window),
        0 <= from < tiles.len(),
        tiles[from].0.start.0 <= point.0 <= window.stop.0,
    ensures
        from <= i < tiles.len(),
        tiles[i].0.contains(point),
    decreases tiles.len() - from,
{
    if point.0 <= tiles[from].0.stop.0 {
        from
    } else {
        assert(from < tiles.len() - 1);
        assert(tiles[from].0.stop == tiles[from + 1].0.start);
        lemma_covers_from(tiles, window, point, from + 1)
    }
}

/// The pieces of a partition together cover the window and nothing more:
/// their union is the window.
pub proof fn lemma_partition_union(tiles: Seq<TileID>, window: Interval)
    requires
        is_partition(tiles, window),
    ensures
        union_all(tiles) == window,
    decreases tiles.len(),
{
    if tiles.len() > 1 {
        let head = tiles.drop_last();
        let cut = Interval { start: window.start, stop: head.last().0.stop };
        assert(head.last() == tiles[tiles.len() - 2]);
        assert forall|i: int| 0 <= i < head.len() - 1 implies (#[trigger] head[i]).0.stop == head[i
            + 1].0.start by {
            assert(tiles[i].0.stop == tiles[i + 1].0.start);
        }
        assert forall|i: int| 0 <= i < head.len() implies (#[trigger] head[i]).0.wf() by {
            assert(tiles[i].0.wf());
        }
        assert(is_partition(head, cut));
        lemma_partition_union(head, cut);
        assert(tiles[tiles.len() - 2].0.stop == tiles[tiles.len() - 2 + 1].0.start);
        lemma_starts_after(tiles, window, tiles.len() - 1);
        assert(tiles.last().0.wf());
    }
}

/// Cutting into equal pieces moves forward: a later boundary is no earlier,
/// the first boundary is the start of the window and the last its stop.
pub proof fn lemma_boundaries(window: Interval, count: int, i: int)
    requires
        window.wf(),
        count > 0,
        0 <= i < count,
    ensures
        boundary(window, count, 0) == window.start.0,
        boundary(window, count, count) == window.stop.0,
        window.start.0 <= boundary(window, count, i) <= boundary(window, count, i + 1)
            <= window.stop.0,
{
    let d = window.duration();
    assert(0 * d == 0) by (nonlinear_arith);
    assert(count * d == d * count) by (nonlinear_arith);
    vstd::arithmetic::div_mod::lemma_div_by_multiple(d, count);
    assert(0 <= i * d <= (i + 1) * d <= count * d) by (nonlinear_arith)
        requires
            0 <= i < count,
            d >= 0,
    ;
    vstd::arithmetic::div_mod::lemma_div_is_ordered(0, i * d, count);
    vstd::arithmetic::div_mod::lemma_div_is_ordered(i * d, (i + 1) * d, count);
    vstd::arithmetic::div_mod::lemma_div_is_ordered((i + 1) * d, count * d, count);
}

/// Cuts `window` into `count` pieces of equal duration, up to rounding:
/// piece `i` runs from the boundary `i` to the boundary `i + 1`.
pub fn split_interval(window: Interval, count: u64) -> (tiles: Vec<TileID>)
    requires
        window.wf(),
        count > 0,
    ensures
        tiles@.len() == count,
        forall|i: int|
            0 <= i < count ==> (#[trigger] tiles@[i]).0.start.0 == boundary(
                window,
                count as int,
                i,
            ) && tiles@[i].0.stop.0 == boundary(window, count as int, i + 1),
        is_partition(tiles@, window),
{
    let duration: u128 = (window.stop.0 as i128 - window.start.0 as i128) as u128;
    let mut tiles: Vec<TileID> = Vec::new();
    let mut i: u64 = 0;
    let mut start: i64 = window.start.0;
    proof {
        lemma_boundaries(window, count as int, 0);
    }
    while i < count
        invariant
            window.wf(),
            count > 0,
            i <= count,
            duration == window.duration(),
            tiles@.len() == i,
            start == boundary(window, count as int, i as int),
            forall|k: int|
                0 <= k < i ==> (#[trigger] tiles@[k]).0.start.0 == boundary(
                    window,
                    count as int,
                    k,
                ) && tiles@[k].0.stop.0 == boundary(window, count as int, k + 1),
        decreases count - i,
    {
        proof {
            lemma_boundaries(window, count as int, i as int);
            let d = window.duration();
            assert(0 <= (i + 1) * d <= count * d) by (nonlinear_arith)
                requires
                    0 <= i < count,
                    d >= 0,
            ;
            assert(count * d <= 0xffff_ffff_ffff_ffff * 0xffff_ffff_ffff_ffff) by (nonlinear_arith)
                requires
                    0 <= count <= 0xffff_ffff_ffff_ffff,
                    0 <= d <= 0xffff_ffff_ffff_ffff,
            ;
        }
        let offset: u128 = ((i as u128 + 1) * duration) / (count as u128);
        let stop: i64 = (window.start.0 as i128 + offset as i128) as i64;
        tiles.push(TileID(Interval { start: Timestamp(start), stop: Timestamp(stop) }));
        start = stop;
        i += 1;
    }
    proof {
        lemma_boundaries(window, count as int, 0);
        assert forall|k: int| 0 <= k < tiles@.len() implies (#[trigger] tiles@[k]).0.wf() by {
            lemma_boundaries(window, count as int, k);
        }
    }
    tiles
}

/// The item cut down to the part of it that lies in `tile`.
pub open spec fn clip_item(item: ItemView, tile: Interval) -> ItemView {
    ItemView { interval: item.interval.intersection(tile), ..item }
}

/// The items of `row` that overlap `tile`, in their order, each cut down to
/// the part of it that lies in the tile.
pub open spec fn clip_row(row: Seq<ItemView>, tile: Interval) -> Seq<ItemView>
    decreases row.len(),
{
    if row.len() == 0 {
        Seq::empty()
    } else {
        let before = clip_row(row.drop_last(), tile);
        if tile.overlaps(row.last().interval) {
            before.push(clip_item(row.last(), tile))
        } else {
            before
        }
    }
}

/// Every item of a clipped row lies in the tile, and none of them ends
/// before it starts if none did before.
pub proof fn lemma_clip_row_within(row: Seq<ItemView>, tile: Interval, i: int)
    requires
        tile.wf(),
        0 <= i < clip_row(row, tile).len(),
    ensures
        tile.start.0 <= clip_row(row, tile)[i].interval.start.0,
        clip_row(row, tile)[i].interval.stop.0 <= tile.stop.0,
        (forall|k: int| 0 <= k < row.len() ==> (#[trigger] row[k]).interval.wf()) ==> clip_row(
            row,
            tile,
        )[i].interval.wf(),
    decreases row.len(),
{
    if row.len() > 0 {
        let before = clip_row(row.drop_last(), tile);
        if i < before.len() {
            lemma_clip_row_within(row.drop_last(), tile, i);
            if forall|k: int| 0 <= k < row.len() ==> (#[trigger] row[k]).interval.wf() {
                assert forall|k: int| 0 <= k < row.drop_last().len() implies (
                #[trigger] row.drop_last()[k]).interval.wf() by {
                    assert(row[k].interval.wf());
                }
            }
        } else {
            if forall|k: int| 0 <= k < row.len() ==> (#[trigger] row[k]).interval.wf() {
                assert(row[row.len() - 1].interval.wf());
            }
        }
    }
}

/// Cuts a row of items down to one tile: the items that overlap the tile
/// stay, each reduced to the part of it that lies in the tile.
pub fn clip_items_of_row(row: &Vec<Item>, tile_id: TileID) -> (r: Vec<Item>)
    ensures
        row_views(r@) == clip_row(row_views(row@), tile_id.0),
{
    let mut out: Vec<Item> = Vec::new();
    let mut i: usize = 0;
    assert(row_views(row@).subrange(0, 0) =~= Seq::<ItemView>::empty());
    assert(row_views(out@) =~= Seq::<ItemView>::empty());
    while i < row.len()
        invariant
            i <= row@.len(),
            row_views(out@) == clip_row(row_views(row@).subrange(0, i as int), tile_id.0),
        decreases row@.len() - i,
    {
        let ghost sofar = row_views(row@).subrange(0, i as int);
        let ghost next = row_views(row@).subrange(0, i + 1);
        assert(next.drop_last() =~= sofar);
        assert(next.last() == row@[i as int]@);
        if tile_id.0.overlaps(row[i].interval) {
            let ghost before = out@;
            let mut item = row[i].clone();
            item.interval = item.interval.intersection(tile_id.0);
            out.push(item);
            assert(row_views(out@) =~= row_views(before).push(clip_item(row@[i as int]@, tile_id.0)));
        }
        i += 1;
    }
    assert(row_views(row@).subrange(0, i as int) =~= row_views(row@));
    out
}

/// Cuts the rows of a slot down to one tile, row by row.
pub fn clip_items(items: &Vec<Vec<Item>>, tile_id: TileID) -> (r: SlotTile)
    ensures
        r.tile_id == tile_id,
        r.items@.len() == items@.len(),
        forall|k: int|
            0 <= k < items@.len() ==> row_views((#[trigger] r.items@[k])@) == clip_row(
                row_views(items@[k]@),
                tile_id.0,
            ),
{
    let mut rows: Vec<Vec<Item>> = Vec::new();
    let mut i: usize = 0;
    while i < items.len()
        invariant
            i <= items@.len(),
            rows@.len() == i,
            forall|k: int|
                0 <= k < i ==> row_views((#[trigger] rows@[k])@) == clip_row(
                    row_views(items@[k]@),
                    tile_id.0,
                ),
        decreases items@.len() - i,
    {
        let row = clip_items_of_row(&items[i], tile_id);
        rows.push(row);
        i += 1;
    }
    SlotTile { tile_id, items: rows }
}

/// The utilization at `time` on the straight line from `last` to `point`.
/// Two samples taken at the same time leave no line between them: the
/// utilization is then that of `last`.
pub open spec fn interpolate(last: UtilPoint, point: UtilPoint, time: Timestamp) -> int {
    if point.time.0 == last.time.0 {
        last.util as int
    } else {
        spec_lerp_between(
            last.util as int,
            point.util as int,
            time.0 - last.time.0,
            point.time.0 - last.time.0,
        )
    }
}

/// What the stretch of a curve from `last` to `point` gives to a tile: the
/// curve at the start of the tile if the stretch reaches over it, then
/// `point` if it lies in the tile, then the curve at the stop of the tile if
/// the stretch reaches over it.
pub open spec fn summary_step(last: UtilPoint, point: UtilPoint, tile: Interval) -> Seq<UtilPoint> {
    let stretch = Interval { start: last.time, stop: point.time };
    let head = if stretch.contains(tile.start) {
        seq![UtilPoint { time: tile.start, util: interpolate(last, point, tile.start) as u32 }]
    } else {
        Seq::empty()
    };
    let body = if tile.contains(point.time) {
        seq![point]
    } else {
        Seq::empty()
    };
    let tail = if stretch.contains(tile.stop) {
        seq![UtilPoint { time: tile.stop, util: interpolate(last, point, tile.stop) as u32 }]
    } else {
        Seq::empty()
    };
    head + body + tail
}

/// What the first `n` samples of a curve give to a tile, stretch by stretch.
pub open spec fn summary_points(samples: Seq<UtilPoint>, tile: Interval, n: int) -> Seq<UtilPoint>
    decreases n,
{
    if n <= 1 {
        Seq::empty()
    } else {
        summary_points(samples, tile, n - 1) + summary_step(samples[n - 2], samples[n - 1], tile)
    }
}

/// Whether the samples are in the order of their times.
pub open spec fn ordered_by_time(samples: Seq<UtilPoint>) -> bool {
    forall|i: int, j: int| 0 <= i <= j < samples.len() ==> samples[i].time.0 <= samples[j].time.0
}

/// Whether no sample is below `low` or above `high`.
pub open spec fn utilization_between(samples: Seq<UtilPoint>, low: int, high: int) -> bool {
    forall|i: int| 0 <= i < samples.len() ==> low <= (#[trigger] samples[i]).util <= high
}

/// Whether every sample was taken in `tile`.
pub open spec fn sampled_within(samples: Seq<UtilPoint>, tile: Interval) -> bool {
    forall|i: int| 0 <= i < samples.len() ==> tile.contains((#[trigger] samples[i]).time)
}

/// Whether the samples of a tile so far can be followed by what the next
/// stretch gives: they are in the order of time and lie in the tile, and
/// none is later than both the start of the tile and the time `reached`.
pub open spec fn extendable(samples: Seq<UtilPoint>, tile: Interval, reached: int) -> bool {
    &&& ordered_by_time(samples)
    &&& sampled_within(samples, tile)
    &&& forall|i: int|
        0 <= i < samples.len() ==> (#[trigger] samples[i]).time.0 <= tile.start.0
            || samples[i].time.0 <= reached
}

/// What one more stretch of the curve gives to a tile comes behind what the
/// stretches before it gave.
pub proof fn lemma_step_extends(before: Seq<UtilPoint>, last: UtilPoint, point: UtilPoint, tile: Interval)
    requires
        tile.wf(),
        last.time.0 <= point.time.0,
        extendable(before, tile, last.time.0 as int),
    ensures
        extendable(before + summary_step(last, point, tile), tile, point.time.0 as int),
{
    let step = summary_step(last, point, tile);
    let all = before + step;
    assert forall|i: int| 0 <= i < step.len() implies tile.contains((#[trigger] step[i]).time) && (
    step[i].time.0 <= tile.start.0 || step[i].time.0 <= point.time.0) && (last.time.0
        <= step[i].time.0 || tile.start.0 == step[i].time.0) by {}
    assert forall|i: int, j: int| 0 <= i <= j < step.len() implies step[i].time.0
        <= step[j].time.0 by {}
    assert forall|i: int| 0 <= i < all.len() implies tile.contains((#[trigger] all[i]).time) && (
    all[i].time.0 <= tile.start.0 || all[i].time.0 <= point.time.0) by {
        if i < before.len() {
            assert(all[i] == before[i]);
        } else {
            assert(all[i] == step[i - before.len()]);
        }
    }
    assert forall|i: int, j: int| 0 <= i <= j < all.len() implies all[i].time.0
        <= all[j].time.0 by {
        if j < before.len() {
            assert(all[i] == before[i] && all[j] == before[j]);
        } else if i >= before.len() {
            assert(all[i] == step[i - before.len()] && all[j] == step[j - before.len()]);
        } else {
            assert(all[i] == before[i] && all[j] == step[j - before.len()]);
            assert(tile.contains(before[i].time));
            assert(tile.contains(step[j - before.len()].time));
        }
    }
}

/// The utilization at `time` on the straight line from `last` to `point`,
/// for a time between the two.
pub fn interpolate_at(last: UtilPoint, point: UtilPoint, time: Timestamp) -> (util: u32)
    requires
        last.time.0 <= time.0 <= point.time.0,
    ensures
        util == interpolate(last, point, time),
        last.util <= point.util ==> last.util <= util <= point.util,
        point.util <= last.util ==> point.util <= util <= last.util,
{
    let stretch = Interval { start: last.time, stop: point.time };
    match stretch.unlerp(time) {
        None => last.util,
        Some(position) => {
            proof {
                lemma_lerp_between_bounded(
                    last.util as int,
                    point.util as int,
                    position.numer as int,
                    position.denom as int,
                );
                assert(-0x1_0000_0000_0000_0000_0000_0000 <= position.numer * (point.util
                    - last.util) <= 0x1_0000_0000_0000_0000_0000_0000) by (nonlinear_arith)
                    requires
                        0 <= position.numer <= 0x1_0000_0000_0000_0000,
                        -0x1_0000_0000 <= point.util - last.util <= 0x1_0000_0000,
                ;
            }
            lerp_between(last.util as i64, point.util as i64, position) as u32
        },
    }
}

/// The part of a utilization curve that lies in one tile. Where the curve
/// crosses an end of the tile, a sample is put on that end, with the
/// utilization that the straight line between its two neighbours has there.
pub fn summary_tile(samples: &Vec<UtilPoint>, tile_id: TileID) -> (r: SummaryTile)
    requires
        ordered_by_time(samples@),
    ensures
        r.tile_id == tile_id,
        r.utilization@ == summary_points(samples@, tile_id.0, samples@.len() as int),
        tile_id.0.wf() ==> sampled_within(r.utilization@, tile_id.0) && ordered_by_time(
            r.utilization@,
        ),
        forall|low: int, high: int|
            utilization_between(samples@, low, high) ==> #[trigger] utilization_between(
                r.utilization@,
                low,
                high,
            ),
{
    let tile = tile_id.0;
    let mut out: Vec<UtilPoint> = Vec::new();
    let mut i: usize = 1;
    while i < samples.len()
        invariant
            ordered_by_time(samples@),
            tile == tile_id.0,
            1 <= i,
            out@ == summary_points(samples@, tile, if i <= samples@.len() {
                i as int
            } else {
                samples@.len() as int
            }),
            tile.wf() ==> extendable(out@, tile, if i <= samples@.len() {
                samples@[i - 1].time.0 as int
            } else {
                0
            }),
            forall|low: int, high: int|
                utilization_between(samples@, low, high) ==> #[trigger] utilization_between(
                    out@,
                    low,
                    high,
                ),
        decreases samples@.len() - i,
    {
        let last = samples[i - 1];
        let point = samples[i];
        let stretch = Interval { start: last.time, stop: point.time };
        let ghost before = out@;
        if stretch.contains(tile.start) {
            let util = interpolate_at(last, point, tile.start);
            out.push(UtilPoint { time: tile.start, util });
        }
        if tile.contains(point.time) {
            out.push(point);
        }
        if stretch.contains(tile.stop) {
            let util = interpolate_at(last, point, tile.stop);
            out.push(UtilPoint { time: tile.stop, util });
        }
        i += 1;
        proof {
            assert(out@ =~= before + summary_step(last, point, tile));
            if tile.wf() {
                lemma_step_extends(before, last, point, tile);
            }
            assert forall|low: int, high: int|
                utilization_between(samples@, low, high) implies #[trigger] utilization_between(
                out@,
                low,
                high,
            ) by {
                assert(utilization_between(before, low, high));
                assert(low <= samples@[i - 2].util <= high);
                assert(low <= samples@[i - 1].util <= high);
            }
        }
    }
    SummaryTile { tile_id, utilization: out }
}

/// The first stretch of the curve, from the sample `from` on, in which
/// `time` lies: the number of the sample at which that stretch begins.
pub open spec fn stretch_of(samples: Seq<UtilPoint>, time: Timestamp, from: int) -> Option<int>
    decreases samples.len() - from,
{
    if from < 0 || from + 1 >= samples.len() {
        None
    } else if samples[from].time.0 <= time.0 < samples[from + 1].time.0 {
        Some(from)
    } else {
        stretch_of(samples, time, from + 1)
    }
}

/// The utilization that the curve has at `time`, on the straight line
/// between the two samples around it; `None` before the first sample and
/// from the last sample on.
pub open spec fn curve_at(samples: Seq<UtilPoint>, time: Timestamp) -> Option<int> {
    match stretch_of(samples, time, 0) {
        Some(k) => Some(interpolate(samples[k], samples[k + 1], time)),
        None => None,
    }
}

/// The share of full utilization in percent, rounded to the nearest whole
/// percent.
pub open spec fn percent_of(util: u32) -> int {
    round_div(util * 100, UTIL_ONE as int)
}

impl SummaryTile {
    /// The utilization that the curve of the tile has at `time`.
    pub fn utilization_at(&self, time: Timestamp) -> (r: Option<u32>)
        ensures
            r is Some <==> curve_at(self.utilization@, time) is Some,
            r matches Some(util) ==> curve_at(self.utilization@, time) == Some(util as int),
    {
        let mut i: usize = 0;
        let n = self.utilization.len();
        if n == 0 {
            return None;
        }
        while i < n - 1
            invariant
                n == self.utilization@.len(),
                n >= 1,
                stretch_of(self.utilization@, time, 0) == stretch_of(
                    self.utilization@,
                    time,
                    i as int,
                ),
            decreases self.utilization@.len() - i,
        {
            let last = self.utilization[i];
            let point = self.utilization[i + 1];
            if last.time.0 <= time.0 && time.0 < point.time.0 {
                return Some(interpolate_at(last, point, time));
            }
            i += 1;
        }
        None
    }
}

/// The utilization as it is shown: in whole percent.
pub fn utilization_text(util: u32) -> (s: String)
    ensures
        s@ == decimal(percent_of(util) as nat) + "% Utilization"@,
{
    let percent: u64 = (2 * (util as u64 * 100) + UTIL_ONE as u64) / (2 * UTIL_ONE as u64);
    let mut out = String::new();
    append_decimal(&mut out, percent);
    out.append("% Utilization");
    assert(out@ =~= decimal(percent_of(util) as nat) + "% Utilization"@);
    out
}

} // verus!
