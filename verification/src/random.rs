//! A backend that makes its data up: a profile of many nodes with random
//! row counts, random utilization curves and evenly spread items.

use vstd::prelude::*;
use vstd::string::StringExecFns;
use rand::Rng;
use crate::data::{EntryInfo, Field, Item, SlotTile, SummaryTile, TileID, UtilPoint, UTIL_ONE, row_views};
use crate::entry_id::{EntryID, EntryIndex};
use crate::fraction::{Fraction, lemma_round_div_monotonic};
use crate::window::layable;
use crate::source::{
    DataSource, Path, SlotContent, SummaryContent, Tiling, keeps, names_slot, slot_content_of,
};
use crate::text::{append_decimal, decimal};
use crate::tiles::{boundary, clip_items, clip_row, lemma_clip_row_within, ordered_by_time, split_interval, summary_points, summary_tile, utilization_between};
use crate::timestamp::{Interval, Timestamp, lemma_lerp_in_interval};

verus! {

/// `rand::rngs::ThreadRng`, the random number generator of a thread.
#[verifier::external_type_specification]
#[verifier::external_body]
pub struct ExThreadRng(rand::rngs::ThreadRng);

/// The lower-case form of a text, as `str::to_lowercase` of the standard
/// library gives it.
pub uninterp spec fn lowercase_of(text: Seq<char>) -> Seq<char>;

/// `rand::thread_rng`: the generator of the calling thread. Nothing is
/// claimed of it.
#[verifier::external_body]
fn new_rng() -> rand::rngs::ThreadRng {
    rand::thread_rng()
}

/// `rand::Rng::gen_range` on a half-open range of `i64`: some number that
/// is at least `low` and less than `high`. The range must not be empty.
#[verifier::external_body]
fn random_i64(rng: &mut rand::rngs::ThreadRng, low: i64, high: i64) -> (r: i64)
    requires
        low < high,
    ensures
        low <= r < high,
{
    rng.gen_range(low..high)
}

/// The four channels that a color holds: red, green, blue and alpha.
pub uninterp spec fn color_channels(color: egui::Color32) -> Seq<u8>;

/// `egui::Color32::from_rgb`: the opaque color with the given red, green
/// and blue, which is a color that holds these three and an alpha of 255.
#[verifier::external_body]
fn color_from_rgb(r: u8, g: u8, b: u8) -> (color: egui::Color32)
    ensures
        color_channels(color) == seq![r, g, b, 255u8],
{
    egui::Color32::from_rgb(r, g, b)
}

/// `str::to_lowercase`: the lower-case form of `text`.
#[verifier::external_body]
fn lowercase(text: &str) -> (r: String)
    ensures
        r@ == lowercase_of(text@),
{
    text.to_lowercase()
}

/// The nodes of the profile.
pub const NODES: u64 = 8192;

/// The kinds of each node.
pub const KINDS: u64 = 7;

/// The slots of each kind.
pub const PROCS: u64 = 8;

/// A slot has fewer rows than this.
pub const MAX_ROWS: u64 = 64;

/// The items of each row.
pub const ITEMS_PER_ROW: u64 = 1000;

/// The tiles into which a requested window is cut.
pub const TILES: u64 = 3;

/// How often the stretch between two samples of a curve is halved.
pub const LEVELS: u32 = 8;

/// The name of the kind `k`.
pub open spec fn kind_name(k: int) -> Seq<char> {
    if k == 0 {
        "CPU"@
    } else if k == 1 {
        "GPU"@
    } else if k == 2 {
        "OMP"@
    } else if k == 3 {
        "Py"@
    } else if k == 4 {
        "Util"@
    } else if k == 5 {
        "Chan"@
    } else {
        "SysMem"@
    }
}

/// The first letter of the name of the kind `k`.
pub open spec fn kind_initial(k: int) -> Seq<char> {
    if k == 0 {
        "C"@
    } else if k == 1 {
        "G"@
    } else if k == 2 {
        "O"@
    } else if k == 3 {
        "P"@
    } else if k == 4 {
        "U"@
    } else if k == 5 {
        "C"@
    } else {
        "S"@
    }
}

/// The red, green and blue of the color `index` of the palette of items:
/// blue, green, red, yellow, khaki, dark green, dark blue, and white for
/// every other index.
pub open spec fn palette(index: int) -> (u8, u8, u8) {
    if index == 0 {
        (0u8, 0u8, 255u8)
    } else if index == 1 {
        (0u8, 255u8, 0u8)
    } else if index == 2 {
        (255u8, 0u8, 0u8)
    } else if index == 3 {
        (255u8, 255u8, 0u8)
    } else if index == 4 {
        (240u8, 230u8, 140u8)
    } else if index == 5 {
        (0u8, 100u8, 0u8)
    } else if index == 6 {
        (0u8, 0u8, 139u8)
    } else {
        (255u8, 255u8, 255u8)
    }
}

/// The channels of the opaque color `index` of the palette.
pub open spec fn palette_channels(index: int) -> Seq<u8> {
    seq![palette(index).0, palette(index).1, palette(index).2, 255u8]
}

/// The red, green and blue of the color `index` of the palette of items.
pub fn palette_rgb(index: u64) -> (rgb: (u8, u8, u8))
    ensures
        rgb == palette(index as int),
{
    if index == 0 {
        (0, 0, 255)
    } else if index == 1 {
        (0, 255, 0)
    } else if index == 2 {
        (255, 0, 0)
    } else if index == 3 {
        (255, 255, 0)
    } else if index == 4 {
        (240, 230, 140)
    } else if index == 5 {
        (0, 100, 0)
    } else if index == 6 {
        (0, 0, 139)
    } else {
        (255, 255, 255)
    }
}

/// The name of the kind `k`.
fn kind_text(k: u64) -> (s: &'static str)
    ensures
        s@ == kind_name(k as int),
{
    if k == 0 {
        "CPU"
    } else if k == 1 {
        "GPU"
    } else if k == 2 {
        "OMP"
    } else if k == 3 {
        "Py"
    } else if k == 4 {
        "Util"
    } else if k == 5 {
        "Chan"
    } else {
        "SysMem"
    }
}

/// The first letter of the name of the kind `k`.
fn kind_initial_text(k: u64) -> (s: &'static str)
    ensures
        s@ == kind_initial(k as int),
{
    if k == 0 {
        "C"
    } else if k == 1 {
        "G"
    } else if k == 2 {
        "O"
    } else if k == 3 {
        "P"
    } else if k == 4 {
        "U"
    } else if k == 5 {
        "C"
    } else {
        "S"
    }
}

/// The long name of the node `node`.
pub open spec fn node_long_name(node: int) -> Seq<char> {
    "Node "@ + decimal(node as nat)
}

/// The long name of the kind `k` of the node `node`.
pub open spec fn kind_long_name(node: int, k: int) -> Seq<char> {
    node_long_name(node) + " "@ + kind_name(k)
}

/// Whether `info` is the slot `proc` of the kind `k` of the node `node`.
pub open spec fn slot_shaped(info: EntryInfo, node: int, k: int, proc: int) -> bool {
    info matches EntryInfo::Slot { short_name, long_name, max_rows } && max_rows < MAX_ROWS
        && short_name@ == lowercase_of(kind_initial(k)) + decimal(proc as nat) && long_name@
        == kind_long_name(node, k) + " "@ + decimal(proc as nat)
}

/// Whether `info` is the kind `k` of the node `node`: a panel with a
/// summary and one slot for each processor.
pub open spec fn kind_shaped(info: EntryInfo, node: int, k: int) -> bool {
    info matches EntryInfo::Panel { short_name, long_name, summary, slots } && short_name@
        == lowercase_of(kind_name(k)) && long_name@ == kind_long_name(node, k) && (
    summary matches Some(s) && *s matches EntryInfo::Summary { color } && color_channels(color)
        == palette_channels(k % 4)) && slots@.len() == PROCS && forall|proc: int|
        0 <= proc < PROCS ==> slot_shaped(#[trigger] slots@[proc], node, k, proc)
}

/// Whether `info` is the node `node`: a panel without a summary, with one
/// panel for each kind.
pub open spec fn node_shaped(info: EntryInfo, node: int) -> bool {
    info matches EntryInfo::Panel { short_name, long_name, summary, slots } && short_name@
        == "n"@ + decimal(node as nat) && long_name@ == node_long_name(node) && summary is None
        && slots@.len() == KINDS && forall|k: int|
        0 <= k < KINDS ==> kind_shaped(#[trigger] slots@[k], node, k)
}

/// Whether `info` is the schema of the profile: a root panel without a
/// summary, with one panel for each node.
pub open spec fn profile_shaped(info: EntryInfo) -> bool {
    info matches EntryInfo::Panel { short_name, long_name, summary, slots } && short_name@
        == "root"@ && long_name@ == "root"@ && summary is None && slots@.len() == NODES
        && forall|node: int| 0 <= node < NODES ==> node_shaped(#[trigger] slots@[node], node)
}

/// The schema of the profile can be laid out, and has kinds.
pub proof fn lemma_profile_layable(info: EntryInfo)
    requires
        profile_shaped(info),
    ensures
        layable(info),
        info.has_kinds(),
        info is Panel,
        info.children().len() == NODES,
{
    let nodes = info->Panel_slots@;
    assert forall|i: int| 0 <= i < nodes.len() implies !((#[trigger] nodes[i]) is Summary)
        && layable(nodes[i]) by {
        assert(node_shaped(nodes[i], i));
        let kinds = nodes[i]->Panel_slots@;
        assert forall|k: int| 0 <= k < kinds.len() implies !((#[trigger] kinds[k]) is Summary)
            && layable(kinds[k]) by {
            assert(kind_shaped(kinds[k], i, k));
            let procs = kinds[k]->Panel_slots@;
            assert forall|p: int| 0 <= p < procs.len() implies !((#[trigger] procs[p]) is Summary)
                && layable(procs[p]) by {
                assert(slot_shaped(procs[p], i, k, p));
            }
        }
    }
    assert forall|i: int| 0 <= i < info.children().len() implies {
        &&& (#[trigger] info.children()[i]) is Panel
        &&& forall|j: int|
            0 <= j < info.children()[i].children().len()
                ==> (#[trigger] info.children()[i].children()[j]) is Panel
    } by {
        assert(node_shaped(nodes[i], i));
        assert forall|j: int| 0 <= j < info.children()[i].children().len() implies (
        #[trigger] info.children()[i].children()[j]) is Panel by {
            assert(kind_shaped(nodes[i]->Panel_slots@[j], i, j));
        }
    }
}

/// Whether the samples are a stretch of a curve between the times `low` and
/// `high`: in the order of their times, none outside the two, and none with
/// a utilization above 1.
pub open spec fn stretch_within(samples: Seq<UtilPoint>, low: int, high: int) -> bool {
    &&& ordered_by_time(samples)
    &&& forall|i: int| 0 <= i < samples.len() ==> low <= (#[trigger] samples[i]).time.0 <= high
    &&& utilization_between(samples, 0, UTIL_ONE as int)
}

/// `diff` made smaller `steps` times, each time to five sixths of what it
/// was, rounded towards zero.
pub open spec fn damped(diff: int, steps: nat) -> int
    decreases steps,
{
    if steps == 0 {
        diff
    } else {
        let before = damped(diff, (steps - 1) as nat);
        if before >= 0 {
            before * 5 / 6
        } else {
            -((-before) * 5 / 6)
        }
    }
}

/// The time half way between `a` and `b`, rounded towards zero.
pub open spec fn half_way(a: int, b: int) -> int {
    if a + b >= 0 {
        (a + b) / 2
    } else {
        -((-(a + b)) / 2)
    }
}

/// `value` moved into the range from 0 to full utilization.
pub open spec fn clamp_util(value: int) -> int {
    if value < 0 {
        0
    } else if value > UTIL_ONE {
        UTIL_ONE as int
    } else {
        value
    }
}

/// The sample put half way between `first` and `last`: its utilization is
/// the mean of the two, moved by `noise`, a number of millionths below one,
/// taken from its middle and damped once for each level above `level`.
pub open spec fn spec_midpoint(first: UtilPoint, last: UtilPoint, noise: u64, steps: nat) -> UtilPoint {
    UtilPoint {
        time: Timestamp(half_way(first.time.0 as int, last.time.0 as int) as i64),
        util: clamp_util((first.util + last.util) / 2 + damped(noise - UTIL_ONE / 2, steps)) as u32,
    }
}

/// How many samples are put between the two ends of a stretch that is
/// halved once and then `level` times more: one in the middle, and as many
/// in each half as one level less puts there.
pub open spec fn samples_between(level: nat) -> nat
    decreases level,
{
    if level == 0 {
        1
    } else {
        2 * samples_between((level - 1) as nat) + 1
    }
}

/// The samples put between `first` and `last` at the level `level` of
/// `max_level`, made with the random numbers `noises` in the order in which
/// they are drawn: in the middle stands the sample half way between the two,
/// made with the first number; above level 0, before it stand the samples
/// put between `first` and it, and behind it those put between it and
/// `last`, each made one level lower with the numbers that follow.
pub open spec fn curve_between(
    first: UtilPoint,
    last: UtilPoint,
    level: nat,
    max_level: nat,
    noises: Seq<u64>,
) -> Seq<UtilPoint>
    decreases level,
{
    let point = spec_midpoint(first, last, noises[0], (max_level - level) as nat);
    if level == 0 {
        seq![point]
    } else {
        let half = samples_between((level - 1) as nat) as int;
        curve_between(first, point, (level - 1) as nat, max_level, noises.subrange(1, 1 + half))
            + seq![point] + curve_between(
            point,
            last,
            (level - 1) as nat,
            max_level,
            noises.subrange(1 + half, 1 + 2 * half),
        )
    }
}

/// Whether `added` holds the samples put between `first` and `last` at the
/// level `level` of `max_level`, made with the random numbers `noises`: one
/// number for each sample, each a number of millionths below one.
pub open spec fn made_with(
    added: Seq<UtilPoint>,
    first: UtilPoint,
    last: UtilPoint,
    level: nat,
    max_level: nat,
    noises: Seq<u64>,
) -> bool {
    &&& noises.len() == samples_between(level)
    &&& forall|i: int| 0 <= i < noises.len() ==> #[trigger] noises[i] < UTIL_ONE
    &&& added == curve_between(first, last, level, max_level, noises)
}

/// Whether `added` holds the samples put between `first` and `last` at the
/// level `level` of `max_level`, whatever random numbers they were made
/// with.
pub open spec fn halved(
    added: Seq<UtilPoint>,
    first: UtilPoint,
    last: UtilPoint,
    level: nat,
    max_level: nat,
) -> bool {
    exists|noises: Seq<u64>| made_with(added, first, last, level, max_level, noises)
}

/// There are as many samples between the ends of a stretch as its level
/// asks for.
pub proof fn lemma_curve_len(
    first: UtilPoint,
    last: UtilPoint,
    level: nat,
    max_level: nat,
    noises: Seq<u64>,
)
    ensures
        curve_between(first, last, level, max_level, noises).len() == samples_between(level),
    decreases level,
{
    if level > 0 {
        let point = spec_midpoint(first, last, noises[0], (max_level - level) as nat);
        let half = samples_between((level - 1) as nat) as int;
        lemma_curve_len(first, point, (level - 1) as nat, max_level, noises.subrange(1, 1 + half));
        lemma_curve_len(
            point,
            last,
            (level - 1) as nat,
            max_level,
            noises.subrange(1 + half, 1 + 2 * half),
        );
    }
}

/// The samples of the two halves of a stretch, with the sample half way
/// between its ends put between them, are the samples of the stretch.
proof fn lemma_halves_join(
    left: Seq<UtilPoint>,
    right: Seq<UtilPoint>,
    first: UtilPoint,
    last: UtilPoint,
    level: nat,
    max_level: nat,
    noise: u64,
)
    requires
        noise < UTIL_ONE,
        level <= max_level,
        level > 0 ==> halved(
            left,
            first,
            spec_midpoint(first, last, noise, (max_level - level) as nat),
            (level - 1) as nat,
            max_level,
        ) && halved(
            right,
            spec_midpoint(first, last, noise, (max_level - level) as nat),
            last,
            (level - 1) as nat,
            max_level,
        ),
        level == 0 ==> left.len() == 0 && right.len() == 0,
    ensures
        halved(
            left + seq![spec_midpoint(first, last, noise, (max_level - level) as nat)] + right,
            first,
            last,
            level,
            max_level,
        ),
        (left + seq![spec_midpoint(first, last, noise, (max_level - level) as nat)]
            + right).len() == samples_between(level),
{
    let point = spec_midpoint(first, last, noise, (max_level - level) as nat);
    let added = left + seq![point] + right;
    if level == 0 {
        let noises = seq![noise];
        assert(added =~= seq![point]);
        assert(made_with(added, first, last, level, max_level, noises));
    } else {
        let lower = (level - 1) as nat;
        let half = samples_between(lower) as int;
        let before = choose|noises: Seq<u64>| made_with(left, first, point, lower, max_level, noises);
        let behind = choose|noises: Seq<u64>| made_with(right, point, last, lower, max_level, noises);
        let noises = seq![noise] + before + behind;
        assert(noises[0] == noise);
        assert(noises.subrange(1, 1 + half) =~= before);
        assert(noises.subrange(1 + half, 1 + 2 * half) =~= behind);
        lemma_curve_len(first, point, lower, max_level, before);
        lemma_curve_len(point, last, lower, max_level, behind);
        assert(made_with(added, first, last, level, max_level, noises));
    }
}

/// Damping keeps a number between what it was and zero.
proof fn lemma_damped_bounded(diff: int, steps: nat)
    ensures
        diff >= 0 ==> 0 <= damped(diff, steps) <= diff,
        diff <= 0 ==> diff <= damped(diff, steps) <= 0,
    decreases steps,
{
    if steps > 0 {
        lemma_damped_bounded(diff, (steps - 1) as nat);
    }
}

/// The sample put half way between `first` and `last`, for the random
/// number `noise`.
pub fn midpoint(first: UtilPoint, last: UtilPoint, noise: u64, steps: u32) -> (point: UtilPoint)
    requires
        first.time.0 <= last.time.0,
        noise < UTIL_ONE,
    ensures
        point == spec_midpoint(first, last, noise, steps as nat),
        first.time.0 <= point.time.0 <= last.time.0,
        point.util <= UTIL_ONE,
{
    let sum: i128 = first.time.0 as i128 + last.time.0 as i128;
    let time: i64 = if sum >= 0 {
        (sum / 2) as i64
    } else {
        (-((-sum) / 2)) as i64
    };
    let base: i64 = ((first.util as u64 + last.util as u64) / 2) as i64;
    let mut diff: i64 = noise as i64 - (UTIL_ONE / 2) as i64;
    let ghost start = diff as int;
    let mut done: u32 = 0;
    while done < steps
        invariant
            done <= steps,
            start == noise - UTIL_ONE / 2,
            -(UTIL_ONE as int) <= start <= UTIL_ONE,
            diff == damped(start, done as nat),
        decreases steps - done,
    {
        proof {
            lemma_damped_bounded(start, done as nat);
        }
        diff = if diff >= 0 {
            diff * 5 / 6
        } else {
            -((-diff) * 5 / 6)
        };
        done += 1;
    }
    proof {
        lemma_damped_bounded(start, steps as nat);
    }
    let moved: i64 = base + diff;
    let util: u32 = if moved < 0 {
        0
    } else if moved > UTIL_ONE as i64 {
        UTIL_ONE
    } else {
        moved as u32
    };
    UtilPoint { time: Timestamp(time), util }
}

/// Two stretches of a curve that meet at the time `middle` make one
/// stretch.
proof fn lemma_stretches_join(a: Seq<UtilPoint>, b: Seq<UtilPoint>, low: int, middle: int, high: int)
    requires
        stretch_within(a, low, middle),
        stretch_within(b, middle, high),
        low <= middle <= high,
    ensures
        stretch_within(a + b, low, high),
{
    let all = a + b;
    assert forall|i: int, j: int| 0 <= i <= j < all.len() implies all[i].time.0
        <= all[j].time.0 by {
        if j < a.len() {
            assert(all[i] == a[i] && all[j] == a[j]);
        } else if i >= a.len() {
            assert(all[i] == b[i - a.len()] && all[j] == b[j - a.len()]);
        } else {
            assert(all[i] == a[i] && all[j] == b[j - a.len()]);
        }
    }
    assert forall|i: int| 0 <= i < all.len() implies low <= (#[trigger] all[i]).time.0
        <= high by {
        if i < a.len() {
            assert(all[i] == a[i]);
        } else {
            assert(all[i] == b[i - a.len()]);
        }
    }
    assert forall|i: int| 0 <= i < all.len() implies 0 <= (#[trigger] all[i]).util
        <= UTIL_ONE as int by {
        if i < a.len() {
            assert(all[i] == a[i]);
        } else {
            assert(all[i] == b[i - a.len()]);
        }
    }
}

/// A backend that makes its data up as it is asked for it, and keeps what
/// it has made.
pub struct RandomDataSource {
    info: Option<EntryInfo>,
    interval: Option<Interval>,
    summary_cache: Vec<(EntryID, Vec<UtilPoint>)>,
    slot_cache: Vec<(EntryID, Vec<Vec<Item>>)>,
    rng: rand::rngs::ThreadRng,
}

/// Where the first of `made` that is kept under `path` stands, from `from`
/// on.
pub open spec fn first_under<T>(made: Seq<(EntryID, T)>, path: Seq<EntryIndex>, from: int) -> Option<
    int,
>
    decreases made.len() - from,
{
    if from < 0 || from >= made.len() {
        None
    } else if made[from].0@ == path {
        Some(from)
    } else {
        first_under(made, path, from + 1)
    }
}

/// What is found under a path is kept under that path.
pub proof fn lemma_first_under_found<T>(made: Seq<(EntryID, T)>, path: Seq<EntryIndex>, from: int)
    requires
        0 <= from,
    ensures
        first_under(made, path, from) matches Some(i) ==> from <= i < made.len() && made[i].0@
            == path,
    decreases made.len() - from,
{
    if from < made.len() && made[from].0@ != path {
        lemma_first_under_found(made, path, from + 1);
    }
}

/// One more thing kept is found under its path if nothing was kept under
/// that path before; what was found before is found as before.
pub proof fn lemma_first_under_push<T>(
    made: Seq<(EntryID, T)>,
    one: (EntryID, T),
    path: Seq<EntryIndex>,
    from: int,
)
    requires
        0 <= from <= made.len(),
    ensures
        first_under(made.push(one), path, from) == match first_under(made, path, from) {
            Some(i) => Some(i),
            None => if one.0@ == path {
                Some(made.len() as int)
            } else {
                None
            },
        },
        first_under(made, path, from) matches Some(i) ==> from <= i < made.len() && made[i].0@
            == path,
    decreases made.len() - from,
{
    let more = made.push(one);
    if from < made.len() {
        assert(more[from] == made[from]);
        lemma_first_under_push(made, one, path, from + 1);
    } else {
        assert(more[from] == one);
        assert(first_under(more, path, from + 1) is None);
    }
}

/// Whether `curve` is a utilization curve over `range`: its samples are in
/// the order of time, the first was taken at the start of the range and
/// the last at its stop, none has a utilization above 1, and between the
/// first and the last stand the samples that halving the stretch between
/// them puts there.
pub open spec fn curve_sound(curve: Seq<UtilPoint>, range: Interval) -> bool {
    &&& stretch_within(curve, range.start.0 as int, range.stop.0 as int)
    &&& curve.len() == samples_between(LEVELS as nat) + 2
    &&& curve[0].time == range.start
    &&& curve.last().time == range.stop
    &&& halved(
        curve.subrange(1, curve.len() - 1),
        curve[0],
        curve.last(),
        LEVELS as nat,
        LEVELS as nat,
    )
}

/// The interval of the item `i` of a row of items spread over `range`: it
/// starts 5 hundredths of a thousandth of the range into the thousandth
/// `i`, and stops 5 hundredths before the end of that thousandth.
pub open spec fn spread_interval(range: Interval, i: int) -> Interval {
    Interval {
        start: Timestamp(
            range.spec_lerp(Fraction { numer: (100 * i + 5) as i128, denom: 100_000 }) as i64,
        ),
        stop: Timestamp(
            range.spec_lerp(Fraction { numer: (100 * i + 95) as i128, denom: 100_000 }) as i64,
        ),
    }
}

/// Whether `item` is the item `i` of the row `row` of rows of items spread
/// over `range`: it has its interval, the next color of the palette after
/// that of the item before it, and one field, its name.
pub open spec fn item_spread(item: Item, range: Interval, row: int, i: int) -> bool {
    &&& item.interval == spread_interval(range, i)
    &&& color_channels(item.color) == palette_channels((row * 1000 + i) % 7)
    &&& item.fields@.len() == 1
    &&& item.fields@[0].0@ == "Name"@
    &&& item.fields@[0].1 matches Field::String(name) && name@ == "Test Item"@
}

/// Whether each of `rows` holds a thousand items spread evenly over
/// `range`.
pub open spec fn rows_spread(rows: Seq<Vec<Item>>, range: Interval) -> bool {
    forall|row: int|
        0 <= row < rows.len() ==> (#[trigger] rows[row])@.len() == ITEMS_PER_ROW && forall|i: int|
            0 <= i < ITEMS_PER_ROW ==> item_spread(#[trigger] rows[row]@[i], range, row, i)
}

/// Whether `path` names a slot of `info` that has `count` rows.
pub open spec fn rows_match(info: EntryInfo, path: Seq<EntryIndex>, count: int) -> bool {
    info.lookup(path) matches Some(EntryInfo::Slot { max_rows, .. }) && max_rows == count
}

/// The three tiles of equal duration into which `window` is cut.
pub open spec fn three_tiles(window: Interval) -> Tiling {
    Seq::new(
        TILES as nat,
        |i: int|
            TileID(
                Interval {
                    start: Timestamp(boundary(window, TILES as int, i) as i64),
                    stop: Timestamp(boundary(window, TILES as int, i + 1) as i64),
                },
            ),
    )
}

/// What `rows` hold in `tile`: of each row, the items that overlap the
/// tile, each cut down to the part of it that lies in the tile.
pub open spec fn clipped_rows(rows: Seq<Vec<Item>>, tile: Interval) -> SlotContent {
    Seq::new(rows.len(), |k: int| clip_row(row_views(rows[k]@), tile))
}

/// Whether no item of `rows` ends before it starts.
pub open spec fn rows_wf(rows: Seq<Vec<Item>>) -> bool {
    forall|row: int, i: int|
        0 <= row < rows.len() && 0 <= i < rows[row]@.len() ==> (#[trigger] rows[row]@[i]).interval.wf()
}

impl RandomDataSource {
    /// Whether what the backend keeps is sound: a time range that starts
    /// at 0 and lasts between one and two milliseconds, the schema of the
    /// profile, curves in the order of time, and items that do not end
    /// before they start.
    pub closed spec fn sound(&self) -> bool {
        &&& self.interval matches Some(i) ==> i.start.0 == 0 && 1_000_000 <= i.stop.0
            < 2_000_000
        &&& self.info matches Some(info) ==> profile_shaped(info)
        &&& self.summary_cache@.len() > 0 || self.slot_cache@.len() > 0 ==> self.interval is Some
        &&& self.slot_cache@.len() > 0 ==> self.info is Some
        &&& forall|k: int|
            0 <= k < self.summary_cache@.len() ==> curve_sound(
                (#[trigger] self.summary_cache@[k]).1@,
                self.interval->Some_0,
            )
        &&& forall|k: int|
            0 <= k < self.slot_cache@.len() ==> rows_wf((#[trigger] self.slot_cache@[k]).1@)
                && rows_spread(self.slot_cache@[k].1@, self.interval->Some_0) && rows_match(
                self.info->Some_0,
                self.slot_cache@[k].0@,
                self.slot_cache@[k].1@.len() as int,
            )
    }

    /// The utilization curves made so far, each with the entry that it was
    /// made for.
    pub closed spec fn curves(&self) -> Seq<(EntryID, Vec<UtilPoint>)> {
        self.summary_cache@
    }

    /// The rows of items made so far, each with the slot that they were
    /// made for.
    pub closed spec fn slots(&self) -> Seq<(EntryID, Vec<Vec<Item>>)> {
        self.slot_cache@
    }

    /// The utilization curve of the entry at `path`, once it has been
    /// made.
    pub open spec fn curve_of(&self, path: Seq<EntryIndex>) -> Option<Seq<UtilPoint>> {
        match first_under(self.curves(), path, 0) {
            Some(i) => Some(self.curves()[i].1@),
            None => None,
        }
    }

    /// The rows of items of the slot at `path`, once they have been made.
    pub open spec fn rows_of(&self, path: Seq<EntryIndex>) -> Option<Seq<Vec<Item>>> {
        match first_under(self.slots(), path, 0) {
            Some(i) => Some(self.slots()[i].1@),
            None => None,
        }
    }

    /// A backend that has made nothing yet.
    pub fn new() -> (source: Self)
        ensures
            source.wf(),
            source.known_interval() is None,
            source.schema() is None,
            source.curves() == Seq::<(EntryID, Vec<UtilPoint>)>::empty(),
            source.slots() == Seq::<(EntryID, Vec<Vec<Item>>)>::empty(),
    {
        RandomDataSource {
            info: None,
            interval: None,
            summary_cache: Vec::new(),
            slot_cache: Vec::new(),
            rng: new_rng(),
        }
    }

    /// Puts the samples of the curve between `first` and `last` at the end
    /// of `utilization`: one half way between the two and, while `level`
    /// is above 0, those of the two halves in the same way, all in the
    /// order of time.
    fn generate_point(
        &mut self,
        first: UtilPoint,
        last: UtilPoint,
        level: u32,
        max_level: u32,
        utilization: &mut Vec<UtilPoint>,
    )
        requires
            old(self).sound(),
            level <= max_level,
            first.time.0 <= last.time.0,
        ensures
            final(self).sound(),
            final(self).interval == old(self).interval,
            final(self).info == old(self).info,
            final(self).summary_cache == old(self).summary_cache,
            final(self).slot_cache == old(self).slot_cache,
            final(utilization)@.len() >= old(utilization)@.len(),
            final(utilization)@.subrange(0, old(utilization)@.len() as int) == old(utilization)@,
            stretch_within(
                final(utilization)@.subrange(
                    old(utilization)@.len() as int,
                    final(utilization)@.len() as int,
                ),
                first.time.0 as int,
                last.time.0 as int,
            ),
            final(utilization)@.len() == old(utilization)@.len() + samples_between(level as nat),
            halved(
                final(utilization)@.subrange(
                    old(utilization)@.len() as int,
                    final(utilization)@.len() as int,
                ),
                first,
                last,
                level as nat,
                max_level as nat,
            ),
        decreases level,
    {
        let noise = random_i64(&mut self.rng, 0, UTIL_ONE as i64) as u64;
        let point = midpoint(first, last, noise, max_level - level);
        let ghost before = utilization@;
        if level > 0 {
            self.generate_point(first, point, level - 1, max_level, utilization);
        }
        let ghost left = utilization@.subrange(before.len() as int, utilization@.len() as int);
        assert(utilization@ =~= utilization@.subrange(0, before.len() as int) + left);
        utilization.push(point);
        let ghost held = utilization@;
        if level > 0 {
            self.generate_point(point, last, level - 1, max_level, utilization);
        }
        proof {
            let right = utilization@.subrange(held.len() as int, utilization@.len() as int);
            let added = utilization@.subrange(before.len() as int, utilization@.len() as int);
            let middle = seq![point];
            assert(stretch_within(left, first.time.0 as int, point.time.0 as int));
            assert(stretch_within(middle, point.time.0 as int, point.time.0 as int));
            assert(stretch_within(right, point.time.0 as int, last.time.0 as int));
            lemma_stretches_join(
                left,
                middle,
                first.time.0 as int,
                point.time.0 as int,
                point.time.0 as int,
            );
            lemma_stretches_join(
                left + middle,
                right,
                first.time.0 as int,
                point.time.0 as int,
                last.time.0 as int,
            );
            assert(held =~= before + left + middle);
            assert(utilization@.subrange(0, held.len() as int) == held);
            assert(utilization@ =~= utilization@.subrange(0, held.len() as int) + right);
            assert(added =~= left + middle + right);
            assert(utilization@.subrange(0, before.len() as int) =~= before);
            lemma_halves_join(left, right, first, last, level as nat, max_level as nat, noise);
        }
    }

    /// Where the curve of the entry is kept, if it has been made.
    fn find_summary(&self, entry_id: &EntryID) -> (at: Option<usize>)
        ensures
            at matches Some(i) ==> i < self.summary_cache@.len(),
            match at {
                Some(i) => first_under(self.summary_cache@, entry_id@, 0) == Some(i as int),
                None => first_under(self.summary_cache@, entry_id@, 0) is None,
            },
    {
        let mut i: usize = 0;
        while i < self.summary_cache.len()
            invariant
                i <= self.summary_cache@.len(),
                first_under(self.summary_cache@, entry_id@, 0) == first_under(
                    self.summary_cache@,
                    entry_id@,
                    i as int,
                ),
            decreases self.summary_cache@.len() - i,
        {
            if self.summary_cache[i].0 == *entry_id {
                return Some(i);
            }
            i += 1;
        }
        None
    }

    /// Where the rows of the entry are kept, if they have been made.
    fn find_slot(&self, entry_id: &EntryID) -> (at: Option<usize>)
        ensures
            at matches Some(i) ==> i < self.slot_cache@.len(),
            match at {
                Some(i) => first_under(self.slot_cache@, entry_id@, 0) == Some(i as int),
                None => first_under(self.slot_cache@, entry_id@, 0) is None,
            },
    {
        let mut i: usize = 0;
        while i < self.slot_cache.len()
            invariant
                i <= self.slot_cache@.len(),
                first_under(self.slot_cache@, entry_id@, 0) == first_under(
                    self.slot_cache@,
                    entry_id@,
                    i as int,
                ),
            decreases self.slot_cache@.len() - i,
        {
            if self.slot_cache[i].0 == *entry_id {
                return Some(i);
            }
            i += 1;
        }
        None
    }

    /// Makes the utilization curve of the entry, unless it has been made
    /// before, and says where it is kept.
    fn generate_summary(&mut self, entry_id: &EntryID) -> (at: usize)
        requires
            old(self).sound(),
        ensures
            final(self).sound(),
            at < final(self).summary_cache@.len(),
            final(self).info == old(self).info,
            old(self).interval is Some ==> final(self).interval == old(self).interval,
            final(self).slot_cache@ == old(self).slot_cache@,
            first_under(final(self).summary_cache@, entry_id@, 0) == Some(at as int),
            forall|path: Seq<EntryIndex>|
                (#[trigger] old(self).curve_of(path)) is Some ==> final(self).curve_of(path)
                    == old(self).curve_of(path),
    {
        match self.find_summary(entry_id) {
            Some(at) => at,
            None => {
                let range = self.interval();
                let first = UtilPoint {
                    time: range.start,
                    util: random_i64(&mut self.rng, 0, UTIL_ONE as i64) as u32,
                };
                let last = UtilPoint {
                    time: range.stop,
                    util: random_i64(&mut self.rng, 0, UTIL_ONE as i64) as u32,
                };
                let mut utilization: Vec<UtilPoint> = Vec::new();
                utilization.push(first);
                let ghost head = utilization@;
                self.generate_point(first, last, LEVELS, LEVELS, &mut utilization);
                let ghost body = utilization@.subrange(1, utilization@.len() as int);
                utilization.push(last);
                proof {
                    let tail = seq![last];
                    assert(stretch_within(head, first.time.0 as int, first.time.0 as int));
                    assert(stretch_within(tail, last.time.0 as int, last.time.0 as int));
                    lemma_stretches_join(
                        head,
                        body,
                        first.time.0 as int,
                        first.time.0 as int,
                        last.time.0 as int,
                    );
                    lemma_stretches_join(
                        head + body,
                        tail,
                        first.time.0 as int,
                        last.time.0 as int,
                        last.time.0 as int,
                    );
                    assert(utilization@ =~= head + body + tail);
                    assert(utilization@.subrange(1, utilization@.len() - 1) =~= body);
                }
                let ghost held = self.summary_cache@;
                let one = (entry_id.clone(), utilization);
                proof {
                    assert(held == old(self).summary_cache@);
                    assert forall|path: Seq<EntryIndex>|
                        first_under(held.push(one), path, 0) == match first_under(held, path, 0) {
                            Some(i) => Some(i),
                            None => if one.0@ == path {
                                Some(held.len() as int)
                            } else {
                                None
                            },
                        } && (first_under(held, path, 0) matches Some(i) ==> 0 <= i
                            < held.len()) by {
                        lemma_first_under_push(held, one, path, 0);
                    }
                }
                self.summary_cache.push(one);
                self.summary_cache.len() - 1
            },
        }
    }

    /// The rows of a slot with `max_rows` rows: in each row a thousand
    /// items, spread evenly over `range`, each with the next color of the
    /// palette.
    fn generate_rows(range: Interval, max_rows: u64) -> (rows: Vec<Vec<Item>>)
        requires
            range.wf(),
        ensures
            rows@.len() == max_rows,
            rows_wf(rows@),
            rows_spread(rows@, range),
    {
        let mut rows: Vec<Vec<Item>> = Vec::new();
        let mut row: u64 = 0;
        while row < max_rows
            invariant
                range.wf(),
                row <= max_rows,
                rows@.len() == row,
                rows_wf(rows@),
                rows_spread(rows@, range),
            decreases max_rows - row,
        {
            let mut row_items: Vec<Item> = Vec::new();
            let mut i: u64 = 0;
            while i < ITEMS_PER_ROW
                invariant
                    range.wf(),
                    i <= ITEMS_PER_ROW,
                    row_items@.len() == i,
                    forall|k: int| 0 <= k < i ==> (#[trigger] row_items@[k]).interval.wf(),
                    row < max_rows,
                    forall|k: int|
                        0 <= k < i ==> item_spread(#[trigger] row_items@[k], range, row as int, k),
                decreases ITEMS_PER_ROW - i,
            {
                let begin = Fraction { numer: (100 * i + 5) as i128, denom: 100_000 };
                let end = Fraction { numer: (100 * i + 95) as i128, denom: 100_000 };
                proof {
                    lemma_lerp_in_interval(range, begin);
                    lemma_lerp_in_interval(range, end);
                    let d = range.duration();
                    assert(0 <= begin.numer * d <= end.numer * d <= 100_000
                        * 0xffff_ffff_ffff_ffff) by (nonlinear_arith)
                        requires
                            0 <= begin.numer <= end.numer <= 100_000,
                            0 <= d <= 0xffff_ffff_ffff_ffff,
                    ;
                    lemma_round_div_monotonic(begin.numer * d, end.numer * d, 100_000);
                }
                let start = range.lerp(begin);
                let stop = range.lerp(end);
                let index: u64 = ((row as u128 * 1000 + i as u128) % 7) as u64;
                let (r, g, b) = palette_rgb(index);
                let mut fields: Vec<(String, Field)> = Vec::new();
                fields.push(
                    (String::from_str("Name"), Field::String(String::from_str("Test Item"))),
                );
                row_items.push(
                    Item { interval: Interval::new(start, stop), color: color_from_rgb(r, g, b), fields },
                );
                i += 1;
            }
            let ghost held = rows@;
            rows.push(row_items);
            proof {
                assert forall|a: int, k: int|
                    0 <= a < rows@.len() && 0 <= k < rows@[a]@.len() implies (
                #[trigger] rows@[a]@[k]).interval.wf() by {
                    if a < held.len() {
                        assert(rows@[a] == held[a]);
                    }
                }
                assert forall|a: int| 0 <= a < rows@.len() implies (#[trigger] rows@[a])@.len()
                    == ITEMS_PER_ROW && forall|k: int|
                    0 <= k < ITEMS_PER_ROW ==> item_spread(#[trigger] rows@[a]@[k], range, a, k) by {
                    if a < held.len() {
                        assert(rows@[a] == held[a]);
                    }
                }
            }
            row += 1;
        }
        rows
    }

    /// Makes the rows of the slot, unless they have been made before, and
    /// says where they are kept.
    fn generate_slot(&mut self, entry_id: &EntryID) -> (at: usize)
        requires
            old(self).sound(),
            names_slot(old(self).info, entry_id@),
        ensures
            final(self).sound(),
            at < final(self).slot_cache@.len(),
            final(self).info == old(self).info,
            old(self).interval is Some ==> final(self).interval == old(self).interval,
            final(self).summary_cache@ == old(self).summary_cache@,
            first_under(final(self).slot_cache@, entry_id@, 0) == Some(at as int),
            forall|path: Seq<EntryIndex>|
                (#[trigger] old(self).rows_of(path)) is Some ==> final(self).rows_of(path)
                    == old(self).rows_of(path),
    {
        match self.find_slot(entry_id) {
            Some(at) => at,
            None => {
                let max_rows: u64 = match self.fetch_info().get(entry_id) {
                    Some(EntryInfo::Slot { max_rows, .. }) => *max_rows,
                    _ => 0,
                };
                assert(rows_match(self.info->Some_0, entry_id@, max_rows as int));
                let range = self.interval();
                let items = Self::generate_rows(range, max_rows);
                let ghost held = self.slot_cache@;
                let one = (entry_id.clone(), items);
                proof {
                    assert(held == old(self).slot_cache@);
                    assert forall|path: Seq<EntryIndex>|
                        first_under(held.push(one), path, 0) == match first_under(held, path, 0) {
                            Some(i) => Some(i),
                            None => if one.0@ == path {
                                Some(held.len() as int)
                            } else {
                                None
                            },
                        } && (first_under(held, path, 0) matches Some(i) ==> 0 <= i
                            < held.len()) by {
                        lemma_first_under_push(held, one, path, 0);
                    }
                }
                self.slot_cache.push(one);
                self.slot_cache.len() - 1
            },
        }
    }

    /// Makes the schema of the profile, with a random number of rows for
    /// each slot.
    fn generate_info(&mut self) -> (info: EntryInfo)
        requires
            old(self).sound(),
        ensures
            final(self).sound(),
            profile_shaped(info),
            final(self).interval == old(self).interval,
            final(self).info == old(self).info,
            final(self).summary_cache == old(self).summary_cache,
            final(self).slot_cache == old(self).slot_cache,
    {
        let mut node_slots: Vec<EntryInfo> = Vec::new();
        let mut node: u64 = 0;
        while node < NODES
            invariant
                self.sound(),
                self.interval == old(self).interval,
                self.summary_cache == old(self).summary_cache,
                self.slot_cache == old(self).slot_cache,
                self.info == old(self).info,
                node <= NODES,
                node_slots@.len() == node,
                forall|n: int| 0 <= n < node ==> node_shaped(#[trigger] node_slots@[n], n),
            decreases NODES - node,
        {
            let mut kind_slots: Vec<EntryInfo> = Vec::new();
            let mut k: u64 = 0;
            while k < KINDS
                invariant
                    self.sound(),
                    self.interval == old(self).interval,
                    self.summary_cache == old(self).summary_cache,
                    self.slot_cache == old(self).slot_cache,
                    self.info == old(self).info,
                    node < NODES,
                    k <= KINDS,
                    kind_slots@.len() == k,
                    forall|j: int| 0 <= j < k ==> kind_shaped(#[trigger] kind_slots@[j], node as int, j),
                decreases KINDS - k,
            {
                let (r, g, b) = palette_rgb(k % 4);
                let color = color_from_rgb(r, g, b);
                let mut kind_long = String::from_str("Node ");
                append_decimal(&mut kind_long, node);
                kind_long.append(" ");
                kind_long.append(kind_text(k));
                assert(kind_long@ =~= kind_long_name(node as int, k as int));
                let mut proc_slots: Vec<EntryInfo> = Vec::new();
                let mut proc: u64 = 0;
                while proc < PROCS
                    invariant
                        self.sound(),
                        self.interval == old(self).interval,
                        self.summary_cache == old(self).summary_cache,
                        self.slot_cache == old(self).slot_cache,
                        self.info == old(self).info,
                        node < NODES,
                        k < KINDS,
                        proc <= PROCS,
                        kind_long@ == kind_long_name(node as int, k as int),
                        proc_slots@.len() == proc,
                        forall|p: int|
                            0 <= p < proc ==> slot_shaped(
                                #[trigger] proc_slots@[p],
                                node as int,
                                k as int,
                                p,
                            ),
                    decreases PROCS - proc,
                {
                    let rows = random_i64(&mut self.rng, 0, MAX_ROWS as i64) as u64;
                    let mut short_name = lowercase(kind_initial_text(k));
                    append_decimal(&mut short_name, proc);
                    let mut long_name = kind_long.clone();
                    long_name.append(" ");
                    append_decimal(&mut long_name, proc);
                    assert(long_name@ =~= kind_long_name(node as int, k as int) + " "@ + decimal(
                        proc as nat,
                    ));
                    proc_slots.push(EntryInfo::Slot { short_name, long_name, max_rows: rows });
                    proc += 1;
                }
                kind_slots.push(
                    EntryInfo::Panel {
                        short_name: lowercase(kind_text(k)),
                        long_name: kind_long,
                        summary: Some(Box::new(EntryInfo::Summary { color })),
                        slots: proc_slots,
                    },
                );
                k += 1;
            }
            let mut short_name = String::from_str("n");
            append_decimal(&mut short_name, node);
            let mut long_name = String::from_str("Node ");
            append_decimal(&mut long_name, node);
            node_slots.push(
                EntryInfo::Panel { short_name, long_name, summary: None, slots: kind_slots },
            );
            node += 1;
        }
        EntryInfo::Panel {
            short_name: String::from_str("root"),
            long_name: String::from_str("root"),
            summary: None,
            slots: node_slots,
        }
    }
}

impl Default for RandomDataSource {
    fn default() -> (source: Self)
        ensures
            source.wf(),
            source.known_interval() is None,
            source.schema() is None,
    {
        RandomDataSource::new()
    }
}

impl DataSource for RandomDataSource {
    open spec fn wf(&self) -> bool {
        self.sound()
    }

    closed spec fn known_interval(&self) -> Option<Interval> {
        self.interval
    }

    closed spec fn schema(&self) -> Option<EntryInfo> {
        self.info
    }

    open spec fn tiling(&self, path: Path, window: Interval) -> Option<Tiling> {
        Some(three_tiles(window))
    }

    open spec fn slot_content(&self, path: Path, tile_id: TileID) -> Option<SlotContent> {
        match self.rows_of(path) {
            Some(rows) => Some(clipped_rows(rows, tile_id.0)),
            None => None,
        }
    }

    open spec fn summary_content(&self, path: Path, tile_id: TileID) -> Option<SummaryContent> {
        match self.curve_of(path) {
            Some(curve) => Some(summary_points(curve, tile_id.0, curve.len() as int)),
            None => None,
        }
    }

    /// The time range of the data: from 0 to a random time between one and
    /// two milliseconds, chosen at the first call.
    fn interval(&mut self) -> (r: Interval)
        ensures
            r.start.0 == 0,
            1_000_000 <= r.stop.0 < 2_000_000,
            final(self).schema() == old(self).schema(),
            final(self).curves() == old(self).curves(),
            final(self).slots() == old(self).slots(),
    {
        if let Some(interval) = self.interval {
            return interval;
        }
        let interval = Interval::new(
            Timestamp(0),
            Timestamp(random_i64(&mut self.rng, 1_000_000, 2_000_000)),
        );
        self.interval = Some(interval);
        interval
    }

    /// The schema of the profile, made at the first call.
    fn fetch_info(&mut self) -> (r: &EntryInfo)
        ensures
            profile_shaped(*r),
            final(self).known_interval() == old(self).known_interval(),
            final(self).curves() == old(self).curves(),
            final(self).slots() == old(self).slots(),
    {
        if self.info.is_none() {
            let info = self.generate_info();
            self.info = Some(info);
        }
        proof {
            lemma_profile_layable(self.info->Some_0);
        }
        self.info.as_ref().unwrap()
    }

    /// Cuts the window into three tiles of equal duration.
    fn request_tiles(&mut self, entry_id: &EntryID, request_interval: Interval) -> (r: Vec<TileID>)
        ensures
            r@.len() == TILES,
            forall|i: int|
                0 <= i < TILES ==> (#[trigger] r@[i]).0.start.0 == boundary(
                    request_interval,
                    TILES as int,
                    i,
                ) && r@[i].0.stop.0 == boundary(request_interval, TILES as int, i + 1),
            final(self).known_interval() == old(self).known_interval(),
            final(self).schema() == old(self).schema(),
            final(self).curves() == old(self).curves(),
            final(self).slots() == old(self).slots(),
    {
        let tiles = split_interval(request_interval, TILES);
        assert(tiles@ =~= three_tiles(request_interval));
        tiles
    }

    /// The part of the utilization curve of the entry that lies in the
    /// tile. The curve is made when the entry is first asked for.
    fn fetch_summary_tile(&mut self, entry_id: &EntryID, tile_id: TileID) -> (r: SummaryTile)
        ensures
            ({
                &&& final(self).curve_of(entry_id@) matches Some(curve)
                &&& final(self).known_interval() matches Some(range)
                &&& r.utilization@ == summary_points(curve, tile_id.0, curve.len() as int)
                &&& curve_sound(curve, range)
            }),
            forall|path: Seq<EntryIndex>|
                (#[trigger] old(self).curve_of(path)) is Some ==> final(self).curve_of(path)
                    == old(self).curve_of(path),
            final(self).slots() == old(self).slots(),
    {
        let at = self.generate_summary(entry_id);
        proof {
            lemma_first_under_found(self.summary_cache@, entry_id@, 0);
        }
        summary_tile(&self.summary_cache[at].1, tile_id)
    }

    /// The items of the slot that lie in the tile, cut down to it. The items
    /// are made when the slot is first asked for.
    fn fetch_slot_tile(&mut self, entry_id: &EntryID, tile_id: TileID) -> (r: SlotTile)
        ensures
            ({
                &&& final(self).rows_of(entry_id@) matches Some(rows)
                &&& final(self).known_interval() matches Some(range)
                &&& final(self).schema() matches Some(info)
                &&& r.items@.len() == rows.len()
                &&& forall|k: int|
                    0 <= k < rows.len() ==> row_views((#[trigger] r.items@[k])@) == clip_row(
                        row_views(rows[k]@),
                        tile_id.0,
                    )
                &&& rows_spread(rows, range)
                &&& rows_match(info, entry_id@, rows.len() as int)
            }),
            forall|path: Seq<EntryIndex>|
                (#[trigger] old(self).rows_of(path)) is Some ==> final(self).rows_of(path)
                    == old(self).rows_of(path),
            final(self).curves() == old(self).curves(),
    {
        let at = self.generate_slot(entry_id);
        let tile = clip_items(&self.slot_cache[at].1, tile_id);
        proof {
            lemma_first_under_found(self.slot_cache@, entry_id@, 0);
            let rows = self.slot_cache@[at as int].1@;
            assert forall|row: int, i: int|
                0 <= row < tile.items@.len() && 0 <= i < tile.items@[row]@.len() implies {
                let item = #[trigger] row_views(tile.items@[row]@)[i];
                &&& item.interval.wf()
                &&& tile.tile_id.0.start.0 <= item.interval.start.0
                &&& item.interval.stop.0 <= tile.tile_id.0.stop.0
            } by {
                let source_row = row_views(rows[row]@);
                assert forall|k: int| 0 <= k < source_row.len() implies (
                #[trigger] source_row[k]).interval.wf() by {
                    assert(rows[row]@[k].interval.wf());
                }
                lemma_clip_row_within(source_row, tile_id.0, i);
            }
            assert(slot_content_of(tile) =~= clipped_rows(rows, tile_id.0));
        }
        tile
    }
}

} // verus!
