//! The walk over the rows of a profile that notes what a viewport shows,
//! and leaves out what lies outside it.

use vstd::prelude::*;
use crate::entry_id::{EntryID, EntryIndex};
use crate::fraction::{lemma_round_div_exact, lemma_round_div_monotonic, round_div};
use crate::layout::{Config, Entry, Panel, Slot, ROW_PADDING, SUMMARY_ROWS, UNEXPANDED_ROWS, addressable, entry_height, lemma_heights_nonnegative, lemma_shown_nonnegative, lemma_shown_tail, panel_addressable, panel_height, shown_count, shown_heights, slot_rows, slot_visible, summary_height};
use crate::view::Context;

verus! {

/// What kind of entry a visit is about.
#[derive(Debug, Copy, Clone, PartialEq, Eq, Structural)]
pub enum EntryKind {
    Summary,
    Slot,
    Panel,
}

/// The part of the rows that is on the screen, from `min` to `max`, both
/// in pixels below the top of the root panel.
#[derive(Debug, Copy, Clone, PartialEq, Eq, Structural)]
pub struct Viewport {
    pub min: u64,
    pub max: u64,
}

/// One entry that the viewport shows, with the pixels that it takes:
/// from `top` to `bottom`, both counted from the top of the root panel.
#[derive(Debug)]
pub struct Visit {
    pub entry_id: EntryID,
    pub kind: EntryKind,
    pub top: u64,
    pub bottom: u64,
}

/// What a visit holds, as plain values.
pub struct VisitView {
    pub path: Seq<EntryIndex>,
    pub kind: EntryKind,
    pub top: int,
    pub bottom: int,
}

impl View for Visit {
    type V = VisitView;

    open spec fn view(&self) -> VisitView {
        VisitView {
            path: self.entry_id@,
            kind: self.kind,
            top: self.top as int,
            bottom: self.bottom as int,
        }
    }
}

/// What each visit of `visits` holds.
pub open spec fn visit_views(visits: Seq<Visit>) -> Seq<VisitView> {
    visits.map_values(|visit: Visit| visit@)
}

/// Whether an entry that takes the pixels from `top` up to `bottom`, the
/// pixel `bottom` itself not included, has a pixel in the viewport. An
/// entry without height has none.
pub open spec fn in_view(top: int, bottom: int, viewport: Viewport) -> bool {
    top < bottom && bottom > viewport.min && top <= viewport.max
}

/// Whether a row of a slot that is drawn from `top` to `bottom`, both
/// included, touches the viewport.
pub open spec fn row_in_view(top: int, bottom: int, viewport: Viewport) -> bool {
    bottom >= viewport.min && top <= viewport.max
}

/// How far the header of a panel pushes its children down.
pub open spec fn header_advance(panel: Panel, row_height: int) -> int {
    if panel.summary is Some {
        summary_height(row_height) + ROW_PADDING
    } else {
        0
    }
}

/// Where the child `n` of a panel begins, the first child beginning at
/// `first`: below the shown children before it, each followed by padding.
pub open spec fn slot_top(
    slots: Seq<Entry>,
    level: u64,
    config: Config,
    row_height: int,
    first: int,
    n: int,
) -> int {
    first + shown_heights(slots, level, config, row_height, n) + shown_count(
        slots,
        level,
        config,
        n,
    ) * ROW_PADDING
}

/// The entries that the viewport shows at and below `entry`, which begins
/// at `top`, from top to bottom: the entry itself and then, for a panel,
/// what it shows.
pub open spec fn entry_visits(
    entry: Entry,
    path: Seq<EntryIndex>,
    top: int,
    config: Config,
    row_height: int,
    viewport: Viewport,
) -> Seq<VisitView>
    decreases entry, 0int,
{
    match entry {
        Entry::Slot(slot) => seq![
            VisitView {
                path,
                kind: EntryKind::Slot,
                top,
                bottom: top + entry_height(entry, config, row_height),
            },
        ],
        Entry::Panel(panel) => seq![
            VisitView {
                path,
                kind: EntryKind::Panel,
                top,
                bottom: top + entry_height(entry, config, row_height),
            },
        ] + panel_visits(panel, path, top, config, row_height, viewport),
    }
}

/// The entries that the viewport shows below a panel that begins at `top`:
/// its summary, if that has a pixel in the viewport, and, when the panel is
/// expanded, each shown child that has a pixel in the viewport, with what that
/// child shows in turn.
pub open spec fn panel_visits(
    panel: Panel,
    path: Seq<EntryIndex>,
    top: int,
    config: Config,
    row_height: int,
    viewport: Viewport,
) -> Seq<VisitView>
    decreases panel, 0int,
{
    (if panel.summary is Some && in_view(top, top + summary_height(row_height), viewport) {
        seq![
            VisitView {
                path: path.push(EntryIndex::Summary),
                kind: EntryKind::Summary,
                top,
                bottom: top + summary_height(row_height),
            },
        ]
    } else {
        Seq::empty()
    }) + if panel.expanded {
        slots_visits(
            panel.slots@,
            panel.level,
            path,
            top + header_advance(panel, row_height),
            config,
            row_height,
            viewport,
            panel.slots@.len() as int,
        )
    } else {
        Seq::empty()
    }
}

/// The entries that the viewport shows at and below the first `n` children
/// of a panel, the first child beginning at `first`.
pub open spec fn slots_visits(
    slots: Seq<Entry>,
    level: u64,
    path: Seq<EntryIndex>,
    first: int,
    config: Config,
    row_height: int,
    viewport: Viewport,
    n: int,
) -> Seq<VisitView>
    decreases slots, n,
{
    if n <= 0 || n > slots.len() {
        Seq::empty()
    } else {
        let top = slot_top(slots, level, config, row_height, first, n - 1);
        slots_visits(slots, level, path, first, config, row_height, viewport, n - 1) + if slot_visible(
            level,
            n - 1,
            config,
        ) && in_view(top, top + entry_height(slots[n - 1], config, row_height), viewport) {
            entry_visits(
                slots[n - 1],
                path.push(EntryIndex::Slot((n - 1) as u64)),
                top,
                config,
                row_height,
                viewport,
            )
        } else {
            Seq::empty()
        }
    }
}

/// Children begin one below the other: a later child begins no higher.
pub proof fn lemma_slot_top_ordered(
    slots: Seq<Entry>,
    level: u64,
    config: Config,
    row_height: int,
    first: int,
    i: int,
    n: int,
)
    requires
        row_height >= 0,
        0 <= i <= n <= slots.len(),
    ensures
        slot_top(slots, level, config, row_height, first, i) <= slot_top(
            slots,
            level,
            config,
            row_height,
            first,
            n,
        ),
{
    lemma_shown_tail(slots, level, config, row_height, i, n);
}

/// Once a child begins below the viewport, the viewport shows nothing of
/// the children after it: the walk over the children may stop there.
pub proof fn lemma_visits_stop(
    slots: Seq<Entry>,
    level: u64,
    path: Seq<EntryIndex>,
    first: int,
    config: Config,
    row_height: int,
    viewport: Viewport,
    i: int,
    n: int,
)
    requires
        row_height >= 0,
        0 <= i <= n <= slots.len(),
        slot_top(slots, level, config, row_height, first, i) > viewport.max,
    ensures
        slots_visits(slots, level, path, first, config, row_height, viewport, n) == slots_visits(
            slots,
            level,
            path,
            first,
            config,
            row_height,
            viewport,
            i,
        ),
    decreases n - i,
{
    if i < n {
        lemma_visits_stop(slots, level, path, first, config, row_height, viewport, i, n - 1);
        lemma_slot_top_ordered(slots, level, config, row_height, first, i, n - 1);
        assert(slots_visits(slots, level, path, first, config, row_height, viewport, n)
            =~= slots_visits(slots, level, path, first, config, row_height, viewport, n - 1));
    }
}

/// A shown child and the padding below it end no lower than the panel and
/// the padding below the panel.
pub proof fn lemma_child_fits(panel: Panel, config: Config, row_height: int, top: int, i: int)
    requires
        row_height >= 0,
        panel.expanded,
        0 <= i < panel.slots@.len(),
        slot_visible(panel.level, i, config),
    ensures
        slot_top(
            panel.slots@,
            panel.level,
            config,
            row_height,
            top + header_advance(panel, row_height),
            i,
        ) + entry_height(panel.slots@[i], config, row_height) + ROW_PADDING <= top + panel_height(
            panel,
            config,
            row_height,
        ) + ROW_PADDING,
        slot_top(
            panel.slots@,
            panel.level,
            config,
            row_height,
            top + header_advance(panel, row_height),
            i,
        ) >= top,
        entry_height(panel.slots@[i], config, row_height) >= 0,
{
    let all = panel.slots@.len() as int;
    lemma_shown_tail(panel.slots@, panel.level, config, row_height, i + 1, all);
    lemma_shown_nonnegative(panel.slots@, panel.level, config, row_height, i + 1);
    lemma_shown_nonnegative(panel.slots@, panel.level, config, row_height, i);
    lemma_heights_nonnegative(panel.slots@[i], config, row_height);
    assert(SUMMARY_ROWS * row_height >= 0) by (nonlinear_arith)
        requires
            row_height >= 0,
    ;
}

impl Panel {
    /// Walks over what the panel lays out, from the top down, and notes
    /// each entry that has a pixel in the viewport. The panel begins at `top`; the
    /// walk leaves out what lies above the viewport and ends at the first
    /// child that begins below it.
    pub fn content(
        &self,
        entry_id: &EntryID,
        top: u64,
        viewport: &Viewport,
        config: &Config,
        cx: &Context,
        visits: &mut Vec<Visit>,
    )
        requires
            panel_addressable(*self),
            top + panel_height(*self, *config, cx.row_height as int) + ROW_PADDING <= u64::MAX,
        ensures
            visit_views(final(visits)@) == visit_views(old(visits)@) + panel_visits(
                *self,
                entry_id@,
                top as int,
                *config,
                cx.row_height as int,
                *viewport,
            ),
        decreases *self, 0int,
    {
        let ghost rh = cx.row_height as int;
        let ghost all = self.slots@.len() as int;
        let ghost before = visit_views(visits@);
        proof {
            lemma_shown_nonnegative(self.slots@, self.level, *config, rh, all);
            assert(SUMMARY_ROWS * rh >= 0 && UNEXPANDED_ROWS * rh >= 0) by (nonlinear_arith)
                requires
                    rh >= 0,
            ;
        }
        let mut y: u64 = top;
        if self.summary.is_some() {
            let bottom: u64 = y + SUMMARY_ROWS * cx.row_height;
            if y < bottom && bottom > viewport.min && y <= viewport.max {
                let ghost held = visits@;
                let visit = Visit {
                    entry_id: entry_id.summary(),
                    kind: EntryKind::Summary,
                    top: y,
                    bottom,
                };
                visits.push(visit);
                assert(visit_views(visits@) =~= visit_views(held).push(visit@));
            }
            y = bottom + ROW_PADDING;
        }
        let ghost first = top + header_advance(*self, rh);
        let ghost header = visit_views(visits@);
        assert(header =~= before + (if self.summary is Some && in_view(
            top as int,
            top + summary_height(rh),
            *viewport,
        ) {
            seq![
                VisitView {
                    path: entry_id@.push(EntryIndex::Summary),
                    kind: EntryKind::Summary,
                    top: top as int,
                    bottom: top + summary_height(rh),
                },
            ]
        } else {
            Seq::empty()
        }));
        if self.expanded {
            let mut i: usize = 0;
            let mut stop = false;
            assert(visit_views(visits@) =~= header + slots_visits(
                self.slots@,
                self.level,
                entry_id@,
                first,
                *config,
                rh,
                *viewport,
                0,
            ));
            while i < self.slots.len() && !stop
                invariant
                    panel_addressable(*self),
                    self.expanded,
                    rh == cx.row_height,
                    all == self.slots@.len(),
                    first == top + header_advance(*self, rh),
                    top + panel_height(*self, *config, rh) + ROW_PADDING <= u64::MAX,
                    i <= all,
                    !stop ==> y == slot_top(self.slots@, self.level, *config, rh, first, i as int),
                    visit_views(visits@) == header + slots_visits(
                        self.slots@,
                        self.level,
                        entry_id@,
                        first,
                        *config,
                        rh,
                        *viewport,
                        if stop {
                            all
                        } else {
                            i as int
                        },
                    ),
                decreases all - i,
            {
                if Self::is_slot_visible(self.level, i as u64, config) {
                    proof {
                        lemma_child_fits(*self, *config, rh, top as int, i as int);
                    }
                    let child_id = entry_id.child(i as u64);
                    let ghost held = visit_views(visits@);
                    let below = Self::render(
                        &self.slots[i],
                        &child_id,
                        &mut y,
                        viewport,
                        config,
                        cx,
                        visits,
                    );
                    if below {
                        proof {
                            lemma_visits_stop(
                                self.slots@,
                                self.level,
                                entry_id@,
                                first,
                                *config,
                                rh,
                                *viewport,
                                i as int,
                                all,
                            );
                            assert(visit_views(visits@) =~= held);
                        }
                        stop = true;
                    } else {
                        assert(visit_views(visits@) =~= header + slots_visits(
                            self.slots@,
                            self.level,
                            entry_id@,
                            first,
                            *config,
                            rh,
                            *viewport,
                            i + 1,
                        ));
                    }
                }
                i += 1;
            }
        } else {
            assert(visit_views(visits@) =~= header + Seq::<VisitView>::empty());
        }
    }

    /// Lays out one child of a panel at the cursor `y` and moves the
    /// cursor below it and its padding. If the child has a pixel in the viewport,
    /// it is noted, with what it shows in turn. The answer is `true` when the
    /// child begins below the viewport, so that nothing after it can be on
    /// the screen.
    pub fn render(
        slot: &Entry,
        entry_id: &EntryID,
        y: &mut u64,
        viewport: &Viewport,
        config: &Config,
        cx: &Context,
        visits: &mut Vec<Visit>,
    ) -> (below: bool)
        requires
            addressable(*slot),
            *old(y) + entry_height(*slot, *config, cx.row_height as int) + ROW_PADDING
                <= u64::MAX,
        ensures
            *final(y) == *old(y) + entry_height(*slot, *config, cx.row_height as int)
                + ROW_PADDING,
            below == (*old(y) > viewport.max),
            visit_views(final(visits)@) == visit_views(old(visits)@) + if in_view(
                *old(y) as int,
                *old(y) + entry_height(*slot, *config, cx.row_height as int),
                *viewport,
            ) {
                entry_visits(
                    *slot,
                    entry_id@,
                    *old(y) as int,
                    *config,
                    cx.row_height as int,
                    *viewport,
                )
            } else {
                Seq::empty()
            },
        decreases *slot, 1int,
    {
        let ghost rh = cx.row_height as int;
        let ghost before = visit_views(visits@);
        proof {
            lemma_heights_nonnegative(*slot, *config, rh);
        }
        let height: u64 = match slot.height(config, cx) {
            Some(h) => h,
            None => {
                assert(false);
                0
            },
        };
        let min_y: u64 = *y;
        let max_y: u64 = min_y + height;
        *y = max_y + ROW_PADDING;
        if min_y > viewport.max {
            assert(visit_views(visits@) =~= before + Seq::<VisitView>::empty());
            return true;
        } else if max_y <= viewport.min || min_y >= max_y {
            assert(visit_views(visits@) =~= before + Seq::<VisitView>::empty());
            return false;
        }
        match slot {
            Entry::Slot(_) => {
                let visit = Visit {
                    entry_id: entry_id.clone(),
                    kind: EntryKind::Slot,
                    top: min_y,
                    bottom: max_y,
                };
                let ghost held = visits@;
                visits.push(visit);
                assert(visit_views(visits@) =~= visit_views(held).push(visit@));
            },
            Entry::Panel(panel) => {
                let visit = Visit {
                    entry_id: entry_id.clone(),
                    kind: EntryKind::Panel,
                    top: min_y,
                    bottom: max_y,
                };
                let ghost held = visits@;
                visits.push(visit);
                assert(visit_views(visits@) =~= visit_views(held).push(visit@));
                panel.content(entry_id, min_y, viewport, config, cx, visits);
            },
        }
        false
    }
}

/// One row of a slot that the viewport shows, with the pixels that it
/// takes.
#[derive(Debug, Copy, Clone, PartialEq, Eq, Structural)]
pub struct RowVisit {
    /// The row, counted from the bottom of the slot.
    pub row: u64,
    pub top: u64,
    pub bottom: u64,
}

/// The margin above the row of a slot: a twentieth of the height of a row.
pub open spec fn row_margin(row_height: int) -> int {
    round_div(5 * row_height, 100)
}

/// How far below its given place a row ends: the height of a row less the
/// margin.
pub open spec fn row_reach(row_height: int) -> int {
    round_div(95 * row_height, 100)
}

/// Where the row `row` of `count` rows begins, in a slot that begins at
/// `top`: the rows are counted from the bottom, so the last row comes first.
pub open spec fn row_top(top: int, row_height: int, count: int, row: int) -> int {
    top + (count - row - 1) * row_height + row_margin(row_height)
}

/// Where the row `row` of `count` rows ends.
pub open spec fn row_bottom(top: int, row_height: int, count: int, row: int) -> int {
    top + (count - row - 1) * row_height + row_reach(row_height)
}

/// The rows among the first `n` of `count` rows that touch the viewport,
/// in their order.
pub open spec fn rows_in_view(
    top: int,
    row_height: int,
    count: int,
    viewport: Viewport,
    n: int,
) -> Seq<RowVisit>
    decreases n,
{
    if n <= 0 || n > count {
        Seq::empty()
    } else {
        let before = rows_in_view(top, row_height, count, viewport, n - 1);
        if row_in_view(
            row_top(top, row_height, count, n - 1),
            row_bottom(top, row_height, count, n - 1),
            viewport,
        ) {
            before.push(
                RowVisit {
                    row: (n - 1) as u64,
                    top: row_top(top, row_height, count, n - 1) as u64,
                    bottom: row_bottom(top, row_height, count, n - 1) as u64,
                },
            )
        } else {
            before
        }
    }
}

/// The margins of a row lie in the row, the upper above the lower.
pub proof fn lemma_row_margins(row_height: int)
    requires
        row_height >= 0,
    ensures
        0 <= row_margin(row_height) <= row_reach(row_height) <= row_height,
{
    lemma_round_div_monotonic(0, 5 * row_height, 100);
    lemma_round_div_monotonic(5 * row_height, 95 * row_height, 100);
    lemma_round_div_monotonic(95 * row_height, 100 * row_height, 100);
    lemma_round_div_exact(0, 100);
    lemma_round_div_exact(row_height, 100);
}

/// Once a row ends above the viewport, the viewport shows nothing of the
/// rows after it, which lie higher still.
pub proof fn lemma_rows_stop(
    top: int,
    row_height: int,
    count: int,
    viewport: Viewport,
    i: int,
    n: int,
)
    requires
        row_height >= 0,
        0 <= i <= n <= count,
        i < count,
        row_bottom(top, row_height, count, i) < viewport.min,
    ensures
        rows_in_view(top, row_height, count, viewport, n) == rows_in_view(
            top,
            row_height,
            count,
            viewport,
            i,
        ),
    decreases n - i,
{
    if i < n {
        lemma_rows_stop(top, row_height, count, viewport, i, n - 1);
        assert((count - (n - 1) - 1) * row_height <= (count - i - 1) * row_height)
            by (nonlinear_arith)
            requires
                row_height >= 0,
                i <= n - 1,
        ;
    }
}

impl Slot {
    /// The rows of the slot that the viewport shows, of the `count` rows
    /// that hold items, from the bottom row up. The slot begins at `top`.
    /// A collapsed slot shows no rows. The walk leaves out the rows below
    /// the viewport and ends at the first row that lies above it.
    pub fn content(&self, top: u64, count: u64, viewport: &Viewport, cx: &Context) -> (rows: Vec<RowVisit>)
        requires
            count <= slot_rows(*self),
            top + slot_rows(*self) * cx.row_height <= u64::MAX,
        ensures
            rows@ == if self.expanded {
                rows_in_view(top as int, cx.row_height as int, count as int, *viewport, count as int)
            } else {
                Seq::empty()
            },
    {
        let mut rows: Vec<RowVisit> = Vec::new();
        if !self.expanded {
            return rows;
        }
        let ghost rh = cx.row_height as int;
        proof {
            lemma_row_margins(rh);
        }
        let margin: u64 = round_hundredths(5, cx.row_height);
        let reach: u64 = round_hundredths(95, cx.row_height);
        let mut row: u64 = 0;
        let mut stop = false;
        while row < count && !stop
            invariant
                rh == cx.row_height,
                row <= count,
                count <= slot_rows(*self),
                top + slot_rows(*self) * rh <= u64::MAX,
                margin == row_margin(rh),
                reach == row_reach(rh),
                0 <= margin <= reach <= rh,
                rows@ == rows_in_view(top as int, rh, count as int, *viewport, if stop {
                    count as int
                } else {
                    row as int
                }),
            decreases count - row,
        {
            let above: u64 = count - row - 1;
            proof {
                assert(0 <= above * rh && above * rh + rh <= slot_rows(*self) * rh)
                    by (nonlinear_arith)
                    requires
                        0 <= above < slot_rows(*self),
                        rh >= 0,
                ;
            }
            let base: u64 = top + above * cx.row_height;
            let row_min: u64 = base + margin;
            let row_max: u64 = base + reach;
            if row_max < viewport.min {
                proof {
                    lemma_rows_stop(top as int, rh, count as int, *viewport, row as int, count as int);
                }
                stop = true;
            } else if row_min > viewport.max {
            } else {
                rows.push(RowVisit { row, top: row_min, bottom: row_max });
            }
            row += 1;
        }
        rows
    }
}

/// `percent` hundredths of `value`, rounded to the nearest integer.
fn round_hundredths(percent: u64, value: u64) -> (r: u64)
    requires
        percent <= 100,
    ensures
        r == round_div(percent * value, 100),
{
    proof {
        assert(0 <= percent * value <= 100 * value) by (nonlinear_arith)
            requires
                0 <= percent <= 100,
                value >= 0,
        ;
    }
    let product: u128 = percent as u128 * value as u128;
    let r = (2 * product + 100) / 200;
    r as u64
}

} // verus!
