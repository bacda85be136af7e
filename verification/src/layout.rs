//! The rows of a profile on the screen: which entries are expanded, and how
//! tall each is.

use vstd::prelude::*;
use crate::timestamp::Interval;
use crate::view::Context;

verus! {

/// The rows that a collapsed slot takes, and a collapsed panel without a
/// summary.
pub const UNEXPANDED_ROWS: u64 = 2;

/// The rows that a summary takes.
pub const SUMMARY_ROWS: u64 = 4;

/// The pixels left free between two entries of a panel.
pub const ROW_PADDING: u64 = 4;

/// The settings of one profile: which of its nodes are shown, and its time
/// range.
#[derive(Debug, Copy, Clone, PartialEq, Eq, Structural)]
pub struct Config {
    /// The first node that is shown.
    pub min_node: u64,
    /// The last node that is shown.
    pub max_node: u64,
    /// The time range of the profile.
    pub interval: Interval,
}

/// The row of a panel that shows its utilization curve.
#[derive(Debug)]
pub struct Summary {
    pub color: egui::Color32,
}

/// A leaf of the hierarchy: one track of items.
#[derive(Debug)]
pub struct Slot {
    pub expanded: bool,
    pub short_name: String,
    pub long_name: String,
    pub max_rows: u64,
}

/// A node of the hierarchy with entries below it.
#[derive(Debug)]
pub struct Panel {
    pub expanded: bool,
    pub short_name: String,
    pub long_name: String,
    /// The depth of the panel: 0 for the root.
    pub level: u64,
    pub summary: Option<Summary>,
    pub slots: Vec<Entry>,
}

/// What a panel holds below its summary: slots and further panels.
#[derive(Debug)]
pub enum Entry {
    Slot(Slot),
    Panel(Panel),
}

/// Whether the child at `index` of a panel at depth `parent_level` is
/// shown. The selection of nodes applies to the children of the root only.
pub open spec fn slot_visible(parent_level: u64, index: int, config: Config) -> bool {
    parent_level != 0 || (config.min_node <= index <= config.max_node)
}

/// The height of a summary.
pub open spec fn summary_height(row_height: int) -> int {
    SUMMARY_ROWS * row_height
}

/// The rows of a slot: all of them when it is expanded, but never fewer
/// than a collapsed slot has.
pub open spec fn slot_rows(slot: Slot) -> int {
    if slot.expanded && slot.max_rows > UNEXPANDED_ROWS {
        slot.max_rows as int
    } else {
        UNEXPANDED_ROWS as int
    }
}

/// The height of an entry.
pub open spec fn entry_height(entry: Entry, config: Config, row_height: int) -> int
    decreases entry, 0int,
{
    match entry {
        Entry::Slot(slot) => slot_rows(slot) * row_height,
        Entry::Panel(panel) => panel_height(panel, config, row_height),
    }
}

/// The height of what stands at the top of a panel: its summary, or, for a
/// collapsed panel without one, a placeholder.
pub open spec fn header_height(panel: Panel, row_height: int) -> int {
    if panel.summary is Some {
        summary_height(row_height)
    } else if !panel.expanded {
        UNEXPANDED_ROWS * row_height
    } else {
        0
    }
}

/// Whether anything stands at the top of a panel.
pub open spec fn has_header(panel: Panel) -> bool {
    panel.summary is Some || !panel.expanded
}

/// The heights of the shown ones among the first `n` of `slots`, added up.
pub open spec fn shown_heights(
    slots: Seq<Entry>,
    level: u64,
    config: Config,
    row_height: int,
    n: int,
) -> int
    decreases slots, n,
{
    if n <= 0 || n > slots.len() {
        0
    } else {
        shown_heights(slots, level, config, row_height, n - 1) + if slot_visible(
            level,
            n - 1,
            config,
        ) {
            entry_height(slots[n - 1], config, row_height)
        } else {
            0
        }
    }
}

/// How many of the first `n` of `slots` are shown.
pub open spec fn shown_count(slots: Seq<Entry>, level: u64, config: Config, n: int) -> int
    decreases n,
{
    if n <= 0 || n > slots.len() {
        0
    } else {
        shown_count(slots, level, config, n - 1) + if slot_visible(level, n - 1, config) {
            1int
        } else {
            0int
        }
    }
}

/// How many entries a panel lays out one below the other: its header, if
/// it has one, and, when it is expanded, its shown children.
pub open spec fn panel_rows(panel: Panel, config: Config) -> int {
    (if has_header(panel) {
        1int
    } else {
        0int
    }) + if panel.expanded {
        shown_count(panel.slots@, panel.level, config, panel.slots@.len() as int)
    } else {
        0
    }
}

/// The height of a panel: the heights of the entries that it lays out and
/// the padding between them.
pub open spec fn panel_height(panel: Panel, config: Config, row_height: int) -> int
    decreases panel, 0int,
{
    let rows = panel_rows(panel, config);
    header_height(panel, row_height) + (if panel.expanded {
        shown_heights(panel.slots@, panel.level, config, row_height, panel.slots@.len() as int)
    } else {
        0
    }) + (if rows >= 1 {
        rows - 1
    } else {
        0
    }) * ROW_PADDING
}

/// No height is negative.
pub proof fn lemma_heights_nonnegative(entry: Entry, config: Config, row_height: int)
    requires
        row_height >= 0,
    ensures
        entry_height(entry, config, row_height) >= 0,
    decreases entry, 0int,
{
    match entry {
        Entry::Slot(slot) => {
            assert(slot_rows(slot) * row_height >= 0) by (nonlinear_arith)
                requires
                    slot_rows(slot) >= 0,
                    row_height >= 0,
            ;
        },
        Entry::Panel(panel) => {
            lemma_panel_height_nonnegative(panel, config, row_height);
        },
    }
}

/// No panel has a negative height.
pub proof fn lemma_panel_height_nonnegative(panel: Panel, config: Config, row_height: int)
    requires
        row_height >= 0,
    ensures
        panel_height(panel, config, row_height) >= 0,
    decreases panel, 0int,
{
    lemma_shown_nonnegative(panel.slots@, panel.level, config, row_height, panel.slots@.len() as int);
    let rows = panel_rows(panel, config);
    assert((if rows >= 1 {
        rows - 1
    } else {
        0
    }) * ROW_PADDING >= 0) by (nonlinear_arith);
    assert(SUMMARY_ROWS * row_height >= 0 && UNEXPANDED_ROWS * row_height >= 0)
        by (nonlinear_arith)
        requires
            row_height >= 0,
    ;
}

/// The shown heights and the shown count only grow with `n`.
pub proof fn lemma_shown_nonnegative(
    slots: Seq<Entry>,
    level: u64,
    config: Config,
    row_height: int,
    n: int,
)
    requires
        row_height >= 0,
    ensures
        shown_heights(slots, level, config, row_height, n) >= 0,
        shown_count(slots, level, config, n) >= 0,
        0 < n <= slots.len() ==> shown_heights(slots, level, config, row_height, n - 1)
            <= shown_heights(slots, level, config, row_height, n) && shown_count(
            slots,
            level,
            config,
            n - 1,
        ) <= shown_count(slots, level, config, n),
    decreases slots, n,
{
    if 0 < n <= slots.len() {
        lemma_shown_nonnegative(slots, level, config, row_height, n - 1);
        lemma_heights_nonnegative(slots[n - 1], config, row_height);
    }
}

impl Summary {
    /// The height of the summary, if it can be held in 64 bits.
    pub fn height(&self, cx: &Context) -> (h: Option<u64>)
        ensures
            h == if summary_height(cx.row_height as int) <= u64::MAX {
                Some(summary_height(cx.row_height as int) as u64)
            } else {
                None
            },
    {
        SUMMARY_ROWS.checked_mul(cx.row_height)
    }

    pub fn is_expandable(&self) -> (b: bool)
        ensures
            !b,
    {
        false
    }
}

impl Slot {
    /// The rows that the slot takes on the screen.
    pub fn rows(&self) -> (n: u64)
        ensures
            n == slot_rows(*self),
    {
        if self.expanded && self.max_rows > UNEXPANDED_ROWS {
            self.max_rows
        } else {
            UNEXPANDED_ROWS
        }
    }

    /// The height of the slot, if it can be held in 64 bits.
    pub fn height(&self, cx: &Context) -> (h: Option<u64>)
        ensures
            h == if slot_rows(*self) * cx.row_height <= u64::MAX {
                Some((slot_rows(*self) * cx.row_height) as u64)
            } else {
                None
            },
    {
        self.rows().checked_mul(cx.row_height)
    }

    pub fn is_expandable(&self) -> (b: bool)
        ensures
            b,
    {
        true
    }

    /// Expands a collapsed slot and collapses an expanded one.
    pub fn toggle_expanded(&mut self)
        ensures
            final(self).expanded == !old(self).expanded,
            final(self).short_name == old(self).short_name,
            final(self).long_name == old(self).long_name,
            final(self).max_rows == old(self).max_rows,
    {
        self.expanded = !self.expanded;
    }

    /// The text of the label of the slot.
    pub fn label_text(&self) -> (s: &str)
        ensures
            s@ == self.short_name@,
    {
        self.short_name.as_str()
    }

    /// The text shown while the pointer rests on the label.
    pub fn hover_text(&self) -> (s: &str)
        ensures
            s@ == self.long_name@,
    {
        self.long_name.as_str()
    }
}

impl Entry {
    /// The height of the entry, if it can be held in 64 bits.
    pub fn height(&self, config: &Config, cx: &Context) -> (h: Option<u64>)
        ensures
            h == if entry_height(*self, *config, cx.row_height as int) <= u64::MAX {
                Some(entry_height(*self, *config, cx.row_height as int) as u64)
            } else {
                None
            },
        decreases *self, 1int,
    {
        match self {
            Entry::Slot(slot) => slot.height(cx),
            Entry::Panel(panel) => panel.height(config, cx),
        }
    }
}

impl Panel {
    /// Whether the child at `index` of a panel at depth `parent_level` is
    /// shown.
    pub fn is_slot_visible(parent_level: u64, index: u64, config: &Config) -> (b: bool)
        ensures
            b == slot_visible(parent_level, index as int, *config),
    {
        parent_level != 0 || (index >= config.min_node && index <= config.max_node)
    }

    /// The height of the panel, if it can be held in 64 bits.
    pub fn height(&self, config: &Config, cx: &Context) -> (h: Option<u64>)
        ensures
            h == if panel_height(*self, *config, cx.row_height as int) <= u64::MAX {
                Some(panel_height(*self, *config, cx.row_height as int) as u64)
            } else {
                None
            },
        decreases *self, 0int,
    {
        let ghost rh = cx.row_height as int;
        let ghost all = self.slots@.len() as int;
        proof {
            lemma_shown_nonnegative(self.slots@, self.level, *config, rh, all);
            assert(SUMMARY_ROWS * rh >= 0 && UNEXPANDED_ROWS * rh >= 0) by (nonlinear_arith)
                requires
                    rh >= 0,
            ;
        }
        let header: Option<u64> = if self.summary.is_some() {
            SUMMARY_ROWS.checked_mul(cx.row_height)
        } else if !self.expanded {
            UNEXPANDED_ROWS.checked_mul(cx.row_height)
        } else {
            Some(0)
        };
        let mut total: u64 = match header {
            Some(h) => h,
            None => {
                return None;
            },
        };
        let mut rows: u128 = if self.summary.is_some() || !self.expanded {
            1
        } else {
            0
        };
        if self.expanded {
            let mut i: usize = 0;
            while i < self.slots.len()
                invariant
                    i <= self.slots@.len(),
                    all == self.slots@.len(),
                    rh == cx.row_height,
                    self.expanded,
                    total == header_height(*self, rh) + shown_heights(
                        self.slots@,
                        self.level,
                        *config,
                        rh,
                        i as int,
                    ),
                    rows == (if has_header(*self) {
                        1int
                    } else {
                        0int
                    }) + shown_count(self.slots@, self.level, *config, i as int),
                    rows <= i + 1,
                    header_height(*self, rh) >= 0,
                decreases self.slots@.len() - i,
            {
                proof {
                    lemma_shown_tail(self.slots@, self.level, *config, rh, i + 1, all);
                    lemma_shown_nonnegative(self.slots@, self.level, *config, rh, i + 1);
                }
                if Self::is_slot_visible(self.level, i as u64, config) {
                    let height = match self.slots[i].height(config, cx) {
                        Some(h) => h,
                        None => {
                            return None;
                        },
                    };
                    total = match total.checked_add(height) {
                        Some(t) => t,
                        None => {
                            return None;
                        },
                    };
                    rows += 1;
                }
                i += 1;
            }
        }
        let gaps: u128 = if rows >= 1 {
            rows - 1
        } else {
            0
        };
        let padded: u128 = total as u128 + gaps * (ROW_PADDING as u128);
        if padded <= u64::MAX as u128 {
            Some(padded as u64)
        } else {
            None
        }
    }

    pub fn is_expandable(&self) -> (b: bool)
        ensures
            b,
    {
        true
    }

    /// Expands a collapsed panel and collapses an expanded one.
    pub fn toggle_expanded(&mut self)
        ensures
            final(self).expanded == !old(self).expanded,
            final(self).short_name == old(self).short_name,
            final(self).long_name == old(self).long_name,
            final(self).level == old(self).level,
            final(self).summary == old(self).summary,
            final(self).slots == old(self).slots,
    {
        self.expanded = !self.expanded;
    }

    /// The text of the label of the panel.
    pub fn label_text(&self) -> (s: &str)
        ensures
            s@ == self.short_name@,
    {
        self.short_name.as_str()
    }

    /// The text shown while the pointer rests on the label.
    pub fn hover_text(&self) -> (s: &str)
        ensures
            s@ == self.long_name@,
    {
        self.long_name.as_str()
    }
}

/// What the first `n` children add up to is no more than what all of them
/// add up to.
pub proof fn lemma_shown_tail(
    slots: Seq<Entry>,
    level: u64,
    config: Config,
    row_height: int,
    n: int,
    all: int,
)
    requires
        row_height >= 0,
        0 <= n <= all <= slots.len(),
    ensures
        shown_heights(slots, level, config, row_height, n) <= shown_heights(
            slots,
            level,
            config,
            row_height,
            all,
        ),
        shown_count(slots, level, config, n) <= shown_count(slots, level, config, all),
    decreases all - n,
{
    if n < all {
        lemma_shown_tail(slots, level, config, row_height, n, all - 1);
        lemma_shown_nonnegative(slots, level, config, row_height, all);
    }
}

/// Whether every panel at or below this entry has few enough children for
/// each of them to have an address.
pub open spec fn addressable(entry: Entry) -> bool
    decreases entry, 0int,
{
    match entry {
        Entry::Slot(_) => true,
        Entry::Panel(panel) => panel_addressable(panel),
    }
}

/// Whether this panel, and every panel below it, has few enough children
/// for each of them to have an address.
pub open spec fn panel_addressable(panel: Panel) -> bool
    decreases panel, 0int,
{
    &&& panel.slots@.len() <= i64::MAX
    &&& forall|i: int| 0 <= i < panel.slots@.len() ==> addressable(#[trigger] panel.slots@[i])
}

impl Entry {
    /// Whether every panel at or below this entry has few enough children
    /// for each of them to have an address.
    pub fn is_addressable(&self) -> (b: bool)
        ensures
            b == addressable(*self),
        decreases *self, 1int,
    {
        match self {
            Entry::Slot(_) => true,
            Entry::Panel(panel) => panel.is_addressable(),
        }
    }
}

impl Panel {
    /// Whether this panel, and every panel below it, has few enough
    /// children for each of them to have an address.
    pub fn is_addressable(&self) -> (b: bool)
        ensures
            b == panel_addressable(*self),
        decreases *self, 0int,
    {
        if self.slots.len() as u64 > i64::MAX as u64 {
            return false;
        }
        let mut i: usize = 0;
        while i < self.slots.len()
            invariant
                i <= self.slots@.len(),
                forall|k: int| 0 <= k < i ==> addressable(#[trigger] self.slots@[k]),
            decreases self.slots@.len() - i,
        {
            if !self.slots[i].is_addressable() {
                return false;
            }
            i += 1;
        }
        true
    }
}

} // verus!
