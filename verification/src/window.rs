//! One profile on the screen: its rows laid out from a schema, the choice
//! of its nodes, and the expanding and collapsing of its entries.

use vstd::prelude::*;
use crate::data::{EntryInfo, child_names, distinct, texts};
use crate::entry_id::{EntryID, EntryIndex};
use crate::layout::{Config, Entry, Panel, Slot, Summary, ROW_PADDING, addressable, lemma_panel_height_nonnegative, panel_addressable, panel_height};
use crate::view::Context;
use crate::walk::{Viewport, Visit, VisitView, panel_visits, visit_views};

verus! {

/// The depth one below `level`.
pub open spec fn next_level(level: u64) -> u64 {
    if level < u64::MAX {
        (level + 1) as u64
    } else {
        level
    }
}

/// Whether a panel at depth `level` starts out expanded: every panel does
/// but those two below the root, the kinds of a node.
pub open spec fn starts_expanded(level: u64) -> bool {
    level != 2
}

/// Whether a schema can be laid out: the summary of each panel is a
/// summary, its children are panels and slots, and they are few enough for
/// each of them to have an address.
pub open spec fn layable(info: EntryInfo) -> bool
    decreases info,
{
    match info {
        EntryInfo::Panel { summary, slots, .. } => {
            &&& summary matches Some(s) ==> *s is Summary
            &&& slots@.len() <= i64::MAX
            &&& forall|i: int|
                0 <= i < slots@.len() ==> !((#[trigger] slots@[i]) is Summary) && layable(
                    slots@[i],
                )
        },
        EntryInfo::Slot { .. } => true,
        EntryInfo::Summary { .. } => false,
    }
}

/// Whether `entry` is the fresh layout of the schema `info` at depth
/// `level`: it has the names, rows, colors and children of the schema, and
/// every slot and panel in it is expanded or not as it starts out.
pub open spec fn lays_out(info: EntryInfo, entry: Entry, level: u64) -> bool
    decreases info, 1int,
{
    match (info, entry) {
        (EntryInfo::Slot { short_name, long_name, max_rows }, Entry::Slot(slot)) => {
            &&& slot.expanded
            &&& slot.short_name@ == short_name@
            &&& slot.long_name@ == long_name@
            &&& slot.max_rows == max_rows
        },
        (EntryInfo::Panel { .. }, Entry::Panel(panel)) => panel_lays_out(info, panel, level),
        _ => false,
    }
}

/// Whether `panel` is the fresh layout of the schema `info`, a panel, at
/// depth `level`.
pub open spec fn panel_lays_out(info: EntryInfo, panel: Panel, level: u64) -> bool
    decreases info, 0int,
{
    match info {
        EntryInfo::Panel { short_name, long_name, summary, slots } => {
            &&& panel.expanded == starts_expanded(level)
            &&& panel.level == level
            &&& panel.short_name@ == short_name@
            &&& panel.long_name@ == long_name@
            &&& match (summary, panel.summary) {
                (Some(s), Some(row)) => *s matches EntryInfo::Summary { color } && row.color
                    == color,
                (None, None) => true,
                _ => false,
            }
            &&& panel.slots@.len() == slots@.len()
            &&& forall|i: int|
                0 <= i < slots@.len() ==> lays_out(
                    #[trigger] slots@[i],
                    panel.slots@[i],
                    next_level(level),
                )
        },
        _ => false,
    }
}

impl Entry {
    /// Whether the entry is expanded.
    pub open spec fn spec_expanded(self) -> bool {
        match self {
            Entry::Slot(slot) => slot.expanded,
            Entry::Panel(panel) => panel.expanded,
        }
    }

    /// The text of the label of the entry.
    pub open spec fn spec_label(self) -> Seq<char> {
        match self {
            Entry::Slot(slot) => slot.short_name@,
            Entry::Panel(panel) => panel.short_name@,
        }
    }

    /// The entry with `expanded` set to `flag` and nothing else changed.
    pub open spec fn with_expanded(self, flag: bool) -> Entry {
        match self {
            Entry::Slot(slot) => Entry::Slot(Slot { expanded: flag, ..slot }),
            Entry::Panel(panel) => Entry::Panel(Panel { expanded: flag, ..panel }),
        }
    }

    /// The entry after all entries with the label `label` whose `expanded`
    /// is `toggle` have been toggled: it is toggled if it is one of them.
    pub open spec fn toggled_if(self, label: Seq<char>, toggle: bool) -> Entry {
        if self.spec_expanded() == toggle && self.spec_label() == label {
            self.with_expanded(!toggle)
        } else {
            self
        }
    }

    /// Whether `after` is this entry with each of its children toggled if
    /// it has the label `label` and its `expanded` is `toggle`, and nothing
    /// else changed. An entry without children stays as it is.
    pub open spec fn children_toggled(self, after: Entry, label: Seq<char>, toggle: bool) -> bool {
        match (self, after) {
            (Entry::Panel(old), Entry::Panel(new)) => {
                &&& new.expanded == old.expanded
                &&& new.short_name == old.short_name
                &&& new.long_name == old.long_name
                &&& new.level == old.level
                &&& new.summary == old.summary
                &&& new.slots@.len() == old.slots@.len()
                &&& forall|j: int|
                    0 <= j < old.slots@.len() ==> #[trigger] new.slots@[j] == old.slots@[j].toggled_if(
                        label,
                        toggle,
                    )
            },
            _ => after == self,
        }
    }

    /// The schema of the entry laid out afresh at depth `level`.
    pub fn from_info(info: &EntryInfo, level: u64) -> (entry: Entry)
        requires
            layable(*info),
        ensures
            lays_out(*info, entry, level),
            addressable(entry),
        decreases *info, 1int,
    {
        match info {
            EntryInfo::Slot { short_name, long_name, max_rows } => Entry::Slot(
                Slot {
                    expanded: true,
                    short_name: short_name.clone(),
                    long_name: long_name.clone(),
                    max_rows: *max_rows,
                },
            ),
            _ => Entry::Panel(Panel::from_info(info, level)),
        }
    }

    /// Whether the entry is expanded.
    pub fn expanded(&self) -> (b: bool)
        ensures
            b == self.spec_expanded(),
    {
        match self {
            Entry::Slot(slot) => slot.expanded,
            Entry::Panel(panel) => panel.expanded,
        }
    }

    /// The text of the label of the entry.
    pub fn label_text(&self) -> (s: &str)
        ensures
            s@ == self.spec_label(),
    {
        match self {
            Entry::Slot(slot) => slot.label_text(),
            Entry::Panel(panel) => panel.label_text(),
        }
    }

    /// Expands a collapsed entry and collapses an expanded one.
    pub fn toggle_expanded(&mut self)
        ensures
            *final(self) == old(self).with_expanded(!old(self).spec_expanded()),
    {
        match self {
            Entry::Slot(slot) => {
                slot.expanded = !slot.expanded;
            },
            Entry::Panel(panel) => {
                panel.expanded = !panel.expanded;
            },
        }
    }
}

impl Panel {
    /// The schema of a panel laid out afresh at depth `level`.
    pub fn from_info(info: &EntryInfo, level: u64) -> (panel: Panel)
        requires
            layable(*info),
            *info is Panel,
        ensures
            panel_lays_out(*info, panel, level),
            panel_addressable(panel),
        decreases *info, 0int,
    {
        match info {
            EntryInfo::Panel { short_name, long_name, summary, slots } => {
                let row = match summary {
                    Some(s) => match &**s {
                        EntryInfo::Summary { color } => Some(Summary { color: color.clone() }),
                        _ => None,
                    },
                    None => None,
                };
                let below: u64 = if level < u64::MAX {
                    level + 1
                } else {
                    level
                };
                let mut entries: Vec<Entry> = Vec::new();
                let mut i: usize = 0;
                while i < slots.len()
                    invariant
                        layable(*info),
                        *info matches EntryInfo::Panel { slots: own, .. } && own == slots,
                        below == next_level(level),
                        i <= slots@.len(),
                        entries@.len() == i,
                        forall|k: int|
                            0 <= k < i ==> lays_out(#[trigger] slots@[k], entries@[k], below),
                        forall|k: int| 0 <= k < i ==> addressable(#[trigger] entries@[k]),
                    decreases slots@.len() - i,
                {
                    assert(layable(slots@[i as int]));
                    let entry = Entry::from_info(&slots[i], below);
                    entries.push(entry);
                    i += 1;
                }
                Panel {
                    expanded: level != 2,
                    short_name: short_name.clone(),
                    long_name: long_name.clone(),
                    level,
                    summary: row,
                    slots: entries,
                }
            },
            _ => Panel {
                expanded: true,
                short_name: String::new(),
                long_name: String::new(),
                level,
                summary: None,
                slots: Vec::new(),
            },
        }
    }
}

/// One profile on the screen: its rows, its place among the profiles, the
/// names of its kinds, and its settings.
#[derive(Debug)]
pub struct Window {
    pub panel: Panel,
    pub index: u64,
    pub kinds: Vec<String>,
    pub config: Config,
}

impl Window {
    /// Lays out the schema `info` afresh: the rows are those of the schema,
    /// the kinds are its kinds, and all of its nodes are shown.
    pub fn generate(&mut self, info: &EntryInfo)
        requires
            layable(*info),
            info.has_kinds(),
            info.children().len() > 0,
        ensures
            panel_lays_out(*info, final(self).panel, 0),
            panel_addressable(final(self).panel),
            texts(final(self).kinds@) == distinct(
                child_names(info.children(), info.children().len() as int),
            ),
            final(self).config.min_node == 0,
            final(self).config.max_node == info.children().len() - 1,
            final(self).config.interval == old(self).config.interval,
            final(self).index == old(self).index,
    {
        self.kinds = info.kinds();
        self.panel = Panel::from_info(info, 0);
        self.config.min_node = 0;
        self.config.max_node = self.panel.slots.len() as u64 - 1;
    }

    /// The last node that can be chosen: one less than the number of nodes.
    pub open spec fn last_node(self) -> int {
        if self.panel.slots@.len() == 0 {
            0
        } else {
            self.panel.slots@.len() - 1
        }
    }

    /// Sets the first node that is shown. A choice beyond the last node that
    /// there is counts as that node; if the choice lies behind the last
    /// node that is shown, that one moves up to it.
    pub fn select_first(&mut self, first: u64)
        ensures
            final(self).config.min_node == if first <= old(self).last_node() {
                first as int
            } else {
                old(self).last_node()
            },
            final(self).config.max_node == if final(self).config.min_node > old(self).config.max_node {
                final(self).config.min_node
            } else {
                old(self).config.max_node
            },
            final(self).config.min_node <= final(self).config.max_node,
            final(self).config.interval == old(self).config.interval,
            final(self).panel == old(self).panel,
            final(self).index == old(self).index,
            final(self).kinds == old(self).kinds,
    {
        let total: u64 = if self.panel.slots.len() == 0 {
            0
        } else {
            (self.panel.slots.len() - 1) as u64
        };
        self.config.min_node = if first <= total {
            first
        } else {
            total
        };
        if self.config.min_node > self.config.max_node {
            self.config.max_node = self.config.min_node;
        }
    }

    /// Sets the last node that is shown. A choice beyond the last node that
    /// there is counts as that node; if the choice lies before the first
    /// node that is shown, that one moves down to it.
    pub fn select_last(&mut self, last: u64)
        ensures
            final(self).config.max_node == if last <= old(self).last_node() {
                last as int
            } else {
                old(self).last_node()
            },
            final(self).config.min_node == if old(self).config.min_node > final(self).config.max_node {
                final(self).config.max_node
            } else {
                old(self).config.min_node
            },
            final(self).config.min_node <= final(self).config.max_node,
            final(self).config.interval == old(self).config.interval,
            final(self).panel == old(self).panel,
            final(self).index == old(self).index,
            final(self).kinds == old(self).kinds,
    {
        let total: u64 = if self.panel.slots.len() == 0 {
            0
        } else {
            (self.panel.slots.len() - 1) as u64
        };
        self.config.max_node = if last <= total {
            last
        } else {
            total
        };
        if self.config.min_node > self.config.max_node {
            self.config.min_node = self.config.max_node;
        }
    }

    /// The entries of the profile that the viewport shows, from top to
    /// bottom, each with the pixels that it takes; `None` if the rows are
    /// too tall to be counted in 64 bits.
    pub fn content(&self, viewport: &Viewport, cx: &Context) -> (r: Option<Vec<Visit>>)
        requires
            panel_addressable(self.panel),
        ensures
            match r {
                Some(visits) => visit_views(visits@) == panel_visits(
                    self.panel,
                    Seq::empty(),
                    0,
                    self.config,
                    cx.row_height as int,
                    *viewport,
                ),
                None => panel_height(self.panel, self.config, cx.row_height as int) + ROW_PADDING
                    > u64::MAX,
            },
    {
        match self.panel.height(&self.config, cx) {
            None => None,
            Some(height) => {
                proof {
                    lemma_panel_height_nonnegative(self.panel, self.config, cx.row_height as int);
                }
                if height > u64::MAX - ROW_PADDING {
                    return None;
                }
                let mut visits: Vec<Visit> = Vec::new();
                let root = EntryID::root();
                assert(visit_views(visits@) =~= Seq::<VisitView>::empty());
                self.panel.content(&root, 0, viewport, &self.config, cx, &mut visits);
                assert(Seq::<VisitView>::empty() + panel_visits(
                    self.panel,
                    Seq::empty(),
                    0,
                    self.config,
                    cx.row_height as int,
                    *viewport,
                ) =~= panel_visits(
                    self.panel,
                    Seq::empty(),
                    0,
                    self.config,
                    cx.row_height as int,
                    *viewport,
                ));
                Some(visits)
            },
        }
    }

    /// Toggles every kind with the label `label` whose `expanded` is
    /// `toggle`, in every node: with `toggle` false this expands the kind
    /// everywhere, with `toggle` true it collapses the kind everywhere.
    pub fn toggle_all(&mut self, label: &str, toggle: bool)
        ensures
            final(self).index == old(self).index,
            final(self).kinds == old(self).kinds,
            final(self).config == old(self).config,
            final(self).panel.expanded == old(self).panel.expanded,
            final(self).panel.short_name == old(self).panel.short_name,
            final(self).panel.long_name == old(self).panel.long_name,
            final(self).panel.level == old(self).panel.level,
            final(self).panel.summary == old(self).panel.summary,
            final(self).panel.slots@.len() == old(self).panel.slots@.len(),
            forall|i: int|
                0 <= i < old(self).panel.slots@.len() ==> (#[trigger] old(self).panel.slots@[i]).children_toggled(final(self).panel.slots@[i], label@, toggle),
            panel_addressable(old(self).panel) ==> panel_addressable(final(self).panel),
    {
        let mut i: usize = 0;
        while i < self.panel.slots.len()
            invariant
                self.index == old(self).index,
                self.kinds == old(self).kinds,
                self.config == old(self).config,
                self.panel.expanded == old(self).panel.expanded,
                self.panel.short_name == old(self).panel.short_name,
                self.panel.long_name == old(self).panel.long_name,
                self.panel.level == old(self).panel.level,
                self.panel.summary == old(self).panel.summary,
                self.panel.slots@.len() == old(self).panel.slots@.len(),
                i <= self.panel.slots@.len(),
                forall|k: int|
                    0 <= k < i ==> (#[trigger] old(self).panel.slots@[k]).children_toggled(
                        self.panel.slots@[k],
                        label@,
                        toggle,
                    ),
                forall|k: int|
                    i <= k < self.panel.slots@.len() ==> self.panel.slots@[k] == old(self).panel.slots@[k],
                forall|k: int|
                    0 <= k < i && addressable(old(self).panel.slots@[k]) ==> addressable(
                        #[trigger] self.panel.slots@[k],
                    ),
            decreases self.panel.slots@.len() - i,
        {
            toggle_children(&mut self.panel.slots[i], label, toggle);
            proof {
                lemma_toggled_addressable(
                    old(self).panel.slots@[i as int],
                    self.panel.slots@[i as int],
                    label@,
                    toggle,
                );
            }
            i += 1;
        }
    }
}

/// Toggles each child of `node` that has the label `label` and whose
/// `expanded` is `toggle`.
fn toggle_children(node: &mut Entry, label: &str, toggle: bool)
    ensures
        old(node).children_toggled(*final(node), label@, toggle),
{
    if let Entry::Panel(panel) = node {
        let ghost before = *panel;
        let mut j: usize = 0;
        while j < panel.slots.len()
            invariant
                panel.expanded == before.expanded,
                panel.short_name == before.short_name,
                panel.long_name == before.long_name,
                panel.level == before.level,
                panel.summary == before.summary,
                panel.slots@.len() == before.slots@.len(),
                j <= before.slots@.len(),
                forall|k: int|
                    0 <= k < j ==> #[trigger] panel.slots@[k] == before.slots@[k].toggled_if(
                        label@,
                        toggle,
                    ),
                forall|k: int|
                    j <= k < before.slots@.len() ==> panel.slots@[k] == before.slots@[k],
            decreases before.slots@.len() - j,
        {
            let matches = panel.slots[j].expanded() == toggle && same_text(
                panel.slots[j].label_text(),
                label,
            );
            if matches {
                panel.slots[j].toggle_expanded();
            }
            j += 1;
        }
    }
}

/// Whether the two texts are the same.
fn same_text(a: &str, b: &str) -> (same: bool)
    ensures
        same == (a@ == b@),
{
    let left: String = a.to_owned();
    let right: String = b.to_owned();
    left == right
}

/// Toggling the children of an entry leaves every one of its panels with
/// as many children as it had.
pub proof fn lemma_toggled_addressable(before: Entry, after: Entry, label: Seq<char>, toggle: bool)
    requires
        before.children_toggled(after, label, toggle),
    ensures
        addressable(before) ==> addressable(after),
{
    if addressable(before) {
        match (before, after) {
            (Entry::Panel(old), Entry::Panel(new)) => {
                assert forall|j: int| 0 <= j < new.slots@.len() implies addressable(
                    #[trigger] new.slots@[j],
                ) by {
                    assert(addressable(old.slots@[j]));
                    assert(new.slots@[j] == old.slots@[j].toggled_if(label, toggle));
                }
            },
            _ => {},
        }
    }
}

/// Whether `path`, read from depth `from` on, leads from `entry` down to an
/// entry, by ordinary steps only.
pub open spec fn names_entry(entry: Entry, path: Seq<EntryIndex>, from: int) -> bool
    decreases path.len() - from,
{
    if from >= path.len() {
        true
    } else {
        match (entry, path[from]) {
            (Entry::Panel(panel), EntryIndex::Slot(j)) => j < panel.slots@.len() && names_entry(
                panel.slots@[j as int],
                path,
                from + 1,
            ),
            _ => false,
        }
    }
}

/// Whether `after` is `before` with the entry toggled to which `path`, read
/// from depth `from` on, leads, and nothing else changed.
pub open spec fn toggled_at(before: Entry, after: Entry, path: Seq<EntryIndex>, from: int) -> bool
    decreases path.len() - from,
{
    if from >= path.len() {
        after == before.with_expanded(!before.spec_expanded())
    } else {
        match (before, after, path[from]) {
            (Entry::Panel(old), Entry::Panel(new), EntryIndex::Slot(j)) => {
                &&& j < old.slots@.len()
                &&& new.expanded == old.expanded
                &&& new.short_name == old.short_name
                &&& new.long_name == old.long_name
                &&& new.level == old.level
                &&& new.summary == old.summary
                &&& new.slots@.len() == old.slots@.len()
                &&& forall|k: int|
                    0 <= k < old.slots@.len() && k != j ==> #[trigger] new.slots@[k]
                        == old.slots@[k]
                &&& toggled_at(old.slots@[j as int], new.slots@[j as int], path, from + 1)
            },
            _ => false,
        }
    }
}

impl Entry {
    /// Whether `entry_id`, read from depth `from` on, leads from this entry
    /// down to an entry.
    pub fn has_entry(&self, entry_id: &EntryID, from: u64) -> (found: bool)
        ensures
            found == names_entry(*self, entry_id@, from as int),
        decreases entry_id@.len() - from,
    {
        if from >= entry_id.level() {
            return true;
        }
        match (self, entry_id.index(from)) {
            (Entry::Panel(panel), Some(EntryIndex::Slot(j))) => {
                if j >= panel.slots.len() as u64 {
                    return false;
                }
                panel.slots[j as usize].has_entry(entry_id, from + 1)
            },
            _ => false,
        }
    }

    /// Toggles the entry to which `entry_id`, read from depth `from` on,
    /// leads from this entry.
    fn toggle_found(&mut self, entry_id: &EntryID, from: u64)
        requires
            names_entry(*old(self), entry_id@, from as int),
        ensures
            toggled_at(*old(self), *final(self), entry_id@, from as int),
        decreases entry_id@.len() - from,
    {
        if from >= entry_id.level() {
            self.toggle_expanded();
            return ;
        }
        let step = entry_id.index(from);
        let ghost before = *self;
        assert(step == Some(entry_id@[from as int]));
        assert(before is Panel && entry_id@[from as int] is Slot);
        if let Entry::Panel(panel) = self {
            let ghost held = *panel;
            assert(before == Entry::Panel(held));
            if let Some(EntryIndex::Slot(j)) = step {
                assert(j < held.slots@.len());
                assert(names_entry(held.slots@[j as int], entry_id@, from + 1));
                if j < panel.slots.len() as u64 {
                    let at: usize = j as usize;
                    panel.slots[at].toggle_found(entry_id, from + 1);
                    assert(toggled_at(before, Entry::Panel(*panel), entry_id@, from as int));
                }
            }
        }
    }

    /// Toggles the entry to which `entry_id`, read from depth `from` on,
    /// leads from this entry. The answer says whether there is such an
    /// entry; if there is none, nothing changes.
    pub fn toggle_at(&mut self, entry_id: &EntryID, from: u64) -> (found: bool)
        ensures
            found == names_entry(*old(self), entry_id@, from as int),
            found ==> toggled_at(*old(self), *final(self), entry_id@, from as int),
            !found ==> *final(self) == *old(self),
    {
        if self.has_entry(entry_id, from) {
            self.toggle_found(entry_id, from);
            true
        } else {
            false
        }
    }
}

impl Window {
    /// Toggles the entry that `entry_id` names: a slot or a panel below the
    /// root, reached by ordinary steps. The answer says whether there is
    /// such an entry; if there is none, nothing changes.
    pub fn toggle_entry(&mut self, entry_id: &EntryID) -> (found: bool)
        ensures
            final(self).index == old(self).index,
            final(self).kinds == old(self).kinds,
            final(self).config == old(self).config,
            found == (entry_id@.len() > 0 && names_entry(
                Entry::Panel(old(self).panel),
                entry_id@,
                0,
            )),
            found ==> toggled_at(
                Entry::Panel(old(self).panel),
                Entry::Panel(final(self).panel),
                entry_id@,
                0,
            ),
            !found ==> final(self).panel == old(self).panel,
    {
        match entry_id.index(0) {
            Some(EntryIndex::Slot(j)) => {
                if j >= self.panel.slots.len() as u64 {
                    return false;
                }
                if !self.panel.slots[j as usize].has_entry(entry_id, 1) {
                    return false;
                }
                self.panel.slots[j as usize].toggle_found(entry_id, 1);
                true
            },
            _ => false,
        }
    }
}

/// Whether a schema can be laid out.
pub fn is_layable(info: &EntryInfo) -> (b: bool)
    ensures
        b == layable(*info),
    decreases *info,
{
    match info {
        EntryInfo::Panel { summary, slots, .. } => {
            if let Some(s) = summary {
                match &**s {
                    EntryInfo::Summary { .. } => {},
                    _ => {
                        return false;
                    },
                }
            }
            if slots.len() as u64 > i64::MAX as u64 {
                return false;
            }
            let mut i: usize = 0;
            while i < slots.len()
                invariant
                    *info matches EntryInfo::Panel { slots: own, .. } && own == slots,
                    i <= slots@.len(),
                    forall|k: int|
                        0 <= k < i ==> !((#[trigger] slots@[k]) is Summary) && layable(slots@[k]),
                decreases slots@.len() - i,
            {
                match &slots[i] {
                    EntryInfo::Summary { .. } => {
                        return false;
                    },
                    child => {
                        if !is_layable(child) {
                            return false;
                        }
                    },
                }
                i += 1;
            }
            true
        },
        EntryInfo::Slot { .. } => true,
        EntryInfo::Summary { .. } => false,
    }
}

/// The entry to which `path`, read from depth `from` on, leads from
/// `entry` by ordinary steps, if there is one.
pub open spec fn find_entry(entry: Entry, path: Seq<EntryIndex>, from: int) -> Option<Entry>
    decreases path.len() - from,
{
    if from >= path.len() {
        Some(entry)
    } else {
        match (entry, path[from]) {
            (Entry::Panel(panel), EntryIndex::Slot(j)) => if j < panel.slots@.len() {
                find_entry(panel.slots@[j as int], path, from + 1)
            } else {
                None
            },
            _ => None,
        }
    }
}

impl Entry {
    /// The entry to which `entry_id`, read from depth `from` on, leads from
    /// this entry by ordinary steps, if there is one.
    pub fn entry_at(&self, entry_id: &EntryID, from: u64) -> (r: Option<&Entry>)
        ensures
            match r {
                Some(found) => find_entry(*self, entry_id@, from as int) == Some(*found),
                None => find_entry(*self, entry_id@, from as int) is None,
            },
        decreases entry_id@.len() - from,
    {
        if from >= entry_id.level() {
            return Some(self);
        }
        match (self, entry_id.index(from)) {
            (Entry::Panel(panel), Some(EntryIndex::Slot(j))) => {
                if j >= panel.slots.len() as u64 {
                    return None;
                }
                panel.slots[j as usize].entry_at(entry_id, from + 1)
            },
            _ => None,
        }
    }
}

impl Window {
    /// The slot or panel below the root that `entry_id` names, if there is
    /// one.
    pub fn entry(&self, entry_id: &EntryID) -> (r: Option<&Entry>)
        ensures
            match r {
                Some(found) => entry_id@.len() > 0 && find_entry(
                    Entry::Panel(self.panel),
                    entry_id@,
                    0,
                ) == Some(*found),
                None => entry_id@.len() == 0 || find_entry(Entry::Panel(self.panel), entry_id@, 0)
                    is None,
            },
    {
        match entry_id.index(0) {
            Some(EntryIndex::Slot(j)) => {
                if j >= self.panel.slots.len() as u64 {
                    return None;
                }
                self.panel.slots[j as usize].entry_at(entry_id, 1)
            },
            _ => None,
        }
    }
}

} // verus!
