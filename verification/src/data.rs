//! The schema of the entry hierarchy and the tiles of data that are
//! fetched for its entries.

use vstd::prelude::*;
pub use crate::entry_id::{EntryID, EntryIndex};
use crate::timestamp::{Interval, Timestamp};
pub use egui::Color32;

verus! {

/// `egui::Color32`, a display color. The library only carries colors from
/// the data source to the code that draws; it never looks inside one.
#[verifier::external_type_specification]
#[verifier::external_body]
pub struct ExColor32(egui::Color32);

/// `Clone::clone` of `egui::Color32`, a `Copy` type whose `Clone` is
/// derived: the clone is the color itself.
pub assume_specification[ <egui::Color32 as Clone>::clone ](color: &egui::Color32) -> (r:
    egui::Color32)
    ensures
        r == *color,
;

/// The shape of the hierarchy below one node, without any data.
#[derive(Debug)]
pub enum EntryInfo {
    /// A node with children: an optional summary and a list of panels or
    /// slots.
    Panel { short_name: String, long_name: String, summary: Option<Box<EntryInfo>>, slots: Vec<EntryInfo> },
    /// A leaf that holds rows of items.
    Slot { short_name: String, long_name: String, max_rows: u64 },
    /// A leaf that holds the utilization curve of its parent panel.
    Summary { color: Color32 },
}

/// Full utilization: the value of `UtilPoint::util` that stands for 1.
pub const UTIL_ONE: u32 = 1_000_000;

/// One sample of a utilization curve. The utilization is a fraction
/// between 0 and 1, held in millionths.
#[derive(Debug, Copy, Clone, PartialEq, Eq, Structural, Default)]
pub struct UtilPoint {
    pub time: Timestamp,
    pub util: u32,
}

/// A named value shown with an item.
#[derive(Debug)]
pub enum Field {
    String(String),
    Interval(Interval),
    Empty,
}

/// One record of the timeline: something that took place over an interval.
#[derive(Debug)]
pub struct Item {
    pub interval: Interval,
    pub color: Color32,
    pub fields: Vec<(String, Field)>,
}

/// What an item holds, as plain values.
pub struct ItemView {
    pub interval: Interval,
    pub color: Color32,
    pub fields: Seq<(String, Field)>,
}

impl View for Item {
    type V = ItemView;

    open spec fn view(&self) -> ItemView {
        ItemView { interval: self.interval, color: self.color, fields: self.fields@ }
    }
}

/// What each item of `row` holds.
pub open spec fn row_views(row: Seq<Item>) -> Seq<ItemView> {
    row.map_values(|item: Item| item@)
}

/// The name of a tile: the part of the time axis that it covers.
#[derive(Debug, Copy, Clone, PartialEq, Eq, Structural, Hash)]
pub struct TileID(pub Interval);

/// The part of a utilization curve that lies in one tile.
#[derive(Debug, Clone)]
pub struct SummaryTile {
    pub tile_id: TileID,
    pub utilization: Vec<UtilPoint>,
}

/// The items of a slot that lie in one tile, row by row.
#[derive(Debug, Clone)]
pub struct SlotTile {
    pub tile_id: TileID,
    pub items: Vec<Vec<Item>>,
}

impl Clone for Field {
    fn clone(&self) -> (r: Self)
        ensures
            r == *self,
    {
        match self {
            Field::String(s) => Field::String(s.clone()),
            Field::Interval(i) => Field::Interval(*i),
            Field::Empty => Field::Empty,
        }
    }
}

impl Clone for Item {
    fn clone(&self) -> (r: Self)
        ensures
            r@ == self@,
    {
        let mut fields: Vec<(String, Field)> = Vec::new();
        let mut i: usize = 0;
        while i < self.fields.len()
            invariant
                i <= self.fields@.len(),
                fields@ == self.fields@.subrange(0, i as int),
            decreases self.fields@.len() - i,
        {
            let name = self.fields[i].0.clone();
            let value = self.fields[i].1.clone();
            fields.push((name, value));
            i += 1;
            assert(fields@ =~= self.fields@.subrange(0, i as int));
        }
        assert(fields@ =~= self.fields@);
        Item { interval: self.interval, color: self.color.clone(), fields }
    }
}

impl EntryInfo {
    /// Whether the two trees have the same shape and hold the same names,
    /// row counts and colors.
    pub open spec fn same_tree(self, other: EntryInfo) -> bool
        decreases self,
    {
        match (self, other) {
            (
                EntryInfo::Panel { short_name: n1, long_name: l1, summary: s1, slots: c1 },
                EntryInfo::Panel { short_name: n2, long_name: l2, summary: s2, slots: c2 },
            ) => {
                &&& n1@ == n2@
                &&& l1@ == l2@
                &&& match (s1, s2) {
                    (Some(a), Some(b)) => a.same_tree(*b),
                    (None, None) => true,
                    _ => false,
                }
                &&& c1@.len() == c2@.len()
                &&& forall|i: int| 0 <= i < c1@.len() ==> (#[trigger] c1@[i]).same_tree(c2@[i])
            },
            (
                EntryInfo::Slot { short_name: n1, long_name: l1, max_rows: m1 },
                EntryInfo::Slot { short_name: n2, long_name: l2, max_rows: m2 },
            ) => n1@ == n2@ && l1@ == l2@ && m1 == m2,
            (EntryInfo::Summary { color: a }, EntryInfo::Summary { color: b }) => a == b,
            _ => false,
        }
    }
}

impl Clone for EntryInfo {
    fn clone(&self) -> (r: Self)
        ensures
            self.same_tree(r),
        decreases self,
    {
        match self {
            EntryInfo::Panel { short_name, long_name, summary, slots } => {
                let summary_copy = match summary {
                    Some(s) => Some(Box::new((**s).clone())),
                    None => None,
                };
                let mut copies: Vec<EntryInfo> = Vec::new();
                let mut i: usize = 0;
                while i < slots.len()
                    invariant
                        i <= slots@.len(),
                        copies@.len() == i,
                        *self matches EntryInfo::Panel { slots: own, .. } && own == slots,
                        forall|k: int| 0 <= k < i ==> (#[trigger] slots@[k]).same_tree(copies@[k]),
                    decreases slots@.len() - i,
                {
                    let copy = slots[i].clone();
                    copies.push(copy);
                    i += 1;
                }
                EntryInfo::Panel {
                    short_name: short_name.clone(),
                    long_name: long_name.clone(),
                    summary: summary_copy,
                    slots: copies,
                }
            },
            EntryInfo::Slot { short_name, long_name, max_rows } => EntryInfo::Slot {
                short_name: short_name.clone(),
                long_name: long_name.clone(),
                max_rows: *max_rows,
            },
            EntryInfo::Summary { color } => EntryInfo::Summary { color: color.clone() },
        }
    }
}

impl EntryInfo {
    /// Whether `path` can be walked down from this node without stepping
    /// below a leaf. A step to a child that a panel does not have is no such
    /// fault: it only finds nothing.
    pub open spec fn admits(self, path: Seq<EntryIndex>) -> bool
        decreases path.len(),
    {
        if path.len() == 0 {
            true
        } else {
            match self {
                EntryInfo::Panel { slots, .. } => match path[0] {
                    EntryIndex::Summary => path.len() == 1,
                    EntryIndex::Slot(j) => j >= slots@.len() || slots@[j as int].admits(
                        path.drop_first(),
                    ),
                },
                _ => false,
            }
        }
    }

    /// The node that `path` leads to from this node, if there is one.
    pub open spec fn lookup(self, path: Seq<EntryIndex>) -> Option<EntryInfo>
        decreases path.len(),
    {
        if path.len() == 0 {
            Some(self)
        } else {
            match self {
                EntryInfo::Panel { summary, slots, .. } => match path[0] {
                    EntryIndex::Summary => match summary {
                        Some(s) if path.len() == 1 => Some(*s),
                        _ => None,
                    },
                    EntryIndex::Slot(j) => if j < slots@.len() {
                        slots@[j as int].lookup(path.drop_first())
                    } else {
                        None
                    },
                },
                _ => None,
            }
        }
    }

    /// The children of a panel; empty for a leaf.
    pub open spec fn children(self) -> Seq<EntryInfo> {
        match self {
            EntryInfo::Panel { slots, .. } => slots@,
            _ => Seq::empty(),
        }
    }

    /// The short name of a panel or slot; empty for a summary.
    pub open spec fn name(self) -> Seq<char> {
        match self {
            EntryInfo::Panel { short_name, .. } => short_name@,
            EntryInfo::Slot { short_name, .. } => short_name@,
            EntryInfo::Summary { .. } => Seq::empty(),
        }
    }

    /// Finds the node that `entry_id` names, walking down from this node one
    /// step of the path per level. The answer is `None` where a panel on the
    /// way lacks the child that the path asks for.
    pub fn get(&self, entry_id: &EntryID) -> (r: Option<&EntryInfo>)
        requires
            self.admits(entry_id@),
        ensures
            match r {
                Some(found) => self.lookup(entry_id@) == Some(*found),
                None => self.lookup(entry_id@) is None,
            },
    {
        let mut result = self;
        let level = entry_id.level();
        let mut i: u64 = 0;
        assert(entry_id@.subrange(0, level as int) =~= entry_id@);
        while i < level
            invariant
                level == entry_id@.len(),
                i <= level,
                result.admits(entry_id@.subrange(i as int, level as int)),
                self.lookup(entry_id@) == result.lookup(entry_id@.subrange(i as int, level as int)),
            decreases level - i,
        {
            let ghost rest = entry_id@.subrange(i as int, level as int);
            assert(rest.len() > 0);
            assert(rest[0] == entry_id@[i as int]);
            assert(rest.drop_first() =~= entry_id@.subrange(i + 1, level as int));
            let step = entry_id.index(i);
            match (step, result) {
                (Some(EntryIndex::Summary), EntryInfo::Panel { summary, .. }) => {
                    return match summary {
                        Some(s) => Some(&**s),
                        None => None,
                    };
                },
                (Some(EntryIndex::Slot(j)), EntryInfo::Panel { slots, .. }) => {
                    if j >= slots.len() as u64 {
                        return None;
                    }
                    result = &slots[j as usize];
                },
                _ => {
                    assert(false);
                    return None;
                },
            }
            i += 1;
        }
        assert(entry_id@.subrange(i as int, level as int).len() == 0);
        Some(result)
    }

    /// The number of children of a panel.
    pub fn nodes(&self) -> (n: u64)
        requires
            self is Panel,
        ensures
            n == self.children().len(),
    {
        match self {
            EntryInfo::Panel { slots, .. } => slots.len() as u64,
            _ => 0,
        }
    }
}

/// The short names of `nodes`, in order.
pub open spec fn names_of(nodes: Seq<EntryInfo>) -> Seq<Seq<char>> {
    nodes.map_values(|node: EntryInfo| node.name())
}

/// The short names of the children of the first `n` of `nodes`, in order.
pub open spec fn child_names(nodes: Seq<EntryInfo>, n: int) -> Seq<Seq<char>>
    decreases n,
{
    if n <= 0 {
        Seq::empty()
    } else {
        child_names(nodes, n - 1) + names_of(nodes[n - 1].children())
    }
}

/// `names` without repetitions: each name stays where it first occurs.
pub open spec fn distinct(names: Seq<Seq<char>>) -> Seq<Seq<char>>
    decreases names.len(),
{
    if names.len() == 0 {
        Seq::empty()
    } else {
        let before = distinct(names.drop_last());
        if before.contains(names.last()) {
            before
        } else {
            before.push(names.last())
        }
    }
}

/// What each string of `strings` holds.
pub open spec fn texts(strings: Seq<String>) -> Seq<Seq<char>> {
    strings.map_values(|s: String| s@)
}

/// Whether one of `list` holds the same text as `name`.
fn holds_name(list: &Vec<String>, name: &String) -> (found: bool)
    ensures
        found == texts(list@).contains(name@),
{
    let mut i: usize = 0;
    while i < list.len()
        invariant
            i <= list@.len(),
            forall|k: int| 0 <= k < i ==> texts(list@)[k] != name@,
        decreases list@.len() - i,
    {
        if list[i] == *name {
            assert(texts(list@)[i as int] == name@);
            return true;
        }
        i += 1;
    }
    false
}

impl EntryInfo {
    /// Whether this node is a panel whose children are panels with only
    /// panels below them: the shape of a profile, nodes above kinds.
    pub open spec fn has_kinds(self) -> bool {
        &&& self is Panel
        &&& forall|i: int|
            0 <= i < self.children().len() ==> {
                &&& (#[trigger] self.children()[i]) is Panel
                &&& forall|j: int|
                    0 <= j < self.children()[i].children().len()
                        ==> (#[trigger] self.children()[i].children()[j]) is Panel
            }
    }

    /// The names of the kinds of a profile: the short names of the panels on
    /// the second level, each once, in the order in which they first occur.
    pub fn kinds(&self) -> (r: Vec<String>)
        requires
            self.has_kinds(),
        ensures
            texts(r@) == distinct(child_names(self.children(), self.children().len() as int)),
    {
        let mut result: Vec<String> = Vec::new();
        if let EntryInfo::Panel { slots: nodes, .. } = self {
            let mut i: usize = 0;
            assert(texts(result@) =~= Seq::<Seq<char>>::empty());
            while i < nodes.len()
                invariant
                    self.has_kinds(),
                    self.children() == nodes@,
                    i <= nodes@.len(),
                    texts(result@) == distinct(child_names(nodes@, i as int)),
                decreases nodes@.len() - i,
            {
                assert(nodes@[i as int] is Panel);
                if let EntryInfo::Panel { slots: kinds, .. } = &nodes[i] {
                    let ghost done = child_names(nodes@, i as int);
                    let ghost all = names_of(kinds@);
                    let mut j: usize = 0;
                    assert(done + all.subrange(0, 0) =~= done);
                    while j < kinds.len()
                        invariant
                            self.has_kinds(),
                            self.children() == nodes@,
                            i < nodes@.len(),
                            nodes@[i as int].children() == kinds@,
                            all == names_of(kinds@),
                            j <= kinds@.len(),
                            texts(result@) == distinct(done + all.subrange(0, j as int)),
                        decreases kinds@.len() - j,
                    {
                        assert(kinds@[j as int] is Panel);
                        let ghost sofar = done + all.subrange(0, j as int);
                        let ghost next = done + all.subrange(0, j + 1);
                        assert(next.drop_last() =~= sofar);
                        assert(next.last() == kinds@[j as int].name());
                        if let EntryInfo::Panel { short_name, .. } = &kinds[j] {
                            if !holds_name(&result, short_name) {
                                let ghost before = result@;
                                result.push(short_name.clone());
                                assert(texts(result@) =~= texts(before).push(short_name@));
                            }
                        }
                        j += 1;
                    }
                    assert(all.subrange(0, j as int) =~= all);
                }
                i += 1;
            }
        }
        result
    }

    /// Whether `entry_id` can be looked up from this node: whether its path
    /// never steps below a leaf.
    pub fn accepts(&self, entry_id: &EntryID) -> (b: bool)
        ensures
            b == self.admits(entry_id@),
    {
        let mut result = self;
        let level = entry_id.level();
        let mut i: u64 = 0;
        assert(entry_id@.subrange(0, level as int) =~= entry_id@);
        while i < level
            invariant
                level == entry_id@.len(),
                i <= level,
                self.admits(entry_id@) == result.admits(entry_id@.subrange(i as int, level as int)),
            decreases level - i,
        {
            let ghost rest = entry_id@.subrange(i as int, level as int);
            assert(rest.len() > 0);
            assert(rest[0] == entry_id@[i as int]);
            assert(rest.drop_first() =~= entry_id@.subrange(i + 1, level as int));
            let step = entry_id.index(i);
            match (step, result) {
                (Some(EntryIndex::Summary), EntryInfo::Panel { .. }) => {
                    return i + 1 == level;
                },
                (Some(EntryIndex::Slot(j)), EntryInfo::Panel { slots, .. }) => {
                    if j >= slots.len() as u64 {
                        return true;
                    }
                    result = &slots[j as usize];
                },
                _ => {
                    return false;
                },
            }
            i += 1;
        }
        assert(entry_id@.subrange(i as int, level as int).len() == 0);
        true
    }
}

impl EntryInfo {
    /// Whether this node has the shape of a profile, nodes above kinds.
    pub fn names_kinds(&self) -> (b: bool)
        ensures
            b == self.has_kinds(),
    {
        match self {
            EntryInfo::Panel { slots: nodes, .. } => {
                let mut i: usize = 0;
                while i < nodes.len()
                    invariant
                        self.children() == nodes@,
                        i <= nodes@.len(),
                        forall|a: int|
                            0 <= a < i ==> {
                                &&& (#[trigger] self.children()[a]) is Panel
                                &&& forall|j: int|
                                    0 <= j < self.children()[a].children().len()
                                        ==> (#[trigger] self.children()[a].children()[j]) is Panel
                            },
                    decreases nodes@.len() - i,
                {
                    match &nodes[i] {
                        EntryInfo::Panel { slots: kinds, .. } => {
                            let mut j: usize = 0;
                            while j < kinds.len()
                                invariant
                                    self.children() == nodes@,
                                    i < nodes@.len(),
                                    nodes@[i as int].children() == kinds@,
                                    j <= kinds@.len(),
                                    forall|b: int| 0 <= b < j ==> (#[trigger] kinds@[b]) is Panel,
                                decreases kinds@.len() - j,
                            {
                                match &kinds[j] {
                                    EntryInfo::Panel { .. } => {},
                                    _ => {
                                        assert(!(self.children()[i as int].children()[j as int] is Panel));
                                        return false;
                                    },
                                }
                                j += 1;
                            }
                        },
                        _ => {
                            assert(!(self.children()[i as int] is Panel));
                            return false;
                        },
                    }
                    i += 1;
                }
                true
            },
            _ => false,
        }
    }
}

} // verus!
