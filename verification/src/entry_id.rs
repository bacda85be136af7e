//! Addresses of the nodes of the entry hierarchy.

use vstd::prelude::*;
use vstd::std_specs::cmp::{PartialEqSpecImpl, PartialOrdSpecImpl};
use std::cmp::Ordering;

verus! {

/// One step of a path: either the summary child of a node, or one of its
/// ordinary children by position.
#[derive(Debug, Copy, Clone, PartialEq, Eq, Structural, Hash)]
pub enum EntryIndex {
    Summary,
    Slot(u64),
}

/// The path from the root of the hierarchy to one of its nodes.
///
/// Each step is stored as one integer: the position of an ordinary child,
/// or -1 for the summary child.
#[derive(Debug, Hash, Eq, Ord)]
pub struct EntryID(Vec<i64>);

/// The step that a stored integer stands for.
pub open spec fn decode(raw: i64) -> EntryIndex {
    if raw >= 0 {
        EntryIndex::Slot(raw as u64)
    } else {
        EntryIndex::Summary
    }
}

/// The integer by which a step is ordered: the summary child comes before
/// every ordinary child.
pub open spec fn rank(index: EntryIndex) -> int {
    match index {
        EntryIndex::Summary => -1,
        EntryIndex::Slot(i) => i as int,
    }
}

/// The path one step further down, to the ordinary child at `index`.
pub open spec fn spec_child(path: Seq<EntryIndex>, index: u64) -> Seq<EntryIndex> {
    path.push(EntryIndex::Slot(index))
}

/// The path one step further down, to the summary child.
pub open spec fn spec_summary(path: Seq<EntryIndex>) -> Seq<EntryIndex> {
    path.push(EntryIndex::Summary)
}

/// The step of `path` at depth `level`, if the path is that long.
pub open spec fn spec_index(path: Seq<EntryIndex>, level: int) -> Option<EntryIndex> {
    if 0 <= level < path.len() {
        Some(path[level])
    } else {
        None
    }
}

/// The position of the ordinary child that `path` takes at depth `level`:
/// `None` if the path is shorter or takes the summary child there.
pub open spec fn spec_slot_index(path: Seq<EntryIndex>, level: int) -> Option<u64> {
    match spec_index(path, level) {
        Some(EntryIndex::Slot(i)) => Some(i),
        _ => None,
    }
}

/// The path made by taking the steps of `calls` one after another from the
/// root: `child` for an ordinary step, `summary` for a summary step.
pub open spec fn built(calls: Seq<EntryIndex>) -> Seq<EntryIndex>
    decreases calls.len(),
{
    if calls.len() == 0 {
        Seq::empty()
    } else {
        match calls.last() {
            EntryIndex::Summary => spec_summary(built(calls.drop_last())),
            EntryIndex::Slot(i) => spec_child(built(calls.drop_last()), i),
        }
    }
}

/// Whether paths `a` and `b` agree on their first `k` steps, and at depth
/// `k` either `a` ends while `b` goes on, or `a` takes the lower step.
pub open spec fn before_at(a: Seq<EntryIndex>, b: Seq<EntryIndex>, k: int) -> bool {
    &&& 0 <= k <= a.len()
    &&& k < b.len()
    &&& a.subrange(0, k) == b.subrange(0, k)
    &&& (k == a.len() || rank(a[k]) < rank(b[k]))
}

/// Whether path `a` comes strictly before path `b` in lexicographic order.
pub open spec fn path_lt(a: Seq<EntryIndex>, b: Seq<EntryIndex>) -> bool {
    exists|k: int| before_at(a, b, k)
}

impl View for EntryID {
    type V = Seq<EntryIndex>;

    closed spec fn view(&self) -> Seq<EntryIndex> {
        self.0@.map_values(|raw: i64| decode(raw))
    }
}

impl EntryID {
    /// Every stored integer stands for a step: it is -1 or the position of
    /// a child.
    #[verifier::type_invariant]
    spec fn stored_steps_valid(self) -> bool {
        forall|i: int| 0 <= i < self.0@.len() ==> self.0@[i] >= -1
    }

    /// The address of the root: the empty path.
    pub fn root() -> (r: Self)
        ensures
            r@ == Seq::<EntryIndex>::empty(),
    {
        let r = Self(Vec::new());
        assert(r@ =~= Seq::<EntryIndex>::empty());
        r
    }

    /// A copy of this address.
    fn duplicate(&self) -> (r: Self)
        ensures
            r@ == self@,
            r.0@ == self.0@,
    {
        proof {
            use_type_invariant(self);
        }
        let mut steps: Vec<i64> = Vec::new();
        let mut i: usize = 0;
        while i < self.0.len()
            invariant
                i <= self.0@.len(),
                steps@ == self.0@.subrange(0, i as int),
            decreases self.0@.len() - i,
        {
            steps.push(self.0[i]);
            i += 1;
            assert(steps@ =~= self.0@.subrange(0, i as int));
        }
        assert(steps@ =~= self.0@);
        Self(steps)
    }

    /// The address of the summary child of this node.
    pub fn summary(&self) -> (r: Self)
        ensures
            r@ == spec_summary(self@),
    {
        proof {
            use_type_invariant(self);
        }
        let mut steps = self.duplicate().0;
        steps.push(-1);
        let r = Self(steps);
        assert(r@ =~= spec_summary(self@));
        r
    }

    /// The address of the ordinary child of this node at `index`.
    pub fn child(&self, index: u64) -> (r: Self)
        requires
            index <= i64::MAX,
        ensures
            r@ == spec_child(self@, index),
    {
        proof {
            use_type_invariant(self);
        }
        let mut steps = self.duplicate().0;
        steps.push(index as i64);
        let r = Self(steps);
        assert(r@ =~= spec_child(self@, index));
        r
    }

    /// The depth of the node: the number of steps of its path.
    pub fn level(&self) -> (n: u64)
        ensures
            n == self@.len(),
    {
        self.0.len() as u64
    }

    /// The last step of the path, if it is an ordinary child.
    pub fn last_slot_index(&self) -> (r: Option<u64>)
        ensures
            r == spec_slot_index(self@, self@.len() - 1),
    {
        let n = self.0.len();
        if n == 0 {
            None
        } else {
            let raw = self.0[n - 1];
            if raw >= 0 {
                Some(raw as u64)
            } else {
                None
            }
        }
    }

    /// The step at depth `level`, if it is an ordinary child.
    pub fn slot_index(&self, level: u64) -> (r: Option<u64>)
        ensures
            r == spec_slot_index(self@, level as int),
    {
        if level >= self.0.len() as u64 {
            None
        } else {
            let raw = self.0[level as usize];
            if raw >= 0 {
                Some(raw as u64)
            } else {
                None
            }
        }
    }

    /// The last step of the path; `None` for the root.
    pub fn last_index(&self) -> (r: Option<EntryIndex>)
        ensures
            r == spec_index(self@, self@.len() - 1),
    {
        let n = self.0.len();
        if n == 0 {
            None
        } else {
            let raw = self.0[n - 1];
            if raw >= 0 {
                Some(EntryIndex::Slot(raw as u64))
            } else {
                Some(EntryIndex::Summary)
            }
        }
    }

    /// The step at depth `level`; `None` if the path is not that long.
    pub fn index(&self, level: u64) -> (r: Option<EntryIndex>)
        ensures
            r == spec_index(self@, level as int),
    {
        if level >= self.0.len() as u64 {
            None
        } else {
            let raw = self.0[level as usize];
            if raw >= 0 {
                Some(EntryIndex::Slot(raw as u64))
            } else {
                Some(EntryIndex::Summary)
            }
        }
    }
}

/// How two paths stand to each other.
#[derive(Debug, Copy, Clone, PartialEq, Eq, Structural)]
pub enum PathOrder {
    Before,
    Same,
    After,
}

/// The order of two paths: lexicographic over their steps.
pub open spec fn path_order(a: Seq<EntryIndex>, b: Seq<EntryIndex>) -> PathOrder {
    if a == b {
        PathOrder::Same
    } else if path_lt(a, b) {
        PathOrder::Before
    } else {
        PathOrder::After
    }
}

impl EntryID {
    /// Compares two addresses step by step from the root.
    pub fn order(&self, other: &EntryID) -> (r: PathOrder)
        ensures
            r == path_order(self@, other@),
            r is After <==> path_lt(other@, self@),
    {
        proof {
            use_type_invariant(self);
            use_type_invariant(other);
        }
        let n = self.0.len();
        let m = other.0.len();
        let mut i: usize = 0;
        while i < n && i < m
            invariant
                n == self.0@.len(),
                m == other.0@.len(),
                i <= n,
                i <= m,
                self@.len() == n,
                other@.len() == m,
                self@.subrange(0, i as int) == other@.subrange(0, i as int),
                forall|j: int| 0 <= j < n ==> self.0@[j] >= -1,
                forall|j: int| 0 <= j < m ==> other.0@[j] >= -1,
            decreases n - i,
        {
            let a = self.0[i];
            let b = other.0[i];
            if a != b {
                proof {
                    let k = i as int;
                    assert(self@[k] == decode(a));
                    assert(other@[k] == decode(b));
                    assert(self@[k] != other@[k]);
                    assert(self@ != other@);
                    lemma_first_difference(self@, other@, k);
                }
                proof {
                    lemma_first_difference(other@, self@, i as int);
                }
                if a < b {
                    return PathOrder::Before;
                } else {
                    return PathOrder::After;
                }
            }
            assert(self@.subrange(0, i + 1) =~= self@.subrange(0, i as int).push(self@[i as int]));
            assert(other@.subrange(0, i + 1) =~= other@.subrange(0, i as int).push(
                other@[i as int],
            ));
            i += 1;
        }
        proof {
            lemma_first_difference(self@, other@, i as int);
            lemma_first_difference(other@, self@, i as int);
            if n == m {
                assert(self@ =~= self@.subrange(0, i as int));
                assert(other@ =~= other@.subrange(0, i as int));
            } else {
                assert(self@.len() != other@.len());
            }
        }
        if n == m {
            PathOrder::Same
        } else if n < m {
            PathOrder::Before
        } else {
            PathOrder::After
        }
    }
}

/// Two paths that agree on their first `k` steps and then differ, or of
/// which one ends there, are ordered by what they hold at depth `k` alone.
proof fn lemma_first_difference(a: Seq<EntryIndex>, b: Seq<EntryIndex>, k: int)
    requires
        0 <= k <= a.len(),
        k <= b.len(),
        a.subrange(0, k) == b.subrange(0, k),
        k == a.len() || k == b.len() || a[k] != b[k],
    ensures
        path_lt(a, b) <==> before_at(a, b, k),
{
    if path_lt(a, b) {
        let j = choose|j: int| before_at(a, b, j);
        assert(before_at(a, b, j));
        if j < k {
            assert(a.subrange(0, k)[j] == a[j]);
            assert(b.subrange(0, k)[j] == b[j]);
            assert(false);
        } else if j > k {
            assert(a.subrange(0, j)[k] == a[k]);
            assert(b.subrange(0, j)[k] == b[k]);
            assert(false);
        }
        assert(before_at(a, b, k));
    }
    if before_at(a, b, k) {
        assert(path_lt(a, b));
    }
}

/// The depth, from `k` on, at which paths `a` and `b` first differ, or at
/// which the shorter of them ends.
pub open spec fn first_difference(a: Seq<EntryIndex>, b: Seq<EntryIndex>, k: int) -> int
    decreases a.len() - k,
{
    if 0 <= k < a.len() && k < b.len() && a[k] == b[k] {
        first_difference(a, b, k + 1)
    } else {
        k
    }
}

/// Two paths agree up to the depth at which they first differ.
proof fn lemma_agree_until_difference(a: Seq<EntryIndex>, b: Seq<EntryIndex>, k: int)
    requires
        0 <= k <= a.len(),
        k <= b.len(),
        a.subrange(0, k) == b.subrange(0, k),
    ensures
        ({
            let d = first_difference(a, b, k);
            &&& k <= d <= a.len()
            &&& d <= b.len()
            &&& a.subrange(0, d) == b.subrange(0, d)
            &&& d == a.len() || d == b.len() || a[d] != b[d]
        }),
    decreases a.len() - k,
{
    if k < a.len() && k < b.len() && a[k] == b[k] {
        assert(a.subrange(0, k + 1) =~= a.subrange(0, k).push(a[k]));
        assert(b.subrange(0, k + 1) =~= b.subrange(0, k).push(b[k]));
        lemma_agree_until_difference(a, b, k + 1);
    }
}

/// The order of paths is total: of two paths, either they are the same, or
/// one comes before the other, and never both.
pub proof fn lemma_path_order_total(a: Seq<EntryIndex>, b: Seq<EntryIndex>)
    ensures
        a == b || path_lt(a, b) || path_lt(b, a),
        !(path_lt(a, b) && path_lt(b, a)),
        !(a == b && path_lt(a, b)),
{
    assert(a.subrange(0, 0) =~= b.subrange(0, 0));
    lemma_agree_until_difference(a, b, 0);
    let d = first_difference(a, b, 0);
    lemma_first_difference(a, b, d);
    lemma_first_difference(b, a, d);
    if d == a.len() && d == b.len() {
        assert(a =~= a.subrange(0, d));
        assert(b =~= b.subrange(0, d));
    } else if d < a.len() && d < b.len() {
        assert(rank(a[d]) != rank(b[d]));
    }
    if a == b {
        assert(d == a.len());
    }
}

/// The order of paths is transitive.
pub proof fn lemma_path_order_transitive(a: Seq<EntryIndex>, b: Seq<EntryIndex>, c: Seq<EntryIndex>)
    requires
        path_lt(a, b),
        path_lt(b, c),
    ensures
        path_lt(a, c),
{
    let i = choose|i: int| before_at(a, b, i);
    let j = choose|j: int| before_at(b, c, j);
    if i <= j {
        assert(a.subrange(0, i) =~= c.subrange(0, i)) by {
            assert forall|k: int| 0 <= k < i implies a[k] == c[k] by {
                assert(a.subrange(0, i)[k] == b.subrange(0, i)[k]);
                assert(b.subrange(0, j)[k] == c.subrange(0, j)[k]);
            }
        }
        if i < j {
            assert(b.subrange(0, j)[i] == c.subrange(0, j)[i]);
        }
        assert(before_at(a, c, i));
    } else {
        assert(a.subrange(0, j) =~= c.subrange(0, j)) by {
            assert forall|k: int| 0 <= k < j implies a[k] == c[k] by {
                assert(a.subrange(0, i)[k] == b.subrange(0, i)[k]);
                assert(b.subrange(0, j)[k] == c.subrange(0, j)[k]);
            }
        }
        assert(a.subrange(0, i)[j] == b.subrange(0, i)[j]);
        assert(before_at(a, c, j));
    }
}

impl PartialEq for EntryID {
    fn eq(&self, other: &Self) -> (r: bool) {
        let r = self.order(other);
        r == PathOrder::Same
    }
}

impl PartialEqSpecImpl for EntryID {
    open spec fn obeys_eq_spec() -> bool {
        true
    }

    open spec fn eq_spec(&self, other: &Self) -> bool {
        self@ == other@
    }
}

impl PartialOrd for EntryID {
    fn partial_cmp(&self, other: &Self) -> (r: Option<Ordering>) {
        match self.order(other) {
            PathOrder::Before => Some(Ordering::Less),
            PathOrder::Same => Some(Ordering::Equal),
            PathOrder::After => Some(Ordering::Greater),
        }
    }
}

impl PartialOrdSpecImpl for EntryID {
    open spec fn obeys_partial_cmp_spec() -> bool {
        true
    }

    open spec fn partial_cmp_spec(&self, other: &Self) -> Option<Ordering> {
        match path_order(self@, other@) {
            PathOrder::Before => Some(Ordering::Less),
            PathOrder::Same => Some(Ordering::Equal),
            PathOrder::After => Some(Ordering::Greater),
        }
    }
}

impl Clone for EntryID {
    fn clone(&self) -> (r: Self)
        ensures
            r@ == self@,
    {
        self.duplicate()
    }
}

/// A path built step by step holds exactly the steps taken, in their order:
/// its length is the number of calls, and reading it at any depth gives back
/// the call made there, a summary step being told from every ordinary one.
pub proof fn lemma_built_decodes(calls: Seq<EntryIndex>, level: int)
    requires
        0 <= level < calls.len(),
    ensures
        built(calls).len() == calls.len(),
        spec_index(built(calls), level) == Some(calls[level]),
        calls[level] is Summary <==> spec_slot_index(built(calls), level) is None,
        calls[level] matches EntryIndex::Slot(i) ==> spec_slot_index(built(calls), level) == Some(i),
    decreases calls.len(),
{
    lemma_built_is_calls(calls);
}

/// Building a path from a sequence of steps gives that sequence.
pub proof fn lemma_built_is_calls(calls: Seq<EntryIndex>)
    ensures
        built(calls) == calls,
    decreases calls.len(),
{
    if calls.len() > 0 {
        lemma_built_is_calls(calls.drop_last());
        assert(calls.drop_last().push(calls.last()) =~= calls);
    }
}

} // verus!
