//! A session: the profiles that are open, and what they share.

use vstd::prelude::*;
use crate::layout::{Config, Panel};
use crate::window::Window;
use crate::timestamp::Interval;
use crate::view::Context;

verus! {

/// The profiles that are open, each in a window of its own, and what they
/// share.
#[derive(Debug)]
pub struct Session {
    pub windows: Vec<Window>,
    pub cx: Context,
}

/// Whether `window` is the window of the profile `index` with the time
/// range `interval`, with nothing laid out in it yet: its root panel is
/// collapsed, at depth 0, without name, summary or children; it names no
/// kinds; and its choice of nodes is the node 0 alone.
pub open spec fn is_empty_window(window: Window, index: u64, interval: Interval) -> bool {
    &&& window.index == index
    &&& window.config == (Config { min_node: 0, max_node: 0, interval })
    &&& window.kinds@.len() == 0
    &&& !window.panel.expanded
    &&& window.panel.short_name@.len() == 0
    &&& window.panel.long_name@.len() == 0
    &&& window.panel.level == 0
    &&& window.panel.summary is None
    &&& window.panel.slots@.len() == 0
}

/// A window with nothing laid out in it, for the profile `index` with the
/// time range `interval`.
pub fn empty_window(index: u64, interval: Interval) -> (window: Window)
    ensures
        is_empty_window(window, index, interval),
{
    Window {
        panel: Panel {
            expanded: false,
            short_name: String::new(),
            long_name: String::new(),
            level: 0,
            summary: None,
            slots: Vec::new(),
        },
        index,
        kinds: Vec::new(),
        config: Config { min_node: 0, max_node: 0, interval },
    }
}

impl Session {
    /// The index that the next profile gets: one more than that of the
    /// last, or 0 for the first.
    pub open spec fn next_index(self) -> int {
        if self.windows@.len() == 0 {
            0
        } else {
            self.windows@.last().index + 1
        }
    }

    /// A session with one profile, whose time range is `interval`: the
    /// window of time shows all of it.
    pub fn new(row_height: u64, interval: Interval) -> (session: Self)
        requires
            interval.wf(),
        ensures
            session.windows@.len() == 1,
            is_empty_window(session.windows@[0], 0, interval),
            session.cx.row_height == row_height,
            session.cx.total_interval == interval,
            session.cx.view_interval == interval,
            session.cx.drag_origin is None,
            session.cx.wf(),
    {
        let mut windows: Vec<Window> = Vec::new();
        windows.push(empty_window(0, interval));
        Session { windows, cx: Context::new(row_height, interval) }
    }

    /// Opens one more profile, whose time range is `interval`. The whole
    /// time range grows to cover it, and the window of time shows all of it.
    pub fn add_profile(&mut self, interval: Interval)
        requires
            interval.wf(),
            old(self).cx.total_interval.wf(),
            old(self).next_index() <= u64::MAX,
        ensures
            final(self).windows@.len() == old(self).windows@.len() + 1,
            final(self).windows@.subrange(0, old(self).windows@.len() as int) == old(self).windows@,
            is_empty_window(
                final(self).windows@.last(),
                old(self).next_index() as u64,
                interval,
            ),
            final(self).cx.total_interval == old(self).cx.total_interval.union(interval),
            final(self).cx.view_interval == final(self).cx.total_interval,
            final(self).cx.row_height == old(self).cx.row_height,
            final(self).cx.drag_origin == old(self).cx.drag_origin,
            final(self).cx.wf(),
    {
        let count = self.windows.len();
        let index: u64 = if count == 0 {
            0
        } else {
            self.windows[count - 1].index + 1
        };
        self.windows.push(empty_window(index, interval));
        self.cx.add_interval(interval);
        assert(self.windows@.subrange(0, count as int) =~= old(self).windows@);
    }
}

} // verus!
