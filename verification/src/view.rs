//! The visible window of time, and how dragging and resetting change it.

use vstd::prelude::*;
use crate::fraction::{
    Fraction, lerp_between, lemma_lerp_between_in_range, lemma_round_div_monotonic,
    spec_lerp_between,
};
use crate::timestamp::{Interval, Timestamp, lemma_lerp_in_interval};

verus! {

/// A drag shorter than this many pixels, or just as long, is taken for a
/// click and does not zoom.
pub const MIN_DRAG_DISTANCE: i64 = 4;

/// What all the profiles of a session share: the height of a row on the
/// screen, the time range of all the data, the window of time that is shown,
/// and the place where a drag began, while one goes on.
#[derive(Debug, Copy, Clone, PartialEq, Eq, Structural)]
pub struct Context {
    /// The height of one row, in pixels.
    pub row_height: u64,
    /// The union of the time ranges of all the profiles.
    pub total_interval: Interval,
    /// The window of time that is shown.
    pub view_interval: Interval,
    /// The horizontal position, in pixels, at which the drag in progress
    /// began.
    pub drag_origin: Option<i64>,
}

/// `x` moved into the range from `left` to `left + width`.
pub open spec fn clamp_to_range(x: int, left: int, width: int) -> int {
    if x < left {
        left
    } else if x > left + width {
        left + width
    } else {
        x
    }
}

/// The position of the pixel `x` in a range of pixels that starts at `left`
/// and is `width` wide, as a fraction between 0 and 1: a pixel outside the
/// range counts as the nearest end.
pub open spec fn spec_screen_fraction(x: i64, left: i64, width: i64) -> Fraction {
    Fraction {
        numer: (clamp_to_range(x as int, left as int, width as int) - left) as i128,
        denom: width as i128,
    }
}

/// The position of the pixel `x` in a range of pixels that starts at `left`
/// and is `width` wide: a pixel outside the range counts as the nearest end.
pub fn screen_fraction(x: i64, left: i64, width: i64) -> (f: Fraction)
    requires
        width > 0,
    ensures
        f == spec_screen_fraction(x, left, width),
        f.wf(),
        f.in_unit(),
{
    let offset: i128 = x as i128 - left as i128;
    let numer: i128 = if offset < 0 {
        0
    } else if offset > width as i128 {
        width as i128
    } else {
        offset
    };
    Fraction { numer, denom: width as i128 }
}

impl Context {
    /// The shown window is a well-formed part of the whole time range,
    /// which is itself well formed.
    pub open spec fn wf(self) -> bool {
        &&& self.total_interval.wf()
        &&& self.view_interval.wf()
        &&& self.total_interval.start.0 <= self.view_interval.start.0
        &&& self.view_interval.stop.0 <= self.total_interval.stop.0
    }

    /// The time shown at the pixel `x` of a range of pixels that starts at
    /// `left` and is `width` wide.
    pub open spec fn spec_time_at(self, x: i64, left: i64, width: i64) -> int {
        self.view_interval.spec_lerp(spec_screen_fraction(x, left, width))
    }

    /// The window of time between the place where the drag began and the
    /// pixel `x`, whichever of the two is further left.
    pub open spec fn spec_drag_interval(self, origin: i64, x: i64, left: i64, width: i64) -> Interval {
        let low = if origin <= x { origin } else { x };
        let high = if origin <= x { x } else { origin };
        Interval {
            start: Timestamp(self.spec_time_at(low, left, width) as i64),
            stop: Timestamp(self.spec_time_at(high, left, width) as i64),
        }
    }

    /// The state of a session that shows all of one profile: the window is
    /// the whole time range, and no drag goes on.
    pub fn new(row_height: u64, interval: Interval) -> (cx: Self)
        requires
            interval.wf(),
        ensures
            cx.row_height == row_height,
            cx.total_interval == interval,
            cx.view_interval == interval,
            cx.drag_origin is None,
            cx.wf(),
    {
        Context { row_height, total_interval: interval, view_interval: interval, drag_origin: None }
    }

    /// Takes in the time range of one more profile: the whole time range
    /// grows to cover it, and the window shows all of it again.
    pub fn add_interval(&mut self, interval: Interval)
        requires
            old(self).total_interval.wf(),
            interval.wf(),
        ensures
            final(self).total_interval == old(self).total_interval.union(interval),
            final(self).view_interval == final(self).total_interval,
            final(self).row_height == old(self).row_height,
            final(self).drag_origin == old(self).drag_origin,
            final(self).wf(),
    {
        self.total_interval = self.total_interval.union(interval);
        self.view_interval = self.total_interval;
    }

    /// Shows the whole time range again.
    pub fn reset_view(&mut self)
        ensures
            final(self).view_interval == old(self).total_interval,
            final(self).total_interval == old(self).total_interval,
            final(self).row_height == old(self).row_height,
            final(self).drag_origin == old(self).drag_origin,
            old(self).total_interval.wf() ==> final(self).wf(),
    {
        self.view_interval = self.total_interval;
    }

    /// The time shown at the pixel `x` of a range of pixels that starts at
    /// `left` and is `width` wide. It is always a time of the window.
    pub fn time_at(&self, x: i64, left: i64, width: i64) -> (t: Timestamp)
        requires
            self.view_interval.wf(),
            width > 0,
        ensures
            t.0 == self.spec_time_at(x, left, width),
            self.view_interval.contains(t),
    {
        let position = screen_fraction(x, left, width);
        proof {
            lemma_lerp_in_interval(self.view_interval, position);
            let d = self.view_interval.duration();
            assert(0 <= position.numer * d <= 0x7fff_ffff_ffff_ffff * 0xffff_ffff_ffff_ffff)
                by (nonlinear_arith)
                requires
                    0 <= position.numer <= 0x7fff_ffff_ffff_ffff,
                    0 <= d <= 0xffff_ffff_ffff_ffff,
            ;
        }
        self.view_interval.lerp(position)
    }

    /// Notes that a drag begins at the pixel `x`.
    pub fn drag_start(&mut self, x: i64)
        ensures
            final(self).drag_origin == Some(x),
            final(self).row_height == old(self).row_height,
            final(self).total_interval == old(self).total_interval,
            final(self).view_interval == old(self).view_interval,
    {
        self.drag_origin = Some(x);
    }

    /// The window of time that the drag in progress has marked so far, the
    /// pointer being at the pixel `x`; `None` when no drag goes on.
    pub fn drag_interval(&self, x: i64, left: i64, width: i64) -> (r: Option<Interval>)
        requires
            self.view_interval.wf(),
            width > 0,
        ensures
            r == match self.drag_origin {
                Some(origin) => Some(self.spec_drag_interval(origin, x, left, width)),
                None => None,
            },
            r matches Some(marked) ==> marked.wf() && self.view_interval.start.0
                <= marked.start.0 && marked.stop.0 <= self.view_interval.stop.0,
    {
        match self.drag_origin {
            None => None,
            Some(origin) => {
                let low = if origin <= x { origin } else { x };
                let high = if origin <= x { x } else { origin };
                let start = self.time_at(low, left, width);
                let stop = self.time_at(high, left, width);
                proof {
                    let a = spec_screen_fraction(low, left, width);
                    let b = spec_screen_fraction(high, left, width);
                    let d = self.view_interval.duration();
                    assert(a.numer * d <= b.numer * d) by (nonlinear_arith)
                        requires
                            a.numer <= b.numer,
                            d >= 0,
                    ;
                    lemma_round_div_monotonic(
                        a.numer * d,
                        b.numer * d,
                        width as int,
                    );
                }
                Some(Interval { start, stop })
            },
        }
    }

    /// Ends the drag in progress, the pointer being at the pixel `x`. If the
    /// pointer has moved more than `MIN_DRAG_DISTANCE` pixels from where
    /// the drag began, the marked window becomes the shown one; after a
    /// shorter drag the window stays. When no drag goes on nothing changes.
    pub fn drag_release(&mut self, x: i64, left: i64, width: i64)
        requires
            old(self).view_interval.wf(),
            width > 0,
        ensures
            final(self).drag_origin is None,
            final(self).row_height == old(self).row_height,
            final(self).total_interval == old(self).total_interval,
            final(self).view_interval == match old(self).drag_origin {
                Some(origin) => if x - origin > MIN_DRAG_DISTANCE || origin - x
                    > MIN_DRAG_DISTANCE {
                    old(self).spec_drag_interval(origin, x, left, width)
                } else {
                    old(self).view_interval
                },
                None => old(self).view_interval,
            },
            old(self).wf() ==> final(self).wf(),
    {
        if let Some(origin) = self.drag_origin {
            let distance: i128 = if origin <= x {
                x as i128 - origin as i128
            } else {
                origin as i128 - x as i128
            };
            if distance > MIN_DRAG_DISTANCE as i128 {
                if let Some(marked) = self.drag_interval(x, left, width) {
                    self.view_interval = marked;
                }
            }
            self.drag_origin = None;
        }
    }
}

/// `time` moved into `interval`.
pub open spec fn clamp_to_interval(time: Timestamp, interval: Interval) -> Timestamp {
    if time.0 < interval.start.0 {
        interval.start
    } else if time.0 > interval.stop.0 {
        interval.stop
    } else {
        time
    }
}

impl Context {
    /// The pixel at which `time` is shown, in a range of pixels that starts
    /// at `left` and is `width` wide: a time outside the window counts as
    /// the nearest end of the window.
    pub open spec fn spec_position_of(self, time: Timestamp, left: i64, width: i64) -> int {
        spec_lerp_between(
            left as int,
            left + width,
            clamp_to_interval(time, self.view_interval).0 - self.view_interval.start.0,
            self.view_interval.duration(),
        )
    }

    /// The pixel at which `time` is shown, in a range of pixels that starts
    /// at `left` and is `width` wide. A time outside the window counts as
    /// the nearest end of the window. A window of no duration shows no
    /// time anywhere: the answer is then `None`.
    pub fn position_of(&self, time: Timestamp, left: i64, width: i64) -> (r: Option<i64>)
        requires
            self.view_interval.wf(),
            width >= 0,
            left + width <= i64::MAX,
        ensures
            r is None <==> self.view_interval.duration() == 0,
            r matches Some(x) ==> x == self.spec_position_of(time, left, width) && left <= x
                <= left + width,
    {
        let view = self.view_interval;
        let clamped = if time.0 < view.start.0 {
            view.start
        } else if time.0 > view.stop.0 {
            view.stop
        } else {
            time
        };
        match view.unlerp(clamped) {
            None => None,
            Some(position) => {
                proof {
                    lemma_lerp_between_in_range(
                        left as int,
                        left + width,
                        position.numer as int,
                        position.denom as int,
                    );
                    assert(0 <= position.numer * width <= 0xffff_ffff_ffff_ffff
                        * 0x7fff_ffff_ffff_ffff) by (nonlinear_arith)
                        requires
                            0 <= position.numer <= 0xffff_ffff_ffff_ffff,
                            0 <= width <= 0x7fff_ffff_ffff_ffff,
                    ;
                }
                Some(lerp_between(left, left + width, position))
            },
        }
    }

    /// The pixels that an item takes, from its first to its last, in a range
    /// of pixels that starts at `left` and is `width` wide. The part of an
    /// item that lies outside the window is left out. An item that does not
    /// overlap the window takes no pixels, and in a window of no duration
    /// no item does: the answer is then `None`.
    pub fn item_span(&self, item: Interval, left: i64, width: i64) -> (r: Option<(i64, i64)>)
        requires
            self.view_interval.wf(),
            item.wf(),
            width >= 0,
            left + width <= i64::MAX,
        ensures
            r is None <==> !self.view_interval.overlaps(item) || self.view_interval.duration()
                == 0,
            r matches Some(span) ==> span.0 == self.spec_position_of(item.start, left, width)
                && span.1 == self.spec_position_of(item.stop, left, width) && left <= span.0
                <= span.1 <= left + width,
    {
        if !self.view_interval.overlaps(item) {
            return None;
        }
        let first = self.position_of(item.start, left, width);
        let last = self.position_of(item.stop, left, width);
        match (first, last) {
            (Some(a), Some(b)) => {
                proof {
                    let view = self.view_interval;
                    let p = clamp_to_interval(item.start, view).0 - view.start.0;
                    let q = clamp_to_interval(item.stop, view).0 - view.start.0;
                    assert(p * width <= q * width) by (nonlinear_arith)
                        requires
                            p <= q,
                            width >= 0,
                    ;
                    lemma_round_div_monotonic(p * width, q * width, view.duration());
                }
                Some((a, b))
            },
            _ => None,
        }
    }
}

} // verus!
