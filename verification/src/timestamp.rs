//! Nanosecond timestamps and closed intervals over them.

use vstd::prelude::*;
use vstd::string::StringExecFns;
use crate::text::{append_padded3, append_signed, padded3, signed_decimal};
use crate::fraction::{
    Fraction, lerp_between, lemma_lerp_between_in_range, lemma_round_div_exact, lemma_round_div_near,
    round_div, spec_lerp_between,
};

verus! {

/// A point in time, or a duration, counted in nanoseconds.
#[derive(Debug, Copy, Clone, PartialEq, Eq, Structural, PartialOrd, Ord, Hash)]
pub struct Timestamp(pub i64);

impl Default for Timestamp {
    fn default() -> (r: Self)
        ensures
            r.0 == 0,
    {
        Timestamp(0)
    }
}

/// A closed interval of time, both ends included.
#[derive(Debug, Copy, Clone, PartialEq, Eq, Structural, PartialOrd, Ord, Hash)]
pub struct Interval {
    pub start: Timestamp,
    pub stop: Timestamp,
}

impl Default for Interval {
    fn default() -> (r: Self)
        ensures
            r.start.0 == 0,
            r.stop.0 == 0,
            r.wf(),
    {
        Interval { start: Timestamp(0), stop: Timestamp(0) }
    }
}

impl Interval {
    /// An interval is well formed when it does not end before it starts.
    /// A single point, with both ends equal, is well formed.
    pub open spec fn wf(self) -> bool {
        self.start.0 <= self.stop.0
    }

    /// The length of the interval as a mathematical integer.
    pub open spec fn duration(self) -> int {
        self.stop.0 - self.start.0
    }

    /// Whether `point` lies in the interval, ends included.
    pub open spec fn spec_contains(self, point: Timestamp) -> bool {
        self.start.0 <= point.0 <= self.stop.0
    }

    /// Whether the two intervals share at least one point. Intervals that
    /// only touch at an end do overlap.
    pub open spec fn spec_overlaps(self, other: Interval) -> bool {
        other.stop.0 >= self.start.0 && other.start.0 <= self.stop.0
    }

    /// The later of the two starts and the earlier of the two stops.
    pub open spec fn spec_intersection(self, other: Interval) -> Interval {
        Interval {
            start: Timestamp(if self.start.0 >= other.start.0 { self.start.0 } else { other.start.0 }),
            stop: Timestamp(if self.stop.0 <= other.stop.0 { self.stop.0 } else { other.stop.0 }),
        }
    }

    /// The earlier of the two starts and the later of the two stops.
    pub open spec fn spec_union(self, other: Interval) -> Interval {
        Interval {
            start: Timestamp(if self.start.0 <= other.start.0 { self.start.0 } else { other.start.0 }),
            stop: Timestamp(if self.stop.0 >= other.stop.0 { self.stop.0 } else { other.stop.0 }),
        }
    }

    /// Makes the interval from `start` to `stop`.
    pub fn new(start: Timestamp, stop: Timestamp) -> (r: Self)
        requires
            start.0 <= stop.0,
        ensures
            r.start == start,
            r.stop == stop,
            r.wf(),
    {
        Self { start, stop }
    }

    /// The length of the interval in nanoseconds. The length must be one
    /// that 64 bits can hold.
    pub fn duration_ns(self) -> (d: i64)
        requires
            i64::MIN <= self.duration() <= i64::MAX,
        ensures
            d == self.duration(),
    {
        self.stop.0 - self.start.0
    }

    /// Whether `point` lies in the interval, ends included.
    #[verifier::when_used_as_spec(spec_contains)]
    pub fn contains(self, point: Timestamp) -> (b: bool)
        ensures
            b == self.spec_contains(point),
    {
        point.0 >= self.start.0 && point.0 <= self.stop.0
    }

    /// Whether the two intervals share at least one point. Intervals that
    /// only touch at an end do overlap.
    #[verifier::when_used_as_spec(spec_overlaps)]
    pub fn overlaps(self, other: Interval) -> (b: bool)
        ensures
            b == self.spec_overlaps(other),
    {
        !(other.stop.0 < self.start.0 || other.start.0 > self.stop.0)
    }

    /// The part that the two intervals share. The result is well formed
    /// exactly when the two overlap.
    #[verifier::when_used_as_spec(spec_intersection)]
    pub fn intersection(self, other: Interval) -> (r: Self)
        ensures
            r == self.spec_intersection(other),
            self.wf() && other.wf() ==> (r.wf() <==> self.overlaps(other)),
    {
        Self {
            start: Timestamp(if self.start.0 >= other.start.0 { self.start.0 } else { other.start.0 }),
            stop: Timestamp(if self.stop.0 <= other.stop.0 { self.stop.0 } else { other.stop.0 }),
        }
    }

    /// The smallest interval that covers both.
    #[verifier::when_used_as_spec(spec_union)]
    pub fn union(self, other: Interval) -> (r: Self)
        ensures
            r == self.spec_union(other),
            self.wf() || other.wf() ==> r.wf(),
    {
        Self {
            start: Timestamp(if self.start.0 <= other.start.0 { self.start.0 } else { other.start.0 }),
            stop: Timestamp(if self.stop.0 >= other.stop.0 { self.stop.0 } else { other.stop.0 }),
        }
    }

    /// The timestamp at the relative position `value` of the interval,
    /// rounded to the nearest nanosecond.
    pub open spec fn spec_lerp(self, value: Fraction) -> int {
        spec_lerp_between(self.start.0 as int, self.stop.0 as int, value.numer as int, value.denom as int)
    }

    /// The relative position of `time` in the interval: the time passed
    /// since the start over the whole duration.
    pub open spec fn spec_unlerp(self, time: Timestamp) -> Fraction {
        Fraction { numer: (time.0 - self.start.0) as i128, denom: self.duration() as i128 }
    }

    /// Converts a timestamp into relative space, where 0 is the start of the
    /// interval and 1 its stop. An interval of no duration has no relative
    /// space: the answer is then `None`. The position of a timestamp of the
    /// interval lies between 0 and 1, and converting it back gives the
    /// timestamp again.
    pub fn unlerp(self, time: Timestamp) -> (r: Option<Fraction>)
        requires
            self.wf(),
        ensures
            self.duration() == 0 <==> r is None,
            r matches Some(f) ==> f == self.spec_unlerp(time) && f.wf()
                && f.numer == time.0 - self.start.0 && f.denom == self.duration(),
            r matches Some(f) ==> (self.contains(time) ==> f.in_unit() && self.spec_lerp(f)
                == time.0),
    {
        proof {
            if self.duration() > 0 && self.contains(time) {
                lemma_lerp_unlerp(self, time);
            }
        }
        let denom: i128 = self.stop.0 as i128 - self.start.0 as i128;
        if denom == 0 {
            None
        } else {
            Some(Fraction { numer: time.0 as i128 - self.start.0 as i128, denom })
        }
    }

    /// Converts a position in relative space into a timestamp, rounded to
    /// the nearest nanosecond (halves away from the start). The position
    /// may lie outside the interval, as long as the timestamp is one that
    /// 64 bits can hold; a position between 0 and 1 always is, and gives a
    /// timestamp of the interval whose own position differs from it by at
    /// most half a nanosecond's share of the duration.
    pub fn lerp(self, value: Fraction) -> (t: Timestamp)
        requires
            value.wf(),
            i128::MIN <= value.numer * self.duration() <= i128::MAX,
            i64::MIN <= self.spec_lerp(value) <= i64::MAX,
        ensures
            t.0 == self.spec_lerp(value),
            self.wf() && value.in_unit() ==> self.contains(t),
            self.wf() && value.in_unit() && self.duration() > 0 ==> self.spec_unlerp(
                t,
            ).within_half_of(value, self.duration()),
    {
        proof {
            if self.wf() && value.in_unit() {
                lemma_lerp_in_interval(self, value);
                if self.duration() > 0 {
                    lemma_unlerp_lerp(self, value);
                }
            }
        }
        Timestamp(lerp_between(self.start.0, self.stop.0, value))
    }
}

/// Every timestamp between the two ends of an interval is contained in it.
pub proof fn lemma_contains_between(t1: Timestamp, t2: Timestamp, t3: Timestamp)
    requires
        t1.0 <= t2.0 <= t3.0,
    ensures
        (Interval { start: t1, stop: t3 }).contains(t2),
{
}

/// Two intervals that touch at one end overlap.
pub proof fn lemma_touching_overlaps(t1: Timestamp, t2: Timestamp, t3: Timestamp)
    requires
        t1.0 <= t2.0 <= t3.0,
    ensures
        (Interval { start: t1, stop: t2 }).overlaps(Interval { start: t2, stop: t3 }),
        (Interval { start: t2, stop: t3 }).overlaps(Interval { start: t1, stop: t2 }),
{
}

/// A position between 0 and 1 is converted into a timestamp of the interval.
pub proof fn lemma_lerp_in_interval(interval: Interval, value: Fraction)
    requires
        interval.wf(),
        value.wf(),
        value.in_unit(),
    ensures
        interval.start.0 <= interval.spec_lerp(value) <= interval.stop.0,
{
    lemma_lerp_between_in_range(
        interval.start.0 as int,
        interval.stop.0 as int,
        value.numer as int,
        value.denom as int,
    );
}

/// Going from relative space to a timestamp and back gives the position
/// again, up to the rounding to whole nanoseconds: the two differ by at most
/// half a nanosecond's share of the duration.
pub proof fn lemma_unlerp_lerp(interval: Interval, value: Fraction)
    requires
        interval.wf(),
        interval.duration() > 0,
        value.wf(),
        value.in_unit(),
    ensures
        interval.spec_unlerp(Timestamp(interval.spec_lerp(value) as i64)).within_half_of(
            value,
            interval.duration(),
        ),
{
    let d = interval.duration();
    let n = value.numer as int;
    let b = value.denom as int;
    lemma_lerp_in_interval(interval, value);
    lemma_round_div_near(n * d, b);
    let back = interval.spec_unlerp(Timestamp(interval.spec_lerp(value) as i64));
    let r = round_div(n * d, b);
    assert(back.numer == r);
    assert(back.denom == d);
    let diff = back.numer * value.denom - value.numer * back.denom;
    assert(diff == r * b - n * d);
    assert(-(d * b) <= 2 * d * diff <= d * b) by (nonlinear_arith)
        requires
            -b <= 2 * diff <= b,
            d > 0,
    ;
}

/// Going from a timestamp of the interval to relative space and back gives
/// the timestamp again, exactly.
pub proof fn lemma_lerp_unlerp(interval: Interval, time: Timestamp)
    requires
        interval.wf(),
        interval.duration() > 0,
        interval.contains(time),
    ensures
        interval.spec_unlerp(time).wf(),
        interval.spec_unlerp(time).in_unit(),
        interval.spec_lerp(interval.spec_unlerp(time)) == time.0,
{
    lemma_round_div_exact(time.0 - interval.start.0, interval.duration());
}

/// `x / d` rounded towards zero, for a positive `d`.
pub open spec fn trunc_div(x: int, d: int) -> int {
    if x >= 0 {
        x / d
    } else {
        -((-x) / d)
    }
}

/// What `x / d` rounded towards zero leaves over: it has the sign of `x`.
pub open spec fn trunc_rem(x: int, d: int) -> int {
    if x >= 0 {
        x % d
    } else {
        -((-x) % d)
    }
}

/// The number of nanoseconds `ns` in units of `divisor` nanoseconds, with
/// three digits behind the point.
pub open spec fn scaled_text(ns: int, divisor: int) -> Seq<char> {
    signed_decimal(trunc_div(ns, divisor)) + "."@ + padded3(
        signed_decimal(trunc_div(trunc_rem(ns, divisor), divisor / 1000)),
    )
}

/// The unit in which a time of `ns` nanoseconds is shown: the largest of
/// seconds, milliseconds and microseconds that makes at least one, else
/// nanoseconds. The answer is the number of nanoseconds in the unit.
pub open spec fn unit_of(ns: int) -> int {
    if ns >= 1_000_000_000 {
        1_000_000_000
    } else if ns >= 1_000_000 {
        1_000_000
    } else if ns >= 1_000 {
        1_000
    } else {
        1
    }
}

/// The name of the unit of `divisor` nanoseconds.
pub open spec fn unit_name(divisor: int) -> Seq<char> {
    if divisor == 1_000_000_000 {
        "s"@
    } else if divisor == 1_000_000 {
        "ms"@
    } else if divisor == 1_000 {
        "us"@
    } else {
        "ns"@
    }
}

/// A time of `ns` nanoseconds in the unit of `divisor` nanoseconds, without
/// the name of the unit: whole nanoseconds, or the larger unit with three
/// digits behind the point.
pub open spec fn amount_text(ns: int, divisor: int) -> Seq<char> {
    if divisor == 1 {
        signed_decimal(ns)
    } else {
        scaled_text(ns, divisor)
    }
}

/// `x / d` rounded towards zero, and what is left over.
fn trunc_div_rem(x: i64, d: i64) -> (r: (i64, i64))
    requires
        d > 0,
    ensures
        r.0 == trunc_div(x as int, d as int),
        r.1 == trunc_rem(x as int, d as int),
{
    let divisor: u64 = d as u64;
    if x >= 0 {
        let value: u64 = x as u64;
        ((value / divisor) as i64, (value % divisor) as i64)
    } else {
        let value: u64 = ((-(x + 1)) as u64) + 1;
        let q: u64 = value / divisor;
        let rest: u64 = value % divisor;
        assert(q <= value) by {
            vstd::arithmetic::div_mod::lemma_div_is_ordered_by_denominator(
                value as int,
                1,
                divisor as int,
            );
        }
        if q > 0x7fff_ffff_ffff_ffff {
            (i64::MIN, -(rest as i64))
        } else {
            (-(q as i64), -(rest as i64))
        }
    }
}

/// The unit in which a time of `ns` nanoseconds is shown.
fn unit_for(ns: i64) -> (divisor: i64)
    ensures
        divisor == unit_of(ns as int),
{
    if ns >= 1_000_000_000 {
        1_000_000_000
    } else if ns >= 1_000_000 {
        1_000_000
    } else if ns >= 1_000 {
        1_000
    } else {
        1
    }
}

/// The name of the unit of `divisor` nanoseconds.
fn name_of_unit(divisor: i64) -> (name: &'static str)
    ensures
        name@ == unit_name(divisor as int),
{
    if divisor == 1_000_000_000 {
        "s"
    } else if divisor == 1_000_000 {
        "ms"
    } else if divisor == 1_000 {
        "us"
    } else {
        "ns"
    }
}

/// Puts a time of `ns` nanoseconds at the end of `out`, in the unit of
/// `divisor` nanoseconds and without the name of the unit.
fn append_amount(out: &mut String, ns: i64, divisor: i64)
    requires
        divisor == 1 || divisor == 1_000 || divisor == 1_000_000 || divisor == 1_000_000_000,
    ensures
        final(out)@ == old(out)@ + amount_text(ns as int, divisor as int),
{
    if divisor == 1 {
        append_signed(out, ns);
    } else {
        let (units, rest) = trunc_div_rem(ns, divisor);
        let (shown, _) = trunc_div_rem(rest, divisor / 1000);
        append_signed(out, units);
        out.append(".");
        append_padded3(out, shown);
        assert(out@ =~= old(out)@ + scaled_text(ns as int, divisor as int));
    }
}

impl Timestamp {
    /// The time as it is shown: in seconds, milliseconds or microseconds
    /// with three digits behind the point, whichever is the largest unit
    /// that makes at least one, else in whole nanoseconds; then a space and
    /// the name of the unit.
    pub open spec fn text(self) -> Seq<char> {
        amount_text(self.0 as int, unit_of(self.0 as int)) + " "@ + unit_name(
            unit_of(self.0 as int),
        )
    }

    /// The time as it is shown, for example `1.500 ms`.
    pub fn to_string(&self) -> (s: String)
        ensures
            s@ == self.text(),
    {
        let divisor = unit_for(self.0);
        let mut out = String::new();
        append_amount(&mut out, self.0, divisor);
        out.append(" ");
        out.append(name_of_unit(divisor));
        assert(out@ =~= self.text());
        out
    }
}

impl Interval {
    /// The interval as it is shown: both ends in the unit in which the stop
    /// is shown, then the name of the unit, then the duration.
    pub open spec fn text(self) -> Seq<char> {
        let divisor = unit_of(self.stop.0 as int);
        "from "@ + amount_text(self.start.0 as int, divisor) + " to "@ + amount_text(
            self.stop.0 as int,
            divisor,
        ) + " "@ + unit_name(divisor) + " (duration: "@ + Timestamp(
            (self.stop.0 - self.start.0) as i64,
        ).text() + ")"@
    }

    /// The interval as it is shown, for example
    /// `from 1.000 to 2.500 us (duration: 1.500 us)`.
    pub fn to_string(&self) -> (s: String)
        requires
            i64::MIN <= self.duration() <= i64::MAX,
        ensures
            s@ == self.text(),
    {
        let divisor = unit_for(self.stop.0);
        let mut out = String::new();
        out.append("from ");
        append_amount(&mut out, self.start.0, divisor);
        out.append(" to ");
        append_amount(&mut out, self.stop.0, divisor);
        out.append(" ");
        out.append(name_of_unit(divisor));
        out.append(" (duration: ");
        let duration = Timestamp(self.stop.0 - self.start.0);
        let shown = duration.to_string();
        out.append(shown.as_str());
        out.append(")");
        assert(out@ =~= self.text());
        out
    }
}

} // verus!
