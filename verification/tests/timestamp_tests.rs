use legion_prof_viewer::fraction::{lerp_between, Fraction};
use legion_prof_viewer::timestamp::{Interval, Timestamp};

fn interval(start: i64, stop: i64) -> Interval {
    Interval::new(Timestamp(start), Timestamp(stop))
}

#[test]
fn new_keeps_both_ends() {
    let i = Interval::new(Timestamp(3), Timestamp(9));
    assert_eq!(i.start, Timestamp(3));
    assert_eq!(i.stop, Timestamp(9));
}

#[test]
fn default_interval_is_the_point_zero() {
    let i = Interval::default();
    assert_eq!(i, interval(0, 0));
    assert_eq!(Timestamp::default(), Timestamp(0));
}

#[test]
fn duration_is_stop_minus_start() {
    assert_eq!(interval(10, 25).duration_ns(), 15);
    assert_eq!(interval(-5, 5).duration_ns(), 10);
    assert_eq!(interval(7, 7).duration_ns(), 0);
}

#[test]
fn contains_is_closed_at_both_ends() {
    let i = interval(10, 20);
    assert!(i.contains(Timestamp(10)));
    assert!(i.contains(Timestamp(15)));
    assert!(i.contains(Timestamp(20)));
    assert!(!i.contains(Timestamp(9)));
    assert!(!i.contains(Timestamp(21)));
}

#[test]
fn a_point_interval_contains_its_point() {
    let i = interval(4, 4);
    assert!(i.contains(Timestamp(4)));
    assert!(!i.contains(Timestamp(5)));
}

#[test]
fn every_time_between_the_ends_is_contained() {
    let (t1, t2, t3) = (Timestamp(-3), Timestamp(8), Timestamp(100));
    assert!(Interval::new(t1, t3).contains(t2));
    assert!(Interval::new(t1, t3).contains(t1));
    assert!(Interval::new(t1, t3).contains(t3));
}

#[test]
fn touching_intervals_overlap() {
    let (t1, t2, t3) = (Timestamp(0), Timestamp(50), Timestamp(90));
    assert!(Interval::new(t1, t2).overlaps(Interval::new(t2, t3)));
    assert!(Interval::new(t2, t3).overlaps(Interval::new(t1, t2)));
}

#[test]
fn overlaps_tells_apart_intervals_that_are_apart() {
    assert!(interval(0, 10).overlaps(interval(5, 15)));
    assert!(interval(0, 10).overlaps(interval(2, 3)));
    assert!(interval(2, 3).overlaps(interval(0, 10)));
    assert!(!interval(0, 10).overlaps(interval(11, 15)));
    assert!(!interval(11, 15).overlaps(interval(0, 10)));
}

#[test]
fn intersection_takes_the_later_start_and_the_earlier_stop() {
    assert_eq!(interval(0, 10).intersection(interval(5, 15)), interval(5, 10));
    assert_eq!(interval(5, 15).intersection(interval(0, 10)), interval(5, 10));
    assert_eq!(interval(0, 10).intersection(interval(2, 3)), interval(2, 3));
    assert_eq!(interval(0, 10).intersection(interval(10, 30)), interval(10, 10));
}

#[test]
fn intersection_of_intervals_apart_ends_before_it_starts() {
    let cut = interval(0, 10).intersection(interval(20, 30));
    assert_eq!(cut.start, Timestamp(20));
    assert_eq!(cut.stop, Timestamp(10));
}

#[test]
fn union_takes_the_earlier_start_and_the_later_stop() {
    assert_eq!(interval(0, 10).union(interval(5, 15)), interval(0, 15));
    assert_eq!(interval(20, 30).union(interval(0, 10)), interval(0, 30));
    assert_eq!(interval(0, 10).union(interval(2, 3)), interval(0, 10));
}

#[test]
fn lerp_gives_the_time_at_a_fraction() {
    let i = interval(0, 1_000_000);
    assert_eq!(i.lerp(Fraction::new(2, 10)), Timestamp(200_000));
    assert_eq!(i.lerp(Fraction::new(6, 10)), Timestamp(600_000));
    assert_eq!(i.lerp(Fraction::new(0, 1)), Timestamp(0));
    assert_eq!(i.lerp(Fraction::new(1, 1)), Timestamp(1_000_000));
    assert_eq!(interval(100, 200).lerp(Fraction::new(1, 4)), Timestamp(125));
}

#[test]
fn lerp_rounds_to_the_nearest_nanosecond() {
    assert_eq!(interval(0, 10).lerp(Fraction::new(1, 3)), Timestamp(3));
    assert_eq!(interval(0, 10).lerp(Fraction::new(2, 3)), Timestamp(7));
    assert_eq!(interval(0, 5).lerp(Fraction::new(1, 2)), Timestamp(3));
    assert_eq!(interval(0, 10).lerp(Fraction::new(-1, 4)), Timestamp(-3));
    assert_eq!(interval(0, 10).lerp(Fraction::new(-1, 3)), Timestamp(-3));
    assert_eq!(interval(0, 10).lerp(Fraction::new(3, 2)), Timestamp(15));
}

#[test]
fn lerp_between_works_on_falling_ranges() {
    assert_eq!(lerp_between(10, 0, Fraction::new(1, 4)), 7);
    assert_eq!(lerp_between(10, 0, Fraction::new(1, 2)), 5);
    assert_eq!(lerp_between(-10, 10, Fraction::new(1, 2)), 0);
    assert_eq!(lerp_between(0, 3, Fraction::new(1, 2)), 2);
}

#[test]
fn unlerp_gives_the_time_passed_over_the_duration() {
    let i = interval(10, 30);
    assert_eq!(i.unlerp(Timestamp(20)), Some(Fraction { numer: 10, denom: 20 }));
    assert_eq!(i.unlerp(Timestamp(10)), Some(Fraction { numer: 0, denom: 20 }));
    assert_eq!(i.unlerp(Timestamp(30)), Some(Fraction { numer: 20, denom: 20 }));
    assert_eq!(i.unlerp(Timestamp(0)), Some(Fraction { numer: -10, denom: 20 }));
}

#[test]
fn unlerp_of_an_interval_without_duration_is_none() {
    assert_eq!(interval(5, 5).unlerp(Timestamp(5)), None);
    assert_eq!(interval(5, 5).unlerp(Timestamp(9)), None);
}

#[test]
fn lerp_after_unlerp_gives_the_time_back() {
    let i = interval(-700, 1300);
    for t in [-700i64, -699, -1, 0, 1, 17, 999, 1299, 1300] {
        let f = i.unlerp(Timestamp(t)).unwrap();
        assert_eq!(i.lerp(f), Timestamp(t));
    }
}

#[test]
fn unlerp_after_lerp_is_within_half_a_nanosecond() {
    let i = interval(0, 1000);
    for numer in 0..=37i128 {
        let f = Fraction::new(numer, 37);
        let back = i.unlerp(i.lerp(f)).unwrap();
        // |back - f| <= 1 / (2 * duration)
        let diff = back.numer * f.denom - f.numer * back.denom;
        assert!(2 * 1000 * diff.abs() <= back.denom * f.denom);
    }
}

#[test]
fn a_time_is_shown_in_its_largest_unit() {
    assert_eq!(Timestamp(0).to_string(), "0 ns");
    assert_eq!(Timestamp(999).to_string(), "999 ns");
    assert_eq!(Timestamp(1_000).to_string(), "1.000 us");
    assert_eq!(Timestamp(1_500).to_string(), "1.500 us");
    assert_eq!(Timestamp(999_999).to_string(), "999.999 us");
    assert_eq!(Timestamp(2_000_000).to_string(), "2.000 ms");
    assert_eq!(Timestamp(1_005_000).to_string(), "1.005 ms");
    assert_eq!(Timestamp(1_234_567_890).to_string(), "1.234 s");
    assert_eq!(Timestamp(60_000_000_000).to_string(), "60.000 s");
}

#[test]
fn a_negative_time_is_shown_in_nanoseconds() {
    assert_eq!(Timestamp(-5).to_string(), "-5 ns");
    assert_eq!(Timestamp(-5_000_000_000).to_string(), "-5000000000 ns");
    assert_eq!(Timestamp(i64::MIN).to_string(), "-9223372036854775808 ns");
}

#[test]
fn an_interval_is_shown_in_the_unit_of_its_stop() {
    assert_eq!(interval(0, 500).to_string(), "from 0 to 500 ns (duration: 500 ns)");
    assert_eq!(
        interval(1_000, 2_500).to_string(),
        "from 1.000 to 2.500 us (duration: 1.500 us)"
    );
    assert_eq!(
        interval(500, 2_000_000).to_string(),
        "from 0.000 to 2.000 ms (duration: 1.999 ms)"
    );
    assert_eq!(
        interval(0, 1_500_000_000).to_string(),
        "from 0.000 to 1.500 s (duration: 1.500 s)"
    );
}

#[test]
fn an_interval_with_a_negative_start_keeps_the_sign_on_both_parts() {
    assert_eq!(
        interval(-1_500, 2_000).to_string(),
        "from -1.-500 to 2.000 us (duration: 3.500 us)"
    );
    assert_eq!(
        interval(-1_005, 2_000).to_string(),
        "from -1.0-5 to 2.000 us (duration: 3.005 us)"
    );
}
