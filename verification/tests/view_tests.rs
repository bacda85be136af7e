use legion_prof_viewer::fraction::Fraction;
use legion_prof_viewer::session::Session;
use legion_prof_viewer::timestamp::{Interval, Timestamp};
use legion_prof_viewer::view::{screen_fraction, Context, MIN_DRAG_DISTANCE};

fn interval(start: i64, stop: i64) -> Interval {
    Interval::new(Timestamp(start), Timestamp(stop))
}

#[test]
fn a_new_context_shows_the_whole_range() {
    let cx = Context::new(12, interval(0, 1_000_000));
    assert_eq!(cx.row_height, 12);
    assert_eq!(cx.total_interval, interval(0, 1_000_000));
    assert_eq!(cx.view_interval, interval(0, 1_000_000));
    assert_eq!(cx.drag_origin, None);
}

#[test]
fn a_pixel_is_a_fraction_of_the_range_of_pixels() {
    assert_eq!(screen_fraction(260, 60, 1000), Fraction { numer: 200, denom: 1000 });
    assert_eq!(screen_fraction(60, 60, 1000), Fraction { numer: 0, denom: 1000 });
    assert_eq!(screen_fraction(1060, 60, 1000), Fraction { numer: 1000, denom: 1000 });
}

#[test]
fn a_pixel_outside_the_range_counts_as_the_nearest_end() {
    assert_eq!(screen_fraction(0, 60, 1000), Fraction { numer: 0, denom: 1000 });
    assert_eq!(screen_fraction(5000, 60, 1000), Fraction { numer: 1000, denom: 1000 });
    assert_eq!(screen_fraction(i64::MIN, i64::MAX, 1), Fraction { numer: 0, denom: 1 });
    assert_eq!(screen_fraction(i64::MAX, i64::MIN, 1), Fraction { numer: 1, denom: 1 });
}

#[test]
fn the_time_at_a_pixel_is_read_through_the_window() {
    let mut cx = Context::new(12, interval(0, 1_000_000));
    assert_eq!(cx.time_at(260, 60, 1000), Timestamp(200_000));
    assert_eq!(cx.time_at(60, 60, 1000), Timestamp(0));
    assert_eq!(cx.time_at(1060, 60, 1000), Timestamp(1_000_000));
    assert_eq!(cx.time_at(0, 60, 1000), Timestamp(0));
    cx.view_interval = interval(500_000, 600_000);
    assert_eq!(cx.time_at(560, 60, 1000), Timestamp(550_000));
}

#[test]
fn a_drag_from_a_fifth_to_three_fifths_zooms_to_that_part() {
    let mut cx = Context::new(12, interval(0, 1_000_000));
    cx.drag_start(200);
    assert_eq!(cx.drag_origin, Some(200));
    assert_eq!(cx.drag_interval(400, 0, 1000), Some(interval(200_000, 400_000)));
    cx.drag_release(600, 0, 1000);
    assert_eq!(cx.view_interval, interval(200_000, 600_000));
    assert_eq!(cx.total_interval, interval(0, 1_000_000));
    assert_eq!(cx.drag_origin, None);
}

#[test]
fn a_drag_to_the_left_marks_the_same_window() {
    let mut cx = Context::new(12, interval(0, 1_000_000));
    cx.drag_start(600);
    assert_eq!(cx.drag_interval(200, 0, 1000), Some(interval(200_000, 600_000)));
    cx.drag_release(200, 0, 1000);
    assert_eq!(cx.view_interval, interval(200_000, 600_000));
}

#[test]
fn a_short_drag_does_not_zoom() {
    assert_eq!(MIN_DRAG_DISTANCE, 4);
    for end in [500i64, 502, 504, 496] {
        let mut cx = Context::new(12, interval(0, 1_000_000));
        cx.drag_start(500);
        cx.drag_release(end, 0, 1000);
        assert_eq!(cx.view_interval, interval(0, 1_000_000));
        assert_eq!(cx.drag_origin, None);
    }
    let mut cx = Context::new(12, interval(0, 1_000_000));
    cx.drag_start(500);
    cx.drag_release(505, 0, 1000);
    assert_eq!(cx.view_interval, interval(500_000, 505_000));
    let mut cx = Context::new(12, interval(0, 1_000_000));
    cx.drag_start(500);
    cx.drag_release(495, 0, 1000);
    assert_eq!(cx.view_interval, interval(495_000, 500_000));
}

#[test]
fn a_release_without_a_drag_changes_nothing() {
    let mut cx = Context::new(12, interval(0, 1_000_000));
    assert_eq!(cx.drag_interval(400, 0, 1000), None);
    cx.drag_release(900, 0, 1000);
    assert_eq!(cx, Context::new(12, interval(0, 1_000_000)));
}

#[test]
fn a_drag_beyond_the_range_of_pixels_stays_in_the_window() {
    let mut cx = Context::new(12, interval(0, 1_000_000));
    cx.drag_start(-500);
    cx.drag_release(3000, 0, 1000);
    assert_eq!(cx.view_interval, interval(0, 1_000_000));
    cx.drag_start(900);
    cx.drag_release(i64::MAX, 0, 1000);
    assert_eq!(cx.view_interval, interval(900_000, 1_000_000));
}

#[test]
fn a_second_zoom_is_read_through_the_first() {
    let mut cx = Context::new(12, interval(0, 1_000_000));
    cx.drag_start(200);
    cx.drag_release(600, 0, 1000);
    cx.drag_start(500);
    cx.drag_release(1000, 0, 1000);
    assert_eq!(cx.view_interval, interval(400_000, 600_000));
    assert_eq!(cx.total_interval, interval(0, 1_000_000));
}

#[test]
fn reset_shows_the_whole_range_again() {
    let mut cx = Context::new(12, interval(0, 1_000_000));
    cx.drag_start(200);
    cx.drag_release(600, 0, 1000);
    cx.reset_view();
    assert_eq!(cx.view_interval, interval(0, 1_000_000));
    assert_eq!(cx.total_interval, interval(0, 1_000_000));
}

#[test]
fn one_more_interval_widens_the_range_and_the_window() {
    let mut cx = Context::new(12, interval(0, 1_000_000));
    cx.drag_start(200);
    cx.drag_release(600, 0, 1000);
    cx.add_interval(interval(500_000, 1_700_000));
    assert_eq!(cx.total_interval, interval(0, 1_700_000));
    assert_eq!(cx.view_interval, interval(0, 1_700_000));
    cx.add_interval(interval(-5, 10));
    assert_eq!(cx.total_interval, interval(-5, 1_700_000));
    assert_eq!(cx.view_interval, interval(-5, 1_700_000));
}

#[test]
fn a_time_is_shown_at_its_pixel() {
    let mut cx = Context::new(12, interval(0, 1_000_000));
    cx.view_interval = interval(200_000, 600_000);
    assert_eq!(cx.position_of(Timestamp(200_000), 60, 1000), Some(60));
    assert_eq!(cx.position_of(Timestamp(600_000), 60, 1000), Some(1060));
    assert_eq!(cx.position_of(Timestamp(300_000), 60, 1000), Some(310));
    assert_eq!(cx.position_of(Timestamp(0), 60, 1000), Some(60));
    assert_eq!(cx.position_of(Timestamp(900_000), 60, 1000), Some(1060));
    assert_eq!(cx.position_of(Timestamp(200_001), 60, 1000), Some(60));
    assert_eq!(cx.position_of(Timestamp(200_200), 60, 1000), Some(61));
}

#[test]
fn a_window_without_duration_shows_no_time() {
    let mut cx = Context::new(12, interval(0, 1_000_000));
    cx.view_interval = interval(5, 5);
    assert_eq!(cx.position_of(Timestamp(5), 60, 1000), None);
    assert_eq!(cx.item_span(interval(0, 10), 60, 1000), None);
}

#[test]
fn an_item_takes_the_pixels_of_its_part_in_the_window() {
    let mut cx = Context::new(12, interval(0, 1_000_000));
    cx.view_interval = interval(200_000, 600_000);
    assert_eq!(cx.item_span(interval(300_000, 400_000), 0, 1000), Some((250, 500)));
    assert_eq!(cx.item_span(interval(100_000, 400_000), 0, 1000), Some((0, 500)));
    assert_eq!(cx.item_span(interval(500_000, 900_000), 0, 1000), Some((750, 1000)));
    assert_eq!(cx.item_span(interval(0, 1_000_000), 0, 1000), Some((0, 1000)));
    assert_eq!(cx.item_span(interval(600_000, 700_000), 0, 1000), Some((1000, 1000)));
    assert_eq!(cx.item_span(interval(0, 199_999), 0, 1000), None);
    assert_eq!(cx.item_span(interval(600_001, 700_000), 0, 1000), None);
}

#[test]
fn a_session_starts_with_one_profile() {
    let session = Session::new(14, interval(0, 1_500_000));
    assert_eq!(session.windows.len(), 1);
    assert_eq!(session.windows[0].index, 0);
    assert_eq!(session.windows[0].config.interval, interval(0, 1_500_000));
    assert!(session.windows[0].panel.slots.is_empty());
    assert_eq!(session.cx, Context::new(14, interval(0, 1_500_000)));
}

#[test]
fn one_more_profile_gets_the_next_index_and_widens_the_range() {
    let mut session = Session::new(14, interval(0, 1_500_000));
    session.cx.drag_start(100);
    session.cx.drag_release(200, 0, 1000);
    session.add_profile(interval(0, 1_900_000));
    session.add_profile(interval(0, 1_200_000));
    assert_eq!(session.windows.len(), 3);
    assert_eq!(session.windows[1].index, 1);
    assert_eq!(session.windows[2].index, 2);
    assert_eq!(session.windows[1].config.interval, interval(0, 1_900_000));
    assert_eq!(session.windows[2].config.interval, interval(0, 1_200_000));
    assert_eq!(session.cx.total_interval, interval(0, 1_900_000));
    assert_eq!(session.cx.view_interval, interval(0, 1_900_000));
    assert_eq!(session.cx.row_height, 14);
}

#[test]
fn the_first_profile_of_an_empty_session_gets_the_index_zero() {
    let mut session = Session::new(14, interval(0, 10));
    session.windows.clear();
    session.add_profile(interval(5, 20));
    assert_eq!(session.windows.len(), 1);
    assert_eq!(session.windows[0].index, 0);
    assert_eq!(session.cx.total_interval, interval(0, 20));
}
