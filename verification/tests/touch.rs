use c6_lvgl::sqrt::approximate_sqrt;
use c6_lvgl::touch::{classify, distance, MIN_SWIPE_DISTANCE};
use c6_lvgl::{GestureEvent, TouchAction, TouchRead, TouchTracker};

fn at(x: u16, y: u16) -> TouchRead {
    TouchRead::Touched { first: Some((x, y)) }
}

fn tap(x: u16, y: u16) -> GestureEvent {
    GestureEvent::Touch { x, y }
}

fn swipe(start_x: u16, start_y: u16, end_x: u16, end_y: u16) -> GestureEvent {
    GestureEvent::Swipe { start_x, start_y, end_x, end_y }
}

#[test]
fn square_roots_round_down() {
    assert_eq!(approximate_sqrt(0), 0);
    assert_eq!(approximate_sqrt(1), 1);
    assert_eq!(approximate_sqrt(2), 1);
    assert_eq!(approximate_sqrt(3), 1);
    assert_eq!(approximate_sqrt(4), 2);
    assert_eq!(approximate_sqrt(899), 29);
    assert_eq!(approximate_sqrt(900), 30);
    assert_eq!(approximate_sqrt(960), 30);
    assert_eq!(approximate_sqrt(961), 31);
    assert_eq!(approximate_sqrt(i32::MAX as u32), 46340);
    assert_eq!(approximate_sqrt(u32::MAX - 1), 65535);
}

#[test]
fn square_roots_of_many_numbers() {
    let mut n: u64 = 0;
    while n < 5_000_000 {
        let r = approximate_sqrt(n as u32) as u64;
        assert!(r * r <= n && n < (r + 1) * (r + 1));
        n += 37;
    }
}

#[test]
fn distances_round_down() {
    assert_eq!(distance((10, 10), (10, 10)), 0);
    assert_eq!(distance((0, 0), (3, 4)), 5);
    assert_eq!(distance((3, 4), (0, 0)), 5);
    assert_eq!(distance((0, 0), (1, 1)), 1);
    assert_eq!(distance((0, 0), (4095, 4095)), 5791);
}

#[test]
fn swipe_begins_at_thirty_pixels() {
    assert_eq!(MIN_SWIPE_DISTANCE, 30);
    assert_eq!(classify((100, 100), (129, 100)), (tap(100, 100), 29));
    assert_eq!(classify((100, 100), (130, 100)), (swipe(100, 100, 130, 100), 30));
    assert_eq!(classify((100, 100), (100, 70)), (swipe(100, 100, 100, 70), 30));
    // 29.7 pixels and 30.4 pixels along the diagonal.
    assert_eq!(classify((0, 0), (21, 21)), (tap(0, 0), 29));
    assert_eq!(classify((0, 0), (21, 22)), (swipe(0, 0, 21, 22), 30));
}

#[test]
fn direction_does_not_matter() {
    let (forth, a) = classify((10, 20), (60, 80));
    let (back, b) = classify((60, 80), (10, 20));
    assert!(matches!(forth, GestureEvent::Swipe { .. }));
    assert!(matches!(back, GestureEvent::Swipe { .. }));
    assert_eq!(a, b);
}

#[test]
fn tap_is_sent_on_release() {
    let mut tracker = TouchTracker::new();
    assert_eq!(tracker.step(at(171, 204)), TouchAction::Started { x: 171, y: 204 });
    assert_eq!(tracker.step(at(172, 206)), TouchAction::Nothing);
    assert_eq!(
        tracker.step(TouchRead::Released),
        TouchAction::Send { gesture: tap(171, 204), distance: 2 }
    );
    assert_eq!(tracker.step(TouchRead::Released), TouchAction::Nothing);
}

#[test]
fn swipe_goes_from_first_to_latest_point() {
    let mut tracker = TouchTracker::new();
    assert_eq!(tracker.step(at(10, 10)), TouchAction::Started { x: 10, y: 10 });
    assert_eq!(tracker.step(at(300, 10)), TouchAction::Nothing);
    assert_eq!(tracker.step(TouchRead::Touched { first: None }), TouchAction::Nothing);
    assert_eq!(tracker.step(at(50, 40)), TouchAction::Nothing);
    assert_eq!(
        tracker.step(TouchRead::Released),
        TouchAction::Send { gesture: swipe(10, 10, 50, 40), distance: 50 }
    );
}

#[test]
fn finger_that_returns_is_a_tap() {
    let mut tracker = TouchTracker::new();
    tracker.step(at(10, 10));
    tracker.step(at(200, 200));
    tracker.step(at(12, 10));
    assert_eq!(
        tracker.step(TouchRead::Released),
        TouchAction::Send { gesture: tap(10, 10), distance: 2 }
    );
}

#[test]
fn failed_reading_drops_the_contact() {
    let mut tracker = TouchTracker::new();
    tracker.step(at(10, 10));
    assert_eq!(tracker.step(TouchRead::Failed), TouchAction::Nothing);
    assert_eq!(tracker.step(TouchRead::Released), TouchAction::Nothing);
    assert_eq!(tracker.step(at(5, 6)), TouchAction::Started { x: 5, y: 6 });
    assert_eq!(
        tracker.step(TouchRead::Released),
        TouchAction::Send { gesture: tap(5, 6), distance: 0 }
    );
}

#[test]
fn nothing_happens_without_a_point() {
    let mut tracker = TouchTracker::new();
    assert_eq!(tracker.step(TouchRead::Touched { first: None }), TouchAction::Nothing);
    assert_eq!(tracker.step(TouchRead::Released), TouchAction::Nothing);
    assert_eq!(tracker.step(TouchRead::Failed), TouchAction::Nothing);
}

#[test]
fn far_apart_ends_cannot_be_measured() {
    let mut tracker = TouchTracker::new();
    assert!(tracker.is_measurable());
    tracker.step(at(0, 0));
    tracker.step(at(46340, 0));
    assert!(tracker.is_measurable());
    tracker.step(at(46341, 0));
    assert!(!tracker.is_measurable());
    tracker.step(at(4095, 4095));
    assert!(tracker.is_measurable());
    assert_eq!(
        tracker.step(TouchRead::Released),
        TouchAction::Send { gesture: swipe(0, 0, 4095, 4095), distance: 5791 }
    );
}
