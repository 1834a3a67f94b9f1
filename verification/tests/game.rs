use c6_lvgl::framebuffer::FB_LEN;
use c6_lvgl::game::{base_points, draw_points, score};
use c6_lvgl::palette::{
    color_name, find_color, next_lfsr, rainbow_color, select_color, LFSR_SEED, RAINBOW,
};
use c6_lvgl::screen::{draw_text_label, Area};
use c6_lvgl::{Game, GestureEvent, Round};
use embedded_graphics::pixelcolor::{IntoStorage, Rgb565};

const PANEL: Area = Area { width: 320, height: 172 };
const TOUCH: GestureEvent = GestureEvent::Touch { x: 1, y: 2 };
const SWIPE: GestureEvent = GestureEvent::Swipe { start_x: 0, start_y: 0, end_x: 50, end_y: 0 };

/// The points as a line through 110 in single precision.
fn line(ms_elapsed: u32) -> i32 {
    let a = -0.2_f32;
    let b = 110.0_f32;
    ((a * (ms_elapsed as f32) + b) as i32).max(1)
}

#[test]
fn rainbow_in_storage_form() {
    let expected = [0x001f, 0x029f, 0x07ff, 0x07e0, 0xf800, 0xf808, 0xf81f];
    for (i, raw) in expected.iter().enumerate() {
        let (r, g, b) = RAINBOW[i];
        assert_eq!(rainbow_color(i), *raw);
        assert_eq!(rainbow_color(i), Rgb565::new(r, g, b).into_storage());
    }
}

#[test]
fn colors_are_found_by_storage_form() {
    let names = ["Red", "Orange", "Yellow", "Green", "Blue", "Indigo", "Violet"];
    for (i, name) in names.iter().enumerate() {
        assert_eq!(find_color(rainbow_color(i)), Some(i));
        assert_eq!(color_name(Some(i)), *name);
    }
    assert_eq!(find_color(0xffff), None);
    assert_eq!(find_color(0), None);
    assert_eq!(color_name(None), "Unknown");
}

#[test]
fn generator_sequence() {
    let mut x = LFSR_SEED;
    assert_eq!(x, 0xace1);
    for _ in 0..1000 {
        let mut expected = x;
        expected ^= expected << 13;
        expected ^= expected >> 17;
        expected ^= expected << 5;
        x = next_lfsr(x);
        assert_eq!(x, expected);
        assert!(x != 0);
        assert_eq!(select_color(x), rainbow_color((x % 7) as usize));
    }
    assert_eq!(next_lfsr(0), 0);
    assert_eq!(next_lfsr(1), 0x0004_2021);
}

#[test]
fn points_by_time() {
    assert_eq!(base_points(0), 100);
    assert_eq!(base_points(1), 109);
    assert_eq!(base_points(5), 109);
    assert_eq!(base_points(6), 108);
    assert_eq!(base_points(250), 60);
    assert_eq!(base_points(545), 1);
    assert_eq!(base_points(546), 1);
    assert_eq!(base_points(10_000), 1);
    assert_eq!(base_points(u32::MAX), 1);
}

#[test]
fn points_follow_the_line() {
    for ms in 1..200_000u32 {
        assert_eq!(base_points(ms), line(ms));
        assert!(base_points(ms + 1) <= base_points(ms));
    }
    let mut ms: u64 = 200_000;
    while ms <= u32::MAX as u64 {
        assert_eq!(base_points(ms as u32), line(ms as u32));
        ms += 4_999;
    }
    assert_eq!(base_points(u32::MAX), line(u32::MAX));
}

#[test]
fn blue_wants_a_swipe_and_others_a_touch() {
    assert_eq!(score(TOUCH, true, 50), -99);
    assert_eq!(score(TOUCH, false, 50), 100);
    assert_eq!(score(SWIPE, true, 51), 99);
    assert_eq!(score(SWIPE, false, 51), -99);
}

#[test]
fn round_is_judged_by_its_color() {
    let blue = Round { gesture: SWIPE, ms_elapsed: 0, color: rainbow_color(4) };
    assert_eq!(blue.score(), 100);
    let red = Round { gesture: SWIPE, ms_elapsed: 0, color: rainbow_color(0) };
    assert_eq!(red.score(), -99);
    let unknown = Round { gesture: TOUCH, ms_elapsed: 0, color: 0xffff };
    assert_eq!(unknown.score(), 100);
}

#[test]
fn points_are_shown_with_a_sign() {
    let mut a = vec![0u16; FB_LEN];
    let mut b = vec![0u16; FB_LEN];
    assert_eq!(draw_points(PANEL, &mut a, -99), draw_text_label(PANEL, &mut b, "-99"));
    assert_eq!(a, b);
    assert_eq!(draw_points(PANEL, &mut a, 100), draw_text_label(PANEL, &mut b, "+100"));
    assert_eq!(draw_points(PANEL, &mut a, 0), draw_text_label(PANEL, &mut b, "+0"));
}

#[test]
fn first_rounds_of_a_game() {
    let mut fb = vec![0u16; FB_LEN];
    let mut plain = vec![0u16; FB_LEN];
    let mut game = Game::new();
    assert_eq!((game.lfsr, game.timer_start, game.total_points), (0xace1, None, 0));
    let mut total = 0;
    let mut lfsr = 0xace1;
    let mut now = 5_000_000;
    for k in 0..40u32 {
        let gesture = if k % 3 == 0 { SWIPE } else { TOUCH };
        let round = game.begin_round(gesture, now);
        lfsr = next_lfsr(lfsr);
        let place = (lfsr % 7) as usize;
        let ms = if k == 0 { 0 } else { 20 * k };
        assert_eq!(round, Round { gesture, ms_elapsed: ms, color: rainbow_color(place) });
        assert_eq!((game.lfsr, game.timer_start), (lfsr, Some(now)));
        let right = (k % 3 == 0) == (place == 4);
        let points = match (right, k) {
            (true, 0) => 100,
            (true, _) => line(ms),
            (false, _) => -99,
        };
        total += points;
        let report = game.finish_round(round, true, PANEL, &mut fb).unwrap();
        assert_eq!(report.color_index, Some(place));
        assert_eq!(report.color_name, color_name(Some(place)));
        assert_eq!(report.points, points);
        assert_eq!(report.total_points, total);
        assert_eq!(game.total_points, total);
        let text = if points < 0 { format!("{}", points) } else { format!("+{}", points) };
        assert_eq!(report.squares, draw_text_label(PANEL, &mut plain, &text));
        assert_eq!(fb, plain);
        // 999 further ticks do not make a millisecond.
        now += 20_000 * (k as u64 + 1) + if k % 2 == 0 { 999 } else { 0 };
    }
}

#[test]
fn round_does_not_count_if_the_panel_fails() {
    let mut fb = vec![7u16; FB_LEN];
    let mut game = Game::new();
    game.total_points = 12;
    let round = game.begin_round(TOUCH, 1_000);
    let before = game;
    assert!(game.finish_round(round, false, PANEL, &mut fb).is_none());
    assert_eq!(game, before);
    assert!(fb.iter().all(|c| *c == 7));
    // The timer runs from the gesture that did not count.
    assert_eq!(game.begin_round(TOUCH, 8_000).ms_elapsed, 7);
}

#[test]
fn failing_panel_needs_no_framebuffer() {
    let mut game = Game::new();
    let round = game.begin_round(TOUCH, 0);
    assert!(game.finish_round(round, false, PANEL, &mut []).is_none());
}

#[test]
fn elapsed_time_wraps_around() {
    let mut game = Game::new();
    game.begin_round(TOUCH, 10);
    let wrap = 0x1_0000_0000u64 * 1000;
    assert_eq!(game.begin_round(TOUCH, 10 + wrap).ms_elapsed, 0);
    assert_eq!(game.begin_round(TOUCH, 10 + 2 * wrap + 3_999).ms_elapsed, 3);
}

#[test]
fn total_may_go_below_zero() {
    let mut fb = vec![0u16; FB_LEN];
    let mut game = Game::new();
    let round = Round { gesture: SWIPE, ms_elapsed: 9, color: rainbow_color(6) };
    let first = game.finish_round(round, true, PANEL, &mut fb).unwrap();
    let second = game.finish_round(round, true, PANEL, &mut fb).unwrap();
    assert_eq!((first.total_points, second.total_points), (-99, -198));
    assert_eq!(second.color_name, "Violet");
}
