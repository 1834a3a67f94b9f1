//! The game: answer each color with the right gesture, and fast.
//!
//! Every gesture begins a round. The panel takes a new color; blue wants a
//! swipe, every other color a touch. The right gesture earns points, the more
//! the less time has passed since the gesture before; the wrong one costs
//! points.
use embassy_time::Instant;
use vstd::prelude::*;

use crate::framebuffer::FB_LEN;
use crate::palette::{color_name, find_color, next_lfsr, select_color, BLUE, LFSR_SEED};
use crate::screen::{draw_negative_num, draw_num_with_prefix, Area, Square};
use crate::touch::GestureEvent;

verus! {

/// Points for a right gesture when no time was measured: the first gesture, or
/// one within the same millisecond.
pub const UNTIMED_POINTS: i32 = 100;

/// What a wrong gesture costs.
pub const PENALTY: i32 = -99;

/// Whole milliseconds between two clock readings, by
/// `embassy_time::Instant::duration_since` and
/// `embassy_time::Duration::as_millis`. The clock counts in ticks of the
/// default rate, one million per second.
///
/// Trusted: the difference in ticks, divided by a thousand and rounded down.
/// `duration_since` panics if `start` is later than `now`, which the bound
/// leaves out.
#[verifier::external_body]
fn millis_between(start: u64, now: u64) -> (ms: u64)
    requires
        start <= now,
    ensures
        ms == (now - start) / 1000,
{
    Instant::from_ticks(now).duration_since(Instant::from_ticks(start)).as_millis()
}

/// Milliseconds since the timer was started, in a 32-bit count that wraps
/// around; zero if it was not started yet.
pub open spec fn elapsed_ms(timer_start: Option<u64>, now: u64) -> u32 {
    match timer_start {
        Some(start) => ((now - start) / 1000 % 0x1_0000_0000) as u32,
        None => 0,
    }
}

/// Points for a right gesture: 110 less a fifth of a point for every
/// millisecond, rounded down, but at least one.
pub open spec fn timed_points(ms_elapsed: u32) -> int {
    let points = (550 - ms_elapsed) / 5;
    if ms_elapsed == 0 {
        UNTIMED_POINTS as int
    } else if points >= 1 {
        points
    } else {
        1
    }
}

/// The gesture is the one that the color wants.
pub open spec fn is_right(gesture: GestureEvent, is_blue: bool) -> bool {
    gesture is Swipe <==> is_blue
}

/// Points for a gesture.
pub open spec fn gesture_points(gesture: GestureEvent, is_blue: bool, ms_elapsed: u32) -> int {
    if is_right(gesture, is_blue) {
        timed_points(ms_elapsed)
    } else {
        PENALTY as int
    }
}

/// How points are shown: always with a sign.
pub open spec fn points_text(points: int) -> Seq<char> {
    if points < 0 {
        seq!['-'] + crate::decimal::decimal((-points) as nat)
    } else {
        seq!['+'] + crate::decimal::decimal(points as nat)
    }
}

/// Points for a right gesture.
pub fn base_points(ms_elapsed: u32) -> (points: i32)
    ensures
        points == timed_points(ms_elapsed),
{
    if ms_elapsed == 0 {
        UNTIMED_POINTS
    } else if ms_elapsed <= 545 {
        ((550 - ms_elapsed) / 5) as i32
    } else {
        1
    }
}

/// Points for a gesture.
pub fn score(gesture: GestureEvent, is_blue: bool, ms_elapsed: u32) -> (points: i32)
    ensures
        points == gesture_points(gesture, is_blue, ms_elapsed),
{
    let base_points: i32 = base_points(ms_elapsed);
    match (gesture, is_blue) {
        (GestureEvent::Touch { .. }, true) => PENALTY,
        (GestureEvent::Touch { .. }, false) => base_points,
        (GestureEvent::Swipe { .. }, true) => base_points,
        (GestureEvent::Swipe { .. }, false) => PENALTY,
    }
}

/// Shows points on the panel.
pub fn draw_points(area: Area, fb_buf: &mut [u16], points: i32) -> (squares: Vec<Square>)
    requires
        old(fb_buf)@.len() >= FB_LEN,
        points > i32::MIN,
    ensures
        final(fb_buf)@ == crate::screen::text_frame(
            old(fb_buf)@.len(),
            points_text(points as int),
        ),
        squares@ == crate::screen::text_squares(points_text(points as int), area),
{
    if points < 0 {
        draw_negative_num(area, fb_buf, (-points) as u32)
    } else {
        draw_num_with_prefix(area, fb_buf, points as u32, true)
    }
}

/// A round that has begun.
#[derive(Clone, Copy, Debug, PartialEq, Eq, Structural)]
pub struct Round {
    /// The gesture to be judged.
    pub gesture: GestureEvent,
    /// Milliseconds since the gesture before.
    pub ms_elapsed: u32,
    /// The color that the panel is to take, in storage form.
    pub color: u16,
}

impl Round {
    /// The panel is to be blue.
    pub open spec fn is_blue(self) -> bool {
        crate::palette::place_of(self.color) == Some(BLUE)
    }

    /// Points for the round.
    pub open spec fn points(self) -> int {
        gesture_points(self.gesture, self.is_blue(), self.ms_elapsed)
    }

    /// Points for the round.
    pub fn score(&self) -> (points: i32)
        ensures
            points == self.points(),
    {
        let is_blue: bool = match find_color(self.color) {
            Some(i) => i == BLUE,
            None => false,
        };
        score(self.gesture, is_blue, self.ms_elapsed)
    }
}

/// How a round came out.
pub struct Report {
    /// Place of the color in the rainbow.
    pub color_index: Option<usize>,
    /// Name of the color.
    pub color_name: &'static str,
    /// Points for the round.
    pub points: i32,
    /// Points so far, this round included.
    pub total_points: i32,
    /// What to fill on the panel to show the points.
    pub squares: Vec<Square>,
}

/// The state of the game.
#[derive(Clone, Copy, Debug, PartialEq, Eq, Structural)]
pub struct Game {
    /// State of the color generator.
    pub lfsr: u32,
    /// Clock reading at the gesture before, in ticks.
    pub timer_start: Option<u64>,
    /// Points so far.
    pub total_points: i32,
}

/// The state of the game, with an unbounded count of points.
pub struct GameView {
    pub lfsr: u32,
    pub timer_start: Option<u64>,
    pub total_points: int,
}

impl View for Game {
    type V = GameView;

    open spec fn view(&self) -> GameView {
        GameView {
            lfsr: self.lfsr,
            timer_start: self.timer_start,
            total_points: self.total_points as int,
        }
    }
}

impl GameView {
    /// The round that a gesture begins.
    pub open spec fn round(self, gesture: GestureEvent, now: u64) -> Round {
        Round {
            gesture,
            ms_elapsed: elapsed_ms(self.timer_start, now),
            color: crate::palette::rainbow_storage(
                crate::palette::selected(crate::palette::xorshift(self.lfsr)),
            ),
        }
    }

    /// The state once a round has begun: a new color, and the timer restarted.
    pub open spec fn begun(self, now: u64) -> GameView {
        GameView {
            lfsr: crate::palette::xorshift(self.lfsr),
            timer_start: Some(now),
            total_points: self.total_points,
        }
    }

    /// The state once a round is over.
    pub open spec fn finished(self, round: Round, filled: bool) -> GameView {
        if filled {
            GameView { total_points: self.total_points + round.points(), ..self }
        } else {
            self
        }
    }
}

impl Game {
    /// The game before the first gesture.
    pub fn new() -> (game: Self)
        ensures
            game.lfsr == LFSR_SEED,
            game.timer_start is None,
            game.total_points == 0,
    {
        Game { lfsr: LFSR_SEED, timer_start: None, total_points: 0 }
    }

    /// Begins a round with a gesture, at the clock reading `now`: measures the
    /// time since the gesture before, restarts the timer and draws a color.
    pub fn begin_round(&mut self, gesture: GestureEvent, now: u64) -> (round: Round)
        requires
            old(self).timer_start matches Some(start) ==> start <= now,
        ensures
            round == old(self)@.round(gesture, now),
            final(self)@ == old(self)@.begun(now),
    {
        let ms_elapsed: u32 = match self.timer_start {
            Some(start_time) => {
                let elapsed: u64 = millis_between(start_time, now);
                assert(elapsed as u32 == elapsed % 0x1_0000_0000) by (bit_vector);
                elapsed as u32
            },
            None => 0,
        };
        self.timer_start = Some(now);
        self.lfsr = next_lfsr(self.lfsr);
        Round { gesture, ms_elapsed, color: select_color(self.lfsr) }
    }

    /// Ends a round. `filled` says whether the panel took the round's color:
    /// if not, the round does not count and nothing is shown.
    pub fn finish_round(
        &mut self,
        round: Round,
        filled: bool,
        area: Area,
        fb_buf: &mut [u16],
    ) -> (report: Option<Report>)
        requires
            filled ==> old(fb_buf)@.len() >= FB_LEN,
            filled ==> i32::MIN <= old(self).total_points + round.points() <= i32::MAX,
        ensures
            final(self)@ == old(self)@.finished(round, filled),
            report is Some <==> filled,
            report matches Some(r) ==> {
                &&& r.color_index == crate::palette::place_of(round.color)
                &&& r.color_name@ == crate::palette::name_at(crate::palette::place_of(round.color))
                &&& r.points == round.points()
                &&& r.total_points == final(self).total_points
                &&& r.squares@ == crate::screen::text_squares(points_text(round.points()), area)
            },
            final(fb_buf)@ == if filled {
                crate::screen::text_frame(old(fb_buf)@.len(), points_text(round.points()))
            } else {
                old(fb_buf)@
            },
    {
        if !filled {
            return None;
        }
        let color_index = find_color(round.color);
        let color_name = color_name(color_index);
        let points: i32 = round.score();
        self.total_points = self.total_points + points;
        let squares = draw_points(area, fb_buf, points);
        Some(Report { color_index, color_name, points, total_points: self.total_points, squares })
    }
}

/// One round as it came from outside: the gesture, the clock reading, and
/// whether the panel took the color.
pub struct Input {
    pub gesture: GestureEvent,
    pub now: u64,
    pub filled: bool,
}

/// The state after a series of rounds, the oldest first.
pub open spec fn game_after(game: GameView, inputs: Seq<Input>) -> GameView
    decreases inputs.len(),
{
    if inputs.len() == 0 {
        game
    } else {
        let before = game_after(game, inputs.drop_last());
        let last = inputs.last();
        before.begun(last.now).finished(before.round(last.gesture, last.now), last.filled)
    }
}

/// The points of every round of a series that counts, added up.
pub open spec fn points_sum(game: GameView, inputs: Seq<Input>) -> int
    decreases inputs.len(),
{
    if inputs.len() == 0 {
        0
    } else {
        let before = game_after(game, inputs.drop_last());
        let last = inputs.last();
        points_sum(game, inputs.drop_last()) + if last.filled {
            before.round(last.gesture, last.now).points()
        } else {
            0
        }
    }
}

/// The total is the sum of the points of all rounds in which the panel took
/// its color; the others change nothing in it.
pub proof fn law_total_is_sum_of_rounds(game: GameView, inputs: Seq<Input>)
    ensures
        game_after(game, inputs).total_points == game.total_points + points_sum(game, inputs),
    decreases inputs.len(),
{
    if inputs.len() > 0 {
        law_total_is_sum_of_rounds(game, inputs.drop_last());
    }
}

/// Time is always measured from the gesture before, also if the panel did not
/// take that gesture's color.
pub proof fn law_timer_restarts_with_every_gesture(game: GameView, inputs: Seq<Input>)
    requires
        inputs.len() > 0,
    ensures
        game_after(game, inputs).timer_start == Some(inputs.last().now),
{
}

/// From a nonzero state, as the one the game starts from, the color generator
/// never reaches zero, where it would show one color for ever.
pub proof fn law_colors_never_freeze(game: GameView, inputs: Seq<Input>)
    requires
        game.lfsr != 0,
    ensures
        game_after(game, inputs).lfsr != 0,
    decreases inputs.len(),
{
    if inputs.len() > 0 {
        law_colors_never_freeze(game, inputs.drop_last());
        crate::palette::law_generator_never_sticks(
            game_after(game, inputs.drop_last()).lfsr,
        );
    }
}

/// A round's color is found again in the rainbow at the place that was drawn.
/// So it has a name, and it is blue exactly if blue was drawn.
pub proof fn law_round_color_is_known(game: GameView, gesture: GestureEvent, now: u64)
    ensures
        crate::palette::place_of(game.round(gesture, now).color) == Some(
            crate::palette::selected(game.begun(now).lfsr) as usize,
        ),
        game.round(gesture, now).is_blue() <==> crate::palette::selected(game.begun(now).lfsr)
            == BLUE,
{
    let i = crate::palette::selected(game.begun(now).lfsr);
    crate::palette::law_rainbow_is_distinct(i, i);
}

/// The first gesture, if right, earns a hundred points, whenever it comes.
pub proof fn law_first_gesture_earns_hundred(game: GameView, gesture: GestureEvent, now: u64)
    requires
        game.timer_start is None,
        is_right(gesture, game.round(gesture, now).is_blue()),
    ensures
        game.round(gesture, now).points() == 100,
{
}

/// A right gesture always earns something, at most 109 points; a wrong one
/// always costs 99.
pub proof fn law_points_tell_right_from_wrong(
    gesture: GestureEvent,
    is_blue: bool,
    ms_elapsed: u32,
)
    ensures
        is_right(gesture, is_blue) ==> 1 <= gesture_points(gesture, is_blue, ms_elapsed) <= 109,
        !is_right(gesture, is_blue) ==> gesture_points(gesture, is_blue, ms_elapsed) == -99,
{
}

/// For each color, one of the two kinds of gesture is right and the other is
/// wrong.
pub proof fn law_one_kind_is_right(
    x: u16,
    y: u16,
    start_x: u16,
    start_y: u16,
    end_x: u16,
    end_y: u16,
    is_blue: bool,
)
    ensures
        is_right(GestureEvent::Touch { x, y }, is_blue) <==> !is_blue,
        is_right(GestureEvent::Swipe { start_x, start_y, end_x, end_y }, is_blue) <==> is_blue,
{
}

/// Taking longer never earns more, once time is measured.
pub proof fn law_slower_earns_no_more(fast: u32, slow: u32)
    requires
        0 < fast <= slow,
    ensures
        timed_points(slow) <= timed_points(fast),
{
}

/// A right gesture that comes later earns no more, as long as the timer counts:
/// from its first whole millisecond until its count wraps around.
pub proof fn law_later_gesture_earns_no_more(
    game: GameView,
    gesture: GestureEvent,
    start: u64,
    early: u64,
    late: u64,
)
    requires
        game.timer_start == Some(start),
        start + 1000 <= early <= late < start + 0x1_0000_0000 * 1000,
        is_right(gesture, game.round(gesture, early).is_blue()),
    ensures
        game.round(gesture, late).points() <= game.round(gesture, early).points(),
{
    law_slower_earns_no_more(elapsed_ms(Some(start), early), elapsed_ms(Some(start), late));
}

/// What is shown is what was earned: a sign, and then digits that read as the
/// points.
pub proof fn law_shown_points_are_earned_points(points: int)
    ensures
        points_text(points)[0] == (if points < 0 {
            '-'
        } else {
            '+'
        }),
        crate::decimal::decimal_value(points_text(points).skip(1)) == (if points < 0 {
            -points
        } else {
            points
        }),
{
    let n = if points < 0 {
        (-points) as nat
    } else {
        points as nat
    };
    assert(points_text(points).skip(1) =~= crate::decimal::decimal(n));
    crate::decimal::law_decimal_reads_back(n);
}

/// Points are never cut off on the framebuffer, however many they are.
pub proof fn law_shown_points_are_not_cut(points: i32)
    ensures
        crate::framebuffer::uncut(points_text(points as int)),
{
    let num = if points < 0 {
        (-points) as u32
    } else {
        points as u32
    };
    crate::screen::law_numbers_are_not_cut(num, true);
}

/// Points by time, in numbers: a right gesture earns a hundred if no time was
/// measured, one point from 546 milliseconds on, and in between 110 less a
/// fifth of a point for every millisecond, rounded down.
pub proof fn law_points_fall_by_a_fifth(ms_elapsed: u32)
    ensures
        ms_elapsed == 0 ==> timed_points(ms_elapsed) == 100,
        1 <= ms_elapsed <= 545 ==> 5 * timed_points(ms_elapsed) <= 550 - ms_elapsed && 550
            - ms_elapsed < 5 * (timed_points(ms_elapsed) + 1),
        ms_elapsed >= 546 ==> timed_points(ms_elapsed) == 1,
{
}

/// The points of a right gesture, touch or swipe, in numbers; a wrong one
/// costs 99 whatever the time.
pub proof fn law_gesture_points_in_numbers(gesture: GestureEvent, is_blue: bool, ms_elapsed: u32)
    ensures
        (gesture is Swipe && !is_blue) || (gesture is Touch && is_blue) ==> gesture_points(
            gesture,
            is_blue,
            ms_elapsed,
        ) == -99,
        (gesture is Swipe && is_blue) || (gesture is Touch && !is_blue) ==> {
            let points = gesture_points(gesture, is_blue, ms_elapsed);
            &&& ms_elapsed == 0 ==> points == 100
            &&& 1 <= ms_elapsed <= 545 ==> 5 * points <= 550 - ms_elapsed < 5 * (points + 1)
            &&& ms_elapsed >= 546 ==> points == 1
        },
{
    law_points_fall_by_a_fifth(ms_elapsed);
}

/// The points of a right gesture depend on the time alone: two right gestures
/// after the same time earn the same, of whatever kind they are.
pub proof fn law_right_gestures_earn_the_same(
    a: GestureEvent,
    a_blue: bool,
    b: GestureEvent,
    b_blue: bool,
    ms_elapsed: u32,
)
    requires
        (a is Swipe) == a_blue,
        (b is Swipe) == b_blue,
    ensures
        gesture_points(a, a_blue, ms_elapsed) == gesture_points(b, b_blue, ms_elapsed),
{
}

/// A round is judged by its color alone: blue, whose storage form is `0xf800`,
/// wants a swipe, and anything else a touch. A wrong gesture costs 99 points
/// whatever the time, a right one earns by time.
pub proof fn law_round_points_in_numbers(round: Round)
    ensures
        (round.gesture is Swipe) != (round.color == 0xf800) ==> round.points() == -99,
        (round.gesture is Swipe) == (round.color == 0xf800) ==> {
            &&& round.ms_elapsed == 0 ==> round.points() == 100
            &&& 1 <= round.ms_elapsed <= 545 ==> 5 * round.points() <= 550 - round.ms_elapsed < 5
                * (round.points() + 1)
            &&& round.ms_elapsed >= 546 ==> round.points() == 1
        },
        round.is_blue() <==> round.color == 0xf800,
{
    crate::palette::law_rainbow_in_numbers(round.color);
    law_gesture_points_in_numbers(round.gesture, round.color == 0xf800, round.ms_elapsed);
}

/// The measured time is the time since the start in whole milliseconds, less
/// the times that the 32-bit count has wrapped around, every 2^32 milliseconds.
pub proof fn law_elapsed_time_is_measured(start: u64, now: u64, wraps: int)
    requires
        start <= now,
        0x3e8_0000_0000 * wraps <= now - start < 0x3e8_0000_0000 * (wraps + 1),
    ensures
        1000 * elapsed_ms(Some(start), now) <= now - start - 0x3e8_0000_0000 * wraps,
        now - start - 0x3e8_0000_0000 * wraps < 1000 * (elapsed_ms(Some(start), now) + 1),
{
    let ms = (now - start) / 1000;
    assert(0x1_0000_0000 * wraps <= ms < 0x1_0000_0000 * (wraps + 1));
    assert(ms % 0x1_0000_0000 == ms - 0x1_0000_0000 * wraps);
}

/// As long as the count has not wrapped around, the measured time is the time
/// since the start in whole milliseconds, and before there is a start, none.
pub proof fn law_elapsed_time_below_wrap(start: u64, now: u64)
    requires
        start <= now,
        now - start < 0x3e8_0000_0000,
    ensures
        1000 * elapsed_ms(Some(start), now) <= now - start,
        now - start < 1000 * (elapsed_ms(Some(start), now) + 1),
        elapsed_ms(None, now) == 0,
{
    law_elapsed_time_is_measured(start, now, 0);
}

/// When the clock was started does not matter, only how long ago.
pub proof fn law_elapsed_time_is_relative(start: u64, now: u64, start2: u64, now2: u64)
    requires
        start <= now,
        start2 <= now2,
        now - start == now2 - start2,
    ensures
        elapsed_ms(Some(start), now) == elapsed_ms(Some(start2), now2),
{
}

/// The round that a gesture begins, in numbers: it keeps the gesture, measures
/// the time since the gesture before, and takes the color that the generator's
/// new state selects, its remainder by seven. Beginning it restarts the timer
/// and leaves the points alone.
pub proof fn law_round_begins_anew(
    game: GameView,
    gesture: GestureEvent,
    now: u64,
    wraps: int,
    q: int,
    place: int,
)
    requires
        game.timer_start matches Some(start) ==> start <= now && 0x3e8_0000_0000 * wraps <= now
            - start < 0x3e8_0000_0000 * (wraps + 1),
        0 <= place < 7,
        game.begun(now).lfsr == 7 * q + place,
    ensures
        game.round(gesture, now).gesture == gesture,
        game.timer_start is None ==> game.round(gesture, now).ms_elapsed == 0,
        game.timer_start matches Some(start) ==> {
            let ms = game.round(gesture, now).ms_elapsed;
            1000 * ms <= now - start - 0x3e8_0000_0000 * wraps < 1000 * (ms + 1)
        },
        place == 0 ==> game.round(gesture, now).color == 0x001f,
        place == 1 ==> game.round(gesture, now).color == 0x029f,
        place == 2 ==> game.round(gesture, now).color == 0x07ff,
        place == 3 ==> game.round(gesture, now).color == 0x07e0,
        place == 4 ==> game.round(gesture, now).color == 0xf800,
        place == 5 ==> game.round(gesture, now).color == 0xf808,
        place == 6 ==> game.round(gesture, now).color == 0xf81f,
        game.begun(now).timer_start == Some(now),
        game.begun(now).total_points == game.total_points,
        game.begun(now).lfsr == crate::palette::xorshift(game.lfsr),
{
    if let Some(start) = game.timer_start {
        law_elapsed_time_is_measured(start, now, wraps);
    }
    crate::palette::law_selection_is_modulo_seven(game.begun(now).lfsr, q, place);
    crate::palette::law_rainbow_in_numbers(game.round(gesture, now).color);
}

/// Ending a round, in numbers: a wrong gesture takes 99 points off the total
/// and a right one adds what it earns by time, but only if the panel took the
/// color. Nothing else changes.
pub proof fn law_round_ends_with_its_points(game: GameView, round: Round, filled: bool)
    ensures
        game.finished(round, filled).lfsr == game.lfsr,
        game.finished(round, filled).timer_start == game.timer_start,
        !filled ==> game.finished(round, filled).total_points == game.total_points,
        filled && (round.gesture is Swipe) != (round.color == 0xf800) ==> game.finished(
            round,
            filled,
        ).total_points == game.total_points - 99,
        filled && (round.gesture is Swipe) == (round.color == 0xf800) ==> {
            let gain = game.finished(round, filled).total_points - game.total_points;
            &&& round.ms_elapsed == 0 ==> gain == 100
            &&& 1 <= round.ms_elapsed <= 545 ==> 5 * gain <= 550 - round.ms_elapsed < 5 * (gain + 1)
            &&& round.ms_elapsed >= 546 ==> gain == 1
        },
{
    law_round_points_in_numbers(round);
}

/// The view of a game is its fields.
pub proof fn law_view_is_the_fields(game: Game)
    ensures
        game@.lfsr == game.lfsr,
        game@.timer_start == game.timer_start,
        game@.total_points == game.total_points,
{
}

/// Shown points, by their characters: first the sign, then the digits of the
/// amount, each by its place, without a leading zero.
pub proof fn law_shown_points_by_place(points: int, amount: nat, i: nat)
    requires
        amount == points || amount == -points,
        i + 1 < points_text(points).len(),
    ensures
        points < 0 ==> points_text(points)[0] == '-',
        points >= 0 ==> points_text(points)[0] == '+',
        points_text(points)[points_text(points).len() - 1 - i] as int == 48 + (amount as int
            / vstd::arithmetic::power::pow(10, i)) % 10,
        points_text(points).len() >= 2,
        points_text(points).len() == 2 || points_text(points)[1] != '0',
        amount < vstd::arithmetic::power::pow(10, (points_text(points).len() - 1) as nat),
{
    let digits = crate::decimal::decimal(amount);
    crate::decimal::law_decimal_is_canonical(amount);
    crate::decimal::law_decimal_length(amount, digits.len());
    assert(points_text(points).skip(1) =~= digits);
    assert(points_text(points).len() == digits.len() + 1);
    crate::decimal::law_digit_by_place(amount, i);
    assert(points_text(points)[points_text(points).len() - 1 - i] == digits[digits.len() - 1 - i]);
    assert(points_text(points)[1] == digits[0]);
    if amount == 0 {
        assert(crate::decimal::decimal(0).len() == 1);
    }
}

} // verus!
