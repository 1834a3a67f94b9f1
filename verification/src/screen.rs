//! Huge text on the panel: the framebuffer, blown up.
//!
//! A pixel of the framebuffer that is not white becomes a filled square on the
//! panel, unless the square would be cut off at the top or end below
//! `DISPLAY_HEIGHT`; white is background and stays as it is.
use embedded_graphics::geometry::{Point, Size};
use embedded_graphics::primitives::Rectangle;
use vstd::prelude::*;

use crate::decimal::{
    format_num_to_str, format_num_with_minus_to_str, format_num_with_plus_to_str,
};
use crate::framebuffer::{
    draw_coverage, render_text, FB_H, FB_LEN, FB_W, TEXT_X, TEXT_Y, WHITE,
};

verus! {

/// Width of the panel, before rotation.
pub const DISPLAY_WIDTH: u16 = 172;

/// Height of the panel, before rotation.
pub const DISPLAY_HEIGHT: u16 = 320;

/// Distance of the text from the left edge.
pub const MARGIN: i32 = 10;

/// The area of the panel as its driver reports it: the top left corner is the
/// origin.
#[derive(Clone, Copy, Debug, PartialEq, Eq, Structural)]
pub struct Area {
    pub width: u16,
    pub height: u16,
}

/// A square of the panel to be filled with one color: its top left corner,
/// the length of its sides and the color in storage form.
#[derive(Clone, Copy, Debug, PartialEq, Eq, Structural)]
pub struct Square {
    pub x: i32,
    pub y: i32,
    pub side: u32,
    pub color: u16,
}

/// How many times the framebuffer is enlarged: as often as it fits
/// `DISPLAY_HEIGHT`, less ten pixels.
pub open spec fn scale() -> int {
    (DISPLAY_HEIGHT - 10) / FB_H as int
}

/// The middle row of an area, rounded down.
pub open spec fn middle_row(area: Area) -> int {
    if area.height == 0 {
        0
    } else {
        (area.height - 1) / 2
    }
}

/// The panel's row for the top of the framebuffer, which is centered; it may
/// lie above the panel.
pub open spec fn origin_y(area: Area) -> int {
    middle_row(area) - FB_H * scale() / 2
}

/// The square for the framebuffer's pixel `k`.
pub open spec fn square_of(fb: Seq<u16>, area: Area, k: int) -> Square {
    Square {
        x: (MARGIN + k % (FB_W as int) * scale()) as i32,
        y: (origin_y(area) + k / (FB_W as int) * scale()) as i32,
        side: scale() as u32,
        color: fb[k],
    }
}

/// The framebuffer's pixel `k` is seen: it is not background, and its square
/// is not cut off at the top and ends within `DISPLAY_HEIGHT`.
pub open spec fn seen(fb: Seq<u16>, area: Area, k: int) -> bool {
    let top = origin_y(area) + k / (FB_W as int) * scale();
    fb[k] != WHITE && 0 <= top && top + scale() <= DISPLAY_HEIGHT
}

/// The squares for the first `n` pixels of the framebuffer, row by row.
pub open spec fn squares_upto(fb: Seq<u16>, area: Area, n: int) -> Seq<Square>
    decreases n,
{
    if n <= 0 {
        Seq::empty()
    } else {
        let before = squares_upto(fb, area, n - 1);
        if seen(fb, area, n - 1) {
            before.push(square_of(fb, area, n - 1))
        } else {
            before
        }
    }
}

/// The squares that show a framebuffer, row by row.
pub open spec fn squares(fb: Seq<u16>, area: Area) -> Seq<Square> {
    squares_upto(fb, area, FB_LEN as int)
}

/// The squares that show a coverage map.
pub open spec fn coverage_squares(coverage: Seq<u8>, area: Area) -> Seq<Square> {
    squares(crate::framebuffer::frame(FB_LEN as nat, coverage), area)
}

/// The squares that show a text.
pub open spec fn text_squares(text: Seq<char>, area: Area) -> Seq<Square> {
    coverage_squares(
        crate::framebuffer::text_coverage(text, TEXT_X, TEXT_Y),
        area,
    )
}

/// The framebuffer's storage when it shows a text.
pub open spec fn text_frame(len: nat, text: Seq<char>) -> Seq<u16> {
    crate::framebuffer::frame(
        len,
        crate::framebuffer::text_coverage(text, TEXT_X, TEXT_Y),
    )
}

/// The middle row of an area by
/// `embedded_graphics::primitives::Rectangle::center`.
///
/// Trusted: the center of a rectangle at the origin lies half of the height
/// less one down, rounded down, and at the top if there is no height.
#[verifier::external_body]
fn center_y(area: Area) -> (y: i32)
    ensures
        y == middle_row(area),
{
    let size = Size::new(u32::from(area.width), u32::from(area.height));
    Rectangle::new(Point::zero(), size).center().y
}

/// The squares that show a framebuffer on the panel.
pub fn blit(area: Area, fb_buf: &[u16]) -> (out: Vec<Square>)
    requires
        fb_buf@.len() >= FB_LEN,
    ensures
        out@ == squares(fb_buf@, area),
{
    let max_usable_height: i32 = (DISPLAY_HEIGHT - 10) as i32;
    let scale: i32 = max_usable_height / FB_H as i32;
    let out_h: u16 = (FB_H as i32 * scale) as u16;
    let middle: i32 = center_y(area);
    let cy: i32 = if middle > 0 {
        middle
    } else {
        0
    };
    let origin_x: i32 = MARGIN;
    let origin_y: i32 = cy - (out_h as i32 / 2);
    let mut out: Vec<Square> = Vec::new();
    let mut sy: usize = 0;
    while sy < FB_H
        invariant
            sy <= FB_H,
            fb_buf@.len() >= FB_LEN,
            scale == 12,
            scale == self::scale(),
            origin_x == MARGIN,
            origin_y == self::origin_y(area),
            -144 <= origin_y <= 0x8000,
            out@ == squares_upto(fb_buf@, area, sy * FB_W),
        decreases FB_H - sy,
    {
        let mut sx: usize = 0;
        while sx < FB_W
            invariant
                sx <= FB_W,
                sy < FB_H,
                fb_buf@.len() >= FB_LEN,
                scale == 12,
                scale == self::scale(),
                origin_x == MARGIN,
                origin_y == self::origin_y(area),
                -144 <= origin_y <= 0x8000,
                out@ == squares_upto(fb_buf@, area, sy * FB_W + sx),
            decreases FB_W - sx,
        {
            let src: u16 = fb_buf[sy * FB_W + sx];
            let ghost k = sy * FB_W + sx;
            assert(k / (FB_W as int) == sy && k % (FB_W as int) == sx);
            if src != WHITE {
                let x: i32 = origin_x + (sx as i32 * scale);
                let y: i32 = origin_y + (sy as i32 * scale);
                if x >= 0 && y >= 0 && (y + scale) <= DISPLAY_HEIGHT as i32 {
                    out.push(Square { x, y, side: scale as u32, color: src });
                }
            }
            sx = sx + 1;
        }
        sy = sy + 1;
    }
    out
}

/// What is seen of a framebuffer depends on its pixels only, not on storage
/// beyond them.
proof fn lemma_squares_depend_on_pixels(a: Seq<u16>, b: Seq<u16>, area: Area, n: int)
    requires
        forall|k: int| 0 <= k < n ==> a[k] == b[k],
    ensures
        squares_upto(a, area, n) == squares_upto(b, area, n),
    decreases n,
{
    if n > 0 {
        lemma_squares_depend_on_pixels(a, b, area, n - 1);
    }
}

/// Shows a coverage map on the panel.
pub fn draw_map(area: Area, fb_buf: &mut [u16], coverage: &[u8]) -> (out: Vec<Square>)
    requires
        old(fb_buf)@.len() >= FB_LEN,
        coverage@.len() >= FB_LEN,
    ensures
        final(fb_buf)@ == crate::framebuffer::frame(old(fb_buf)@.len(), coverage@),
        out@ == coverage_squares(coverage@, area),
{
    draw_coverage(fb_buf, coverage);
    proof {
        lemma_squares_depend_on_pixels(
            fb_buf@,
            crate::framebuffer::frame(FB_LEN as nat, coverage@),
            area,
            FB_LEN as int,
        );
    }
    blit(area, fb_buf)
}

/// Shows a text on the panel.
pub fn draw_text_label(area: Area, fb_buf: &mut [u16], text: &str) -> (out: Vec<Square>)
    requires
        old(fb_buf)@.len() >= FB_LEN,
        crate::framebuffer::drawable(text@),
    ensures
        final(fb_buf)@ == text_frame(old(fb_buf)@.len(), text@),
        out@ == text_squares(text@, area),
{
    let coverage = render_text(text, TEXT_X, TEXT_Y);
    draw_map(area, fb_buf, coverage.as_slice())
}

/// The text that shows a number, with or without a plus sign.
pub open spec fn num_text(num: u32, show_plus: bool) -> Seq<char> {
    if show_plus {
        seq!['+'] + crate::decimal::decimal(num as nat)
    } else {
        crate::decimal::decimal(num as nat)
    }
}

/// Shows a number on the panel.
pub fn draw_num(area: Area, fb_buf: &mut [u16], num: u32) -> (out: Vec<Square>)
    requires
        old(fb_buf)@.len() >= FB_LEN,
    ensures
        final(fb_buf)@ == text_frame(old(fb_buf)@.len(), crate::decimal::decimal(num as nat)),
        out@ == text_squares(crate::decimal::decimal(num as nat), area),
{
    draw_num_with_prefix(area, fb_buf, num, false)
}

/// Shows a number on the panel with a minus sign in front.
pub fn draw_negative_num(area: Area, fb_buf: &mut [u16], num: u32) -> (out: Vec<Square>)
    requires
        old(fb_buf)@.len() >= FB_LEN,
    ensures
        final(fb_buf)@ == text_frame(
            old(fb_buf)@.len(),
            seq!['-'] + crate::decimal::decimal(num as nat),
        ),
        out@ == text_squares(seq!['-'] + crate::decimal::decimal(num as nat), area),
{
    let mut buffer: [u8; 12] = [0u8; 12];
    let num_str = format_num_with_minus_to_str(num, &mut buffer);
    proof {
        crate::decimal::law_u32_fits_twelve_bytes(num);
    }
    draw_text_label(area, fb_buf, num_str)
}

/// Shows a number on the panel, with a plus sign in front if asked for.
pub fn draw_num_with_prefix(area: Area, fb_buf: &mut [u16], num: u32, show_plus: bool) -> (out: Vec<
    Square,
>)
    requires
        old(fb_buf)@.len() >= FB_LEN,
    ensures
        final(fb_buf)@ == text_frame(old(fb_buf)@.len(), num_text(num, show_plus)),
        out@ == text_squares(num_text(num, show_plus), area),
{
    let mut buffer: [u8; 12] = [0u8; 12];
    let num_str = if show_plus {
        format_num_with_plus_to_str(num, &mut buffer)
    } else {
        format_num_to_str(num, &mut buffer)
    };
    proof {
        crate::decimal::law_u32_fits_twelve_bytes(num);
    }
    draw_text_label(area, fb_buf, num_str)
}

/// Two squares have a point of the panel in common.
pub open spec fn overlap(a: Square, b: Square) -> bool {
    &&& a.x < b.x + b.side
    &&& b.x < a.x + a.side
    &&& a.y < b.y + b.side
    &&& b.y < a.y + a.side
}

/// A square in plain numbers.
proof fn lemma_square_of(fb: Seq<u16>, area: Area, k: int)
    requires
        0 <= k < FB_LEN,
    ensures
        scale() == 12,
        square_of(fb, area, k).x == 10 + k % 100 * 12,
        square_of(fb, area, k).y == origin_y(area) + k / 100 * 12,
        square_of(fb, area, k).side == 12,
{
    assert(scale() == 12);
    assert(k % 100 * scale() == k % 100 * 12);
    assert(k / 100 * scale() == k / 100 * 12);
    assert(-144 <= origin_y(area) <= 0x8000);
}

proof fn lemma_squares_upto(fb: Seq<u16>, area: Area, n: int)
    requires
        0 <= n <= FB_LEN,
    ensures
        squares_upto(fb, area, n).len() <= n,
        forall|s: Square| #[trigger]
            squares_upto(fb, area, n).contains(s) <==> exists|k: int|
                0 <= k < n && #[trigger] seen(fb, area, k) && s == square_of(fb, area, k),
        forall|i: int, j: int|
            0 <= i < j < squares_upto(fb, area, n).len() ==> !overlap(
                #[trigger] squares_upto(fb, area, n)[i],
                #[trigger] squares_upto(fb, area, n)[j],
            ),
    decreases n,
{
    let all = squares_upto(fb, area, n);
    if n > 0 {
        lemma_squares_upto(fb, area, n - 1);
        let before = squares_upto(fb, area, n - 1);
        let new = square_of(fb, area, n - 1);
        assert forall|s: Square| #[trigger] all.contains(s) <==> exists|k: int|
            0 <= k < n && #[trigger] seen(fb, area, k) && s == square_of(fb, area, k) by {
            if all.contains(s) {
                let i = choose|i: int| 0 <= i < all.len() && all[i] == s;
                if i < before.len() {
                    assert(before[i] == s);
                    assert(before.contains(s));
                } else {
                    assert(seen(fb, area, n - 1));
                }
            }
            if exists|k: int|
                0 <= k < n && #[trigger] seen(fb, area, k) && s == square_of(fb, area, k) {
                let k = choose|k: int|
                    0 <= k < n && #[trigger] seen(fb, area, k) && s == square_of(fb, area, k);
                if k < n - 1 {
                    assert(before.contains(s));
                    let i = choose|i: int| 0 <= i < before.len() && before[i] == s;
                    assert(all[i] == s);
                } else {
                    assert(all[all.len() - 1] == s);
                }
            }
        }
        assert forall|i: int, j: int| 0 <= i < j < all.len() implies !overlap(
            #[trigger] all[i],
            #[trigger] all[j],
        ) by {
            if j < before.len() {
                assert(all[i] == before[i] && all[j] == before[j]);
            } else {
                assert(all[i] == before[i] && all[j] == new);
                assert(before.contains(before[i]));
                let k = choose|k: int|
                    0 <= k < n - 1 && #[trigger] seen(fb, area, k) && before[i] == square_of(
                        fb,
                        area,
                        k,
                    );
                lemma_square_of(fb, area, k);
                lemma_square_of(fb, area, n - 1);
                if k / (FB_W as int) == (n - 1) / (FB_W as int) {
                    assert(k % (FB_W as int) < (n - 1) % (FB_W as int));
                } else {
                    assert(k / (FB_W as int) < (n - 1) / (FB_W as int));
                }
            }
        }
    }
}

/// Exactly the framebuffer's pixels that are seen are shown, each by its own
/// square.
pub proof fn law_seen_pixels_are_shown(fb: Seq<u16>, area: Area, s: Square)
    ensures
        squares(fb, area).contains(s) <==> exists|k: int|
            0 <= k < FB_LEN && #[trigger] seen(fb, area, k) && s == square_of(fb, area, k),
{
    lemma_squares_upto(fb, area, FB_LEN as int);
}

/// No two squares of a drawing overlap, so the order of filling them does not
/// matter; and there are no more of them than pixels in the framebuffer.
pub proof fn law_squares_do_not_overlap(fb: Seq<u16>, area: Area, i: int, j: int)
    requires
        0 <= i < squares(fb, area).len(),
        0 <= j < squares(fb, area).len(),
        i != j,
    ensures
        !overlap(squares(fb, area)[i], squares(fb, area)[j]),
        squares(fb, area).len() <= FB_LEN,
{
    lemma_squares_upto(fb, area, FB_LEN as int);
    if j < i {
        assert(!overlap(squares(fb, area)[j], squares(fb, area)[i]));
    }
}

/// Every square keeps the left margin, is not cut off at the top and ends
/// within `DISPLAY_HEIGHT`, and background is never painted.
pub proof fn law_squares_stay_in_bounds(fb: Seq<u16>, area: Area, i: int)
    requires
        0 <= i < squares(fb, area).len(),
    ensures
        squares(fb, area)[i].x >= MARGIN,
        squares(fb, area)[i].y >= 0,
        squares(fb, area)[i].y + squares(fb, area)[i].side <= DISPLAY_HEIGHT,
        squares(fb, area)[i].color != WHITE,
{
    let s = squares(fb, area)[i];
    lemma_squares_upto(fb, area, FB_LEN as int);
    assert(squares(fb, area).contains(s));
    let k = choose|k: int|
        0 <= k < FB_LEN && #[trigger] seen(fb, area, k) && s == square_of(fb, area, k);
    lemma_square_of(fb, area, k);
}

/// A text is shown by black squares only.
pub proof fn law_text_is_black(text: Seq<char>, area: Area, i: int)
    requires
        0 <= i < text_squares(text, area).len(),
    ensures
        text_squares(text, area)[i].color == crate::framebuffer::BLACK,
{
    let fb = text_frame(FB_LEN as nat, text);
    let s = squares(fb, area)[i];
    lemma_squares_upto(fb, area, FB_LEN as int);
    assert(squares(fb, area).contains(s));
    let k = choose|k: int|
        0 <= k < FB_LEN && #[trigger] seen(fb, area, k) && s == square_of(fb, area, k);
    assert(seen(fb, area, k));
}

/// No number is cut off on the framebuffer, with either sign or without one.
pub proof fn law_numbers_are_not_cut(num: u32, show_plus: bool)
    ensures
        crate::framebuffer::uncut(num_text(num, show_plus)),
        crate::framebuffer::uncut(seq!['-'] + crate::decimal::decimal(num as nat)),
{
    let digits = crate::decimal::decimal(num as nat);
    crate::decimal::law_u32_fits_twelve_bytes(num);
    crate::decimal::law_decimal_is_canonical(num as nat);
    assert(!digits.contains('\n'));
    assert(!(seq!['+'] + digits).contains('\n'));
    assert(!(seq!['-'] + digits).contains('\n'));
}

/// The middle row of an area has as many rows above it as below it, or one
/// less; an area without rows has its middle at the top.
pub proof fn law_middle_row(area: Area)
    ensures
        area.height > 0 ==> 2 * middle_row(area) + 1 == area.height || 2 * middle_row(area) + 2
            == area.height,
        area.height == 0 ==> middle_row(area) == 0,
{
}

proof fn lemma_squares_order(fb: Seq<u16>, area: Area, n: int)
    requires
        0 <= n <= FB_LEN,
    ensures
        forall|i: int, j: int|
            0 <= i < j < squares_upto(fb, area, n).len() ==> {
                let a = #[trigger] squares_upto(fb, area, n)[i];
                let b = #[trigger] squares_upto(fb, area, n)[j];
                a.y < b.y || (a.y == b.y && a.x < b.x)
            },
    decreases n,
{
    if n > 0 {
        lemma_squares_order(fb, area, n - 1);
        lemma_squares_upto(fb, area, n - 1);
        let before = squares_upto(fb, area, n - 1);
        let all = squares_upto(fb, area, n);
        assert forall|i: int, j: int| 0 <= i < j < all.len() implies {
            let a = #[trigger] all[i];
            let b = #[trigger] all[j];
            a.y < b.y || (a.y == b.y && a.x < b.x)
        } by {
            assert(all[i] == before[i]);
            if j < before.len() {
                assert(all[j] == before[j]);
            } else {
                assert(before.contains(before[i]));
                let k = choose|k: int|
                    0 <= k < n - 1 && #[trigger] seen(fb, area, k) && before[i] == square_of(
                        fb,
                        area,
                        k,
                    );
                lemma_square_of(fb, area, k);
                lemma_square_of(fb, area, n - 1);
                assert(k / 100 < (n - 1) / 100 || (k / 100 == (n - 1) / 100 && k % 100 < (n - 1)
                    % 100));
            }
        }
    }
}

/// The squares of a drawing come row by row and from left to right, none of
/// them twice.
pub proof fn law_squares_in_order(fb: Seq<u16>, area: Area, i: int, j: int)
    requires
        0 <= i < j < squares(fb, area).len(),
    ensures
        squares(fb, area)[i].y < squares(fb, area)[j].y || (squares(fb, area)[i].y == squares(
            fb,
            area,
        )[j].y && squares(fb, area)[i].x < squares(fb, area)[j].x),
{
    lemma_squares_order(fb, area, FB_LEN as int);
}

/// Enlarging in numbers. The pixel in row `sy` and column `sx` is shown by a
/// square of its own color, twelve pixels wide and high: its column is twelve
/// times `sx` after a margin of ten, and its row twelve times `sy` from 144
/// rows above the middle `cy` of the area on. It is shown exactly if it is not
/// white, its square does not begin above row 0 and ends by row 320.
pub proof fn law_pixels_are_enlarged_twelvefold(
    fb: Seq<u16>,
    area: Area,
    cy: int,
    sx: int,
    sy: int,
    color: u16,
)
    requires
        0 <= sx < 100,
        0 <= sy < 24,
        area.height > 0 ==> 2 * cy + 1 == area.height || 2 * cy + 2 == area.height,
        area.height == 0 ==> cy == 0,
    ensures
        squares(fb, area).contains(
            Square {
                x: (10 + 12 * sx) as i32,
                y: (cy - 144 + 12 * sy) as i32,
                side: 12,
                color,
            },
        ) <==> fb[sy * 100 + sx] == color && color != 0xffff && cy - 144 + 12 * sy >= 0 && cy - 144
            + 12 * sy + 12 <= 320,
{
    let s = Square {
        x: (10 + 12 * sx) as i32,
        y: (cy - 144 + 12 * sy) as i32,
        side: 12,
        color,
    };
    let m = sy * 100 + sx;
    assert(m / 100 == sy && m % 100 == sx);
    assert(origin_y(area) == cy - 144);
    lemma_squares_upto(fb, area, FB_LEN as int);
    lemma_square_of(fb, area, m);
    if squares(fb, area).contains(s) {
        let k = choose|k: int|
            0 <= k < FB_LEN && #[trigger] seen(fb, area, k) && s == square_of(fb, area, k);
        lemma_square_of(fb, area, k);
        assert(k % 100 == sx && k / 100 == sy);
        assert(k == m);
    }
    if fb[m] == color && color != 0xffff && cy - 144 + 12 * sy >= 0 && cy - 144 + 12 * sy + 12
        <= 320 {
        assert(seen(fb, area, m));
        assert(s == square_of(fb, area, m));
    }
}

/// Every square of a drawing is that of a row and a column of the framebuffer.
pub proof fn law_every_square_has_its_pixel(fb: Seq<u16>, area: Area, cy: int, i: int)
    requires
        0 <= i < squares(fb, area).len(),
        area.height > 0 ==> 2 * cy + 1 == area.height || 2 * cy + 2 == area.height,
        area.height == 0 ==> cy == 0,
    ensures
        ({
            let s = squares(fb, area)[i];
            let sx = (s.x - 10) / 12;
            let sy = (s.y - cy + 144) / 12;
            &&& 0 <= sx < 100
            &&& 0 <= sy < 24
            &&& s.x == 10 + 12 * sx
            &&& s.y == cy - 144 + 12 * sy
            &&& s.side == 12
            &&& s.color == fb[sy * 100 + sx]
        }),
{
    let s = squares(fb, area)[i];
    lemma_squares_upto(fb, area, FB_LEN as int);
    assert(squares(fb, area).contains(s));
    let k = choose|k: int|
        0 <= k < FB_LEN && #[trigger] seen(fb, area, k) && s == square_of(fb, area, k);
    lemma_square_of(fb, area, k);
    assert(origin_y(area) == cy - 144);
    assert((s.x - 10) / 12 == k % 100);
    assert((s.y - cy + 144) / 12 == k / 100);
}

/// A coverage map is shown by the squares of its frame, whatever storage the
/// framebuffer has beyond its pixels.
pub proof fn law_coverage_is_shown_by_its_frame(coverage: Seq<u8>, area: Area, len: nat)
    requires
        len >= 2400,
    ensures
        coverage_squares(coverage, area) == squares(
            crate::framebuffer::frame(len, coverage),
            area,
        ),
{
    lemma_squares_depend_on_pixels(
        crate::framebuffer::frame(len, coverage),
        crate::framebuffer::frame(2400, coverage),
        area,
        2400,
    );
}

/// Every text stands on the same baseline: the framebuffer is black exactly
/// where the text, begun at the left edge on row 18, covers it, and white
/// everywhere else.
pub proof fn law_text_stands_on_its_baseline(len: nat, text: Seq<char>, k: int)
    requires
        0 <= k < len,
    ensures
        text_frame(len, text).len() == len,
        k < 2400 && crate::framebuffer::text_coverage(text, 0, 18)[k] != 0 ==> text_frame(
            len,
            text,
        )[k] == 0,
        k >= 2400 || crate::framebuffer::text_coverage(text, 0, 18)[k] == 0 ==> text_frame(
            len,
            text,
        )[k] == 0xffff,
{
    crate::framebuffer::law_frame_is_black_on_white(
        len,
        crate::framebuffer::text_coverage(text, 0, 18),
        k,
    );
}

/// A text is shown by the squares of the framebuffer as the text leaves it.
pub proof fn law_text_is_shown_by_its_frame(text: Seq<char>, area: Area, len: nat)
    requires
        len >= 2400,
    ensures
        text_squares(text, area) == squares(text_frame(len, text), area),
{
    law_coverage_is_shown_by_its_frame(
        crate::framebuffer::text_coverage(text, 0, 18),
        area,
        len,
    );
}

/// A text on the panel, in numbers: the pixel in row `sy` and column `sx` that
/// the text covers, begun at the left edge on row 18, is shown by a black
/// square of twelve pixels, unless that begins above row 0 or ends below row
/// 320; and no other pixel is shown.
pub proof fn law_text_is_enlarged_twelvefold(
    text: Seq<char>,
    area: Area,
    cy: int,
    sx: int,
    sy: int,
    color: u16,
)
    requires
        0 <= sx < 100,
        0 <= sy < 24,
        area.height > 0 ==> 2 * cy + 1 == area.height || 2 * cy + 2 == area.height,
        area.height == 0 ==> cy == 0,
    ensures
        text_squares(text, area).contains(
            Square {
                x: (10 + 12 * sx) as i32,
                y: (cy - 144 + 12 * sy) as i32,
                side: 12,
                color,
            },
        ) <==> crate::framebuffer::text_coverage(text, 0, 18)[sy * 100 + sx] != 0 && color == 0 && cy
            - 144 + 12 * sy >= 0 && cy - 144 + 12 * sy + 12 <= 320,
{
    let fb = text_frame(2400, text);
    law_text_is_shown_by_its_frame(text, area, 2400);
    law_text_stands_on_its_baseline(2400, text, sy * 100 + sx);
    law_pixels_are_enlarged_twelvefold(fb, area, cy, sx, sy, color);
}

/// A plus sign is put in front of the number and changes nothing else; without
/// it, the text is the number's digits.
pub proof fn law_plus_goes_in_front(num: u32, i: nat)
    requires
        i < num_text(num, false).len(),
    ensures
        num_text(num, true) == seq!['+'] + num_text(num, false),
        num_text(num, false)[num_text(num, false).len() - 1 - i] as int == 48 + (num as int
            / vstd::arithmetic::power::pow(10, i)) % 10,
        num_text(num, false).len() == 1 || num_text(num, false)[0] != '0',
        num < vstd::arithmetic::power::pow(10, num_text(num, false).len()),
{
    crate::decimal::law_digit_by_place(num as nat, i);
    crate::decimal::law_decimal_is_canonical(num as nat);
    crate::decimal::law_decimal_length(num as nat, num_text(num, false).len());
    if num == 0 {
        assert(crate::decimal::decimal(0).len() == 1);
    }
}

} // verus!
