//! The small offscreen framebuffer that text is rendered into.
//!
//! Colors are held in the 16-bit storage form of the panel's pixel format.
use embedded_graphics::framebuffer::Framebuffer;
use embedded_graphics::geometry::Point;
use embedded_graphics::mono_font::ascii::FONT_9X18;
use embedded_graphics::mono_font::MonoTextStyle;
use embedded_graphics::pixelcolor::raw::{LittleEndian, RawU8};
use embedded_graphics::pixelcolor::{Gray8, GrayColor};
use embedded_graphics::text::{Alignment, Text};
use embedded_graphics::Drawable;
use vstd::prelude::*;

verus! {

/// Width of the framebuffer.
pub const FB_W: usize = 100;

/// Height of the framebuffer.
pub const FB_H: usize = 24;

/// Number of pixels of the framebuffer.
pub const FB_LEN: usize = 2400;

/// Storage form of white.
pub const WHITE: u16 = 0xffff;

/// Storage form of black.
pub const BLACK: u16 = 0;

/// Where text begins: the left end of its baseline.
pub const TEXT_X: i32 = 0;

/// The row of the text's baseline.
pub const TEXT_Y: i32 = 18;

/// Width of a character of the font; there is no space between characters.
pub const FONT_W: usize = 9;

/// Height of a character of the font, which is also that of a line.
pub const FONT_H: usize = 18;

/// The row of a character, from its top, that stands on the baseline.
pub const FONT_BASELINE: usize = 13;

/// A point and the color it is to have.
#[derive(Clone, Copy, Debug, PartialEq, Eq, Structural)]
pub struct Pixel {
    pub x: i32,
    pub y: i32,
    pub color: u16,
}

impl Pixel {
    /// The pixel lies on the framebuffer.
    pub open spec fn in_window(self) -> bool {
        0 <= self.x < FB_W && 0 <= self.y < FB_H
    }

    /// Index of the pixel in the framebuffer's storage, row by row.
    pub open spec fn index(self) -> int {
        self.y * FB_W + self.x
    }
}

/// Storage after the pixels were painted one after the other; pixels off the
/// framebuffer leave no trace.
pub open spec fn painted(buf: Seq<u16>, pixels: Seq<Pixel>) -> Seq<u16>
    decreases pixels.len(),
{
    if pixels.len() == 0 {
        buf
    } else {
        let before = painted(buf, pixels.drop_last());
        let p = pixels.last();
        if p.in_window() {
            before.update(p.index(), p.color)
        } else {
            before
        }
    }
}

/// The pixels that the first `n` entries of a coverage map stand for, in one
/// color: an entry other than zero is a pixel that is covered.
pub open spec fn covered_pixels(coverage: Seq<u8>, color: u16, n: int) -> Seq<Pixel>
    decreases n,
{
    if n <= 0 {
        Seq::empty()
    } else {
        let before = covered_pixels(coverage, color, n - 1);
        if coverage[n - 1] != 0 {
            before.push(
                Pixel {
                    x: ((n - 1) % (FB_W as int)) as i32,
                    y: ((n - 1) / (FB_W as int)) as i32,
                    color,
                },
            )
        } else {
            before
        }
    }
}

/// Storage of `len` pixels that shows a coverage map in black on white.
pub open spec fn frame(len: nat, coverage: Seq<u8>) -> Seq<u16> {
    Seq::new(
        len,
        |k: int|
            if k < FB_LEN && coverage[k] != 0 {
                BLACK
            } else {
                WHITE
            },
    )
}

/// The pixels of a frame of `FB_W` by `FB_H` pixels that a text covers, row by
/// row: an entry is zero where the text leaves the pixel alone. The text
/// begins at column `x` on the baseline in row `y`.
pub uninterp spec fn text_coverage(text: Seq<char>, x: i32, y: i32) -> Seq<u8>;

/// A text is a single line whose characters all lie on the framebuffer, from
/// the place where text begins: nothing of it is cut off.
pub open spec fn uncut(text: Seq<char>) -> bool {
    &&& !text.contains('\n')
    &&& 0 <= TEXT_X && TEXT_X + FONT_W * text.len() <= FB_W
    &&& 0 <= TEXT_Y - FONT_BASELINE && TEXT_Y - FONT_BASELINE + FONT_H <= FB_H
}

/// A text that is short enough to be laid out in 32-bit coordinates, however
/// it is broken into lines.
pub open spec fn drawable(text: Seq<char>) -> bool {
    FONT_H * (text.len() + 4) <= i32::MAX
}

/// Draws a text left-aligned in the 9 by 18 pixel ASCII font by
/// `embedded_graphics::text::Text::draw`, into an
/// `embedded_graphics::framebuffer::Framebuffer` of one byte per pixel that
/// starts out all zero, and hands its bytes out.
///
/// Trusted: drawing depends on the text and its position alone, and the
/// framebuffer has one byte per pixel. Which pixels a text covers is what
/// `text_coverage` stands for; nothing more is said of it. The bound on the
/// text keeps every line and every character within 32-bit coordinates, where
/// drawing does not overflow.
#[verifier::external_body]
pub(crate) fn render_text(text: &str, x: i32, y: i32) -> (coverage: Vec<u8>)
    requires
        drawable(text@),
        0 <= x <= FB_W,
        0 <= y <= FB_H,
    ensures
        coverage@ == text_coverage(text@, x, y),
        coverage@.len() == FB_LEN,
{
    let style = MonoTextStyle::new(&FONT_9X18, Gray8::WHITE);
    let mut target = Framebuffer::<Gray8, RawU8, LittleEndian, FB_W, FB_H, FB_LEN>::new();
    let _ = Text::with_alignment(text, Point::new(x, y), style, Alignment::Left).draw(&mut target);
    target.data().to_vec()
}

/// The framebuffer over a caller's storage.
pub struct SimpleFb<'a> {
    pub buf: &'a mut [u16],
}

impl<'a> SimpleFb<'a> {
    /// A framebuffer over `storage`.
    pub fn new(storage: &'a mut [u16]) -> (fb: Self)
        ensures
            fb.buf@ == old(storage)@,
            final(fb.buf)@ == final(storage)@,
    {
        SimpleFb { buf: storage }
    }

    /// Gives every pixel of the storage one color.
    pub fn clear(&mut self, color: u16)
        ensures
            final(self).buf@ == Seq::new(old(self).buf@.len(), |i: int| color),
            final(final(self).buf)@ == final(old(self).buf)@,
    {
        let len: usize = self.buf.len();
        let mut i: usize = 0;
        while i < len
            invariant
                i <= len,
                len == self.buf@.len(),
                self.buf@.len() == old(self).buf@.len(),
                forall|j: int| 0 <= j < i ==> self.buf@[j] == color,
                final(self.buf)@ == final(old(self).buf)@,
            decreases len - i,
        {
            self.buf[i] = color;
            i = i + 1;
        }
        assert(self.buf@ =~= Seq::new(old(self).buf@.len(), |i: int| color));
    }

    /// Width and height.
    pub fn size(&self) -> (size: (u32, u32))
        ensures
            size.0 == FB_W,
            size.1 == FB_H,
    {
        (FB_W as u32, FB_H as u32)
    }

    /// Paints pixels one after the other and passes over those that do not
    /// lie on the framebuffer.
    pub fn draw_iter(&mut self, pixels: &[Pixel])
        requires
            forall|i: int|
                0 <= i < pixels@.len() && (#[trigger] pixels@[i]).in_window() ==> pixels@[i].index()
                    < old(self).buf@.len(),
        ensures
            final(self).buf@ == painted(old(self).buf@, pixels@),
            final(final(self).buf)@ == final(old(self).buf)@,
    {
        let ghost before = self.buf@;
        let mut i: usize = 0;
        assert(pixels@.take(0) =~= Seq::empty());
        while i < pixels.len()
            invariant
                i <= pixels@.len(),
                before == old(self).buf@,
                self.buf@.len() == before.len(),
                self.buf@ == painted(before, pixels@.take(i as int)),
                final(self.buf)@ == final(old(self).buf)@,
                forall|i: int|
                    0 <= i < pixels@.len() && (#[trigger] pixels@[i]).in_window()
                        ==> pixels@[i].index() < before.len(),
            decreases pixels@.len() - i,
        {
            let p = pixels[i];
            assert(pixels@.take(i + 1).drop_last() =~= pixels@.take(i as int));
            assert(pixels@.take(i + 1).last() == p);
            if p.x >= 0 && p.y >= 0 {
                let (x, y) = (p.x as usize, p.y as usize);
                if x < FB_W && y < FB_H {
                    self.buf[y * FB_W + x] = p.color;
                }
            }
            i = i + 1;
        }
        assert(pixels@.take(pixels@.len() as int) =~= pixels@);
    }
}

/// The pixels that a coverage map stands for, in one color.
pub fn coverage_pixels(coverage: &[u8], color: u16) -> (pixels: Vec<Pixel>)
    requires
        coverage@.len() >= FB_LEN,
    ensures
        pixels@ == covered_pixels(coverage@, color, FB_LEN as int),
{
    let mut pixels: Vec<Pixel> = Vec::new();
    let mut k: usize = 0;
    while k < FB_LEN
        invariant
            k <= FB_LEN <= coverage@.len(),
            pixels@ == covered_pixels(coverage@, color, k as int),
        decreases FB_LEN - k,
    {
        if coverage[k] != 0 {
            pixels.push(Pixel { x: (k % FB_W) as i32, y: (k / FB_W) as i32, color });
        }
        k = k + 1;
    }
    pixels
}

/// Painting a coverage map changes the covered pixels and no others.
proof fn lemma_painted_coverage(buf: Seq<u16>, coverage: Seq<u8>, color: u16, n: int)
    requires
        0 <= n <= FB_LEN <= buf.len(),
    ensures
        painted(buf, covered_pixels(coverage, color, n)) == Seq::new(
            buf.len(),
            |k: int|
                if k < n && coverage[k] != 0 {
                    color
                } else {
                    buf[k]
                },
        ),
        forall|i: int|
            0 <= i < covered_pixels(coverage, color, n).len() ==> (#[trigger] covered_pixels(
                coverage,
                color,
                n,
            )[i]).in_window() && covered_pixels(coverage, color, n)[i].index() < FB_LEN,
    decreases n,
{
    let pixels = covered_pixels(coverage, color, n);
    if n == 0 {
        assert(painted(buf, pixels) =~= Seq::new(
            buf.len(),
            |k: int|
                if k < n && coverage[k] != 0 {
                    color
                } else {
                    buf[k]
                },
        ));
    } else {
        lemma_painted_coverage(buf, coverage, color, n - 1);
        if coverage[n - 1] != 0 {
            assert(pixels.drop_last() =~= covered_pixels(coverage, color, n - 1));
            assert(pixels.last().in_window());
            assert(pixels.last().index() == n - 1);
        }
        assert(painted(buf, pixels) =~= Seq::new(
            buf.len(),
            |k: int|
                if k < n && coverage[k] != 0 {
                    color
                } else {
                    buf[k]
                },
        ));
    }
}

/// Shows a coverage map in black on white.
pub fn draw_coverage(fb_buf: &mut [u16], coverage: &[u8])
    requires
        old(fb_buf)@.len() >= FB_LEN,
        coverage@.len() >= FB_LEN,
    ensures
        final(fb_buf)@ == frame(old(fb_buf)@.len(), coverage@),
{
    let pixels = coverage_pixels(coverage, BLACK);
    let mut fb = SimpleFb::new(fb_buf);
    fb.clear(WHITE);
    proof {
        lemma_painted_coverage(fb.buf@, coverage@, BLACK, FB_LEN as int);
        assert(painted(fb.buf@, pixels@) =~= frame(fb.buf@.len(), coverage@));
    }
    fb.draw_iter(pixels.as_slice());
}

/// A pixel off the framebuffer changes nothing, wherever in a drawing it comes.
pub proof fn law_off_screen_pixel_ignored(
    buf: Seq<u16>,
    before: Seq<Pixel>,
    p: Pixel,
    after: Seq<Pixel>,
)
    requires
        !p.in_window(),
    ensures
        painted(buf, before.push(p) + after) == painted(buf, before + after),
    decreases after.len(),
{
    if after.len() == 0 {
        assert(before.push(p) + after =~= before.push(p));
        assert(before + after =~= before);
        assert(before.push(p).drop_last() =~= before);
    } else {
        law_off_screen_pixel_ignored(buf, before, p, after.drop_last());
        let long = before.push(p) + after;
        let short = before + after;
        assert(long.drop_last() =~= before.push(p) + after.drop_last());
        assert(short.drop_last() =~= before + after.drop_last());
        assert(long.last() == short.last());
    }
}

/// Where several pixels fall on one place, the last one shows; and a place
/// that no pixel falls on keeps its color.
pub proof fn law_last_pixel_shows(buf: Seq<u16>, pixels: Seq<Pixel>, k: int)
    requires
        0 <= k < buf.len(),
        forall|i: int|
            0 <= i < pixels.len() && (#[trigger] pixels[i]).in_window() ==> pixels[i].index()
                < buf.len(),
    ensures
        painted(buf, pixels).len() == buf.len(),
        forall|i: int|
            0 <= i < pixels.len() && (#[trigger] pixels[i]).in_window() && pixels[i].index() == k
                && (forall|j: int|
                i < j < pixels.len() && (#[trigger] pixels[j]).in_window() ==> pixels[j].index()
                    != k) ==> painted(buf, pixels)[k] == pixels[i].color,
        (forall|j: int|
            0 <= j < pixels.len() && (#[trigger] pixels[j]).in_window() ==> pixels[j].index() != k)
            ==> painted(buf, pixels)[k] == buf[k],
    decreases pixels.len(),
{
    if pixels.len() > 0 {
        let rest = pixels.drop_last();
        let n = pixels.len() - 1;
        assert forall|i: int| 0 <= i < rest.len() && (#[trigger] rest[i]).in_window() implies rest[i].index()
            < buf.len() by {
            assert(rest[i] == pixels[i]);
        }
        law_last_pixel_shows(buf, rest, k);
        let p = pixels[n];
        assert(pixels.last() == p);
        assert(forall|i: int| 0 <= i < n ==> #[trigger] rest[i] == pixels[i]);
        if p.in_window() {
            assert(0 <= p.index() < buf.len());
        }
        assert forall|i: int|
            0 <= i < pixels.len() && (#[trigger] pixels[i]).in_window() && pixels[i].index() == k
                && (forall|j: int|
                i < j < pixels.len() && (#[trigger] pixels[j]).in_window() ==> pixels[j].index()
                    != k) implies painted(buf, pixels)[k] == pixels[i].color by {
            if i < n {
                assert(rest[i] == pixels[i]);
                assert forall|j: int| i < j < rest.len() && (#[trigger] rest[j]).in_window() implies rest[j].index()
                    != k by {
                    assert(rest[j] == pixels[j]);
                }
                assert(p.in_window() ==> p.index() != k);
            }
        }
        if forall|j: int|
            0 <= j < pixels.len() && (#[trigger] pixels[j]).in_window() ==> pixels[j].index()
                != k {
            assert(p.in_window() ==> p.index() != k);
            assert forall|j: int| 0 <= j < rest.len() && (#[trigger] rest[j]).in_window() implies rest[j].index()
                != k by {
                assert(rest[j] == pixels[j]);
            }
        }
    }
}

/// A pixel lies on the framebuffer exactly if its column is one of a hundred
/// and its row one of 24; storage goes row by row.
pub proof fn law_rows_follow_each_other(p: Pixel)
    ensures
        p.in_window() <==> 0 <= p.x && p.x < 100 && 0 <= p.y && p.y < 24,
        p.index() == p.y * 100 + p.x,
{
}

/// Painting, by places of the storage: the last pixel whose row and column are
/// those of a place gives it its color, and a place on which none falls keeps
/// the color it had.
pub proof fn law_painting_by_place(buf: Seq<u16>, pixels: Seq<Pixel>, k: int)
    requires
        0 <= k < buf.len(),
        forall|i: int|
            0 <= i < pixels.len() && 0 <= (#[trigger] pixels[i]).x < 100 && 0 <= pixels[i].y < 24
                ==> pixels[i].y * 100 + pixels[i].x < buf.len(),
    ensures
        painted(buf, pixels).len() == buf.len(),
        forall|i: int|
            0 <= i < pixels.len() && 0 <= (#[trigger] pixels[i]).x < 100 && 0 <= pixels[i].y < 24
                && pixels[i].y * 100 + pixels[i].x == k && (forall|j: int|
                i < j < pixels.len() && 0 <= (#[trigger] pixels[j]).x < 100 && 0 <= pixels[j].y
                    < 24 ==> pixels[j].y * 100 + pixels[j].x != k) ==> painted(buf, pixels)[k]
                == pixels[i].color,
        (forall|j: int|
            0 <= j < pixels.len() && 0 <= (#[trigger] pixels[j]).x < 100 && 0 <= pixels[j].y < 24
                ==> pixels[j].y * 100 + pixels[j].x != k) ==> painted(buf, pixels)[k] == buf[k],
{
    law_last_pixel_shows(buf, pixels, k);
}

proof fn lemma_covered_pixels(coverage: Seq<u8>, color: u16, n: int)
    requires
        0 <= n <= 2400,
    ensures
        forall|i: int|
            0 <= i < covered_pixels(coverage, color, n).len() ==> {
                let p = #[trigger] covered_pixels(coverage, color, n)[i];
                &&& 0 <= p.x < 100
                &&& 0 <= p.y < 24
                &&& p.y * 100 + p.x < n
                &&& coverage[p.y * 100 + p.x] != 0
                &&& p.color == color
            },
        forall|i: int, j: int|
            0 <= i < j < covered_pixels(coverage, color, n).len() ==> (
            #[trigger] covered_pixels(coverage, color, n)[i]).y * 100 + covered_pixels(
                coverage,
                color,
                n,
            )[i].x < (#[trigger] covered_pixels(coverage, color, n)[j]).y * 100 + covered_pixels(
                coverage,
                color,
                n,
            )[j].x,
        forall|x: int, y: int|
            0 <= x < 100 && 0 <= y < 24 && y * 100 + x < n && coverage[y * 100 + x] != 0 ==> (
            #[trigger] covered_pixels(coverage, color, n).contains(
                Pixel { x: x as i32, y: y as i32, color },
            )),
    decreases n,
{
    if n > 0 {
        lemma_covered_pixels(coverage, color, n - 1);
        let before = covered_pixels(coverage, color, n - 1);
        let all = covered_pixels(coverage, color, n);
        let new = Pixel { x: ((n - 1) % 100) as i32, y: ((n - 1) / 100) as i32, color };
        if coverage[n - 1] != 0 {
            assert(all == before.push(new));
            assert(new.y * 100 + new.x == n - 1);
            assert forall|i: int| 0 <= i < all.len() implies {
                let p = #[trigger] all[i];
                &&& 0 <= p.x < 100
                &&& 0 <= p.y < 24
                &&& p.y * 100 + p.x < n
                &&& coverage[p.y * 100 + p.x] != 0
                &&& p.color == color
            } by {
                if i < before.len() {
                    assert(all[i] == before[i]);
                }
            }
            assert forall|i: int, j: int| 0 <= i < j < all.len() implies (#[trigger] all[i]).y * 100
                + all[i].x < (#[trigger] all[j]).y * 100 + all[j].x by {
                assert(all[i] == before[i]);
                if j < before.len() {
                    assert(all[j] == before[j]);
                }
            }
        }
        assert forall|x: int, y: int|
            0 <= x < 100 && 0 <= y < 24 && y * 100 + x < n && coverage[y * 100 + x]
                != 0 implies #[trigger] all.contains(
            Pixel { x: x as i32, y: y as i32, color },
        ) by {
            let p = Pixel { x: x as i32, y: y as i32, color };
            if y * 100 + x < n - 1 {
                assert(before.contains(p));
                let i = choose|i: int| 0 <= i < before.len() && before[i] == p;
                assert(all[i] == p);
            } else {
                assert(all[all.len() - 1] == p);
            }
        }
    }
}

/// A coverage map stands for the pixels, in the color asked for, at whose row
/// and column it holds something else than zero: for all of them, and for no
/// others.
pub proof fn law_covered_pixels(coverage: Seq<u8>, color: u16, x: int, y: int, c: u16)
    requires
        0 <= x < 100,
        0 <= y < 24,
    ensures
        covered_pixels(coverage, color, 2400).contains(Pixel { x: x as i32, y: y as i32, color: c })
            <==> coverage[y * 100 + x] != 0 && c == color,
{
    lemma_covered_pixels(coverage, color, 2400);
    let all = covered_pixels(coverage, color, 2400);
    let p = Pixel { x: x as i32, y: y as i32, color: c };
    if all.contains(p) {
        let i = choose|i: int| 0 <= i < all.len() && all[i] == p;
        assert(all[i].y * 100 + all[i].x == y * 100 + x);
    }
}

/// The pixels of a coverage map come row by row and from left to right, none
/// of them twice and none off the framebuffer.
pub proof fn law_covered_pixels_in_order(coverage: Seq<u8>, color: u16, i: int, j: int)
    requires
        0 <= i < j < covered_pixels(coverage, color, 2400).len(),
    ensures
        ({
            let a = covered_pixels(coverage, color, 2400)[i];
            let b = covered_pixels(coverage, color, 2400)[j];
            &&& 0 <= a.x < 100 && 0 <= a.y < 24
            &&& 0 <= b.x < 100 && 0 <= b.y < 24
            &&& a.y < b.y || (a.y == b.y && a.x < b.x)
        }),
{
    lemma_covered_pixels(coverage, color, 2400);
    let all = covered_pixels(coverage, color, 2400);
    assert(all[i].y * 100 + all[i].x < all[j].y * 100 + all[j].x);
}

/// No pixel of a coverage map is off the framebuffer.
pub proof fn law_covered_pixels_on_framebuffer(coverage: Seq<u8>, color: u16, i: int)
    requires
        0 <= i < covered_pixels(coverage, color, 2400).len(),
    ensures
        0 <= covered_pixels(coverage, color, 2400)[i].x < 100,
        0 <= covered_pixels(coverage, color, 2400)[i].y < 24,
        covered_pixels(coverage, color, 2400)[i].color == color,
{
    lemma_covered_pixels(coverage, color, 2400);
}

/// Storage that shows a coverage map has its length, is black at the pixels
/// that the map covers and white everywhere else, beyond the framebuffer too.
pub proof fn law_frame_is_black_on_white(len: nat, coverage: Seq<u8>, k: int)
    requires
        0 <= k < len,
    ensures
        frame(len, coverage).len() == len,
        k < 2400 && coverage[k] != 0 ==> frame(len, coverage)[k] == 0,
        k < 2400 && coverage[k] == 0 ==> frame(len, coverage)[k] == 0xffff,
        k >= 2400 ==> frame(len, coverage)[k] == 0xffff,
{
}

} // verus!
