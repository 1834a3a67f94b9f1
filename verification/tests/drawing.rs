use c6_lvgl::framebuffer::{
    coverage_pixels, draw_coverage, Pixel, SimpleFb, BLACK, FB_H, FB_LEN, FB_W, FONT_BASELINE,
    FONT_H, FONT_W, TEXT_X, TEXT_Y, WHITE,
};
use c6_lvgl::screen::{
    blit, draw_map, draw_negative_num, draw_num, draw_num_with_prefix, draw_text_label, Area,
    Square,
};
use core::convert::Infallible;
use embedded_graphics::draw_target::DrawTarget;
use embedded_graphics::geometry::{Dimensions, OriginDimensions, Point, Size};
use embedded_graphics::mono_font::ascii::FONT_9X18;
use embedded_graphics::mono_font::MonoTextStyle;
use embedded_graphics::pixelcolor::{IntoStorage, Rgb565, RgbColor};
use embedded_graphics::primitives::Rectangle;
use embedded_graphics::text::{Alignment, Text};
use embedded_graphics::Drawable;

/// The panel as the driver reports it once it is rotated by 90 degrees.
const PANEL: Area = Area { width: 320, height: 172 };

/// A draw target in plain Rust, to hold the library's framebuffer against.
struct Target {
    buf: Vec<Rgb565>,
}

impl OriginDimensions for Target {
    fn size(&self) -> Size {
        Size::new(100, 24)
    }
}

impl DrawTarget for Target {
    type Color = Rgb565;
    type Error = Infallible;

    fn draw_iter<I>(&mut self, pixels: I) -> Result<(), Infallible>
    where
        I: IntoIterator<Item = embedded_graphics::Pixel<Rgb565>>,
    {
        for embedded_graphics::Pixel(Point { x, y }, color) in pixels {
            if x >= 0 && y >= 0 && x < 100 && y < 24 {
                self.buf[y as usize * 100 + x as usize] = color;
            }
        }
        Ok(())
    }
}

fn expected_frame(text: &str) -> Vec<u16> {
    let mut target = Target { buf: vec![Rgb565::WHITE; 2400] };
    let style = MonoTextStyle::new(&FONT_9X18, Rgb565::BLACK);
    Text::with_alignment(text, Point::new(0, 18), style, Alignment::Left)
        .draw(&mut target)
        .unwrap();
    target.buf.iter().map(|c| c.into_storage()).collect()
}

fn expected_squares(frame: &[u16], area: Area) -> Vec<Square> {
    let size = Size::new(area.width as u32, area.height as u32);
    let cy = Rectangle::new(Point::zero(), size).center().y;
    let mut out = Vec::new();
    for sy in 0..24 {
        for sx in 0..100 {
            let color = frame[sy * 100 + sx];
            let (x, y) = (10 + sx as i32 * 12, cy - 144 + sy as i32 * 12);
            if color != 0xffff && x >= 0 && y >= 0 && y + 12 <= 320 {
                out.push(Square { x, y, side: 12, color });
            }
        }
    }
    out
}

fn check_label(text: &str, area: Area) {
    let mut fb = vec![0x1234u16; FB_LEN];
    let squares = draw_text_label(area, &mut fb, text);
    assert_eq!(fb, expected_frame(text));
    assert_eq!(squares, expected_squares(&fb, area));
}

#[test]
fn labels_match_direct_rendering() {
    check_label("Hello", PANEL);
    check_label("", PANEL);
    check_label("+4294967295", PANEL);
    check_label("a label that is far too long for the framebuffer", PANEL);
    check_label("two\nlines\r\nand more", PANEL);
    check_label("\u{e4}\u{20ac}?", PANEL);
    check_label("Hello", Area { width: 172, height: 320 });
    check_label("Hello", Area { width: 0, height: 0 });
    check_label("Hello", Area { width: u16::MAX, height: u16::MAX });
}

#[test]
fn label_covers_something() {
    let mut fb = vec![0u16; FB_LEN];
    let squares = draw_text_label(PANEL, &mut fb, "8");
    assert!(!squares.is_empty());
    assert!(fb.iter().any(|c| *c == BLACK));
    assert!(fb.iter().any(|c| *c == WHITE));
}

#[test]
fn empty_label_shows_nothing() {
    let mut fb = vec![0u16; FB_LEN];
    assert_eq!(draw_text_label(PANEL, &mut fb, ""), vec![]);
    assert!(fb.iter().all(|c| *c == WHITE));
}

#[test]
fn numbers_are_drawn_as_their_text() {
    let mut a = vec![0u16; FB_LEN];
    let mut b = vec![0u16; FB_LEN];
    assert_eq!(draw_num(PANEL, &mut a, 42), draw_text_label(PANEL, &mut b, "42"));
    assert_eq!(a, b);
    assert_eq!(
        draw_num_with_prefix(PANEL, &mut a, 42, true),
        draw_text_label(PANEL, &mut b, "+42")
    );
    assert_eq!(
        draw_num_with_prefix(PANEL, &mut a, 0, false),
        draw_text_label(PANEL, &mut b, "0")
    );
    assert_eq!(draw_negative_num(PANEL, &mut a, 99), draw_text_label(PANEL, &mut b, "-99"));
    assert_eq!(
        draw_negative_num(PANEL, &mut a, u32::MAX),
        draw_text_label(PANEL, &mut b, "-4294967295")
    );
}

#[test]
fn earlier_drawing_leaves_no_trace() {
    let mut used = vec![0u16; FB_LEN];
    draw_text_label(PANEL, &mut used, "88888888888");
    let mut fresh = vec![0xffffu16; FB_LEN];
    assert_eq!(
        draw_text_label(PANEL, &mut used, "1"),
        draw_text_label(PANEL, &mut fresh, "1")
    );
    assert_eq!(used, fresh);
}

#[test]
fn squares_stay_in_bounds_and_apart() {
    let mut fb = vec![0u16; FB_LEN];
    let squares = draw_text_label(PANEL, &mut fb, "+109");
    for (i, a) in squares.iter().enumerate() {
        assert!(a.x >= 10 && a.y >= 0 && a.y + 12 <= 320);
        assert_eq!(a.side, 12);
        assert_eq!(a.color, BLACK);
        for b in &squares[i + 1..] {
            assert!((a.x - b.x).abs() >= 12 || (a.y - b.y).abs() >= 12);
        }
    }
}

#[test]
fn single_pixel_becomes_a_square() {
    let mut fb = vec![WHITE; FB_LEN];
    fb[10 * FB_W + 7] = 0x1234;
    // The middle row is 85, so the framebuffer's top is at row -59.
    assert_eq!(
        blit(PANEL, &fb),
        vec![Square { x: 94, y: 61, side: 12, color: 0x1234 }]
    );
    // Its top rows are cut off.
    fb[4 * FB_W] = 0;
    assert_eq!(blit(PANEL, &fb).len(), 1);
    fb[5 * FB_W] = 0;
    assert_eq!(blit(PANEL, &fb)[0], Square { x: 10, y: 1, side: 12, color: 0 });
}

#[test]
fn squares_below_the_panel_are_left_out() {
    let mut fb = vec![WHITE; FB_LEN];
    fb[23 * FB_W] = 0;
    // The middle row is 187, the last framebuffer row ends at row 331.
    assert_eq!(blit(Area { width: 10, height: 375 }, &fb), vec![]);
    // The middle row is 176, it ends at row 320.
    assert_eq!(
        blit(Area { width: 10, height: 353 }, &fb),
        vec![Square { x: 10, y: 308, side: 12, color: 0 }]
    );
}

#[test]
fn coverage_map_is_shown_in_black() {
    let mut coverage = vec![0u8; FB_LEN];
    coverage[3] = 1;
    coverage[FB_LEN - 1] = 255;
    assert_eq!(
        coverage_pixels(&coverage, 5),
        vec![Pixel { x: 3, y: 0, color: 5 }, Pixel { x: 99, y: 23, color: 5 }]
    );
    let mut fb = vec![77u16; FB_LEN + 2];
    draw_coverage(&mut fb, &coverage);
    for (k, color) in fb.iter().enumerate() {
        assert_eq!(*color, if k == 3 || k == FB_LEN - 1 { BLACK } else { WHITE });
    }
    let area = Area { width: 172, height: 320 };
    assert_eq!(
        draw_map(area, &mut fb, &coverage),
        vec![
            Square { x: 46, y: 15, side: 12, color: BLACK },
            Square { x: 1198, y: 291, side: 12, color: BLACK },
        ]
    );
}

#[test]
fn framebuffer_paints_and_clips() {
    let mut storage = vec![1u16; FB_LEN];
    let mut fb = SimpleFb::new(&mut storage);
    assert_eq!(fb.size(), (100, 24));
    fb.clear(9);
    fb.draw_iter(&[
        Pixel { x: -1, y: 0, color: 2 },
        Pixel { x: 0, y: -1, color: 2 },
        Pixel { x: FB_W as i32, y: 0, color: 2 },
        Pixel { x: 0, y: FB_H as i32, color: 2 },
        Pixel { x: i32::MAX, y: i32::MIN, color: 2 },
        Pixel { x: 5, y: 2, color: 3 },
        Pixel { x: 99, y: 23, color: 4 },
        Pixel { x: 5, y: 2, color: 6 },
    ]);
    for (k, color) in storage.iter().enumerate() {
        let expected = match k {
            205 => 6,
            2399 => 4,
            _ => 9,
        };
        assert_eq!(*color, expected);
    }
}

#[test]
fn colors_are_in_storage_form() {
    assert_eq!(WHITE, Rgb565::WHITE.into_storage());
    assert_eq!(BLACK, Rgb565::BLACK.into_storage());
    let target = Target { buf: vec![] };
    assert_eq!(target.bounding_box().size, Size::new(FB_W as u32, FB_H as u32));
    assert_eq!(FB_LEN, FB_W * FB_H);
}

#[test]
fn font_measures() {
    assert_eq!(FONT_9X18.character_size, Size::new(FONT_W as u32, FONT_H as u32));
    assert_eq!(FONT_9X18.character_spacing, 0);
    assert_eq!(FONT_9X18.baseline, FONT_BASELINE as u32);
}

#[test]
fn longest_numbers_are_not_cut() {
    for text in ["4294967295", "+4294967295", "-4294967295"] {
        let style = MonoTextStyle::new(&FONT_9X18, Rgb565::BLACK);
        let position = Point::new(TEXT_X, TEXT_Y);
        let bounds = Text::with_alignment(text, position, style, Alignment::Left).bounding_box();
        assert_eq!(bounds.top_left, Point::new(0, 5));
        assert_eq!(bounds.size, Size::new(9 * text.len() as u32, 18));
        assert!(bounds.top_left.x as u32 + bounds.size.width <= FB_W as u32);
        assert!(bounds.top_left.y as u32 + bounds.size.height <= FB_H as u32);
    }
}
