use chip8::consts::{WIDTH, HEIGHT, WHITE_PIXEL, BLACK_PIXEL, from_rgb};
use chip8::display::{Display, sprites};

#[test]
fn from_rgb_packs_channels() {
    assert_eq!(from_rgb(153, 255, 216), 0x0099FFD8);
    assert_eq!(from_rgb(32, 69, 55), 0x00204537);
    assert_eq!(from_rgb(153, 255, 216), WHITE_PIXEL);
    assert_eq!(from_rgb(32, 69, 55), BLACK_PIXEL);
    assert_eq!(from_rgb(0, 0, 0), 0);
}

#[test]
fn sprites_table_has_sixteen_glyphs() {
    let s = sprites();
    assert_eq!(s.len(), 80);
    // glyph 0
    assert_eq!(&s[0..5], &[0xF0, 0x90, 0x90, 0x90, 0xF0]);
    // glyph 1
    assert_eq!(&s[5..10], &[0x20, 0x60, 0x20, 0x20, 0x70]);
    // glyph F
    assert_eq!(&s[75..80], &[0xF0, 0x80, 0xF0, 0x80, 0x80]);
}

#[test]
fn new_display_is_all_off() {
    let mut d = Display::new();
    for x in 0..WIDTH {
        for y in 0..HEIGHT {
            assert!(!d.get_pixel(x, y));
        }
    }
    assert!(d.get_buffer().iter().all(|&c| c == BLACK_PIXEL));
}

#[test]
fn set_and_get_pixel() {
    let mut d = Display::new();
    d.set_pixel(3, 7, true);
    assert!(d.get_pixel(3, 7));
    assert!(!d.get_pixel(4, 7));
    assert_eq!(d.get_buffer()[3 + 7 * WIDTH], WHITE_PIXEL);
    d.set_pixel(3, 7, false);
    assert!(!d.get_pixel(3, 7));
}

#[test]
fn cls_clears_every_cell() {
    let mut d = Display::new();
    for x in 0..WIDTH {
        d.set_pixel(x, x % HEIGHT, true);
    }
    d.cls();
    for x in 0..WIDTH {
        for y in 0..HEIGHT {
            assert!(!d.get_pixel(x, y));
        }
    }
}

#[test]
fn draw_sets_bits_and_reports_no_collision_on_blank() {
    let mut d = Display::new();
    let collision = d.draw(10, 5, &[0b1010_0001]);
    assert!(!collision);
    assert!(d.get_pixel(10, 5));
    assert!(!d.get_pixel(11, 5));
    assert!(d.get_pixel(12, 5));
    assert!(!d.get_pixel(13, 5));
    assert!(d.get_pixel(17, 5));
}

#[test]
fn draw_twice_restores_and_collides() {
    let mut d = Display::new();
    let glyph = [0xF0, 0x90, 0x90, 0x90, 0xF0];
    let first = d.draw(10, 5, &glyph);
    assert!(!first);
    let second = d.draw(10, 5, &glyph);
    assert!(second);
    for x in 0..WIDTH {
        for y in 0..HEIGHT {
            assert!(!d.get_pixel(x, y));
        }
    }
}

#[test]
fn draw_wraps_horizontally() {
    let mut d = Display::new();
    let collision = d.draw(WIDTH - 1, 0, &[0xFF]);
    assert!(!collision);
    assert!(d.get_pixel(WIDTH - 1, 0));
    for x in 0..7 {
        assert!(d.get_pixel(x, 0));
    }
    assert!(!d.get_pixel(7, 0));
    assert!(!d.get_pixel(WIDTH - 2, 0));
}

#[test]
fn draw_wraps_vertically() {
    let mut d = Display::new();
    d.draw(0, HEIGHT - 1, &[0x80, 0x80]);
    assert!(d.get_pixel(0, HEIGHT - 1));
    assert!(d.get_pixel(0, 0));
    assert!(!d.get_pixel(0, 1));
}

#[test]
fn draw_collision_only_on_overlap() {
    let mut d = Display::new();
    assert!(!d.draw(0, 0, &[0b1000_0000]));
    // disjoint columns of the same row: no collision
    assert!(!d.draw(8, 0, &[0b1000_0000]));
    // overlapping bit: collision, cell toggled off
    assert!(d.draw(0, 0, &[0b1000_0000]));
    assert!(!d.get_pixel(0, 0));
    assert!(d.get_pixel(8, 0));
}
