use sequence_memory::font::{
    bytes_per_row, glyph_index, DecorationDimensions, Glyph, Image, MonoFont,
};
use sequence_memory::framebuffer::FrameBuffer;
use sequence_memory::geometry::{Point, Rectangle, Size};

// A 16 x 2 pixel test image: two 8 x 2 glyph cells side by side, one
// recognizable byte per cell row.
fn test_image() -> Image {
    Image::new(vec![0b1000_0001, 0b0100_0010, 0b0010_0100, 0b0001_1000], 16)
}

fn test_font() -> MonoFont {
    MonoFont {
        image: test_image(),
        character_size: Size::new(8, 2),
        character_spacing: 0,
        baseline: 1,
        underline: DecorationDimensions::new(2, 1),
        strikethrough: DecorationDimensions::new(1, 1),
    }
}

#[test]
fn bytes_per_row_rounds_up_to_whole_bytes() {
    assert_eq!(bytes_per_row(0, 1), 0);
    assert_eq!(bytes_per_row(1, 1), 1);
    assert_eq!(bytes_per_row(8, 1), 1);
    assert_eq!(bytes_per_row(9, 1), 2);
    assert_eq!(bytes_per_row(96, 1), 12);
}

#[test]
fn image_height_is_whole_rows_of_data() {
    let img = Image::new(vec![0u8; 720], 96);
    assert_eq!(img.size(), Size::new(96, 60));
    // A partial final row is ignored.
    let img = Image::new(vec![0u8; 3], 16);
    assert_eq!(img.size(), Size::new(16, 1));
}

#[test]
fn zero_width_image_is_zero_sized() {
    let img = Image::new(vec![1, 2, 3], 0);
    assert_eq!(img.size(), Size::new(0, 0));
}

#[test]
fn glyph_index_maps_printable_ascii_from_space() {
    assert_eq!(glyph_index(' '), 0);
    assert_eq!(glyph_index('!'), 1);
    assert_eq!(glyph_index('A'), 33);
    assert_eq!(glyph_index('~'), 94);
    // Anything else shows the question mark.
    assert_eq!(glyph_index('?'), 31);
    assert_eq!(glyph_index('\n'), 31);
    assert_eq!(glyph_index('\u{7f}'), 31);
    assert_eq!(glyph_index('\u{e9}'), 31);
}

// The cell of index i sits at grid position (i % columns, i / columns):
// with two 8-pixel columns, '!' (index 1) is the right-hand cell.
#[test]
fn glyph_addressing_picks_the_right_cell() {
    let font = test_font();
    let mut frame = FrameBuffer::new(8, 2);
    let glyph = Glyph::new(&font, '!');
    assert_eq!(glyph.size(), Size::new(8, 2));
    glyph.draw(&mut frame, Point::zero());
    // Row 0 is 0b0100_0010, row 1 is 0b0001_1000.
    for x in 0..8i64 {
        assert_eq!(frame.get_pixel(x, 0), x == 1 || x == 6);
        assert_eq!(frame.get_pixel(x, 1), x == 3 || x == 4);
    }
}

#[test]
fn space_glyph_is_the_left_cell() {
    let font = test_font();
    let mut frame = FrameBuffer::new(8, 2);
    Glyph::new(&font, ' ').draw(&mut frame, Point::zero());
    // Row 0 is 0b1000_0001, row 1 is 0b0010_0100.
    for x in 0..8i64 {
        assert_eq!(frame.get_pixel(x, 0), x == 0 || x == 7);
        assert_eq!(frame.get_pixel(x, 1), x == 2 || x == 5);
    }
}

// A character whose cell lies beyond the grid draws nothing and panics
// nowhere: this font's grid has cells only for ' ' and '!'.
#[test]
fn out_of_grid_character_draws_nothing() {
    let font = test_font();
    let mut frame = FrameBuffer::new(8, 2);
    Glyph::new(&font, '#').draw(&mut frame, Point::zero());
    for x in 0..8i64 {
        for y in 0..2i64 {
            assert!(!frame.get_pixel(x, y));
        }
    }
}

// A degenerate font gives the empty glyph instead of dividing by zero.
#[test]
fn degenerate_font_gives_empty_glyph() {
    let mut font = test_font();
    font.character_size = Size::new(0, 2);
    let glyph = Glyph::new(&font, 'A');
    assert_eq!(glyph.size(), Size::new(0, 0));
    let mut frame = FrameBuffer::new(8, 2);
    glyph.draw(&mut frame, Point::zero());
    for x in 0..8i64 {
        assert!(!frame.get_pixel(x, 0));
    }
    // An image narrower than one cell behaves the same way.
    let mut font = test_font();
    font.character_size = Size::new(64, 2);
    assert_eq!(Glyph::new(&font, 'A').size(), Size::new(0, 0));
}

// A sub-image request wholly or partly outside the asset draws nothing
// and is not an error.
#[test]
fn out_of_bounds_sub_image_is_an_empty_draw() {
    let img = test_image();
    let mut frame = FrameBuffer::new(16, 2);
    frame.fill_rect(
        &Rectangle::new(Point::zero(), Size::new(16, 2)),
        true,
    );
    let cases = [
        Rectangle::new(Point::new(-1, 0), Size::new(4, 2)),
        Rectangle::new(Point::new(0, -1), Size::new(4, 2)),
        Rectangle::new(Point::new(14, 0), Size::new(4, 2)),
        Rectangle::new(Point::new(0, 1), Size::new(4, 2)),
        Rectangle::new(Point::new(0, 0), Size::new(17, 2)),
        Rectangle::new(Point::new(0, 0), Size::new(0, 2)),
        Rectangle::new(Point::new(0, 0), Size::new(4, 0)),
    ];
    for area in cases.iter() {
        img.draw_sub_image(&mut frame, area, Point::zero());
    }
    for x in 0..16i64 {
        for y in 0..2i64 {
            assert!(frame.get_pixel(x, y));
        }
    }
}

// An in-bounds sub-image lands at the destination, clipped to the frame.
#[test]
fn sub_image_blits_at_destination() {
    let img = test_image();
    let mut frame = FrameBuffer::new(6, 4);
    let area = Rectangle::new(Point::new(5, 0), Size::new(4, 2));
    img.draw_sub_image(&mut frame, &area, Point::new(1, 1));
    // Bits 5..9 of row 0 are 0,0,1,0; of row 1 they are 1,0,0,0.
    let expected_rows = [[false, false, true, false], [true, false, false, false]];
    for dy in 0..2i64 {
        for dx in 0..4i64 {
            assert_eq!(
                frame.get_pixel(1 + dx, 1 + dy),
                expected_rows[dy as usize][dx as usize],
                "pixel ({}, {})",
                dx,
                dy
            );
        }
    }
    // Everything outside the blit stays dark.
    for x in 0..6i64 {
        assert!(!frame.get_pixel(x, 0));
        assert!(!frame.get_pixel(x, 3));
    }
}

// Rows are padded to whole bytes: a 9-pixel-wide image skips 7 padding
// bits between rows.
#[test]
fn row_padding_is_skipped() {
    let img = Image::new(vec![0b0000_0000, 0b1000_0000, 0b1111_1111, 0b0111_1111], 9);
    assert_eq!(img.size(), Size::new(9, 2));
    let mut frame = FrameBuffer::new(9, 2);
    img.draw(&mut frame, Point::zero());
    for x in 0..9i64 {
        assert_eq!(frame.get_pixel(x, 0), x == 8, "row 0, x {}", x);
        assert_eq!(frame.get_pixel(x, 1), x != 8, "row 1, x {}", x);
    }
}

#[test]
fn fill_rect_clips_to_the_surface() {
    let mut frame = FrameBuffer::new(4, 4);
    frame.fill_rect(
        &Rectangle::new(Point::new(2, -1), Size::new(10, 3)),
        true,
    );
    for x in 0..4i64 {
        for y in 0..4i64 {
            assert_eq!(frame.get_pixel(x, y), x >= 2 && y <= 1);
        }
    }
}

#[test]
fn clear_fills_every_pixel() {
    let mut frame = FrameBuffer::new(3, 2);
    frame.clear(true);
    for x in 0..3i64 {
        for y in 0..2i64 {
            assert!(frame.get_pixel(x, y));
        }
    }
    frame.clear(false);
    for x in 0..3i64 {
        for y in 0..2i64 {
            assert!(!frame.get_pixel(x, y));
        }
    }
}

#[test]
fn set_pixel_ignores_positions_off_the_surface() {
    let mut frame = FrameBuffer::new(2, 2);
    frame.set_pixel(-1, 0, true);
    frame.set_pixel(0, 5, true);
    frame.set_pixel(1, 1, true);
    assert!(frame.get_pixel(1, 1));
    assert!(!frame.get_pixel(0, 0));
    assert!(!frame.get_pixel(-1, 0));
}
