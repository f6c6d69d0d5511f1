//! The game engine: owns the device, the font, the frame and the random
//! generator, renders each phase of the session, and runs the polling
//! loop that ties input, state machine and display together.

use vstd::prelude::*;
use vstd::string::StringSliceAdditionalSpecFns;

use crate::abstract_device::AbstractDevice;
use crate::debouncing::{DebounceResult, Debouncer};
use crate::font::{Glyph, MonoFont};
use crate::framebuffer::{FrameBuffer, MAX_SURFACE_EDGE};
use crate::geometry::{Point, Rectangle, Size};
use crate::rng::{rng_bool, rng_with_seed};
use crate::sequence_store::{
    new_sequence_vec, sequence_contents, sequence_get, sequence_len,
};
use crate::session::{GameState, Session, MAX_SEQUENCE, score_tenths};

verus! {

/// Width in pixels a drawn character advances the cursor by.
pub const FONT_WIDTH: u32 = 6;

/// Height in pixels of one text line.
pub const FONT_HEIGHT: u32 = 10;

/// Extra spacing before every third sequence block, to group them.
pub const BLOCK_GROUPING_EXTRA_SPACING: u32 = 2;

/// Thickness of the low block that stands for `false`.
pub const BLOCK_LINE_HEIGHT: u32 = 2;

/// Horizontal spacing between sequence blocks.
pub const BLOCK_SPACE: u32 = 2;

/// Longest text one draw call accepts, in bytes. Text beyond it would
/// carry the cursor arithmetic past the verified overflow budget, so, as
/// the renderer refuses an out-of-bounds rectangle, longer text is
/// refused whole rather than drawn partly; it is orders of magnitude
/// beyond any text the engine composes.
pub const MAX_TEXT_LEN: usize = 4096;

/// Cursor positions this far from the origin are accepted by every draw
/// call without overflow.
pub const MAX_CURSOR: i32 = 0x100_0000;

/// The cursor never leaves this region.
pub const CURSOR_LIMIT: i32 = 0x800_0000;

/// Where the cursor stands after drawing the UTF-8 bytes `bytes` from
/// `(x, y)`: a newline returns it to the left edge one line down, any
/// other byte advances it one cell.
pub open spec fn spec_cursor_after(cell: Size, x: int, y: int, bytes: Seq<u8>) -> (int, int)
    decreases bytes.len(),
{
    if bytes.len() == 0 {
        (x, y)
    } else if bytes[0] == 10 {
        spec_cursor_after(cell, 0, y + cell.height, bytes.drop_first())
    } else {
        spec_cursor_after(cell, x + cell.width, y, bytes.drop_first())
    }
}

/// Extending a text by one byte moves the fold's cursor by that byte's
/// single step.
pub proof fn lemma_cursor_after_snoc(cell: Size, x: int, y: int, bytes: Seq<u8>, b: u8)
    ensures
        spec_cursor_after(cell, x, y, bytes.push(b)) == (if b == 10 {
            (0int, spec_cursor_after(cell, x, y, bytes).1 + cell.height)
        } else {
            (
                spec_cursor_after(cell, x, y, bytes).0 + cell.width,
                spec_cursor_after(cell, x, y, bytes).1,
            )
        }),
    decreases bytes.len(),
{
    if bytes.len() == 0 {
        assert(bytes.push(b)[0] == b);
        assert(bytes.push(b).drop_first() =~= Seq::<u8>::empty());
        assert(spec_cursor_after(cell, x, y, bytes) == (x, y));
        if b == 10 {
            assert(spec_cursor_after(cell, x, y, bytes.push(b)) == spec_cursor_after(
                cell,
                0,
                y + cell.height,
                bytes.push(b).drop_first(),
            ));
        } else {
            assert(spec_cursor_after(cell, x, y, bytes.push(b)) == spec_cursor_after(
                cell,
                x + cell.width,
                y,
                bytes.push(b).drop_first(),
            ));
        }
    } else {
        assert(bytes.push(b)[0] == bytes[0]);
        assert(bytes.push(b).drop_first() =~= bytes.drop_first().push(b));
        if bytes[0] == 10 {
            lemma_cursor_after_snoc(cell, 0, y + cell.height, bytes.drop_first(), b);
            assert(spec_cursor_after(cell, x, y, bytes.push(b)) == spec_cursor_after(
                cell,
                0,
                y + cell.height,
                bytes.drop_first().push(b),
            ));
            assert(spec_cursor_after(cell, x, y, bytes) == spec_cursor_after(
                cell,
                0,
                y + cell.height,
                bytes.drop_first(),
            ));
        } else {
            lemma_cursor_after_snoc(cell, x + cell.width, y, bytes.drop_first(), b);
            assert(spec_cursor_after(cell, x, y, bytes.push(b)) == spec_cursor_after(
                cell,
                x + cell.width,
                y,
                bytes.drop_first().push(b),
            ));
            assert(spec_cursor_after(cell, x, y, bytes) == spec_cursor_after(
                cell,
                x + cell.width,
                y,
                bytes.drop_first(),
            ));
        }
    }
}

/// The frame pixel at `(px, py)` once the first `k` bytes of a text have
/// been drawn from `(x, y)`: each glyph byte blits its cell's window (a
/// window outside the font's image blits nothing), a newline byte draws
/// nothing, and `base` is the pixel before the text.
pub open spec fn spec_text_pixel(
    font: MonoFont,
    bytes: Seq<u8>,
    x: int,
    y: int,
    k: int,
    px: int,
    py: int,
    base: bool,
) -> bool
    decreases k,
{
    if k <= 0 {
        base
    } else {
        let prev = spec_text_pixel(font, bytes, x, y, k - 1, px, py, base);
        let b = bytes[k - 1];
        if b == 10 {
            prev
        } else {
            let pos = spec_cursor_after(font.character_size, x, y, bytes.take(k - 1));
            let area = crate::font::spec_glyph_cell(font, b as char);
            if crate::font::sub_image_in_bounds(&font.image, area) && pos.0 <= px < pos.0
                + area.size.width && pos.1 <= py < pos.1 + area.size.height {
                crate::font::sub_image_bit(&font.image, area, px - pos.0, py - pos.1)
            } else {
                prev
            }
        }
    }
}

/// A text's UTF-8 encoding is at most four bytes per character.
pub proof fn lemma_utf8_len_bound(chars: Seq<char>)
    ensures
        vstd::utf8::encode_utf8(chars).len() <= 4 * chars.len(),
    decreases chars.len(),
{
    if chars.len() > 0 {
        lemma_utf8_len_bound(chars.drop_first());
    }
}

/// The ASCII decimal digits of `n`, most significant first, without
/// leading zeros (the single digit zero for zero).
pub open spec fn spec_decimal(n: int) -> Seq<u8>
    decreases n,
{
    if n < 0 {
        Seq::empty()
    } else if n < 10 {
        seq![(48 + n) as u8]
    } else {
        spec_decimal(n / 10) + seq![(48 + n % 10) as u8]
    }
}

/// Appends the decimal digits of `n` to `out`.
pub fn push_decimal(out: &mut Vec<u8>, n: u32)
    ensures
        final(out)@ == old(out)@ + spec_decimal(n as int),
    decreases n,
{
    if n < 10 {
        out.push(48 + n as u8);
        proof {
            assert(final(out)@ =~= old(out)@ + spec_decimal(n as int));
        }
    } else {
        proof {
            vstd::arithmetic::div_mod::lemma_fundamental_div_mod(n as int, 10);
            vstd::arithmetic::div_mod::lemma_mod_bound(n as int, 10);
            assert(n / 10 < n) by (nonlinear_arith)
                requires
                    n >= 10,
                    n as int == 10 * ((n as int) / 10) + (n as int) % 10,
                    0 <= (n as int) % 10 < 10,
            ;
        }
        push_decimal(out, n / 10);
        out.push(48 + (n % 10) as u8);
        proof {
            assert(final(out)@ =~= old(out)@ + spec_decimal(n as int));
        }
    }
}

/// The text of a score given in tenths: the whole part, a point, and one
/// fractional digit.
pub open spec fn spec_score_text(tenths: int) -> Seq<u8> {
    spec_decimal(tenths / 10) + seq![46u8] + seq![(48 + tenths % 10) as u8]
}

/// The filled rectangle that stands for one sequence element drawn with
/// its cell corner at `(bx, by)`: a tall block for `true`, a short one
/// just above the cell's bottom for `false`.
pub open spec fn spec_block_rect(value: bool, bx: int, by: int) -> Rectangle {
    if value {
        Rectangle {
            top_left: Point { x: bx as i32, y: by as i32 },
            size: Size { width: FONT_WIDTH, height: (FONT_HEIGHT - 1) as u32 },
        }
    } else {
        Rectangle {
            top_left: Point {
                x: bx as i32,
                y: (by + FONT_HEIGHT - BLOCK_LINE_HEIGHT - 1) as i32,
            },
            size: Size { width: FONT_WIDTH, height: BLOCK_LINE_HEIGHT },
        }
    }
}

/// A number below ten thousand has at most four decimal digits.
pub proof fn lemma_decimal_len(n: int)
    requires
        0 <= n < 10000,
    ensures
        1 <= spec_decimal(n).len(),
        n < 10 ==> spec_decimal(n).len() == 1,
        n < 100 ==> spec_decimal(n).len() <= 2,
        n < 1000 ==> spec_decimal(n).len() <= 3,
        spec_decimal(n).len() <= 4,
    decreases n,
{
    if n >= 10 {
        vstd::arithmetic::div_mod::lemma_fundamental_div_mod(n, 10);
        vstd::arithmetic::div_mod::lemma_mod_bound(n, 10);
        assert(n / 10 < n) by (nonlinear_arith)
            requires
                n >= 10,
                n == 10 * (n / 10) + n % 10,
                0 <= n % 10 < 10,
        ;
        lemma_decimal_len(n / 10);
    }
}

/// The cursor after the first `i` sequence blocks have been drawn from
/// `(x, y)` on a screen `screen_w` pixels wide: every third block is
/// preceded by the grouping gap, a block that would cross the right edge
/// wraps to the next line first, and each block advances the cursor by
/// its width and the block spacing.
pub open spec fn spec_row_cursor(screen_w: int, x: int, y: int, i: int) -> (int, int)
    decreases i,
{
    if i <= 0 {
        (x, y)
    } else {
        let prev = spec_row_cursor(screen_w, x, y, i - 1);
        let gx = if (i - 1) % 3 == 0 {
            prev.0 + BLOCK_GROUPING_EXTRA_SPACING
        } else {
            prev.0
        };
        let wrapped = gx + FONT_WIDTH > screen_w;
        ((if wrapped {
            0
        } else {
            gx
        }) + FONT_WIDTH + BLOCK_SPACE, if wrapped {
            prev.1 + FONT_HEIGHT
        } else {
            prev.1
        })
    }
}

/// The cell corner of sequence block `i` drawn from `(x, y)`.
pub open spec fn spec_row_block_at(screen_w: int, x: int, y: int, i: int) -> (int, int) {
    let prev = spec_row_cursor(screen_w, x, y, i);
    let gx = if i % 3 == 0 {
        prev.0 + BLOCK_GROUPING_EXTRA_SPACING
    } else {
        prev.0
    };
    let wrapped = gx + FONT_WIDTH > screen_w;
    (if wrapped {
        0
    } else {
        gx
    }, if wrapped {
        prev.1 + FONT_HEIGHT
    } else {
        prev.1
    })
}

/// Whether the pixel `(px, py)` lies in one of the first `n` blocks of a
/// sequence row drawn from `(x, y)`.
pub open spec fn spec_in_row(
    elements: Seq<bool>,
    screen_w: int,
    x: int,
    y: int,
    n: int,
    px: int,
    py: int,
) -> bool {
    exists|i: int|
        0 <= i < n && crate::geometry::rect_contains(
            #[trigger] spec_block_rect(
                elements[i],
                spec_row_block_at(screen_w, x, y, i).0,
                spec_row_block_at(screen_w, x, y, i).1,
            ),
            px,
            py,
        )
}

/// The engine. A board builds its device and hands it over together with
/// the font and the display size; `run_game` then drives the whole game.
pub struct Game<Device: AbstractDevice> {
    device: Device,
    font: MonoFont,
    rng: fastrand::Rng,
    cursor: Point,
    frame: FrameBuffer,
}

impl<Device: AbstractDevice> Game<Device> {
    /// The frame the engine composes into.
    pub closed spec fn spec_frame(&self) -> FrameBuffer {
        self.frame
    }

    /// The draw cursor.
    pub closed spec fn spec_cursor(&self) -> Point {
        self.cursor
    }

    /// The font text and glyphs are drawn with.
    pub closed spec fn spec_font(&self) -> MonoFont {
        self.font
    }

    /// The frame and font are sound and the cursor inside its region.
    pub closed spec fn wf(&self) -> bool {
        &&& self.frame.wf()
        &&& self.font.wf()
        &&& 0 <= self.cursor.x <= CURSOR_LIMIT
        &&& 0 <= self.cursor.y <= CURSOR_LIMIT
    }

    /// A game over `device`, drawing with `font` into a fresh frame of
    /// the given display size, its generator seeded from the device's
    /// one-shot entropy value.
    pub fn new(mut device: Device, font: MonoFont, screen_width: u32, screen_height: u32) -> (r:
        Result<Game<Device>, Device::Error>)
        requires
            font.wf(),
            screen_width <= MAX_SURFACE_EDGE,
            screen_height <= MAX_SURFACE_EDGE,
        ensures
            r is Ok,
            r matches Ok(g) ==> ({
                &&& g.wf()
                &&& g.spec_frame().spec_width() == screen_width
                &&& g.spec_frame().spec_height() == screen_height
                &&& g.spec_cursor() == (Point { x: 0, y: 0 })
                &&& g.spec_font() == font
                &&& forall|px: int, py: int|
                    0 <= px < screen_width && 0 <= py < screen_height ==> !g.spec_frame().spec_pixel(
                        px,
                        py,
                    )
            }),
    {
        let seed = device.get_rng_seed();
        let rng = rng_with_seed(seed);
        let frame = FrameBuffer::new(screen_width, screen_height);
        Ok(Game { device, font, rng, cursor: Point { x: 0, y: 0 }, frame })
    }

    /// Returns the cursor to the top-left corner.
    fn reset_cursor(&mut self)
        ensures
            *final(self) == (Game { cursor: Point { x: 0, y: 0 }, ..*old(self) }),
    {
        self.cursor = Point { x: 0, y: 0 };
    }

    /// Draws `string` at the cursor, glyph by glyph, moving to the left
    /// edge of the next line at each newline, and leaves the cursor after
    /// the last glyph. Text longer than [`MAX_TEXT_LEN`] bytes is refused
    /// whole (nothing drawn, cursor kept), as the renderer refuses an
    /// out-of-bounds rectangle.
    fn draw_string(&mut self, string: &str)
        requires
            old(self).wf(),
            old(self).cursor.x <= MAX_CURSOR,
            old(self).cursor.y <= MAX_CURSOR,
        ensures
            final(self).wf(),
            final(self).font == old(self).font,
            final(self).device == old(self).device,
            final(self).rng == old(self).rng,
            final(self).frame.spec_width() == old(self).frame.spec_width(),
            final(self).frame.spec_height() == old(self).frame.spec_height(),
            string.spec_bytes().len() > MAX_TEXT_LEN ==> final(self).cursor == old(self).cursor
                && final(self).frame == old(self).frame,
            string.spec_bytes().len() <= MAX_TEXT_LEN ==> ({
                let after = spec_cursor_after(
                    old(self).font.character_size,
                    old(self).cursor.x as int,
                    old(self).cursor.y as int,
                    string.spec_bytes(),
                );
                final(self).cursor.x == after.0 && final(self).cursor.y == after.1
            }),
            string.spec_bytes().len() <= MAX_TEXT_LEN ==> forall|px: int, py: int|
                0 <= px < old(self).frame.spec_width() && 0 <= py < old(self).frame.spec_height()
                    ==> #[trigger] final(self).frame.spec_pixel(px, py) == spec_text_pixel(
                    old(self).font,
                    string.spec_bytes(),
                    old(self).cursor.x as int,
                    old(self).cursor.y as int,
                    string.spec_bytes().len() as int,
                    px,
                    py,
                    old(self).frame.spec_pixel(px, py),
                ),
            0 <= final(self).cursor.x <= old(self).cursor.x + 0x100_0000,
            old(self).cursor.y <= final(self).cursor.y <= old(self).cursor.y + 0x100_0000,
    {
        self.draw_bytes(string.as_bytes())
    }

    /// Draws the UTF-8 bytes of a text as [`Self::draw_string`] does.
    #[verifier::loop_isolation(false)]
    fn draw_bytes(&mut self, bytes: &[u8])
        requires
            old(self).wf(),
            old(self).cursor.x <= MAX_CURSOR,
            old(self).cursor.y <= MAX_CURSOR,
        ensures
            final(self).wf(),
            final(self).font == old(self).font,
            final(self).device == old(self).device,
            final(self).rng == old(self).rng,
            final(self).frame.spec_width() == old(self).frame.spec_width(),
            final(self).frame.spec_height() == old(self).frame.spec_height(),
            bytes@.len() > MAX_TEXT_LEN ==> final(self).cursor == old(self).cursor
                && final(self).frame == old(self).frame,
            bytes@.len() <= MAX_TEXT_LEN ==> ({
                let after = spec_cursor_after(
                    old(self).font.character_size,
                    old(self).cursor.x as int,
                    old(self).cursor.y as int,
                    bytes@,
                );
                final(self).cursor.x == after.0 && final(self).cursor.y == after.1
            }),
            bytes@.len() <= MAX_TEXT_LEN ==> forall|px: int, py: int|
                0 <= px < old(self).frame.spec_width() && 0 <= py < old(self).frame.spec_height()
                    ==> #[trigger] final(self).frame.spec_pixel(px, py) == spec_text_pixel(
                    old(self).font,
                    bytes@,
                    old(self).cursor.x as int,
                    old(self).cursor.y as int,
                    bytes@.len() as int,
                    px,
                    py,
                    old(self).frame.spec_pixel(px, py),
                ),
            0 <= final(self).cursor.x <= old(self).cursor.x + 0x100_0000,
            old(self).cursor.y <= final(self).cursor.y <= old(self).cursor.y + 0x100_0000,
    {
        let n = bytes.len();
        if n > MAX_TEXT_LEN {
            return ;
        }
        let cell_w = self.font.character_size.width;
        let cell_h = self.font.character_size.height;
        let ghost total = spec_cursor_after(
            self.font.character_size,
            self.cursor.x as int,
            self.cursor.y as int,
            bytes@,
        );
        let mut k: usize = 0;
        proof {
            assert(bytes@.skip(0) =~= bytes@);
            assert(bytes@.take(0) =~= Seq::<u8>::empty());
        }
        while k < n
            invariant
                k <= n,
                n <= MAX_TEXT_LEN,
                bytes@.len() == n,
                self.wf(),
                self.font == old(self).font,
                self.device == old(self).device,
                self.rng == old(self).rng,
                self.frame.spec_width() == old(self).frame.spec_width(),
                self.frame.spec_height() == old(self).frame.spec_height(),
                cell_w == self.font.character_size.width,
                cell_h == self.font.character_size.height,
                0 <= self.cursor.x,
                0 <= self.cursor.y,
                self.cursor.x + cell_w * (n - k) <= old(self).cursor.x + cell_w * n,
                self.cursor.y + cell_h * (n - k) <= old(self).cursor.y + cell_h * n,
                old(self).cursor.y <= self.cursor.y,
                spec_cursor_after(
                    self.font.character_size,
                    self.cursor.x as int,
                    self.cursor.y as int,
                    bytes@.skip(k as int),
                ) == total,
                (self.cursor.x as int, self.cursor.y as int) == spec_cursor_after(
                    self.font.character_size,
                    old(self).cursor.x as int,
                    old(self).cursor.y as int,
                    bytes@.take(k as int),
                ),
                forall|px: int, py: int|
                    0 <= px < old(self).frame.spec_width() && 0 <= py < old(
                        self,
                    ).frame.spec_height() ==> #[trigger] self.frame.spec_pixel(px, py)
                        == spec_text_pixel(
                        old(self).font,
                        bytes@,
                        old(self).cursor.x as int,
                        old(self).cursor.y as int,
                        k as int,
                        px,
                        py,
                        old(self).frame.spec_pixel(px, py),
                    ),
            decreases n - k,
        {
            proof {
                assert(cell_w * (n - k) == cell_w * (n - k - 1) + cell_w) by (nonlinear_arith);
                assert(cell_h * (n - k) == cell_h * (n - k - 1) + cell_h) by (nonlinear_arith);
                assert(cell_w * (n as int) <= 0x100_0000) by (nonlinear_arith)
                    requires
                        cell_w <= 4096,
                        n <= 4096,
                ;
                assert(cell_h * (n as int) <= 0x100_0000) by (nonlinear_arith)
                    requires
                        cell_h <= 4096,
                        n <= 4096,
                ;
                assert(cell_w * (n - k - 1) >= 0) by (nonlinear_arith)
                    requires
                        k + 1 <= n,
                ;
                assert(cell_h * (n - k - 1) >= 0) by (nonlinear_arith)
                    requires
                        k + 1 <= n,
                ;
                assert(bytes@.skip(k as int)[0] == bytes@[k as int]);
                assert(bytes@.skip(k as int).drop_first() =~= bytes@.skip(k as int + 1));
                assert(bytes@.take(k as int).push(bytes@[k as int]) =~= bytes@.take(k as int + 1));
                lemma_cursor_after_snoc(
                    self.font.character_size,
                    old(self).cursor.x as int,
                    old(self).cursor.y as int,
                    bytes@.take(k as int),
                    bytes@[k as int],
                );
            }
            let ghost frame_before = self.frame;
            let ghost pos_before = (self.cursor.x as int, self.cursor.y as int);
            let b = bytes[k];
            if b == 10 {
                self.cursor.x = 0;
                self.cursor.y = self.cursor.y + cell_h as i32;
                proof {
                    assert forall|px: int, py: int|
                        0 <= px < old(self).frame.spec_width() && 0 <= py < old(
                            self,
                        ).frame.spec_height() implies #[trigger] self.frame.spec_pixel(px, py)
                            == spec_text_pixel(
                            old(self).font,
                            bytes@,
                            old(self).cursor.x as int,
                            old(self).cursor.y as int,
                            k + 1 as int,
                            px,
                            py,
                            old(self).frame.spec_pixel(px, py),
                        ) by {
                    }
                }
            } else {
                let glyph = Glyph::new(&self.font, b as char);
                glyph.draw(&mut self.frame, self.cursor);
                self.cursor.x = self.cursor.x + cell_w as i32;
                proof {
                    let area = crate::font::spec_glyph_cell(old(self).font, b as char);
                    assert forall|px: int, py: int|
                        0 <= px < old(self).frame.spec_width() && 0 <= py < old(
                            self,
                        ).frame.spec_height() implies #[trigger] self.frame.spec_pixel(px, py)
                            == spec_text_pixel(
                            old(self).font,
                            bytes@,
                            old(self).cursor.x as int,
                            old(self).cursor.y as int,
                            k + 1 as int,
                            px,
                            py,
                            old(self).frame.spec_pixel(px, py),
                        ) by {
                        if crate::font::sub_image_in_bounds(&old(self).font.image, area) {
                            assert(self.frame.spec_pixel(px, py) == (if pos_before.0 <= px
                                < pos_before.0 + area.size.width && pos_before.1 <= py
                                < pos_before.1 + area.size.height {
                                crate::font::sub_image_bit(
                                    &old(self).font.image,
                                    area,
                                    px - pos_before.0,
                                    py - pos_before.1,
                                )
                            } else {
                                frame_before.spec_pixel(px, py)
                            }));
                        } else {
                            assert(self.frame.spec_pixel(px, py) == frame_before.spec_pixel(
                                px,
                                py,
                            ));
                        }
                    }
                }
            }
            k += 1;
        }
        proof {
            assert(bytes@.skip(n as int) =~= Seq::<u8>::empty());
            assert(cell_w * (n as int) <= 0x100_0000) by (nonlinear_arith)
                requires
                    cell_w <= 4096,
                    n <= 4096,
            ;
            assert(cell_h * (n as int) <= 0x100_0000) by (nonlinear_arith)
                requires
                    cell_h <= 4096,
                    n <= 4096,
            ;
        }
    }

    /// Draws one sequence element as a block at the cursor, first
    /// wrapping to the next line if the block would cross the right
    /// screen edge, and advances the cursor past the block.
    fn draw_block_wrapping(&mut self, value: bool)
        requires
            old(self).wf(),
            old(self).cursor.x <= 2 * MAX_CURSOR,
            old(self).cursor.y <= 2 * MAX_CURSOR,
        ensures
            final(self).wf(),
            final(self).font == old(self).font,
            final(self).device == old(self).device,
            final(self).rng == old(self).rng,
            final(self).frame.spec_width() == old(self).frame.spec_width(),
            final(self).frame.spec_height() == old(self).frame.spec_height(),
            ({
                let wrapped = old(self).cursor.x + FONT_WIDTH > old(self).frame.spec_width();
                let bx = if wrapped { 0 } else { old(self).cursor.x as int };
                let by = if wrapped {
                    old(self).cursor.y + FONT_HEIGHT
                } else {
                    old(self).cursor.y as int
                };
                &&& final(self).cursor.x == bx + FONT_WIDTH + BLOCK_SPACE
                &&& final(self).cursor.y == by
                &&& forall|px: int, py: int|
                    0 <= px < old(self).frame.spec_width() && 0 <= py < old(
                        self,
                    ).frame.spec_height() ==> #[trigger] final(self).frame.spec_pixel(px, py)
                        == (if crate::geometry::rect_contains(
                        spec_block_rect(value, bx, by),
                        px,
                        py,
                    ) {
                        true
                    } else {
                        old(self).frame.spec_pixel(px, py)
                    })
            }),
    {
        if self.cursor.x as i64 + FONT_WIDTH as i64 > self.frame.width() as i64 {
            self.cursor.x = 0;
            self.cursor.y = self.cursor.y + FONT_HEIGHT as i32;
        }
        let block = if value {
            Rectangle {
                top_left: self.cursor,
                size: Size { width: FONT_WIDTH, height: FONT_HEIGHT - 1 },
            }
        } else {
            Rectangle {
                top_left: Point {
                    x: self.cursor.x,
                    y: self.cursor.y + FONT_HEIGHT as i32 - BLOCK_LINE_HEIGHT as i32 - 1,
                },
                size: Size { width: FONT_WIDTH, height: BLOCK_LINE_HEIGHT },
            }
        };
        self.frame.fill_rect(&block, true);
        self.cursor.x = self.cursor.x + (FONT_WIDTH + BLOCK_SPACE) as i32;
        proof {
            let wrapped = old(self).cursor.x + FONT_WIDTH > old(self).frame.spec_width();
            let bx = if wrapped { 0 } else { old(self).cursor.x as int };
            let by = if wrapped {
                old(self).cursor.y + FONT_HEIGHT
            } else {
                old(self).cursor.y as int
            };
            assert(block == spec_block_rect(value, bx, by));
            assert forall|px: int, py: int|
                0 <= px < old(self).frame.spec_width() && 0 <= py < old(
                    self,
                ).frame.spec_height() implies #[trigger] self.frame.spec_pixel(px, py) == (if
            crate::geometry::rect_contains(spec_block_rect(value, bx, by), px, py) {
                true
            } else {
                old(self).frame.spec_pixel(px, py)
            }) by {
                assert(self.frame.spec_pixel(px, py) == (if crate::geometry::rect_contains(
                    block,
                    px,
                    py,
                ) {
                    true
                } else {
                    old(self).frame.spec_pixel(px, py)
                }));
            }
        }
    }

    /// Draws the first `subset_length` elements of `sequence` as a row of
    /// blocks, with extra spacing before every third element, wrapping at
    /// the screen edge.
    #[verifier::loop_isolation(false)]
    fn draw_sequence(
        &mut self,
        sequence: &fixed_slice_vec::FixedSliceVec<bool>,
        subset_length: usize,
    )
        requires
            old(self).wf(),
            subset_length <= sequence_contents(*sequence).len(),
            subset_length <= MAX_SEQUENCE,
            old(self).cursor.x <= MAX_CURSOR,
            old(self).cursor.y <= MAX_CURSOR,
        ensures
            final(self).wf(),
            final(self).font == old(self).font,
            final(self).device == old(self).device,
            final(self).rng == old(self).rng,
            final(self).frame.spec_width() == old(self).frame.spec_width(),
            final(self).frame.spec_height() == old(self).frame.spec_height(),
            0 <= final(self).cursor.x <= old(self).cursor.x + 10 * subset_length,
            old(self).cursor.y <= final(self).cursor.y <= old(self).cursor.y + 10
                * subset_length,
            ({
                let sw = old(self).frame.spec_width() as int;
                let x0 = old(self).cursor.x as int;
                let y0 = old(self).cursor.y as int;
                &&& final(self).cursor.x == spec_row_cursor(sw, x0, y0, subset_length as int).0
                &&& final(self).cursor.y == spec_row_cursor(sw, x0, y0, subset_length as int).1
                &&& forall|px: int, py: int|
                    0 <= px < old(self).frame.spec_width() && 0 <= py < old(
                        self,
                    ).frame.spec_height() ==> #[trigger] final(self).frame.spec_pixel(px, py)
                        == (if spec_in_row(
                        sequence_contents(*sequence),
                        sw,
                        x0,
                        y0,
                        subset_length as int,
                        px,
                        py,
                    ) {
                        true
                    } else {
                        old(self).frame.spec_pixel(px, py)
                    })
            }),
    {
        let ghost sw = old(self).frame.spec_width() as int;
        let ghost x0 = old(self).cursor.x as int;
        let ghost y0 = old(self).cursor.y as int;
        let mut i: usize = 0;
        while i < subset_length
            invariant
                i <= subset_length,
                self.wf(),
                self.font == old(self).font,
                self.device == old(self).device,
                self.rng == old(self).rng,
                self.frame.spec_width() == old(self).frame.spec_width(),
                self.frame.spec_height() == old(self).frame.spec_height(),
                0 <= self.cursor.x <= old(self).cursor.x + 10 * i,
                old(self).cursor.y <= self.cursor.y <= old(self).cursor.y + 10 * i,
                self.cursor.x == spec_row_cursor(sw, x0, y0, i as int).0,
                self.cursor.y == spec_row_cursor(sw, x0, y0, i as int).1,
                forall|px: int, py: int|
                    0 <= px < old(self).frame.spec_width() && 0 <= py < old(
                        self,
                    ).frame.spec_height() ==> #[trigger] self.frame.spec_pixel(px, py) == (if
                    spec_in_row(sequence_contents(*sequence), sw, x0, y0, i as int, px, py) {
                        true
                    } else {
                        old(self).frame.spec_pixel(px, py)
                    }),
            decreases subset_length - i,
        {
            let ghost frame_before = self.frame;
            let value = sequence_get(sequence, i);
            if i % 3 == 0 {
                self.cursor.x = self.cursor.x + BLOCK_GROUPING_EXTRA_SPACING as i32;
            }
            self.draw_block_wrapping(value);
            proof {
                let bat = spec_row_block_at(sw, x0, y0, i as int);
                assert(self.cursor.x == spec_row_cursor(sw, x0, y0, i + 1 as int).0);
                assert(self.cursor.y == spec_row_cursor(sw, x0, y0, i + 1 as int).1);
                assert forall|px: int, py: int|
                    0 <= px < old(self).frame.spec_width() && 0 <= py < old(
                        self,
                    ).frame.spec_height() implies #[trigger] self.frame.spec_pixel(px, py) == (if
                spec_in_row(sequence_contents(*sequence), sw, x0, y0, i + 1 as int, px, py) {
                    true
                } else {
                    old(self).frame.spec_pixel(px, py)
                }) by {
                    let here = crate::geometry::rect_contains(
                        spec_block_rect(sequence_contents(*sequence)[i as int], bat.0, bat.1),
                        px,
                        py,
                    );
                    assert(self.frame.spec_pixel(px, py) == (if here {
                        true
                    } else {
                        frame_before.spec_pixel(px, py)
                    }));
                    let elems = sequence_contents(*sequence);
                    if here {
                        assert(spec_in_row(elems, sw, x0, y0, i + 1 as int, px, py));
                    } else {
                        assert(spec_in_row(elems, sw, x0, y0, i as int, px, py) == spec_in_row(
                            elems,
                            sw,
                            x0,
                            y0,
                            i + 1 as int,
                            px,
                            py,
                        )) by {
                            if spec_in_row(elems, sw, x0, y0, i + 1 as int, px, py) {
                                let w = choose|j: int|
                                    0 <= j < i + 1 && crate::geometry::rect_contains(
                                        #[trigger] spec_block_rect(
                                            elems[j],
                                            spec_row_block_at(sw, x0, y0, j).0,
                                            spec_row_block_at(sw, x0, y0, j).1,
                                        ),
                                        px,
                                        py,
                                    );
                                assert(w != i);
                                assert(spec_in_row(elems, sw, x0, y0, i as int, px, py));
                            }
                        }
                    }
                }
            }
            i += 1;
        }
    }

    /// Clears the screen, shows `string` alone for `ms` milliseconds with
    /// the indicator lit around the flush, then clears again. On success
    /// the frame is dark and the cursor back at the origin.
    fn display_temporary_message(&mut self, string: &str, ms: u32) -> (r: Result<
        (),
        Device::Error,
    >)
        requires
            old(self).wf(),
        ensures
            final(self).wf(),
            final(self).font == old(self).font,
            final(self).rng == old(self).rng,
            final(self).frame.spec_width() == old(self).frame.spec_width(),
            final(self).frame.spec_height() == old(self).frame.spec_height(),
            r is Ok ==> final(self).cursor == (Point { x: 0, y: 0 }) && forall|px: int, py: int|
                0 <= px < old(self).frame.spec_width() && 0 <= py < old(self).frame.spec_height()
                    ==> !#[trigger] final(self).frame.spec_pixel(px, py),
    {
        self.frame.clear(false);
        self.reset_cursor();
        self.draw_string(string);
        self.device.set_led(true);
        match self.device.flush_display(&self.frame) {
            Ok(()) => {},
            Err(e) => {
                return Err(e);
            },
        }
        self.device.set_led(false);
        self.device.delay_ms(ms);
        self.frame.clear(false);
        self.reset_cursor();
        Ok(())
    }

    /// Draws the score text for a score given in tenths: the whole part,
    /// a decimal point, and one fractional digit.
    fn draw_score(&mut self, tenths: u32)
        requires
            old(self).wf(),
            old(self).cursor.x <= MAX_CURSOR,
            old(self).cursor.y <= MAX_CURSOR,
            tenths <= 9999,
        ensures
            final(self).wf(),
            final(self).font == old(self).font,
            final(self).device == old(self).device,
            final(self).rng == old(self).rng,
            final(self).frame.spec_width() == old(self).frame.spec_width(),
            final(self).frame.spec_height() == old(self).frame.spec_height(),
            ({
                let after = spec_cursor_after(
                    old(self).font.character_size,
                    old(self).cursor.x as int,
                    old(self).cursor.y as int,
                    spec_score_text(tenths as int),
                );
                final(self).cursor.x == after.0 && final(self).cursor.y == after.1
            }),
            forall|px: int, py: int|
                0 <= px < old(self).frame.spec_width() && 0 <= py < old(self).frame.spec_height()
                    ==> #[trigger] final(self).frame.spec_pixel(px, py) == spec_text_pixel(
                    old(self).font,
                    spec_score_text(tenths as int),
                    old(self).cursor.x as int,
                    old(self).cursor.y as int,
                    spec_score_text(tenths as int).len() as int,
                    px,
                    py,
                    old(self).frame.spec_pixel(px, py),
                ),
            0 <= final(self).cursor.x <= old(self).cursor.x + 0x100_0000,
            old(self).cursor.y <= final(self).cursor.y <= old(self).cursor.y + 0x100_0000,
    {
        proof {
            vstd::arithmetic::div_mod::lemma_fundamental_div_mod(tenths as int, 10);
            vstd::arithmetic::div_mod::lemma_mod_bound(tenths as int, 10);
            lemma_decimal_len(tenths as int / 10);
        }
        let mut text: Vec<u8> = Vec::new();
        push_decimal(&mut text, tenths / 10);
        text.push(46);
        text.push(48 + (tenths % 10) as u8);
        proof {
            assert(text@ =~= spec_score_text(tenths as int));
        }
        self.draw_bytes(text.as_slice());
    }

    /// A fresh pseudo-random sequence of exactly `length` elements.
    #[verifier::loop_isolation(false)]
    fn generate_sequence(&mut self, length: usize) -> (r: Vec<bool>)
        requires
            old(self).wf(),
        ensures
            final(self).wf(),
            final(self).font == old(self).font,
            final(self).device == old(self).device,
            final(self).cursor == old(self).cursor,
            final(self).frame == old(self).frame,
            r@.len() == length,
    {
        let mut out: Vec<bool> = Vec::new();
        while out.len() < length
            invariant
                out@.len() <= length,
                self.font == old(self).font,
                self.device == old(self).device,
                self.cursor == old(self).cursor,
                self.frame == old(self).frame,
            decreases length - out@.len(),
        {
            let bit = rng_bool(&mut self.rng);
            out.push(bit);
        }
        out
    }


    /// Renders the menu's instruction text from the origin: the whole
    /// frame effect and the final cursor are the text fold.
    fn render_menu_text(&mut self)
        requires
            old(self).wf(),
            old(self).cursor == (Point { x: 0, y: 0 }),
        ensures
            final(self).wf(),
            final(self).font == old(self).font,
            final(self).device == old(self).device,
            final(self).rng == old(self).rng,
            final(self).frame.spec_width() == old(self).frame.spec_width(),
            final(self).frame.spec_height() == old(self).frame.spec_height(),
            ({
                let text = ("Sequence memory! Try\nbuttons. Push both\nbuttons to start.").spec_bytes();
                let after = spec_cursor_after(old(self).font.character_size, 0, 0, text);
                &&& final(self).cursor.x == after.0
                &&& final(self).cursor.y == after.1
                &&& forall|px: int, py: int|
                    0 <= px < old(self).frame.spec_width() && 0 <= py < old(
                        self,
                    ).frame.spec_height() ==> #[trigger] final(self).frame.spec_pixel(px, py)
                        == spec_text_pixel(
                        old(self).font,
                        text,
                        0,
                        0,
                        text.len() as int,
                        px,
                        py,
                        old(self).frame.spec_pixel(px, py),
                    )
            }),
            0 <= final(self).cursor.x <= 0x100_0000,
            0 <= final(self).cursor.y <= 0x100_0000,
    {
        proof {
            reveal_strlit("Sequence memory! Try\nbuttons. Push both\nbuttons to start.");
            lemma_utf8_len_bound(("Sequence memory! Try\nbuttons. Push both\nbuttons to start.")@);
        }
        self.draw_string("Sequence memory! Try\nbuttons. Push both\nbuttons to start.")
    }

    /// Renders one phase's sequence row from the origin: the ": " label,
    /// then the first `subset_length` elements as blocks. The frame
    /// effect is exactly the block row over the label text.
    fn render_sequence_row(
        &mut self,
        sequence: &fixed_slice_vec::FixedSliceVec<bool>,
        subset_length: usize,
    )
        requires
            old(self).wf(),
            old(self).cursor == (Point { x: 0, y: 0 }),
            subset_length <= sequence_contents(*sequence).len(),
            subset_length <= MAX_SEQUENCE,
        ensures
            final(self).wf(),
            final(self).font == old(self).font,
            final(self).device == old(self).device,
            final(self).rng == old(self).rng,
            final(self).frame.spec_width() == old(self).frame.spec_width(),
            final(self).frame.spec_height() == old(self).frame.spec_height(),
            ({
                let label = (": ").spec_bytes();
                let after = spec_cursor_after(old(self).font.character_size, 0, 0, label);
                let sw = old(self).frame.spec_width() as int;
                forall|px: int, py: int|
                    0 <= px < old(self).frame.spec_width() && 0 <= py < old(
                        self,
                    ).frame.spec_height() ==> #[trigger] final(self).frame.spec_pixel(px, py)
                        == (if spec_in_row(
                        sequence_contents(*sequence),
                        sw,
                        after.0,
                        after.1,
                        subset_length as int,
                        px,
                        py,
                    ) {
                        true
                    } else {
                        spec_text_pixel(
                            old(self).font,
                            label,
                            0,
                            0,
                            label.len() as int,
                            px,
                            py,
                            old(self).frame.spec_pixel(px, py),
                        )
                    })
            }),
    {
        proof {
            reveal_strlit(": ");
            lemma_utf8_len_bound((": ")@);
        }
        self.draw_string(": ");
        self.draw_sequence(sequence, subset_length);
    }

    /// Renders the score screen from the origin: "You cleared ", the
    /// score in tenths, and "sequences!" on the next line. The frame
    /// effect is the three text folds in order.
    fn render_score(&mut self, tenths: u32)
        requires
            old(self).wf(),
            old(self).cursor == (Point { x: 0, y: 0 }),
            tenths <= 9999,
        ensures
            final(self).wf(),
            final(self).font == old(self).font,
            final(self).device == old(self).device,
            final(self).rng == old(self).rng,
            final(self).frame.spec_width() == old(self).frame.spec_width(),
            final(self).frame.spec_height() == old(self).frame.spec_height(),
            ({
                let cell = old(self).font.character_size;
                let lead = ("You cleared ").spec_bytes();
                let score = spec_score_text(tenths as int);
                let tail = ("sequences!").spec_bytes();
                let after_lead = spec_cursor_after(cell, 0, 0, lead);
                let after_tail = spec_cursor_after(cell, 0, 10, tail);
                &&& final(self).cursor.x == after_tail.0
                &&& final(self).cursor.y == after_tail.1
                &&& forall|px: int, py: int|
                    0 <= px < old(self).frame.spec_width() && 0 <= py < old(
                        self,
                    ).frame.spec_height() ==> #[trigger] final(self).frame.spec_pixel(px, py)
                        == spec_text_pixel(
                        old(self).font,
                        tail,
                        0,
                        10,
                        tail.len() as int,
                        px,
                        py,
                        spec_text_pixel(
                            old(self).font,
                            score,
                            after_lead.0,
                            after_lead.1,
                            score.len() as int,
                            px,
                            py,
                            spec_text_pixel(
                                old(self).font,
                                lead,
                                0,
                                0,
                                lead.len() as int,
                                px,
                                py,
                                old(self).frame.spec_pixel(px, py),
                            ),
                        ),
                    )
            }),
    {
        proof {
            reveal_strlit("You cleared ");
            lemma_utf8_len_bound(("You cleared ")@);
            reveal_strlit("sequences!");
            lemma_utf8_len_bound(("sequences!")@);
        }
        self.draw_string("You cleared ");
        self.draw_score(tenths);
        self.cursor = Point { x: 0, y: 10 };
        self.draw_string("sequences!");
    }

    /// Runs the game: sample inputs, debounce them, advance the state
    /// machine, render the phase, and flush - indefinitely. The loop ends
    /// only when the device fails, returning that error at once; the tick
    /// counter that gives the loop its termination measure outlasts any
    /// real session.
    pub fn run_game(&mut self) -> (r: Result<(), Device::Error>)
        requires
            old(self).wf(),
        ensures
            final(self).wf(),
    {
        let mut debouncer_storage: Vec<u8> = Vec::new();
        debouncer_storage.push(0x00);
        debouncer_storage.push(0x00);
        let mut debounce = Debouncer::new(debouncer_storage);
        let blank: core::mem::MaybeUninit<bool> = core::mem::MaybeUninit::new(false);
        let mut sequence_storage = [blank; MAX_SEQUENCE];
        let mut sequence = new_sequence_vec(&mut sequence_storage);
        let mut session = Session::new();
        let mut ticks_left: u64 = 0xffff_ffff_ffff_ffff;
        while ticks_left > 0
            invariant
                self.wf(),
                session.wf(sequence),
                debounce@.len() == 2,
            decreases ticks_left,
        {
            ticks_left = ticks_left - 1;
            let inputs = match self.device.get_inputs() {
                Ok(i) => i,
                Err(e) => {
                    return Err(e);
                },
            };
            let button1_fell = debounce.update(0, inputs.button1_down) == DebounceResult::Pressed;
            let button2_fell = debounce.update(1, inputs.button2_down) == DebounceResult::Pressed;
            self.frame.clear(false);
            self.reset_cursor();
            match session.state {
                GameState::Menu => {
                    self.render_menu_text();
                    session.step_menu(&mut sequence, inputs, button1_fell, button2_fell);
                    if !(inputs.button1_down && inputs.button2_down) {
                        let len = sequence_len(&sequence);
                        self.draw_sequence(&sequence, len);
                    }
                },
                GameState::Displaying => {
                    if session.first {
                        match self.display_temporary_message("Remember!", 1000) {
                            Ok(()) => {},
                            Err(e) => {
                                return Err(e);
                            },
                        }
                    }
                    let len = sequence_len(&sequence);
                    self.render_sequence_row(&sequence, len);
                    self.device.set_led(true);
                    match self.device.flush_display(&self.frame) {
                        Ok(()) => {},
                        Err(e) => {
                            return Err(e);
                        },
                    }
                    self.device.set_led(false);
                    if len > 6 {
                        self.device.delay_ms(2000 + 200 * (len as u32 - 6));
                    } else {
                        self.device.delay_ms(2000);
                    }
                    session.finish_display(&sequence);
                    if session.first {
                        match self.display_temporary_message("Repeat!", 1000) {
                            Ok(()) => {},
                            Err(e) => {
                                return Err(e);
                            },
                        }
                    }
                },
                GameState::Inputting => {
                    session.step_inputting(&sequence, button1_fell, button2_fell);
                    let idx = session.next_guess_index;
                    self.render_sequence_row(&sequence, idx);
                },
                GameState::Next => {
                    match self.display_temporary_message("Good! Next:", 400) {
                        Ok(()) => {},
                        Err(e) => {
                            return Err(e);
                        },
                    }
                    let len = sequence_len(&sequence);
                    let new_len = if len < MAX_SEQUENCE {
                        len + 1
                    } else {
                        MAX_SEQUENCE
                    };
                    let fresh = self.generate_sequence(new_len);
                    session.advance_round(&mut sequence, &fresh);
                },
                GameState::Failure => {
                    match self.display_temporary_message("No!", 200) {
                        Ok(()) => {},
                        Err(e) => {
                            return Err(e);
                        },
                    }
                    let len = sequence_len(&sequence);
                    self.render_sequence_row(&sequence, len);
                    self.device.set_led(true);
                    match self.device.flush_display(&self.frame) {
                        Ok(()) => {},
                        Err(e) => {
                            return Err(e);
                        },
                    }
                    self.device.set_led(false);
                    self.device.delay_ms(2000);
                    session.finish_failure(&sequence);
                },
                GameState::Score => {
                    let tenths = score_tenths(
                        session.highest_cleared,
                        session.next_guess_index,
                        sequence_len(&sequence),
                    );
                    self.render_score(tenths);
                    session.step_score(&mut sequence, button1_fell, button2_fell);
                },
            }
            self.device.set_led(true);
            match self.device.flush_display(&self.frame) {
                Ok(()) => {},
                Err(e) => {
                    return Err(e);
                },
            }
            self.device.set_led(false);
        }
        Ok(())
    }
}

} // verus!
