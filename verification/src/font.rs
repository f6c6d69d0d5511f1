//! Packed monochrome bitmap images and the glyph renderer over them.
//!
//! An image is 1 bit per pixel, each row padded to a whole number of
//! bytes, most significant bit first. The asset may live in memory that
//! is only efficiently readable in fixed-size windows, so the pixel sweep
//! reads it through a small chunk that is reloaded whenever the sweep
//! advances past the loaded window; a window that would overrun the end
//! of the asset is shifted backward so it still fits.

use vstd::prelude::*;

use crate::framebuffer::FrameBuffer;
use crate::geometry::{Point, Rectangle, Size};

verus! {

/// Size in bytes of the window the pixel sweep reads the asset through.
pub const CHUNK_SIZE: usize = 8;

/// Largest supported asset, in bytes.
pub const MAX_IMAGE_BYTES: usize = 0x100_0000;

/// Largest supported image edge, in pixels.
pub const MAX_IMAGE_EDGE: u32 = 4096;

/// The bit of `data` at absolute bit position `i`: most significant bit
/// of each byte first.
pub open spec fn bit_at(data: Seq<u8>, i: int) -> bool {
    ((data[i / 8] as u32) >> ((7 - (i % 8)) as u32)) & 1u32 == 1u32
}

/// The length of each image row in bytes: pixels times bits per pixel,
/// rounded up to whole bytes.
pub fn bytes_per_row(width: u32, bits_per_pixel: usize) -> (r: usize)
    requires
        width * bits_per_pixel + 7 <= usize::MAX,
    ensures
        r == (width * bits_per_pixel + 7) / 8,
{
    ((width as usize) * bits_per_pixel + 7) / 8
}

/// A chunk is a true copy of a window of the asset.
spec fn chunk_matches(data: Seq<u8>, chunk: Seq<u8>, chunk_start: int) -> bool {
    &&& chunk.len() == (if data.len() < CHUNK_SIZE { data.len() as int } else { CHUNK_SIZE as int })
    &&& 0 <= chunk_start
    &&& chunk_start + chunk.len() <= data.len()
    &&& chunk == data.subrange(chunk_start, chunk_start + chunk.len())
}

/// Copies one window of the asset, positioned so that it covers byte
/// `desired` when that byte exists; a window that would overrun the end
/// of the asset is shifted backward so it still fits.
fn load_chunk(data: &Vec<u8>, desired: usize) -> (r: (Vec<u8>, usize))
    requires
        data@.len() <= MAX_IMAGE_BYTES,
    ensures
        chunk_matches(data@, r.0@, r.1 as int),
        desired < data@.len() ==> r.1 <= desired < r.1 + r.0@.len(),
{
    let cl: usize = if data.len() < CHUNK_SIZE {
        data.len()
    } else {
        CHUNK_SIZE
    };
    let start: usize = if desired <= data.len() - cl {
        desired
    } else {
        data.len() - cl
    };
    let mut chunk: Vec<u8> = Vec::new();
    let mut i: usize = 0;
    while i < cl
        invariant
            i <= cl,
            start + cl <= data@.len(),
            data@.len() <= MAX_IMAGE_BYTES,
            chunk@.len() == i,
            chunk@ == data@.subrange(start as int, start + i),
        decreases cl - i,
    {
        chunk.push(data[start + i]);
        proof {
            assert(chunk@ =~= data@.subrange(start as int, start + i + 1));
        }
        i += 1;
    }
    (chunk, start)
}

/// A lazy, forward-only sweep over the pixels of one rectangle of a
/// packed asset, row-major; between rows it skips the asset's padding
/// pixels. Finite: it yields exactly the rectangle's area, then `None`.
struct ContiguousPixels<'a> {
    data: &'a Vec<u8>,
    width: u32,
    remaining_x: u32,
    remaining_y: u32,
    row_skip: usize,
    pos: usize,
    chunk: Vec<u8>,
    chunk_start: usize,
}

impl<'a> ContiguousPixels<'a> {
    spec fn wf(self) -> bool {
        &&& chunk_matches(self.data@, self.chunk@, self.chunk_start as int)
        &&& self.data@.len() <= MAX_IMAGE_BYTES
        &&& self.width <= MAX_IMAGE_EDGE
        &&& self.row_skip <= 8 * MAX_IMAGE_EDGE
        &&& self.remaining_x <= self.width
        &&& (self.width == 0 ==> self.remaining_y == 0)
        &&& self.pos <= self.data@.len() * 8
        &&& (self.remaining_x > 0 || self.remaining_y > 0 ==> self.pos + self.remaining_x
            + self.remaining_y * (self.row_skip + self.width) <= self.data@.len() * 8)
    }

    /// A sweep over `size` pixels of `data`, starting at absolute bit
    /// position `initial_skip` and skipping `row_skip` bits between rows.
    fn new(data: &'a Vec<u8>, size: Size, initial_skip: usize, row_skip: usize) -> (r:
        ContiguousPixels<'a>)
        requires
            data@.len() <= MAX_IMAGE_BYTES,
            size.width > 0,
            size.height > 0,
            size.width <= MAX_IMAGE_EDGE,
            row_skip <= 8 * MAX_IMAGE_EDGE,
            initial_skip + size.width + (size.height - 1) * (row_skip + size.width) <= data@.len()
                * 8,
        ensures
            r.wf(),
            r.data == data,
            r.width == size.width,
            r.remaining_x == size.width,
            r.remaining_y == size.height - 1,
            r.row_skip == row_skip,
            r.pos == initial_skip,
    {
        proof {
            assert((size.height - 1) * (row_skip + size.width) >= 0) by (nonlinear_arith)
                requires
                    size.height >= 1,
                    row_skip >= 0,
                    size.width >= 0,
            ;
        }
        let (chunk, chunk_start) = load_chunk(data, initial_skip / 8);
        ContiguousPixels {
            data,
            width: size.width,
            remaining_x: size.width,
            remaining_y: size.height - 1,
            row_skip,
            pos: initial_skip,
            chunk,
            chunk_start,
        }
    }

    /// Reads the asset bit the sweep stands on, reloading the window when
    /// the sweep has moved past it.
    fn read_bit(&mut self) -> (b: bool)
        requires
            chunk_matches(old(self).data@, old(self).chunk@, old(self).chunk_start as int),
            old(self).data@.len() <= MAX_IMAGE_BYTES,
            old(self).pos < old(self).data@.len() * 8,
        ensures
            b == bit_at(old(self).data@, old(self).pos as int),
            chunk_matches(final(self).data@, final(self).chunk@, final(self).chunk_start as int),
            final(self).data == old(self).data,
            final(self).width == old(self).width,
            final(self).remaining_x == old(self).remaining_x,
            final(self).remaining_y == old(self).remaining_y,
            final(self).row_skip == old(self).row_skip,
            final(self).pos == old(self).pos,
    {
        let byte: usize = self.pos / 8;
        proof {
            vstd::arithmetic::div_mod::lemma_fundamental_div_mod(self.pos as int, 8);
            assert(byte < self.data@.len());
        }
        if !(self.chunk_start <= byte && byte - self.chunk_start < self.chunk.len()) {
            let (chunk, chunk_start) = load_chunk(self.data, byte);
            self.chunk = chunk;
            self.chunk_start = chunk_start;
        }
        let b: u8 = self.chunk[byte - self.chunk_start];
        proof {
            assert(self.chunk@[byte - self.chunk_start] == self.data@.subrange(
                self.chunk_start as int,
                self.chunk_start + self.chunk@.len(),
            )[byte - self.chunk_start]);
            assert(b == self.data@[byte as int]);
        }
        let shift: u32 = 7 - (self.pos % 8) as u32;
        ((b as u32) >> shift) & 1 == 1
    }

    /// The next pixel of the sweep: lit or dark, or `None` once the whole
    /// rectangle has been produced.
    fn next(&mut self) -> (r: Option<bool>)
        requires
            old(self).wf(),
        ensures
            final(self).wf(),
            final(self).data == old(self).data,
            final(self).width == old(self).width,
            final(self).row_skip == old(self).row_skip,
            ({
                let o = *old(self);
                let n = *final(self);
                if o.remaining_x > 0 {
                    &&& r == Some(bit_at(o.data@, o.pos as int))
                    &&& n.pos == o.pos + 1
                    &&& n.remaining_x == o.remaining_x - 1
                    &&& n.remaining_y == o.remaining_y
                } else if o.remaining_y == 0 {
                    &&& r is None
                    &&& n.pos == o.pos
                    &&& n.remaining_x == 0
                    &&& n.remaining_y == 0
                } else {
                    &&& r == Some(bit_at(o.data@, o.pos + o.row_skip))
                    &&& n.pos == o.pos + o.row_skip + 1
                    &&& n.remaining_x == o.width - 1
                    &&& n.remaining_y == o.remaining_y - 1
                }
            }),
    {
        if self.remaining_x > 0 {
            self.remaining_x = self.remaining_x - 1;
        } else {
            if self.remaining_y == 0 {
                return None;
            }
            proof {
                assert(self.width >= 1);
                let rs = self.row_skip as int;
                let w = self.width as int;
                let ry = self.remaining_y as int;
                assert(ry * (rs + w) == (ry - 1) * (rs + w) + (rs + w)) by (nonlinear_arith);
                assert((ry - 1) * (rs + w) >= 0) by (nonlinear_arith)
                    requires
                        ry >= 1,
                        rs >= 0,
                        w >= 0,
                ;
                assert(self.pos + self.row_skip < self.data@.len() * 8);
            }
            self.remaining_y = self.remaining_y - 1;
            self.remaining_x = self.width - 1;
            self.pos = self.pos + self.row_skip;
        }
        let b = self.read_bit();
        self.pos = self.pos + 1;
        Some(b)
    }
}

/// The bit a sweep that started at bit position `start` with row stride
/// `stride` yields for the pixel `(dx, dy)` of its rectangle.
pub open spec fn stream_bit(data: Seq<u8>, start: int, stride: int, dx: int, dy: int) -> bool {
    bit_at(data, start + dy * stride + dx)
}

/// Fills the `size` rectangle of `frame` at `dest` with the pixels the
/// sweep yields, row-major, clipped to the surface.
#[verifier::loop_isolation(false)]
fn fill_contiguous(frame: &mut FrameBuffer, dest: Point, size: Size, src: &mut ContiguousPixels)
    requires
        old(frame).wf(),
        old(src).wf(),
        old(src).width == size.width,
        size.width > 0,
        size.height > 0,
        old(src).remaining_x == size.width,
        old(src).remaining_y == size.height - 1,
    ensures
        final(frame).wf(),
        final(frame).spec_width() == old(frame).spec_width(),
        final(frame).spec_height() == old(frame).spec_height(),
        forall|px: int, py: int|
            0 <= px < old(frame).spec_width() && 0 <= py < old(frame).spec_height()
                ==> #[trigger] final(frame).spec_pixel(px, py) == (if dest.x <= px < dest.x
                + size.width && dest.y <= py < dest.y + size.height {
                stream_bit(
                    old(src).data@,
                    old(src).pos as int,
                    old(src).row_skip + size.width,
                    px - dest.x,
                    py - dest.y,
                )
            } else {
                old(frame).spec_pixel(px, py)
            }),
{
    let ghost orig = *frame;
    let ghost d = src.data@;
    let ghost p0 = src.pos as int;
    let ghost stride = src.row_skip + size.width as int;
    let w: u32 = size.width;
    let h: u32 = size.height;
    let mut j: u32 = 0;
    while j < h
        invariant
            frame.wf(),
            frame.spec_width() == orig.spec_width(),
            frame.spec_height() == orig.spec_height(),
            j <= h,
            src.wf(),
            src.data@ == d,
            src.width == w,
            src.row_skip == old(src).row_skip,
            if j == 0 {
                src.remaining_x == w && src.remaining_y == h - 1 && src.pos == p0
            } else {
                src.remaining_x == 0 && src.remaining_y == h - j && src.pos == p0 + (j - 1)
                    * stride + w
            },
            forall|px: int, py: int|
                0 <= px < orig.spec_width() && 0 <= py < orig.spec_height()
                    ==> #[trigger] frame.spec_pixel(px, py) == (if dest.x <= px < dest.x + w
                    && dest.y <= py < dest.y + j {
                    stream_bit(d, p0, stride, px - dest.x, py - dest.y)
                } else {
                    orig.spec_pixel(px, py)
                }),
        decreases h - j,
    {
        let mut i: u32 = 0;
        while i < w
            invariant
                frame.wf(),
                frame.spec_width() == orig.spec_width(),
                frame.spec_height() == orig.spec_height(),
                i <= w,
                j < h,
                src.wf(),
                src.data@ == d,
                src.width == w,
                src.row_skip == old(src).row_skip,
                if i == 0 && j > 0 {
                    src.remaining_x == 0 && src.remaining_y == h - j && src.pos == p0 + (j - 1)
                        * stride + w
                } else {
                    src.remaining_x == w - i && src.remaining_y == h - 1 - j && src.pos == p0 + j
                        * stride + i
                },
                forall|px: int, py: int|
                    0 <= px < orig.spec_width() && 0 <= py < orig.spec_height()
                        ==> #[trigger] frame.spec_pixel(px, py) == (if dest.x <= px < dest.x + w
                        && dest.y <= py < dest.y + j || (dest.y + j == py && dest.x <= px < dest.x
                        + i) {
                        stream_bit(d, p0, stride, px - dest.x, py - dest.y)
                    } else {
                        orig.spec_pixel(px, py)
                    }),
            decreases w - i,
        {
            proof {
                if i == 0 && j > 0 {
                    assert(p0 + (j - 1) * stride + w + src.row_skip == p0 + j * stride)
                        by (nonlinear_arith)
                        requires
                            stride == src.row_skip + w,
                            j >= 1,
                    ;
                }
            }
            let bit = match src.next() {
                Some(b) => b,
                None => {
                    proof {
                        assert(false);
                    }
                    false
                },
            };
            proof {
                assert(bit == stream_bit(d, p0, stride, i as int, j as int)) by {
                    assert(p0 + j * stride + i == p0 + (j as int) * stride + (i as int));
                }
            }
            frame.set_pixel(dest.x as i64 + i as i64, dest.y as i64 + j as i64, bit);
            proof {
                assert forall|px: int, py: int|
                    0 <= px < orig.spec_width() && 0 <= py < orig.spec_height()
                        implies #[trigger] frame.spec_pixel(px, py) == (if dest.x <= px < dest.x
                        + w && dest.y <= py < dest.y + j || (dest.y + j == py && dest.x <= px
                        < dest.x + i + 1) {
                        stream_bit(d, p0, stride, px - dest.x, py - dest.y)
                    } else {
                        orig.spec_pixel(px, py)
                    }) by {
                }
            }
            i += 1;
        }
        j += 1;
    }
}


/// A packed 1-bit-per-pixel image over a byte asset.
pub struct Image {
    data: Vec<u8>,
    size: Size,
}

/// Whether `area` is non-empty and lies wholly inside the image.
pub open spec fn sub_image_in_bounds(img: &Image, area: Rectangle) -> bool {
    &&& area.size.width > 0
    &&& area.size.height > 0
    &&& area.top_left.x >= 0
    &&& area.top_left.y >= 0
    &&& area.top_left.x + area.size.width <= img.spec_size().width
    &&& area.top_left.y + area.size.height <= img.spec_size().height
}

/// The image bit shown at pixel `(dx, dy)` of the sub-rectangle `area`,
/// accounting for the padding pixels at the end of each asset row.
pub open spec fn sub_image_bit(img: &Image, area: Rectangle, dx: int, dy: int) -> bool {
    bit_at(
        img.spec_data(),
        (area.top_left.y + dy) * img.spec_data_width() + area.top_left.x + dx,
    )
}

impl Image {
    /// The raw asset bytes.
    pub closed spec fn spec_data(&self) -> Seq<u8> {
        self.data@
    }

    /// The image size in pixels.
    pub closed spec fn spec_size(&self) -> Size {
        self.size
    }

    /// The length of each row of the asset in bytes.
    pub open spec fn spec_row_bytes(&self) -> int {
        (self.spec_size().width + 7) / 8
    }

    /// The padded width of each row in pixels, padding bits included.
    pub open spec fn spec_data_width(&self) -> int {
        self.spec_row_bytes() * 8
    }

    /// The declared size never reaches beyond the asset.
    pub open spec fn wf(&self) -> bool {
        &&& self.spec_data().len() <= MAX_IMAGE_BYTES
        &&& self.spec_size().width <= MAX_IMAGE_EDGE
        &&& self.spec_size().height * self.spec_row_bytes() <= self.spec_data().len()
        &&& (self.spec_size().width == 0 ==> self.spec_size().height == 0)
    }

    /// An image over `data`, `width` pixels wide; the height is however
    /// many whole padded rows the data holds, and a width of zero gives a
    /// zero-sized image rather than dividing by zero.
    pub fn new(data: Vec<u8>, width: u32) -> (r: Image)
        requires
            width <= MAX_IMAGE_EDGE,
            data@.len() <= MAX_IMAGE_BYTES,
        ensures
            r.wf(),
            r.spec_data() == data@,
            r.spec_size().width == (if width > 0 { width as int } else { 0 }),
            r.spec_size().height == (if width > 0 {
                data@.len() as int / ((width + 7) as int / 8)
            } else {
                0
            }),
    {
        if width == 0 {
            return Image { data, size: Size { width: 0, height: 0 } };
        }
        let rb: usize = bytes_per_row(width, 1);
        let len: usize = data.len();
        let height_us: usize = len / rb;
        proof {
            vstd::arithmetic::div_mod::lemma_fundamental_div_mod(len as int, rb as int);
            vstd::arithmetic::div_mod::lemma_mod_bound(len as int, rb as int);
            assert(height_us * rb == rb * height_us) by (nonlinear_arith);
            assert(height_us <= len) by (nonlinear_arith)
                requires
                    rb >= 1,
                    height_us >= 0,
                    rb * height_us <= len,
            ;
        }
        let height: u32 = height_us as u32;
        Image { data, size: Size { width, height } }
    }

    /// The image size in pixels.
    pub fn size(&self) -> (r: Size)
        ensures
            r == self.spec_size(),
    {
        self.size
    }

    /// The actual row width in pixels: each row is padded to a whole
    /// number of bytes, so this may exceed the image width.
    pub fn data_width(&self) -> (r: u32)
        requires
            self.wf(),
        ensures
            r == self.spec_data_width(),
    {
        (bytes_per_row(self.size.width, 1) * 8) as u32
    }

    /// Blits the whole image onto `frame` with its top-left corner at
    /// `dest`, clipped to the surface; a zero-sized image draws nothing.
    pub fn draw(&self, frame: &mut FrameBuffer, dest: Point)
        requires
            self.wf(),
            old(frame).wf(),
        ensures
            final(frame).wf(),
            final(frame).spec_width() == old(frame).spec_width(),
            final(frame).spec_height() == old(frame).spec_height(),
            ({
                let full = (Rectangle {
                    top_left: Point { x: 0, y: 0 },
                    size: self.spec_size(),
                });
                if self.spec_size().width > 0 && self.spec_size().height > 0 {
                    forall|px: int, py: int|
                        0 <= px < old(frame).spec_width() && 0 <= py < old(frame).spec_height()
                            ==> #[trigger] final(frame).spec_pixel(px, py) == (if dest.x <= px
                            < dest.x + self.spec_size().width && dest.y <= py < dest.y
                            + self.spec_size().height {
                            sub_image_bit(self, full, px - dest.x, py - dest.y)
                        } else {
                            old(frame).spec_pixel(px, py)
                        })
                } else {
                    forall|px: int, py: int|
                        0 <= px < old(frame).spec_width() && 0 <= py < old(frame).spec_height()
                            ==> #[trigger] final(frame).spec_pixel(px, py) == old(
                            frame,
                        ).spec_pixel(px, py)
                }
            }),
    {
        let area = Rectangle { top_left: Point { x: 0, y: 0 }, size: self.size };
        self.draw_sub_image(frame, &area, dest)
    }

    /// Blits the sub-rectangle `area` of the image onto `frame` with its
    /// top-left corner at `dest`, clipped to the surface. A zero-sized
    /// area, or one wholly or partly outside the image, draws nothing and
    /// is not an error.
    pub fn draw_sub_image(&self, frame: &mut FrameBuffer, area: &Rectangle, dest: Point)
        requires
            self.wf(),
            old(frame).wf(),
        ensures
            final(frame).wf(),
            final(frame).spec_width() == old(frame).spec_width(),
            final(frame).spec_height() == old(frame).spec_height(),
            !sub_image_in_bounds(self, *area) ==> forall|px: int, py: int|
                0 <= px < old(frame).spec_width() && 0 <= py < old(frame).spec_height()
                    ==> #[trigger] final(frame).spec_pixel(px, py) == old(frame).spec_pixel(
                    px,
                    py,
                ),
            sub_image_in_bounds(self, *area) ==> forall|px: int, py: int|
                0 <= px < old(frame).spec_width() && 0 <= py < old(frame).spec_height()
                    ==> #[trigger] final(frame).spec_pixel(px, py) == (if dest.x <= px < dest.x
                    + area.size.width && dest.y <= py < dest.y + area.size.height {
                    sub_image_bit(self, *area, px - dest.x, py - dest.y)
                } else {
                    old(frame).spec_pixel(px, py)
                }),
    {
        if area.is_zero_sized() || area.top_left.x < 0 || area.top_left.y < 0 || area.top_left.x
            as i64 + area.size.width as i64 > self.size.width as i64 || area.top_left.y as i64
            + area.size.height as i64 > self.size.height as i64 {
            return ;
        }
        let dw: usize = self.data_width() as usize;
        let ax: usize = area.top_left.x as usize;
        let ay: usize = area.top_left.y as usize;
        let w: u32 = area.size.width;
        let h: u32 = area.size.height;
        proof {
            let hh = self.size.height as int;
            let rb = self.spec_row_bytes();
            assert(hh * (rb * 8) == (hh * rb) * 8) by (nonlinear_arith);
            assert(hh * dw <= self.data@.len() * 8);
            assert((ay + h) * dw <= hh * dw) by (nonlinear_arith)
                requires
                    ay + h <= hh,
                    dw >= 0,
            ;
            assert((ay + h) * dw == ay * dw + h * dw) by (nonlinear_arith);
            assert(1 * dw <= h * dw) by (nonlinear_arith)
                requires
                    1 <= h,
                    dw >= 0,
            ;
            assert((ay + h - 1) * dw == ay * dw + (h - 1) * dw) by (nonlinear_arith);
            assert(self.size.width <= dw) by {
                vstd::arithmetic::div_mod::lemma_fundamental_div_mod(
                    self.size.width + 7,
                    8,
                );
                vstd::arithmetic::div_mod::lemma_mod_bound(self.size.width + 7, 8);
                assert(rb * 8 == 8 * rb) by (nonlinear_arith);
            }
        }
        let initial_skip: usize = ay * dw + ax;
        let row_skip: usize = dw - w as usize;
        proof {
            assert((h - 1) as int * (row_skip + w) == (h - 1) * (dw as int)) by (nonlinear_arith)
                requires
                    row_skip + w == dw,
            ;
            assert((h - 1) * (dw as int) + dw == h * (dw as int)) by (nonlinear_arith);
        }
        let mut cp = ContiguousPixels::new(&self.data, area.size, initial_skip, row_skip);
        fill_contiguous(frame, dest, area.size, &mut cp);
        proof {
            let d = self.spec_data();
            assert forall|px: int, py: int|
                0 <= px < old(frame).spec_width() && 0 <= py < old(frame).spec_height()
                    implies #[trigger] final(frame).spec_pixel(px, py) == (if dest.x <= px
                    < dest.x + area.size.width && dest.y <= py < dest.y + area.size.height {
                    sub_image_bit(self, *area, px - dest.x, py - dest.y)
                } else {
                    old(frame).spec_pixel(px, py)
                }) by {
                if dest.x <= px < dest.x + area.size.width && dest.y <= py < dest.y
                    + area.size.height {
                    let dx = px - dest.x;
                    let dy = py - dest.y;
                    assert(stream_bit(d, initial_skip as int, dw as int, dx, dy)
                        == sub_image_bit(self, *area, dx, dy)) by {
                        assert((area.top_left.y + dy) * dw == area.top_left.y * dw + dy * dw)
                            by (nonlinear_arith);
                    }
                }
            }
        }
    }
}


/// Dimensions of a horizontal decoration line (underline, strikethrough):
/// offset from the top of the glyph box, and thickness.
#[derive(PartialEq, Eq, Structural, Clone, Copy, Debug)]
pub struct DecorationDimensions {
    pub offset: u32,
    pub height: u32,
}

impl DecorationDimensions {
    pub fn new(offset: u32, height: u32) -> (r: DecorationDimensions)
        ensures
            r == (DecorationDimensions { offset, height }),
    {
        DecorationDimensions { offset, height }
    }
}

/// A fixed-cell monochrome font: a packed image holding a grid of glyph
/// cells, with its layout metadata.
pub struct MonoFont {
    /// Raw image data containing the font.
    pub image: Image,
    /// Size of a single character cell in pixels.
    pub character_size: Size,
    /// Empty pixels added horizontally between adjacent characters.
    pub character_spacing: u32,
    /// Offset from the top of the glyph box to the baseline.
    pub baseline: u32,
    /// Strikethrough decoration dimensions.
    pub strikethrough: DecorationDimensions,
    /// Underline decoration dimensions.
    pub underline: DecorationDimensions,
}

impl MonoFont {
    /// The image is sound and the cell size within supported bounds.
    pub open spec fn wf(&self) -> bool {
        &&& self.image.wf()
        &&& self.character_size.width <= MAX_IMAGE_EDGE
        &&& self.character_size.height <= MAX_IMAGE_EDGE
    }
}

/// The glyph cell index of `c`: printable ASCII maps in order from the
/// space character, and any other character shows the question mark.
pub open spec fn spec_glyph_index(c: char) -> u32 {
    if 32 <= c as u32 <= 126 {
        (c as u32 - 32) as u32
    } else {
        31u32
    }
}

/// Exec form of [`spec_glyph_index`].
pub fn glyph_index(c: char) -> (r: u32)
    ensures
        r == spec_glyph_index(c),
{
    let u = c as u32;
    if 32 <= u && u <= 126 {
        u - 32
    } else {
        31
    }
}

/// The glyph cell rectangle character `c` selects in `font`. Cells are
/// laid out row-major in a grid of `image width / cell width` columns, so
/// the cell of index `i` is at grid position `(i % columns, i / columns)`.
/// A degenerate font (cell width zero, or an image narrower than one
/// cell) gives the empty rectangle; a character whose cell lies beyond
/// the grid gives a rectangle outside the image, which draws nothing.
pub open spec fn spec_glyph_cell(font: MonoFont, c: char) -> Rectangle {
    if font.character_size.width == 0 || font.image.spec_size().width
        < font.character_size.width {
        Rectangle { top_left: Point { x: 0, y: 0 }, size: Size { width: 0, height: 0 } }
    } else {
        let columns = font.image.spec_size().width as int / font.character_size.width as int;
        let index = spec_glyph_index(c) as int;
        Rectangle {
            top_left: Point {
                x: ((index % columns) * font.character_size.width) as i32,
                y: ((index / columns) * font.character_size.height) as i32,
            },
            size: font.character_size,
        }
    }
}

/// A non-owning rectangular window into a font's image, covering one
/// character's glyph cell.
pub struct Glyph<'a> {
    parent: &'a Image,
    area: Rectangle,
}

impl<'a> Glyph<'a> {
    /// The image the glyph window points into.
    pub closed spec fn spec_parent(&self) -> Image {
        *self.parent
    }

    /// The glyph's cell rectangle within the image.
    pub closed spec fn spec_area(&self) -> Rectangle {
        self.area
    }

    /// The window into `font` for the glyph cell of `c`: exactly
    /// [`spec_glyph_cell`].
    pub fn new(font: &'a MonoFont, c: char) -> (r: Glyph<'a>)
        requires
            font.wf(),
        ensures
            r.spec_parent() == font.image,
            r.spec_parent().wf(),
            r.spec_area() == spec_glyph_cell(*font, c),
    {
        if font.character_size.width == 0 || font.image.size().width < font.character_size.width {
            return Glyph::new_unchecked(
                &font.image,
                Rectangle {
                    top_left: Point { x: 0, y: 0 },
                    size: Size { width: 0, height: 0 },
                },
            );
        }
        let glyphs_per_row: u32 = font.image.size().width / font.character_size.width;
        proof {
            vstd::arithmetic::div_mod::lemma_fundamental_div_mod(
                font.image.spec_size().width as int,
                font.character_size.width as int,
            );
            vstd::arithmetic::div_mod::lemma_mod_bound(
                font.image.spec_size().width as int,
                font.character_size.width as int,
            );
            assert(glyphs_per_row >= 1) by {
                if glyphs_per_row == 0 {
                    assert(font.image.spec_size().width as int == font.character_size.width as int
                        * 0 + font.image.spec_size().width as int % font.character_size.width as int);
                    assert(false);
                }
            }
        }
        let index: u32 = glyph_index(c);
        let row: u32 = index / glyphs_per_row;
        proof {
            vstd::arithmetic::div_mod::lemma_fundamental_div_mod(
                index as int,
                glyphs_per_row as int,
            );
            vstd::arithmetic::div_mod::lemma_mod_bound(index as int, glyphs_per_row as int);
            assert(index <= 126);
            assert(row * glyphs_per_row == glyphs_per_row * row) by (nonlinear_arith);
            assert(row * glyphs_per_row <= index) by (nonlinear_arith)
                requires
                    index == glyphs_per_row * row + index % glyphs_per_row,
                    index % glyphs_per_row >= 0,
                    row == index / glyphs_per_row,
            ;
            assert(row <= index) by (nonlinear_arith)
                requires
                    row * glyphs_per_row <= index,
                    glyphs_per_row >= 1,
                    row >= 0,
            ;
            assert((index - row * glyphs_per_row) * font.character_size.width <= 126
                * MAX_IMAGE_EDGE) by (nonlinear_arith)
                requires
                    0 <= index - row * glyphs_per_row <= 126,
                    font.character_size.width <= MAX_IMAGE_EDGE,
            ;
            assert(row * font.character_size.height <= 126 * MAX_IMAGE_EDGE) by (nonlinear_arith)
                requires
                    0 <= row <= 126,
                    font.character_size.height <= MAX_IMAGE_EDGE,
            ;
        }
        let char_x: u32 = (index - row * glyphs_per_row) * font.character_size.width;
        let char_y: u32 = row * font.character_size.height;
        Glyph::new_unchecked(
            &font.image,
            Rectangle {
                top_left: Point { x: char_x as i32, y: char_y as i32 },
                size: font.character_size,
            },
        )
    }

    /// A window over an arbitrary rectangle of `parent`.
    pub(crate) fn new_unchecked(parent: &'a Image, area: Rectangle) -> (r: Glyph<'a>)
        ensures
            r.spec_parent() == *parent,
            r.spec_area() == area,
    {
        Glyph { parent, area }
    }

    /// The glyph window's size in pixels.
    pub fn size(&self) -> (r: Size)
        ensures
            r == self.spec_area().size,
    {
        self.area.size
    }

    /// Blits the glyph onto `frame` with its top-left corner at `dest`:
    /// the parent image's sub-image draw, so a window outside the image
    /// (an out-of-grid character, or a degenerate font) draws nothing.
    pub fn draw(&self, frame: &mut FrameBuffer, dest: Point)
        requires
            old(frame).wf(),
            self.spec_parent().wf(),
        ensures
            final(frame).wf(),
            final(frame).spec_width() == old(frame).spec_width(),
            final(frame).spec_height() == old(frame).spec_height(),
            !sub_image_in_bounds(&self.spec_parent(), self.spec_area()) ==> forall|
                px: int,
                py: int,
            |
                0 <= px < old(frame).spec_width() && 0 <= py < old(frame).spec_height()
                    ==> #[trigger] final(frame).spec_pixel(px, py) == old(frame).spec_pixel(
                    px,
                    py,
                ),
            sub_image_in_bounds(&self.spec_parent(), self.spec_area()) ==> forall|
                px: int,
                py: int,
            |
                0 <= px < old(frame).spec_width() && 0 <= py < old(frame).spec_height()
                    ==> #[trigger] final(frame).spec_pixel(px, py) == (if dest.x <= px < dest.x
                    + self.spec_area().size.width && dest.y <= py < dest.y
                    + self.spec_area().size.height {
                    sub_image_bit(
                        &self.spec_parent(),
                        self.spec_area(),
                        px - dest.x,
                        py - dest.y,
                    )
                } else {
                    old(frame).spec_pixel(px, py)
                }),
    {
        self.parent.draw_sub_image(frame, &self.area, dest)
    }
}

} // verus!
