//! A monochrome frame buffer: the drawable surface the engine composes
//! each frame into before a board's device pushes it to real hardware.
//!
//! One bool per pixel, row-major. Every drawing operation clips to the
//! surface, so drawing off the edge touches nothing and never fails.

use vstd::prelude::*;

use crate::geometry::{Rectangle, rect_contains};

verus! {

/// Largest supported surface edge, in pixels; keeps all pixel indexing
/// comfortably inside machine integer ranges.
pub const MAX_SURFACE_EDGE: u32 = 4096;

/// A pixel index `y * width + x` stays inside the pixel buffer, which for
/// a supported surface size fits comfortably in a machine integer.
pub proof fn lemma_pixel_index_bounds(x: int, y: int, w: int, h: int)
    by (nonlinear_arith)
    requires
        0 <= x < w,
        0 <= y < h,
        w <= MAX_SURFACE_EDGE,
        h <= MAX_SURFACE_EDGE,
    ensures
        0 <= y * w + x < w * h,
        y * w + x < 0x100_0000,
        w * h <= 0x100_0000,
{
}

/// Distinct in-bounds pixel positions have distinct buffer indices.
pub proof fn lemma_pixel_index_injective(x1: int, y1: int, x2: int, y2: int, w: int)
    by (nonlinear_arith)
    requires
        0 <= x1 < w,
        0 <= x2 < w,
        0 <= y1,
        0 <= y2,
        !(x1 == x2 && y1 == y2),
    ensures
        y1 * w + x1 != y2 * w + x2,
{
}

/// A monochrome surface of `width * height` pixels; `true` is lit.
pub struct FrameBuffer {
    width: u32,
    height: u32,
    pixels: Vec<bool>,
}

impl FrameBuffer {
    pub closed spec fn spec_width(&self) -> u32 {
        self.width
    }

    pub closed spec fn spec_height(&self) -> u32 {
        self.height
    }

    /// The pixel buffer holds exactly one entry per pixel and the surface
    /// is of a supported size.
    pub closed spec fn wf(&self) -> bool {
        &&& self.pixels@.len() == self.width * self.height
        &&& self.width <= MAX_SURFACE_EDGE
        &&& self.height <= MAX_SURFACE_EDGE
    }

    /// The pixel at `(x, y)`, for in-bounds positions.
    pub closed spec fn spec_pixel(&self, x: int, y: int) -> bool {
        self.pixels@[y * self.spec_width() + x]
    }

    /// A fresh, fully dark surface.
    pub fn new(width: u32, height: u32) -> (r: FrameBuffer)
        requires
            width <= MAX_SURFACE_EDGE,
            height <= MAX_SURFACE_EDGE,
        ensures
            r.wf(),
            r.spec_width() == width,
            r.spec_height() == height,
            forall|x: int, y: int|
                0 <= x < width && 0 <= y < height ==> !r.spec_pixel(x, y),
    {
        proof {
            assert(width * height <= MAX_SURFACE_EDGE * MAX_SURFACE_EDGE) by (nonlinear_arith)
                requires
                    width <= MAX_SURFACE_EDGE,
                    height <= MAX_SURFACE_EDGE,
            ;
        }
        let n: usize = (width as usize) * (height as usize);
        let mut pixels: Vec<bool> = Vec::new();
        let mut i: usize = 0;
        while i < n
            invariant
                i <= n,
                pixels@.len() == i,
                forall|k: int| 0 <= k < i ==> !pixels@[k],
            decreases n - i,
        {
            pixels.push(false);
            i += 1;
        }
        let r = FrameBuffer { width, height, pixels };
        proof {
            assert forall|x: int, y: int|
                0 <= x < width && 0 <= y < height implies !r.spec_pixel(x, y) by {
                lemma_pixel_index_bounds(x, y, width as int, height as int);
            }
        }
        r
    }

    pub fn width(&self) -> (r: u32)
        ensures
            r == self.spec_width(),
    {
        self.width
    }

    pub fn height(&self) -> (r: u32)
        ensures
            r == self.spec_height(),
    {
        self.height
    }

    /// The pixel at `(x, y)`; positions off the surface read as dark.
    pub fn get_pixel(&self, x: i64, y: i64) -> (r: bool)
        requires
            self.wf(),
        ensures
            r == if 0 <= x < self.spec_width() && 0 <= y < self.spec_height() {
                self.spec_pixel(x as int, y as int)
            } else {
                false
            },
    {
        if 0 <= x && x < self.width as i64 && 0 <= y && y < self.height as i64 {
            proof {
                lemma_pixel_index_bounds(x as int, y as int, self.width as int, self.height as int);
            }
            let idx: usize = (y as usize) * (self.width as usize) + (x as usize);
            self.pixels[idx]
        } else {
            false
        }
    }

    /// Sets the pixel at `(x, y)`; positions off the surface are ignored.
    pub fn set_pixel(&mut self, x: i64, y: i64, on: bool)
        requires
            old(self).wf(),
        ensures
            final(self).wf(),
            final(self).spec_width() == old(self).spec_width(),
            final(self).spec_height() == old(self).spec_height(),
            forall|px: int, py: int|
                0 <= px < old(self).spec_width() && 0 <= py < old(self).spec_height()
                    ==> final(self).spec_pixel(px, py) == (if px == x && py == y {
                    on
                } else {
                    old(self).spec_pixel(px, py)
                }),
    {
        if 0 <= x && x < self.width as i64 && 0 <= y && y < self.height as i64 {
            proof {
                lemma_pixel_index_bounds(x as int, y as int, self.width as int, self.height as int);
            }
            let idx: usize = (y as usize) * (self.width as usize) + (x as usize);
            self.pixels.set(idx, on);
            proof {
                assert forall|px: int, py: int|
                    0 <= px < old(self).spec_width() && 0 <= py < old(self).spec_height()
                        implies final(self).spec_pixel(px, py) == (if px == x && py == y {
                        on
                    } else {
                        old(self).spec_pixel(px, py)
                    }) by {
                    lemma_pixel_index_bounds(px, py, self.width as int, self.height as int);
                    if px != x as int || py != y as int {
                        lemma_pixel_index_injective(
                            px,
                            py,
                            x as int,
                            y as int,
                            self.width as int,
                        );
                    }
                }
            }
        }
    }

    /// Fills the whole surface with one color.
    pub fn clear(&mut self, on: bool)
        requires
            old(self).wf(),
        ensures
            final(self).wf(),
            final(self).spec_width() == old(self).spec_width(),
            final(self).spec_height() == old(self).spec_height(),
            forall|px: int, py: int|
                0 <= px < old(self).spec_width() && 0 <= py < old(self).spec_height()
                    ==> final(self).spec_pixel(px, py) == on,
    {
        let n: usize = self.pixels.len();
        let mut i: usize = 0;
        while i < n
            invariant
                i <= n,
                self.pixels@.len() == n,
                self.width == old(self).width,
                self.height == old(self).height,
                forall|k: int| 0 <= k < i ==> self.pixels@[k] == on,
            decreases n - i,
        {
            self.pixels.set(i, on);
            i += 1;
        }
        proof {
            assert forall|px: int, py: int|
                0 <= px < old(self).spec_width() && 0 <= py < old(self).spec_height()
                    implies final(self).spec_pixel(px, py) == on by {
                lemma_pixel_index_bounds(px, py, self.width as int, self.height as int);
            }
        }
    }

    /// Fills `area` with one color, clipped to the surface.
    #[verifier::loop_isolation(false)]
    pub fn fill_rect(&mut self, area: &Rectangle, on: bool)
        requires
            old(self).wf(),
        ensures
            final(self).wf(),
            final(self).spec_width() == old(self).spec_width(),
            final(self).spec_height() == old(self).spec_height(),
            forall|px: int, py: int|
                0 <= px < old(self).spec_width() && 0 <= py < old(self).spec_height()
                    ==> final(self).spec_pixel(px, py) == (if rect_contains(*area, px, py) {
                    on
                } else {
                    old(self).spec_pixel(px, py)
                }),
    {
        let ghost orig: FrameBuffer = *self;
        let x0: i64 = if area.top_left.x as i64 > 0 {
            area.top_left.x as i64
        } else {
            0
        };
        let y0: i64 = if area.top_left.y as i64 > 0 {
            area.top_left.y as i64
        } else {
            0
        };
        let xe: i64 = area.top_left.x as i64 + area.size.width as i64;
        let ye: i64 = area.top_left.y as i64 + area.size.height as i64;
        let x1: i64 = if xe < self.width as i64 {
            xe
        } else {
            self.width as i64
        };
        let y1: i64 = if ye < self.height as i64 {
            ye
        } else {
            self.height as i64
        };
        let mut y: i64 = y0;
        while y < y1
            invariant
                self.wf(),
                self.spec_width() == orig.spec_width(),
                self.spec_height() == orig.spec_height(),
                y0 <= y,
                forall|px: int, py: int|
                    0 <= px < orig.spec_width() && 0 <= py < orig.spec_height()
                        ==> #[trigger] self.spec_pixel(px, py) == (if rect_contains(*area, px, py) && py < y {
                        on
                    } else {
                        orig.spec_pixel(px, py)
                    }),
            decreases y1 - y,
        {
            let mut x: i64 = x0;
            proof {
                assert forall|px: int, py: int|
                    0 <= px < orig.spec_width() && 0 <= py < orig.spec_height()
                        implies self.spec_pixel(px, py) == (if rect_contains(*area, px, py) && (py
                        < y || (py == y && px < x)) {
                        on
                    } else {
                        orig.spec_pixel(px, py)
                    }) by {
                    if rect_contains(*area, px, py) && py == y && px < x {
                        assert(px >= area.top_left.x);
                        assert(false);
                    }
                }
            }
            while x < x1
                invariant
                    self.wf(),
                    self.spec_width() == orig.spec_width(),
                    self.spec_height() == orig.spec_height(),
                    x0 <= x,
                    y0 <= y < y1,
                    forall|px: int, py: int|
                        0 <= px < orig.spec_width() && 0 <= py < orig.spec_height()
                            ==> #[trigger] self.spec_pixel(px, py) == (if rect_contains(*area, px, py) && (py
                            < y || (py == y && px < x)) {
                            on
                        } else {
                            orig.spec_pixel(px, py)
                        }),
                decreases x1 - x,
            {
                self.set_pixel(x, y, on);
                proof {
                    assert(rect_contains(*area, x as int, y as int));
                }
                x += 1;
            }
            proof {
                assert forall|px: int, py: int|
                    0 <= px < orig.spec_width() && 0 <= py < orig.spec_height()
                        implies self.spec_pixel(px, py) == (if rect_contains(*area, px, py) && py
                        < y + 1 {
                        on
                    } else {
                        orig.spec_pixel(px, py)
                    }) by {
                    if rect_contains(*area, px, py) && py == y {
                        assert(px >= x0);
                        assert(px < x1);
                    }
                }
            }
            y += 1;
        }
        proof {
            assert forall|px: int, py: int|
                0 <= px < orig.spec_width() && 0 <= py < orig.spec_height()
                    implies final(self).spec_pixel(px, py) == (if rect_contains(*area, px, py) {
                    on
                } else {
                    orig.spec_pixel(px, py)
                }) by {
                if rect_contains(*area, px, py) {
                    assert(py >= y0);
                    assert(py < y1);
                }
            }
        }
    }
}

} // verus!
