//! The pixel buffer the renderer writes into.
//!
//! Pixels are packed RGBA, red in the low byte, alpha in the high byte,
//! stored row-major.  The presentation layer owns putting the buffer on a
//! screen; everything here is plain data.

use vstd::prelude::*;
use vstd::arithmetic::div_mod::{lemma_div_pos_is_pos, lemma_fundamental_div_mod_converse};
use crate::renderer::pix_idx;

verus! {

/// Largest width or height a framebuffer accepts; keeps the row-major index
/// arithmetic inside `usize` on every platform.
pub const FB_DIM_MAX: usize = 16384;

/// Packs four channel bytes into one RGBA word, red lowest.
pub open spec fn spec_rgba(r: int, g: int, b: int, a: int) -> int {
    r + 256 * g + 65536 * b + 16777216 * a
}

/// Packs four channel bytes into one RGBA word, red lowest.
pub fn rgba_to_u32(r: u8, g: u8, b: u8, a: u8) -> (c: u32)
    ensures
        c == spec_rgba(r as int, g as int, b as int, a as int),
{
    (r as u32) + 256 * (g as u32) + 65536 * (b as u32) + 16777216 * (a as u32)
}

/// The red channel of a packed RGBA word.
pub open spec fn spec_red(c: int) -> int {
    c % 256
}

/// The green channel of a packed RGBA word.
pub open spec fn spec_green(c: int) -> int {
    (c / 256) % 256
}

/// The blue channel of a packed RGBA word.
pub open spec fn spec_blue(c: int) -> int {
    (c / 65536) % 256
}

/// The alpha channel of a packed RGBA word.
pub open spec fn spec_alpha(c: int) -> int {
    c / 16777216
}

/// Unpacking a packed word gives back the four channel bytes.
pub proof fn lemma_rgba_roundtrip(r: int, g: int, b: int, a: int)
    requires
        0 <= r < 256,
        0 <= g < 256,
        0 <= b < 256,
        0 <= a < 256,
    ensures
        spec_red(spec_rgba(r, g, b, a)) == r,
        spec_green(spec_rgba(r, g, b, a)) == g,
        spec_blue(spec_rgba(r, g, b, a)) == b,
        spec_alpha(spec_rgba(r, g, b, a)) == a,
        0 <= spec_rgba(r, g, b, a) < 0x1_0000_0000,
{
    let c = spec_rgba(r, g, b, a);
    lemma_fundamental_div_mod_converse(c, 256, g + 256 * b + 65536 * a, r);
    lemma_fundamental_div_mod_converse(c / 256, 256, b + 256 * a, g);
    lemma_fundamental_div_mod_converse(c / 256 / 256, 256, a, b);
    assert(c / 65536 == c / 256 / 256) by {
        lemma_fundamental_div_mod_converse(c / 256 / 256, 256, a, b);
        lemma_fundamental_div_mod_converse(c, 65536, b + 256 * a, r + 256 * g);
    }
    assert(c / 16777216 == a) by {
        lemma_fundamental_div_mod_converse(c, 16777216, a, r + 256 * g + 65536 * b);
    }
}

/// Extracts the four channel bytes of a packed RGBA word.
pub fn unpack_rgba(c: u32) -> (r: (u8, u8, u8, u8))
    ensures
        r.0 == spec_red(c as int),
        r.1 == spec_green(c as int),
        r.2 == spec_blue(c as int),
        r.3 == spec_alpha(c as int),
{
    proof {
        lemma_div_pos_is_pos(c as int, 256);
        lemma_div_pos_is_pos(c as int, 65536);
        lemma_div_pos_is_pos(c as int, 16777216);
    }
    ((c % 256) as u8, ((c / 256) % 256) as u8, ((c / 65536) % 256) as u8, (c / 16777216) as u8)
}

/// A row-major RGBA pixel buffer with a background and a current draw color.
pub struct Framebuffer {
    /// Width in pixels.
    pub width: usize,
    /// Height in pixels.
    pub height: usize,
    /// The pixels, row-major: index `y * width + x`.
    pub pixels: Vec<u32>,
    /// The color `clear` fills with.
    pub background_color: u32,
    /// The color `set_pixel` writes.
    pub current_color: u32,
}

impl Framebuffer {
    /// The buffer length matches the dimensions and both stay within
    /// `FB_DIM_MAX`.
    pub open spec fn wf(self) -> bool {
        &&& self.pixels@.len() == self.width * self.height
        &&& 0 < self.width <= FB_DIM_MAX as int
        &&& 0 < self.height <= FB_DIM_MAX as int
    }

    /// The pixel at a column and row.
    pub open spec fn pixel(self, x: int, y: int) -> u32 {
        self.pixels@[y * self.width + x]
    }

    /// Dimensions and both colors carried over unchanged.
    pub open spec fn same_shape(self, other: Framebuffer) -> bool {
        &&& self.width == other.width
        &&& self.height == other.height
        &&& self.background_color == other.background_color
        &&& self.current_color == other.current_color
        &&& self.pixels@.len() == other.pixels@.len()
    }

    /// A fresh buffer filled with the background color.
    pub fn new(width: usize, height: usize, background_color: u32) -> (fb: Framebuffer)
        requires
            0 < width <= FB_DIM_MAX as int,
            0 < height <= FB_DIM_MAX as int,
        ensures
            fb.wf(),
            fb.width == width,
            fb.height == height,
            fb.background_color == background_color,
            forall|i: int| 0 <= i < fb.pixels@.len() ==> fb.pixels@[i] == background_color,
    {
        proof {
            assert(width * height <= 16384 * 16384) by (nonlinear_arith)
                requires
                    0 < width <= 16384,
                    0 < height <= 16384,
            ;
        }
        let n: usize = width * height;
        let mut pixels: Vec<u32> = Vec::new();
        let mut i: usize = 0;
        while i < n
            invariant
                i == pixels@.len() <= n,
                forall|j: int| 0 <= j < i ==> pixels@[j] == background_color,
            decreases n - i,
        {
            pixels.push(background_color);
            i += 1;
        }
        Framebuffer { width, height, pixels, background_color, current_color: 0xffff_ffffu32 }
    }

    /// Fills every pixel with the background color.
    pub fn clear(&mut self)
        requires
            old(self).wf(),
        ensures
            final(self).wf(),
            final(self).same_shape(*old(self)),
            forall|i: int|
                0 <= i < final(self).pixels@.len()
                    ==> final(self).pixels@[i] == old(self).background_color,
    {
        let n: usize = self.pixels.len();
        let mut i: usize = 0;
        while i < n
            invariant
                n == self.pixels@.len(),
                self.wf(),
                self.same_shape(*old(self)),
                self.background_color == old(self).background_color,
                forall|j: int| 0 <= j < i ==> self.pixels@[j] == self.background_color,
            decreases n - i,
        {
            let bg = self.background_color;
            self.pixels[i] = bg;
            i += 1;
        }
    }

    /// Writes one pixel in the given color; a point outside the buffer is
    /// skipped.
    pub fn set_pixel_fast(&mut self, x: usize, y: usize, color: u32)
        requires
            old(self).wf(),
        ensures
            final(self).wf(),
            final(self).same_shape(*old(self)),
            final(self).pixels@ == if x < old(self).width && y < old(self).height {
                old(self).pixels@.update(y * old(self).width + x, color)
            } else {
                old(self).pixels@
            },
    {
        if x < self.width && y < self.height {
            proof {
                lemma_row_major_index(self.width as int, self.height as int, x as int, y as int);
            }
            let idx: usize = y * self.width + x;
            self.pixels[idx] = color;
        }
    }

    /// Writes one pixel in the current draw color; a point outside the buffer
    /// is skipped.
    pub fn set_pixel(&mut self, x: usize, y: usize)
        requires
            old(self).wf(),
        ensures
            final(self).wf(),
            final(self).same_shape(*old(self)),
            final(self).pixels@ == if x < old(self).width && y < old(self).height {
                old(self).pixels@.update(y * old(self).width + x, old(self).current_color)
            } else {
                old(self).pixels@
            },
    {
        let c = self.current_color;
        self.set_pixel_fast(x, y, c);
    }

    /// Sets the color `clear` fills with.
    pub fn set_background_color(&mut self, color: u32)
        ensures
            *final(self) == (Framebuffer { background_color: color, ..*old(self) }),
    {
        self.background_color = color;
    }

    /// Sets the color `set_pixel` writes.
    pub fn set_current_color(&mut self, color: u32)
        ensures
            *final(self) == (Framebuffer { current_color: color, ..*old(self) }),
    {
        self.current_color = color;
    }

    /// Writes the rows `y0..=y1` of one column in the given color; the rows
    /// must lie inside the buffer.
    pub fn draw_vertical_line(&mut self, x: usize, y0: usize, y1: usize, color: u32)
        requires
            old(self).wf(),
            x < old(self).width,
            y0 <= y1 < old(self).height,
        ensures
            final(self).wf(),
            final(self).same_shape(*old(self)),
            forall|i: int|
                0 <= i < final(self).pixels@.len() ==> final(self).pixels@[i] == if exists|y: int|
                    y0 <= y <= y1 && i == #[trigger] (y * old(self).width) + x {
                    color
                } else {
                    old(self).pixels@[i]
                },
    {
        let mut y: usize = y0;
        while y <= y1
            invariant
                self.wf(),
                self.same_shape(*old(self)),
                x < self.width,
                y0 <= y <= y1 + 1,
                y1 < self.height,
                forall|i: int|
                    0 <= i < self.pixels@.len() ==> self.pixels@[i] == if exists|yy: int|
                        y0 <= yy < y && i == #[trigger] (yy * old(self).width) + x {
                        color
                    } else {
                        old(self).pixels@[i]
                    },
            decreases y1 + 1 - y,
        {
            proof {
                lemma_row_major_index(self.width as int, self.height as int, x as int, y as int);
            }
            let idx: usize = y * self.width + x;
            self.pixels[idx] = color;
            proof {
                assert forall|i: int| 0 <= i < self.pixels@.len() implies self.pixels@[i]
                    == if exists|yy: int| y0 <= yy < y + 1 && i == #[trigger] (yy * old(self).width) + x {
                    color
                } else {
                    old(self).pixels@[i]
                } by {
                    if i == y * old(self).width + x {
                        assert(y0 <= y < y + 1 && i == y * old(self).width + x);
                    } else {
                        if exists|yy: int| y0 <= yy < y + 1 && i == #[trigger] (yy * old(self).width) + x {
                            let yy = choose|yy: int|
                                y0 <= yy < y + 1 && i == #[trigger] (yy * old(self).width) + x;
                            assert(yy < y);
                        }
                    }
                }
            }
            y += 1;
        }
    }
}

/// The number of interpolation steps of a pixel segment: the larger of the
/// two coordinate spans.
pub open spec fn spec_line_steps(x0: int, y0: int, x1: int, y1: int) -> int {
    let ax = if x1 - x0 >= 0 {
        x1 - x0
    } else {
        x0 - x1
    };
    let ay = if y1 - y0 >= 0 {
        y1 - y0
    } else {
        y0 - y1
    };
    if ax > ay {
        ax
    } else {
        ay
    }
}

/// The coordinate of the `i`-th interpolated point along one axis.
pub open spec fn spec_line_coord(c0: int, c1: int, steps: int, i: int) -> int {
    if steps == 0 {
        c0
    } else {
        c0 + crate::fixed::div_trunc(i * (c1 - c0), steps)
    }
}

/// Whether a pixel lies on the interpolated segment from `(x0, y0)` to
/// `(x1, y1)`.
pub open spec fn spec_on_line(x0: int, y0: int, x1: int, y1: int, px: int, py: int) -> bool {
    let steps = spec_line_steps(x0, y0, x1, y1);
    exists|i: int|
        0 <= i <= steps && #[trigger] spec_line_coord(x0, x1, steps, i) == px && spec_line_coord(
            y0,
            y1,
            steps,
            i,
        ) == py
}

impl Framebuffer {
    /// Draws an interpolated line between two pixel points in the given
    /// color: every in-screen pixel on the segment takes the color, every
    /// other pixel keeps its value.
    pub fn draw_line(&mut self, x0: i64, y0: i64, x1: i64, y1: i64, color: u32)
        requires
            old(self).wf(),
            -0x10000 <= x0 <= 0x10000,
            -0x10000 <= y0 <= 0x10000,
            -0x10000 <= x1 <= 0x10000,
            -0x10000 <= y1 <= 0x10000,
        ensures
            final(self).wf(),
            final(self).same_shape(*old(self)),
            forall|px: int, py: int|
                0 <= px < old(self).width && 0 <= py < old(self).height ==> final(self).pixels@[
                    #[trigger] pix_idx(old(self).width as int, px, py)
                ] == (if spec_on_line(x0 as int, y0 as int, x1 as int, y1 as int, px, py) {
                    color
                } else {
                    old(self).pixels@[pix_idx(old(self).width as int, px, py)]
                }),
    {
        let ghost w = self.width as int;
        let ghost h = self.height as int;
        let ghost pix0 = self.pixels@;
        let dx = x1 - x0;
        let dy = y1 - y0;
        let ax = if dx >= 0 {
            dx
        } else {
            -dx
        };
        let ay = if dy >= 0 {
            dy
        } else {
            -dy
        };
        let steps: i64 = if ax > ay {
            ax
        } else {
            ay
        };
        let mut i: i64 = 0;
        while i <= steps
            invariant
                self.wf(),
                self.same_shape(*old(self)),
                w == self.width as int,
                h == self.height as int,
                pix0 == old(self).pixels@,
                pix0.len() == self.pixels@.len(),
                0 <= i <= steps + 1,
                0 <= steps <= 0x20000,
                steps == spec_line_steps(x0 as int, y0 as int, x1 as int, y1 as int),
                -0x10000 <= x0 <= 0x10000,
                -0x10000 <= y0 <= 0x10000,
                -0x20000 <= dx <= 0x20000,
                -0x20000 <= dy <= 0x20000,
                dx == x1 - x0,
                dy == y1 - y0,
                forall|px: int, py: int|
                    0 <= px < w && 0 <= py < h ==> self.pixels@[#[trigger] pix_idx(w, px, py)]
                        == (if exists|j: int|
                        0 <= j < i && #[trigger] spec_line_coord(
                            x0 as int,
                            x1 as int,
                            steps as int,
                            j,
                        ) == px && spec_line_coord(y0 as int, y1 as int, steps as int, j) == py {
                        color
                    } else {
                        pix0[pix_idx(w, px, py)]
                    }),
            decreases steps + 1 - i,
        {
            let (lx, ly): (i64, i64) = if steps == 0 {
                (x0, y0)
            } else {
                proof {
                    crate::fixed::lemma_mul_bound(i as int, dx as int, 0x20000);
                    crate::fixed::lemma_mul_bound(i as int, dy as int, 0x20000);
                    crate::fixed::lemma_div_trunc_bound((i * dx) as int, steps as int);
                    crate::fixed::lemma_div_trunc_bound((i * dy) as int, steps as int);
                }
                let ox = crate::fixed::div_trunc_i64(i * dx, steps);
                let oy = crate::fixed::div_trunc_i64(i * dy, steps);
                (x0 + ox, y0 + oy)
            };
            proof {
                assert(lx as int == spec_line_coord(x0 as int, x1 as int, steps as int, i as int));
                assert(ly as int == spec_line_coord(y0 as int, y1 as int, steps as int, i as int));
            }
            let ghost before = self.pixels@;
            if lx >= 0 && ly >= 0 && lx < self.width as i64 && ly < self.height as i64 {
                self.set_pixel_fast(lx as usize, ly as usize, color);
                proof {
                    lemma_row_major_index(w, h, lx as int, ly as int);
                    assert(self.pixels@ == before.update(pix_idx(w, lx as int, ly as int), color));
                }
            }
            proof {
                assert forall|px: int, py: int|
                    0 <= px < w && 0 <= py < h implies self.pixels@[#[trigger] pix_idx(w, px, py)]
                    == (if exists|j: int|
                    0 <= j < i + 1 && #[trigger] spec_line_coord(
                        x0 as int,
                        x1 as int,
                        steps as int,
                        j,
                    ) == px && spec_line_coord(y0 as int, y1 as int, steps as int, j) == py {
                    color
                } else {
                    pix0[pix_idx(w, px, py)]
                }) by {
                    lemma_row_major_index(w, h, px, py);
                    if px == lx as int && py == ly as int {
                        // The point just drawn: in-screen, so it was written.
                        assert(self.pixels@[pix_idx(w, px, py)] == color);
                        assert(spec_line_coord(x0 as int, x1 as int, steps as int, i as int) == px
                            && spec_line_coord(y0 as int, y1 as int, steps as int, i as int)
                            == py);
                    } else {
                        if lx >= 0 && ly >= 0 && lx < w && ly < h {
                            lemma_index_unique(w, py, px, ly as int, lx as int);
                            assert(self.pixels@[pix_idx(w, px, py)] == before[pix_idx(w, px, py)]);
                        } else {
                            assert(self.pixels@[pix_idx(w, px, py)] == before[pix_idx(w, px, py)]);
                        }
                        if exists|j: int|
                            0 <= j < i + 1 && #[trigger] spec_line_coord(
                                x0 as int,
                                x1 as int,
                                steps as int,
                                j,
                            ) == px && spec_line_coord(y0 as int, y1 as int, steps as int, j)
                                == py {
                            let j = choose|j: int|
                                0 <= j < i + 1 && #[trigger] spec_line_coord(
                                    x0 as int,
                                    x1 as int,
                                    steps as int,
                                    j,
                                ) == px && spec_line_coord(y0 as int, y1 as int, steps as int, j)
                                    == py;
                            assert(j != i as int);
                        }
                    }
                }
            }
            i += 1;
        }
        proof {
            // At the end every segment index has been visited: the painted
            // set is exactly the segment.
            assert forall|px: int, py: int|
                0 <= px < w && 0 <= py < h implies self.pixels@[#[trigger] pix_idx(w, px, py)]
                == (if spec_on_line(x0 as int, y0 as int, x1 as int, y1 as int, px, py) {
                color
            } else {
                pix0[pix_idx(w, px, py)]
            }) by {
                if spec_on_line(x0 as int, y0 as int, x1 as int, y1 as int, px, py) {
                    let j = choose|j: int|
                        0 <= j <= steps as int && #[trigger] spec_line_coord(
                            x0 as int,
                            x1 as int,
                            steps as int,
                            j,
                        ) == px && spec_line_coord(y0 as int, y1 as int, steps as int, j) == py;
                    assert(0 <= j < i && spec_line_coord(x0 as int, x1 as int, steps as int, j)
                        == px && spec_line_coord(y0 as int, y1 as int, steps as int, j) == py);
                } else {
                    if exists|j: int|
                        0 <= j < i && #[trigger] spec_line_coord(
                            x0 as int,
                            x1 as int,
                            steps as int,
                            j,
                        ) == px && spec_line_coord(y0 as int, y1 as int, steps as int, j) == py {
                        let j = choose|j: int|
                            0 <= j < i && #[trigger] spec_line_coord(
                                x0 as int,
                                x1 as int,
                                steps as int,
                                j,
                            ) == px && spec_line_coord(y0 as int, y1 as int, steps as int, j)
                                == py;
                        assert(0 <= j <= steps as int && spec_line_coord(
                            x0 as int,
                            x1 as int,
                            steps as int,
                            j,
                        ) == px && spec_line_coord(y0 as int, y1 as int, steps as int, j) == py);
                        assert(false);
                    }
                }
            }
        }
    }
}

/// Row-major indices decompose uniquely/// Row-major indices decompose uniquely into a row and a column.
pub proof fn lemma_index_unique(w: int, y1: int, c1: int, y2: int, c2: int)
    requires
        0 < w,
        0 <= c1 < w,
        0 <= c2 < w,
        0 <= y1,
        0 <= y2,
    ensures
        (y1 * w + c1 == y2 * w + c2) <==> (y1 == y2 && c1 == c2),
{
    lemma_fundamental_div_mod_converse(y1 * w + c1, w, y1, c1);
    lemma_fundamental_div_mod_converse(y2 * w + c2, w, y2, c2);
}

/// A row-major index from in-range coordinates stays inside the buffer.
pub proof fn lemma_row_major_index(width: int, height: int, x: int, y: int)
    requires
        0 <= x < width,
        0 <= y < height,
    ensures
        0 <= y * width + x < width * height,
        y * width + x < 0x1000_0000 || width > FB_DIM_MAX as int || height > FB_DIM_MAX as int,
{
    assert(0 <= y * width + x && y * width + x < width * height) by (nonlinear_arith)
        requires
            0 <= x < width,
            0 <= y < height,
    ;
    if width <= FB_DIM_MAX as int && height <= FB_DIM_MAX as int {
        assert(y * width + x < 0x1000_0000) by (nonlinear_arith)
            requires
                0 <= x < width <= 16384,
                0 <= y < height <= 16384,
        ;
    }
}

} // verus!
