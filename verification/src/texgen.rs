//! Procedural textures: brick, stone, wood grain, floor tiles, and a night
//! sky, generated analytically so the renderer works without asset files.
//!
//! Every generator's contract gives the pixels as one canonical sequence, so
//! generating twice yields pixel-identical textures; that determinism is
//! stated as a lemma at the end.

use vstd::prelude::*;
use crate::fixed::{FP_ONE, lemma_div_le};
use crate::framebuffer::spec_rgba;
use crate::angle::{ANGLE_FULL, spec_sin, sin_angle};
use crate::texture::{TextureData, TextureManager, spec_lookup};

verus! {

/// Roughly one radian in angle units: the scale the wood grain uses to feed
/// whole-number phases into the sine.
pub const ANGLE_RADIAN: i64 = 10430;

/// The brick pattern: staggered courses with dark mortar borders.
pub open spec fn spec_brick_pixel(w: int, h: int, idx: int) -> int {
    let x = idx % w;
    let y = idx / w;
    let bw = w / 8;
    let bh = h / 4;
    let offset = if (y / bh) % 2 == 0 {
        0int
    } else {
        bw / 2
    };
    let lx = (x + offset) % bw;
    let ly = y % bh;
    if lx < 2 || lx >= bw - 2 || ly < 2 || ly >= bh - 2 {
        spec_rgba(101, 67, 33, 255)
    } else {
        spec_rgba(139, 69, 19, 255)
    }
}

/// The stone pattern: a small arithmetic noise over a mid gray.
pub open spec fn spec_stone_pixel(w: int, h: int, idx: int) -> int {
    let x = idx % w;
    let y = idx / w;
    let gray = 128 + (x * 17 + y * 23) % 64;
    spec_rgba(gray, gray, gray, 255)
}

/// The wood pattern: a sine grain along one axis with a faint cross ripple,
/// shaded into browns.
pub open spec fn spec_wood_pixel(w: int, h: int, horizontal: bool, idx: int) -> int {
    let x = idx % w;
    let y = idx / w;
    let main = if horizontal {
        x
    } else {
        y
    };
    let cross = if horizontal {
        y
    } else {
        x
    };
    let period = if horizontal {
        w / 8
    } else {
        h / 8
    };
    let grain = spec_sin((main % period) * (ANGLE_RADIAN as int) / period);
    let ripple = spec_sin((cross * ((ANGLE_RADIAN as int) / 10)) % (ANGLE_FULL as int));
    let ripple_abs = if ripple >= 0 {
        ripple
    } else {
        -ripple
    };
    let value = 139 * (FP_ONE as int) + grain * 40 + (ripple_abs / 10) * 20;
    let r = clamp_channel(value / (FP_ONE as int), 100, 180);
    let g = clamp_channel(value / 2 / (FP_ONE as int), 50, 120);
    let b = clamp_channel(value / 5 / (FP_ONE as int), 10, 60);
    spec_rgba(r, g, b, 255)
}

/// A value pinned into `[lo, hi]`.
pub open spec fn clamp_channel(v: int, lo: int, hi: int) -> int {
    if v < lo {
        lo
    } else if v > hi {
        hi
    } else {
        v
    }
}

/// The floor pattern: a checkerboard of tiles with darker seams.
pub open spec fn spec_floor_pixel(w: int, h: int, idx: int) -> int {
    let x = idx % w;
    let y = idx / w;
    let ts = w / 4;
    let base = if ((x / ts) + (y / ts)) % 2 == 0 {
        40int
    } else {
        80int
    };
    let lx = x % ts;
    let ly = y % ts;
    let col = if lx < 2 || lx >= ts - 2 || ly < 2 || ly >= ts - 2 {
        base - 10
    } else {
        base
    };
    spec_rgba(col, col, col, 255)
}

/// The sky gradient: near-black violet at the top, brightening blue toward
/// the horizon, in three vertical zones.
pub open spec fn spec_sky_pixel(w: int, h: int, idx: int) -> int {
    let y = idx / w;
    if 10 * y < 3 * h {
        let inten = 250 * y / (3 * h);
        spec_rgba(inten, inten / 2, 40 + inten, 255)
    } else if 10 * y < 7 * h {
        let blue = 60 + (10 * y - 3 * h) * 10 / h;
        let purple = 40 - (10 * y - 3 * h) * 10 / h;
        spec_rgba(purple, purple / 2, blue, 255)
    } else {
        let blue = 100 + (10 * y - 7 * h) * 40 / (3 * h);
        let gray = (10 * y - 7 * h) * 10 / h;
        spec_rgba(gray, gray, blue, 255)
    }
}

/// A channel value pinned into `[lo, hi]`.
fn clamp_u8(v: i64, lo: u8, hi: u8) -> (r: u8)
    requires
        lo <= hi,
    ensures
        r as int == clamp_channel(v as int, lo as int, hi as int),
{
    if v < lo as i64 {
        lo
    } else if v > hi as i64 {
        hi
    } else {
        v as u8
    }
}

/// The number of pixels of a texture within `TEX_DIM_MAX` fits comfortably
/// in every index type used here.
proof fn lemma_pixel_count(w: int, h: int)
    requires
        0 < w <= 4096,
        0 < h <= 4096,
    ensures
        0 < w * h <= 16777216,
{
    assert(0 < w * h <= 16777216) by (nonlinear_arith)
        requires
            0 < w <= 4096,
            0 < h <= 4096,
    ;
}

/// Generates the brick wall texture.
pub fn generate_brick_texture(w: u32, h: u32) -> (r: TextureData)
    requires
        8 <= w <= 4096,
        4 <= h <= 4096,
    ensures
        r.wf(),
        r.width == w,
        r.height == h,
        r.pixels@ == Seq::new(
            ((w as int) * (h as int)) as nat,
            |i: int| spec_brick_pixel(w as int, h as int, i) as u32,
        ),
{
    proof {
        lemma_pixel_count(w as int, h as int);
    }
    let n: usize = (w as usize) * (h as usize);
    let mut pixels: Vec<u32> = Vec::new();
    let mut idx: usize = 0;
    while idx < n
        invariant
            idx == pixels@.len() <= n,
            n == (w as int) * (h as int),
            n <= 16777216,
            8 <= w <= 4096,
            4 <= h <= 4096,
            forall|j: int|
                0 <= j < idx ==> pixels@[j] == spec_brick_pixel(w as int, h as int, j) as u32,
        decreases n - idx,
    {
        let x: u32 = (idx as u32) % w;
        let y: u32 = (idx as u32) / w;
        let bw: u32 = w / 8;
        let bh: u32 = h / 4;
        let offset: u32 = if (y / bh) % 2 == 0 {
            0
        } else {
            bw / 2
        };
        let lx: u32 = (x + offset) % bw;
        let ly: u32 = y % bh;
        let border = lx < 2 || lx + 2 >= bw || ly < 2 || ly + 2 >= bh;
        let c: u32 = if border {
            crate::framebuffer::rgba_to_u32(101, 67, 33, 255)
        } else {
            crate::framebuffer::rgba_to_u32(139, 69, 19, 255)
        };
        pixels.push(c);
        idx += 1;
    }
    proof {
        assert(pixels@ =~= Seq::new(
            ((w as int) * (h as int)) as nat,
            |i: int| spec_brick_pixel(w as int, h as int, i) as u32,
        ));
    }
    TextureData { width: w, height: h, pixels }
}

/// Generates the stone wall texture.
pub fn generate_stone_texture(w: u32, h: u32) -> (r: TextureData)
    requires
        1 <= w <= 4096,
        1 <= h <= 4096,
    ensures
        r.wf(),
        r.width == w,
        r.height == h,
        r.pixels@ == Seq::new(
            ((w as int) * (h as int)) as nat,
            |i: int| spec_stone_pixel(w as int, h as int, i) as u32,
        ),
{
    proof {
        lemma_pixel_count(w as int, h as int);
    }
    let n: usize = (w as usize) * (h as usize);
    let mut pixels: Vec<u32> = Vec::new();
    let mut idx: usize = 0;
    while idx < n
        invariant
            idx == pixels@.len() <= n,
            n == (w as int) * (h as int),
            n <= 16777216,
            1 <= w <= 4096,
            1 <= h <= 4096,
            forall|j: int|
                0 <= j < idx ==> pixels@[j] == spec_stone_pixel(w as int, h as int, j) as u32,
        decreases n - idx,
    {
        let x: u32 = (idx as u32) % w;
        let y: u32 = (idx as u32) / w;
        let gray: u32 = 128 + (x * 17 + y * 23) % 64;
        let g8: u8 = gray as u8;
        let c: u32 = crate::framebuffer::rgba_to_u32(g8, g8, g8, 255);
        pixels.push(c);
        idx += 1;
    }
    proof {
        assert(pixels@ =~= Seq::new(
            ((w as int) * (h as int)) as nat,
            |i: int| spec_stone_pixel(w as int, h as int, i) as u32,
        ));
    }
    TextureData { width: w, height: h, pixels }
}

/// Generates a wood-grain wall texture, grained along the given axis.
pub fn generate_wood_texture(w: u32, h: u32, horizontal: bool) -> (r: TextureData)
    requires
        8 <= w <= 4096,
        8 <= h <= 4096,
    ensures
        r.wf(),
        r.width == w,
        r.height == h,
        r.pixels@ == Seq::new(
            ((w as int) * (h as int)) as nat,
            |i: int| spec_wood_pixel(w as int, h as int, horizontal, i) as u32,
        ),
{
    proof {
        lemma_pixel_count(w as int, h as int);
    }
    let n: usize = (w as usize) * (h as usize);
    let mut pixels: Vec<u32> = Vec::new();
    let mut idx: usize = 0;
    while idx < n
        invariant
            idx == pixels@.len() <= n,
            n == (w as int) * (h as int),
            n <= 16777216,
            8 <= w <= 4096,
            8 <= h <= 4096,
            forall|j: int|
                0 <= j < idx ==> pixels@[j] == spec_wood_pixel(
                    w as int,
                    h as int,
                    horizontal,
                    j,
                ) as u32,
        decreases n - idx,
    {
        let x: u32 = (idx as u32) % w;
        let y: u32 = (idx as u32) / w;
        let main: u32 = if horizontal {
            x
        } else {
            y
        };
        let cross: u32 = if horizontal {
            y
        } else {
            x
        };
        let period: u32 = if horizontal {
            w / 8
        } else {
            h / 8
        };
        proof {
            vstd::arithmetic::div_mod::lemma_mod_bound(main as int, period as int);
            lemma_div_le(
                ((main as int) % (period as int)) * (ANGLE_RADIAN as int),
                ANGLE_RADIAN as int,
                period as int,
            );
            assert(((main as int) % (period as int)) * (ANGLE_RADIAN as int) <= (ANGLE_RADIAN
                as int) * (period as int)) by (nonlinear_arith)
                requires
                    0 <= (main as int) % (period as int) < period as int,
            ;
            vstd::arithmetic::div_mod::lemma_div_pos_is_pos(
                ((main as int) % (period as int)) * (ANGLE_RADIAN as int),
                period as int,
            );
        }
        let phase: i64 = (((main % period) as i64) * ANGLE_RADIAN) / (period as i64);
        let grain: i64 = sin_angle(phase);
        proof {
            vstd::arithmetic::div_mod::lemma_mod_bound(
                (cross as int) * ((ANGLE_RADIAN as int) / 10),
                ANGLE_FULL as int,
            );
        }
        let cr: i64 = ((cross as i64) * (ANGLE_RADIAN / 10)) % ANGLE_FULL;
        let ripple: i64 = sin_angle(cr);
        let ripple_abs: i64 = if ripple >= 0 {
            ripple
        } else {
            -ripple
        };
        let value: i64 = 139 * FP_ONE + grain * 40 + (ripple_abs / 10) * 20;
        let r8: u8 = clamp_u8(value / FP_ONE, 100, 180);
        let g8: u8 = clamp_u8(value / 2 / FP_ONE, 50, 120);
        let b8: u8 = clamp_u8(value / 5 / FP_ONE, 10, 60);
        let c: u32 = crate::framebuffer::rgba_to_u32(r8, g8, b8, 255);
        pixels.push(c);
        idx += 1;
    }
    proof {
        assert(pixels@ =~= Seq::new(
            ((w as int) * (h as int)) as nat,
            |i: int| spec_wood_pixel(w as int, h as int, horizontal, i) as u32,
        ));
    }
    TextureData { width: w, height: h, pixels }
}

/// Generates the checkerboard floor texture.
pub fn generate_floor_texture(w: u32, h: u32) -> (r: TextureData)
    requires
        4 <= w <= 4096,
        1 <= h <= 4096,
    ensures
        r.wf(),
        r.width == w,
        r.height == h,
        r.pixels@ == Seq::new(
            ((w as int) * (h as int)) as nat,
            |i: int| spec_floor_pixel(w as int, h as int, i) as u32,
        ),
{
    proof {
        lemma_pixel_count(w as int, h as int);
    }
    let n: usize = (w as usize) * (h as usize);
    let mut pixels: Vec<u32> = Vec::new();
    let mut idx: usize = 0;
    while idx < n
        invariant
            idx == pixels@.len() <= n,
            n == (w as int) * (h as int),
            n <= 16777216,
            4 <= w <= 4096,
            1 <= h <= 4096,
            forall|j: int|
                0 <= j < idx ==> pixels@[j] == spec_floor_pixel(w as int, h as int, j) as u32,
        decreases n - idx,
    {
        let x: u32 = (idx as u32) % w;
        let y: u32 = (idx as u32) / w;
        let ts: u32 = w / 4;
        let base: u32 = if ((x / ts) + (y / ts)) % 2 == 0 {
            40
        } else {
            80
        };
        let lx: u32 = x % ts;
        let ly: u32 = y % ts;
        let col: u32 = if lx < 2 || lx + 2 >= ts || ly < 2 || ly + 2 >= ts {
            base - 10
        } else {
            base
        };
        let c8: u8 = col as u8;
        let c: u32 = crate::framebuffer::rgba_to_u32(c8, c8, c8, 255);
        pixels.push(c);
        idx += 1;
    }
    proof {
        assert(pixels@ =~= Seq::new(
            ((w as int) * (h as int)) as nat,
            |i: int| spec_floor_pixel(w as int, h as int, i) as u32,
        ));
    }
    TextureData { width: w, height: h, pixels }
}

/// Generates the night-sky ceiling texture.
pub fn generate_sky_texture(w: u32, h: u32) -> (r: TextureData)
    requires
        1 <= w <= 4096,
        1 <= h <= 4096,
    ensures
        r.wf(),
        r.width == w,
        r.height == h,
        r.pixels@ == Seq::new(
            ((w as int) * (h as int)) as nat,
            |i: int| spec_sky_pixel(w as int, h as int, i) as u32,
        ),
{
    proof {
        lemma_pixel_count(w as int, h as int);
    }
    let n: usize = (w as usize) * (h as usize);
    let mut pixels: Vec<u32> = Vec::new();
    let mut idx: usize = 0;
    while idx < n
        invariant
            idx == pixels@.len() <= n,
            n == (w as int) * (h as int),
            n <= 16777216,
            1 <= w <= 4096,
            1 <= h <= 4096,
            forall|j: int|
                0 <= j < idx ==> pixels@[j] == spec_sky_pixel(w as int, h as int, j) as u32,
        decreases n - idx,
    {
        let y: u32 = (idx as u32) / w;
        proof {
            vstd::arithmetic::div_mod::lemma_multiply_divide_lt(
                idx as int,
                w as int,
                h as int,
            );
        }
        let c: u32 = if 10 * y < 3 * h {
            proof {
                vstd::arithmetic::div_mod::lemma_multiply_divide_lt(
                    250 * (y as int),
                    3 * (h as int),
                    25,
                );
                vstd::arithmetic::div_mod::lemma_div_pos_is_pos(250 * (y as int), 3 * (h as int));
            }
            let inten: u32 = (250 * y) / (3 * h);
            crate::framebuffer::rgba_to_u32(inten as u8, (inten / 2) as u8, (40 + inten) as u8, 255)
        } else if 10 * y < 7 * h {
            proof {
                vstd::arithmetic::div_mod::lemma_multiply_divide_lt(
                    (10 * (y as int) - 3 * (h as int)) * 10,
                    h as int,
                    40,
                );
                vstd::arithmetic::div_mod::lemma_div_pos_is_pos(
                    (10 * (y as int) - 3 * (h as int)) * 10,
                    h as int,
                );
            }
            let q: u32 = ((10 * y - 3 * h) * 10) / h;
            let blue: u32 = 60 + q;
            let purple: u32 = 40 - q;
            crate::framebuffer::rgba_to_u32(purple as u8, (purple / 2) as u8, blue as u8, 255)
        } else {
            proof {
                vstd::arithmetic::div_mod::lemma_multiply_divide_lt(
                    (10 * (y as int) - 7 * (h as int)) * 40,
                    3 * (h as int),
                    40,
                );
                vstd::arithmetic::div_mod::lemma_div_pos_is_pos(
                    (10 * (y as int) - 7 * (h as int)) * 40,
                    3 * (h as int),
                );
                vstd::arithmetic::div_mod::lemma_multiply_divide_lt(
                    (10 * (y as int) - 7 * (h as int)) * 10,
                    h as int,
                    30,
                );
                vstd::arithmetic::div_mod::lemma_div_pos_is_pos(
                    (10 * (y as int) - 7 * (h as int)) * 10,
                    h as int,
                );
            }
            let blue: u32 = 100 + ((10 * y - 7 * h) * 40) / (3 * h);
            let gray: u32 = ((10 * y - 7 * h) * 10) / h;
            crate::framebuffer::rgba_to_u32(gray as u8, gray as u8, blue as u8, 255)
        };
        pixels.push(c);
        idx += 1;
    }
    proof {
        assert(pixels@ =~= Seq::new(
            ((w as int) * (h as int)) as nat,
            |i: int| spec_sky_pixel(w as int, h as int, i) as u32,
        ));
    }
    TextureData { width: w, height: h, pixels }
}

/// A texture whose shape and every pixel are pinned to a canonical sequence.
pub open spec fn tex_is(t: Option<TextureData>, w: int, h: int, pix: Seq<u32>) -> bool {
    match t {
        Some(t) => t.width == w && t.height == h && t.pixels@ == pix,
        None => false,
    }
}

/// The canonical brick default pixels.
pub open spec fn default_brick_pixels() -> Seq<u32> {
    Seq::new(4096nat, |i: int| spec_brick_pixel(64, 64, i) as u32)
}

/// The canonical stone default pixels.
pub open spec fn default_stone_pixels() -> Seq<u32> {
    Seq::new(4096nat, |i: int| spec_stone_pixel(64, 64, i) as u32)
}

/// The canonical wood default pixels, grained along the given axis.
pub open spec fn default_wood_pixels(horizontal: bool) -> Seq<u32> {
    Seq::new(4096nat, |i: int| spec_wood_pixel(64, 64, horizontal, i) as u32)
}

/// The canonical floor default pixels.
pub open spec fn default_floor_pixels() -> Seq<u32> {
    Seq::new(4096nat, |i: int| spec_floor_pixel(64, 64, i) as u32)
}

/// The canonical sky default pixels.
pub open spec fn default_sky_pixels() -> Seq<u32> {
    Seq::new(32768nat, |i: int| spec_sky_pixel(256, 128, i) as u32)
}

/// What `generate_default_textures` leaves in an atlas: brick, stone and the
/// two wood grains bound to their wall symbols, floor tiles, and the sky,
/// each pixel-identical to its canonical sequence.
pub open spec fn spec_defaults_present(m: TextureManager) -> bool {
    &&& tex_is(spec_lookup(m.wall_textures@, '+'), 64, 64, default_brick_pixels())
    &&& tex_is(spec_lookup(m.wall_textures@, '#'), 64, 64, default_stone_pixels())
    &&& tex_is(spec_lookup(m.wall_textures@, '-'), 64, 64, default_wood_pixels(true))
    &&& tex_is(spec_lookup(m.wall_textures@, '|'), 64, 64, default_wood_pixels(false))
    &&& tex_is(m.floor_texture, 64, 64, default_floor_pixels())
    &&& tex_is(m.ceiling_texture, 256, 128, default_sky_pixels())
}

impl TextureManager {
    /// Fills the atlas with the procedural defaults: brick for `+`, stone
    /// for `#`, wood grains for `-` and `|`, the tiled floor, and the sky.
    /// Other wall and sprite bindings are left alone.
    pub fn generate_default_textures(&mut self)
        requires
            old(self).wf(),
        ensures
            final(self).wf(),
            spec_defaults_present(*final(self)),
            final(self).sprite_textures == old(self).sprite_textures,
            forall|c2: char|
                c2 != '+' && c2 != '#' && c2 != '-' && c2 != '|' ==> final(self).spec_wall(c2)
                    == old(self).spec_wall(c2),
    {
        let brick = generate_brick_texture(64, 64);
        self.insert_wall_texture('+', brick);
        let stone = generate_stone_texture(64, 64);
        self.insert_wall_texture('#', stone);
        let wood_h = generate_wood_texture(64, 64, true);
        self.insert_wall_texture('-', wood_h);
        let wood_v = generate_wood_texture(64, 64, false);
        self.insert_wall_texture('|', wood_v);
        let floor = generate_floor_texture(64, 64);
        self.floor_texture = Some(floor);
        let sky = generate_sky_texture(256, 128);
        self.ceiling_texture = Some(sky);
    }
}

/// Procedural texture generation is deterministic: two atlases that both
/// hold the generated defaults hold pixel-identical textures, binding for
/// binding.
pub proof fn lemma_generate_defaults_deterministic(a: TextureManager, b: TextureManager)
    requires
        spec_defaults_present(a),
        spec_defaults_present(b),
    ensures
        spec_lookup(a.wall_textures@, '+').unwrap().pixels@ == spec_lookup(
            b.wall_textures@,
            '+',
        ).unwrap().pixels@,
        spec_lookup(a.wall_textures@, '#').unwrap().pixels@ == spec_lookup(
            b.wall_textures@,
            '#',
        ).unwrap().pixels@,
        spec_lookup(a.wall_textures@, '-').unwrap().pixels@ == spec_lookup(
            b.wall_textures@,
            '-',
        ).unwrap().pixels@,
        spec_lookup(a.wall_textures@, '|').unwrap().pixels@ == spec_lookup(
            b.wall_textures@,
            '|',
        ).unwrap().pixels@,
        a.floor_texture.unwrap().pixels@ == b.floor_texture.unwrap().pixels@,
        a.ceiling_texture.unwrap().pixels@ == b.ceiling_texture.unwrap().pixels@,
{
}

} // verus!
