//! Billboard sprites: looped frame animation, back-to-front ordering, view
//! culling, and per-column depth-tested compositing over the wall pass.

use vstd::prelude::*;
use vstd::arithmetic::div_mod::{lemma_div_pos_is_pos, lemma_mod_bound};
use crate::fixed::{FP_ONE, FP_BOUND, fp_mul_spec, div_trunc, div_trunc_i64, isqrt_u64, lemma_div_le};
use crate::angle::{
    ANGLE_HALF, spec_atan2, spec_signed_diff, spec_cos, atan2_angle, signed_diff, wrap_signed,
    cos_angle,
};
use crate::framebuffer::{Framebuffer, spec_alpha, lemma_row_major_index, lemma_index_unique};
use crate::texture::{TextureManager, spec_sprite_color};
use crate::player::Player;
use crate::cast::RAY_LIMIT;
use crate::renderer::pix_idx;

verus! {

/// A sprite pixel is composited only when its alpha exceeds this threshold.
pub const ALPHA_THRESHOLD: u32 = 10;

/// Looped frame animation: the frame symbols, how long one frame shows, the
/// frame on show, and how much of its time has elapsed.
pub struct AnimatedSprite {
    /// The texture symbol of each frame, in play order.
    pub frames: Vec<char>,
    /// Seconds one frame shows, fixed point.
    pub frame_duration: i64,
    /// The index of the frame on show.
    pub current_frame: usize,
    /// Seconds the frame has shown, fixed point; always below the duration.
    pub elapsed: i64,
}

/// A world-space billboard: position, texture symbol, screen scale, whether
/// touching it harms the player, and an optional animation.
pub struct Sprite {
    /// World x coordinate, fixed point.
    pub x: i64,
    /// World y coordinate, fixed point.
    pub y: i64,
    /// The texture symbol to draw, the current frame when animated.
    pub texture_name: char,
    /// Billboard scale, fixed point.
    pub scale: i64,
    /// Touching the sprite harms the player.
    pub damaging: bool,
    /// The animation, for sprites that cycle frames.
    pub animation: Option<AnimatedSprite>,
}

impl Sprite {
    /// Coordinates and scale inside the caster's range, and a consistent
    /// animation: a current frame inside a non-empty frame list, a positive
    /// duration, and less than one duration elapsed.
    pub open spec fn wf(self) -> bool {
        &&& 0 <= self.x <= RAY_LIMIT
        &&& 0 <= self.y <= RAY_LIMIT
        &&& 0 <= self.scale <= FP_BOUND
        &&& match self.animation {
            Some(a) => {
                &&& a.frames@.len() > 0
                &&& a.current_frame < a.frames@.len()
                &&& 0 < a.frame_duration <= FP_BOUND
                &&& 0 <= a.elapsed < a.frame_duration
            },
            None => true,
        }
    }

    /// A sprite with one fixed texture.
    pub fn new_static(x: i64, y: i64, texture_name: char, scale: i64, damaging: bool) -> (r: Sprite)
        requires
            0 <= x <= RAY_LIMIT,
            0 <= y <= RAY_LIMIT,
            0 <= scale <= FP_BOUND,
        ensures
            r.wf(),
            r == (Sprite { x, y, texture_name, scale, damaging, animation: None }),
    {
        Sprite { x, y, texture_name, scale, damaging, animation: None }
    }

    /// A sprite cycling through frames, starting on the first.
    pub fn new_animated(
        x: i64,
        y: i64,
        frames: Vec<char>,
        frame_duration: i64,
        scale: i64,
        damaging: bool,
    ) -> (r: Sprite)
        requires
            0 <= x <= RAY_LIMIT,
            0 <= y <= RAY_LIMIT,
            0 <= scale <= FP_BOUND,
            0 < frame_duration <= FP_BOUND,
            frames@.len() > 0,
        ensures
            r.wf(),
            r.x == x,
            r.y == y,
            r.texture_name == frames@[0],
            r.scale == scale,
            r.damaging == damaging,
            r.animation == Some(
                AnimatedSprite { frames, frame_duration, current_frame: 0, elapsed: 0 },
            ),
    {
        let texture_name = frames[0];
        Sprite {
            x,
            y,
            texture_name,
            scale,
            damaging,
            animation: Some(AnimatedSprite { frames, frame_duration, current_frame: 0, elapsed: 0 }),
        }
    }

    /// Advances the animation by `dt` seconds of simulated time: when the
    /// frame's time is up, the next frame shows (wrapping) and its clock
    /// starts at zero; otherwise only the clock advances.
    pub fn update(&mut self, dt: i64)
        requires
            old(self).wf(),
            0 <= dt <= FP_BOUND,
        ensures
            final(self).wf(),
            *final(self) == spec_update_sprite(*old(self), dt as int),
    {
        match &mut self.animation {
            Some(anim) => {
                proof {
                    assert(*anim == old(self).animation.unwrap());
                }
                if anim.elapsed + dt >= anim.frame_duration {
                    let n = anim.frames.len();
                    anim.current_frame = (anim.current_frame + 1) % n;
                    anim.elapsed = 0;
                    self.texture_name = anim.frames[anim.current_frame];
                    proof {
                        lemma_mod_bound(
                            (old(self).animation.unwrap().current_frame + 1) as int,
                            old(self).animation.unwrap().frames@.len() as int,
                        );
                    }
                } else {
                    anim.elapsed = anim.elapsed + dt;
                }
            },
            None => {},
        }
    }
}

/// The sprite after `dt` seconds of simulated time: the next frame (wrapped,
/// with a fresh clock) when the current frame's time is up, otherwise the
/// same frame with the clock advanced.
pub open spec fn spec_update_sprite(s: Sprite, dt: int) -> Sprite {
    match s.animation {
        Some(a) => {
            if a.elapsed + dt >= a.frame_duration {
                let next = ((a.current_frame + 1) % (a.frames@.len() as int)) as usize;
                Sprite {
                    texture_name: a.frames@[next as int],
                    animation: Some(AnimatedSprite { current_frame: next, elapsed: 0, ..a }),
                    ..s
                }
            } else {
                Sprite {
                    animation: Some(AnimatedSprite { elapsed: (a.elapsed + dt) as i64, ..a }),
                    ..s
                }
            }
        },
        None => s,
    }
}

/// The squared distance from the player to a world point.
pub open spec fn spec_dist2(player: Player, sx: int, sy: int) -> int {
    (sx - player.x) * (sx - player.x) + (sy - player.y) * (sy - player.y)
}

/// The angle from the player to a point, relative to the facing, as a signed
/// angle in `[-half, half]`.
pub open spec fn spec_rel_angle(player: Player, sx: int, sy: int) -> int {
    let world = spec_atan2(sy - player.y, sx - player.x);
    let normalized = if world >= 0 {
        world
    } else {
        world + 2 * (ANGLE_HALF as int)
    };
    spec_signed_diff(normalized, player.a as int)
}

/// The perpendicular (fish-eye corrected) distance from the player to a
/// point: the euclidean distance scaled by the cosine of the relative angle.
pub open spec fn spec_perp_distance(player: Player, sx: int, sy: int) -> int {
    let dx = sx - player.x;
    let dy = sy - player.y;
    let d2 = dx * dx + dy * dy;
    let dist = spec_isqrt(d2);
    let rel = spec_rel_angle(player, sx, sy);
    let rel_wrapped = if rel >= 0 {
        rel
    } else {
        rel + 2 * (ANGLE_HALF as int)
    };
    fp_mul_spec(dist, spec_cos(rel_wrapped))
}

/// `r` is the integer square root of `n`.
pub open spec fn is_isqrt(r: int, n: int) -> bool {
    0 <= r && r * r <= n < (r + 1) * (r + 1)
}

/// The integer square root of a nonnegative value.
pub open spec fn spec_isqrt(n: int) -> int {
    choose|r: int| is_isqrt(r, n)
}

/// The integer square root exists and is unique, so `spec_isqrt` pins what
/// `isqrt_u64` returns.
pub proof fn lemma_isqrt_unique(n: int, r: int)
    requires
        0 <= r,
        r * r <= n,
        n < (r + 1) * (r + 1),
    ensures
        spec_isqrt(n) == r,
{
    assert(is_isqrt(r, n));
    let c = choose|c: int| is_isqrt(c, n);
    if c < r {
        assert((c + 1) * (c + 1) <= r * r) by (nonlinear_arith)
            requires
                0 <= c,
                c < r,
        ;
        assert(false);
    }
    if c > r {
        assert((r + 1) * (r + 1) <= c * c) by (nonlinear_arith)
            requires
                0 <= r,
                r < c,
        ;
        assert(false);
    }
}

/// The projected billboard size in pixels at a positive perpendicular
/// distance: the screen height scaled by the sprite and shrunk with depth.
pub open spec fn spec_sprite_size(h: int, scale: int, perp: int) -> int {
    h * scale / perp
}

/// The screen column of the billboard's left edge: the relative angle mapped
/// linearly across the screen, less half the billboard.
pub open spec fn spec_sprite_anchor(player: Player, w: int, sx: int, sy: int, size: int) -> int {
    let ratio = div_trunc(
        spec_rel_angle(player, sx, sy) * (FP_ONE as int),
        (player.fov as int) / 2,
    );
    w * ((FP_ONE as int) + ratio) / (2 * (FP_ONE as int)) - size / 2
}

/// What one billboard leaves at a pixel: the sampled sprite color exactly on
/// the pixels of a visible sprite's screen rectangle whose column passes the
/// depth test and whose sample clears the alpha threshold; the old value
/// everywhere else (a culled or degenerate sprite, or one whose symbol has
/// no bound texture, changes nothing).
pub open spec fn spec_sprite_pixel(
    player: Player,
    tm: TextureManager,
    texture_name: char,
    w: int,
    h: int,
    depth: Seq<i64>,
    sx: int,
    sy: int,
    scale: int,
    c: int,
    y: int,
    old_px: u32,
) -> u32 {
    let rel = spec_rel_angle(player, sx, sy);
    let perp = spec_perp_distance(player, sx, sy);
    if rel > (player.fov as int) / 2 || rel < -((player.fov as int) / 2) || perp <= 0
        || tm.spec_sprite(texture_name) is None {
        old_px
    } else {
        let size = spec_sprite_size(h, scale, perp);
        let anchor = spec_sprite_anchor(player, w, sx, sy, size);
        if anchor <= c < anchor + size && perp < depth[c] && h / 2 <= y < h / 2 + size {
            let u = (c - anchor) * (FP_ONE as int) / size;
            let v = (y - h / 2) * (FP_ONE as int) / size;
            let color = spec_sprite_color(tm, texture_name, u, v);
            if spec_alpha(color as int) > ALPHA_THRESHOLD as int {
                color
            } else {
                old_px
            }
        } else {
            old_px
        }
    }
}

/// The whole frame after one billboard is drawn over `pix`: every pixel
/// mapped through `spec_sprite_pixel` at its own column and row.
pub open spec fn spec_draw_frame(
    player: Player,
    tm: TextureManager,
    texture_name: char,
    w: int,
    h: int,
    depth: Seq<i64>,
    sx: int,
    sy: int,
    scale: int,
    pix: Seq<u32>,
) -> Seq<u32> {
    Seq::new(
        pix.len(),
        |idx: int|
            spec_sprite_pixel(
                player,
                tm,
                texture_name,
                w,
                h,
                depth,
                sx,
                sy,
                scale,
                idx % w,
                idx / w,
                pix[idx],
            ),
    )
}

/// Draws one billboard into the frame: culls it outside the field of view,
/// sizes and anchors it by the perpendicular distance, skips every column
/// at or beyond that distance in the depth buffer, and writes exactly the
/// rectangle pixels whose sampled alpha clears the threshold.
pub fn draw_sprite(
    fb: &mut Framebuffer,
    sx: i64,
    sy: i64,
    texture_name: char,
    scale: i64,
    player: &Player,
    tm: &TextureManager,
    depth: &Vec<i64>,
) -> (drew: bool)
    requires
        old(fb).wf(),
        player.wf(),
        tm.wf(),
        -RAY_LIMIT <= sx <= RAY_LIMIT,
        -RAY_LIMIT <= sy <= RAY_LIMIT,
        0 <= scale <= FP_BOUND,
        depth@.len() == old(fb).width,
    ensures
        final(fb).wf(),
        final(fb).same_shape(*old(fb)),
        // The whole frame is the one-sprite draw over the old pixels.
        final(fb).pixels@ == spec_draw_frame(
            *player,
            *tm,
            texture_name,
            old(fb).width as int,
            old(fb).height as int,
            depth@,
            sx as int,
            sy as int,
            scale as int,
            old(fb).pixels@,
        ),
        // Every pixel of the frame is pinned: the sprite's visible, depth-
        // passing, opaque rectangle pixels take the sampled color, the rest
        // keep their value.
        forall|c: int, y: int|
            0 <= c < old(fb).width && 0 <= y < old(fb).height ==> final(fb).pixels@[
                #[trigger] pix_idx(old(fb).width as int, c, y)
            ] == spec_sprite_pixel(
                *player,
                *tm,
                texture_name,
                old(fb).width as int,
                old(fb).height as int,
                depth@,
                sx as int,
                sy as int,
                scale as int,
                c,
                y,
                old(fb).pixels@[pix_idx(old(fb).width as int, c, y)],
            ),
        // Culling: outside the field of view nothing is written.
        ({
            let rel = spec_rel_angle(*player, sx as int, sy as int);
            (rel > (player.fov as int) / 2 || rel < -((player.fov as int) / 2))
                ==> final(fb).pixels@ == old(fb).pixels@
        }),
        // A degenerate (zero or negative) perpendicular distance draws
        // nothing either.
        spec_perp_distance(*player, sx as int, sy as int) <= 0
            ==> final(fb).pixels@ == old(fb).pixels@,
        // Occlusion: a column whose wall is at or in front of the sprite is
        // never written.
        forall|c: int, y: int|
            0 <= c < old(fb).width && 0 <= y < old(fb).height && spec_perp_distance(
                *player,
                sx as int,
                sy as int,
            ) >= depth@[c] ==> final(fb).pixels@[#[trigger] pix_idx(old(fb).width as int, c, y)]
                == old(fb).pixels@[pix_idx(old(fb).width as int, c, y)],
        // Every write carries a sampled color whose alpha clears the
        // threshold.
        forall|idx: int|
            0 <= idx < final(fb).pixels@.len() ==> final(fb).pixels@[idx] == old(fb).pixels@[idx]
                || spec_alpha(final(fb).pixels@[idx] as int) > ALPHA_THRESHOLD as int,
{
    let ghost w = fb.width as int;
    let ghost h = fb.height as int;
    let width = fb.width;
    let height = fb.height;

    if !tm.has_sprite_texture(texture_name) {
        return false;
    }
    let dx = sx - player.x;
    let dy = sy - player.y;
    let world_angle = atan2_angle(dy, dx);
    let sprite_angle = wrap_signed(world_angle);
    let angle_diff = signed_diff(sprite_angle, player.a);
    let half_fov = player.fov / 2;
    if angle_diff > half_fov || angle_diff < -half_fov {
        return false;
    }

    proof {
        crate::fixed::lemma_mul_bound(dx as int, dx as int, RAY_LIMIT as int * 2);
        crate::fixed::lemma_mul_bound(dy as int, dy as int, RAY_LIMIT as int * 2);
        assert(0 <= (dx as int) * (dx as int) && 0 <= (dy as int) * (dy as int))
            by (nonlinear_arith);
    }
    let d2: u64 = ((dx * dx) as u64) + ((dy * dy) as u64);
    let dist64 = isqrt_u64(d2);
    proof {
        assert((dist64 as int) * (dist64 as int) <= d2 as int);
        assert(d2 as int <= 0x7fff_ffff_ffff_ffff);
        if dist64 as int > 0xffff_ffff {
            assert((dist64 as int) * (dist64 as int) > 0x7fff_ffff_ffff_ffff) by (nonlinear_arith)
                requires
                    dist64 as int > 0xffff_ffff,
            ;
        }
        lemma_isqrt_unique(d2 as int, dist64 as int);
    }
    let dist: i64 = dist64 as i64;
    let rel_wrapped = wrap_signed(angle_diff);
    let cos_rel = cos_angle(rel_wrapped);
    proof {
        assert(-0x1_0000_0000_0000 <= (dist as int) * (cos_rel as int) <= 0x1_0000_0000_0000)
            by (nonlinear_arith)
            requires
                0 <= dist as int <= 0xffff_ffff,
                -65536 <= cos_rel as int <= 65536,
        ;
    }
    let distance = div_trunc_i64(dist * cos_rel, FP_ONE);
    if distance <= 0 {
        return false;
    }

    // Projected size and screen anchor.
    proof {
        assert(0 <= (height as int) * (scale as int)) by (nonlinear_arith)
            requires
                0 < height as int,
                0 <= scale as int,
        ;
        assert((height as int) * (scale as int) <= ((height as int) * (scale as int)) * (distance
            as int)) by (nonlinear_arith)
            requires
                0 <= (height as int) * (scale as int),
                1 <= distance as int,
        ;
        lemma_div_le(
            (height as int) * (scale as int),
            (height as int) * (scale as int),
            distance as int,
        );
        assert((height as int) * (scale as int) <= 16384 * 0x7fff_ffff) by (nonlinear_arith)
            requires
                0 < height as int <= 16384,
                0 <= scale as int <= 0x7fff_ffff,
        ;
        lemma_div_pos_is_pos((height as int) * (scale as int), distance as int);
    }
    let size: i64 = (((height as u64) * (scale as u64)) / (distance as u64)) as i64;
    let ratio = div_trunc_i64(angle_diff * FP_ONE, half_fov);
    proof {
        crate::fixed::lemma_div_trunc_bound((angle_diff as int) * (FP_ONE as int), half_fov as int);
        if (angle_diff as int) * (FP_ONE as int) >= 0 {
            lemma_div_le((angle_diff as int) * (FP_ONE as int), FP_ONE as int, half_fov as int);
        } else {
            lemma_div_le(-((angle_diff as int) * (FP_ONE as int)), FP_ONE as int, half_fov as int);
        }
        assert(0 <= (width as int) * ((FP_ONE as int) + ratio as int) <= 16384 * (2 * (FP_ONE
            as int))) by (nonlinear_arith)
            requires
                0 < width as int <= 16384,
                0 <= (FP_ONE as int) + ratio as int <= 2 * (FP_ONE as int),
        ;
        lemma_div_pos_is_pos((width as int) * ((FP_ONE as int) + ratio as int), 2 * (FP_ONE as int));
        lemma_div_le(
            (width as int) * ((FP_ONE as int) + ratio as int),
            16384,
            2 * (FP_ONE as int),
        );
    }
    let anchor: i64 = ((width as i64) * (FP_ONE + ratio)) / (2 * FP_ONE) - size / 2;

    let ghost pix0 = fb.pixels@;
    let ghost perp = distance as int;
    let mut xx: i64 = 0;
    while xx < size
        invariant
            fb.wf(),
            fb.same_shape(*old(fb)),
            fb.width == width,
            fb.height == height,
            w == width as int,
            h == height as int,
            tm.wf(),
            depth@.len() == width,
            pix0 == old(fb).pixels@,
            pix0.len() == fb.pixels@.len(),
            0 <= size <= 0x2000_0000_0000,
            -0x2000_0000_0000 <= anchor <= 0x2000_0000_0000,
            0 <= xx <= size,
            angle_diff as int == spec_rel_angle(*player, sx as int, sy as int),
            -((player.fov as int) / 2) <= angle_diff as int <= (player.fov as int) / 2,
            perp == spec_perp_distance(*player, sx as int, sy as int),
            perp == distance as int,
            0 < distance,
            tm.spec_sprite(texture_name) is Some,
            size as int == spec_sprite_size(h, scale as int, perp),
            anchor as int == spec_sprite_anchor(*player, w, sx as int, sy as int, size as int),
            forall|c: int, y: int|
                0 <= c < w && 0 <= y < h ==> fb.pixels@[#[trigger] pix_idx(w, c, y)] == (
                if anchor as int <= c < anchor + xx {
                    spec_sprite_pixel(
                        *player,
                        *tm,
                        texture_name,
                        w,
                        h,
                        depth@,
                        sx as int,
                        sy as int,
                        scale as int,
                        c,
                        y,
                        pix0[pix_idx(w, c, y)],
                    )
                } else {
                    pix0[pix_idx(w, c, y)]
                }),
            forall|idx: int|
                0 <= idx < fb.pixels@.len() ==> fb.pixels@[idx] == pix0[idx] || spec_alpha(
                    fb.pixels@[idx] as int,
                ) > ALPHA_THRESHOLD as int,
        decreases size - xx,
    {
        let screen_x = anchor + xx;
        if screen_x >= 0 && screen_x < width as i64 {
            let col = screen_x as usize;
            if distance < depth[col] {
                proof {
                    lemma_div_pos_is_pos((xx as int) * (FP_ONE as int), size as int);
                }
                let tex_u: i64 = (xx * FP_ONE) / size;
                let mut yy: i64 = 0;
                while yy < size
                    invariant
                        fb.wf(),
                        fb.same_shape(*old(fb)),
                        fb.width == width,
                        fb.height == height,
                        w == width as int,
                        h == height as int,
                        tm.wf(),
                        depth@.len() == width,
                        pix0 == old(fb).pixels@,
                        pix0.len() == fb.pixels@.len(),
                        0 < size <= 0x2000_0000_0000,
                        -0x2000_0000_0000 <= anchor <= 0x2000_0000_0000,
                        0 <= xx < size,
                        0 <= yy <= size,
                        0 <= col < width,
                        col as int == anchor + xx,
                        distance < depth@[col as int],
                        perp == spec_perp_distance(*player, sx as int, sy as int),
                        perp == distance as int,
                        0 < distance,
                        tm.spec_sprite(texture_name) is Some,
                        angle_diff as int == spec_rel_angle(*player, sx as int, sy as int),
                        -((player.fov as int) / 2) <= angle_diff as int <= (player.fov as int) / 2,
                        size as int == spec_sprite_size(h, scale as int, perp),
                        anchor as int == spec_sprite_anchor(
                            *player,
                            w,
                            sx as int,
                            sy as int,
                            size as int,
                        ),
                        tex_u as int == (col as int - anchor) * (FP_ONE as int) / (size as int),
                        tex_u >= 0,
                        forall|c: int, y: int|
                            0 <= c < w && 0 <= y < h && !(c == col as int && h / 2 <= y < h / 2
                                + yy) ==> fb.pixels@[#[trigger] pix_idx(w, c, y)] == (
                            if anchor as int <= c < anchor + xx {
                                spec_sprite_pixel(
                                    *player,
                                    *tm,
                                    texture_name,
                                    w,
                                    h,
                                    depth@,
                                    sx as int,
                                    sy as int,
                                    scale as int,
                                    c,
                                    y,
                                    pix0[pix_idx(w, c, y)],
                                )
                            } else {
                                pix0[pix_idx(w, c, y)]
                            }),
                        forall|c: int, y: int|
                            0 <= c < w && 0 <= y < h && c == col as int && h / 2 <= y < h / 2 + yy
                                ==> fb.pixels@[#[trigger] pix_idx(w, c, y)] == spec_sprite_pixel(
                                *player,
                                *tm,
                                texture_name,
                                w,
                                h,
                                depth@,
                                sx as int,
                                sy as int,
                                scale as int,
                                c,
                                y,
                                pix0[pix_idx(w, c, y)],
                            ),
                        forall|idx: int|
                            0 <= idx < fb.pixels@.len() ==> fb.pixels@[idx] == pix0[idx]
                                || spec_alpha(fb.pixels@[idx] as int) > ALPHA_THRESHOLD as int,
                    decreases size - yy,
                {
                    let screen_y = (height as i64) / 2 + yy;
                    if screen_y < height as i64 {
                        proof {
                            lemma_div_pos_is_pos((yy as int) * (FP_ONE as int), size as int);
                        }
                        let tex_v: i64 = (yy * FP_ONE) / size;
                        let color = tm.get_sprite_color(texture_name, tex_u, tex_v);
                        let alpha = color / 16777216;
                        let row = screen_y as usize;
                        let ghost before = fb.pixels@;
                        if alpha > ALPHA_THRESHOLD {
                            fb.set_pixel_fast(col, row, color);
                            proof {
                                lemma_row_major_index(w, h, col as int, row as int);
                                assert(fb.pixels@ == before.update(
                                    pix_idx(w, col as int, row as int),
                                    color,
                                ));
                                assert(spec_alpha(color as int) > ALPHA_THRESHOLD as int);
                            }
                        }
                        proof {
                            assert forall|c: int, y: int|
                                0 <= c < w && 0 <= y < h && (c != col as int || y != row as int)
                                    implies fb.pixels@[#[trigger] pix_idx(w, c, y)] == before[
                                pix_idx(w, c, y)
                            ] by {
                                lemma_index_unique(w, y, c, row as int, col as int);
                                lemma_row_major_index(w, h, c, y);
                            }
                            assert(fb.pixels@[pix_idx(w, col as int, row as int)]
                                == spec_sprite_pixel(
                                *player,
                                *tm,
                                texture_name,
                                w,
                                h,
                                depth@,
                                sx as int,
                                sy as int,
                                scale as int,
                                col as int,
                                row as int,
                                pix0[pix_idx(w, col as int, row as int)],
                            )) by {
                                lemma_row_major_index(w, h, col as int, row as int);
                                if alpha > ALPHA_THRESHOLD {
                                    assert(fb.pixels@ == before.update(
                                        pix_idx(w, col as int, row as int),
                                        color,
                                    ));
                                    assert(fb.pixels@[pix_idx(w, col as int, row as int)]
                                        == color);
                                } else {
                                    assert(fb.pixels@[pix_idx(w, col as int, row as int)]
                                        == before[pix_idx(w, col as int, row as int)]);
                                    assert(before[pix_idx(w, col as int, row as int)] == pix0[
                                        pix_idx(w, col as int, row as int)
                                    ]);
                                }
                            }
                            assert forall|idx: int|
                                0 <= idx < fb.pixels@.len() implies fb.pixels@[idx] == pix0[idx]
                                || spec_alpha(fb.pixels@[idx] as int) > ALPHA_THRESHOLD as int by {
                                if alpha > ALPHA_THRESHOLD {
                                    if idx == pix_idx(w, col as int, row as int) {
                                        assert(fb.pixels@[idx] == color);
                                    } else {
                                        assert(fb.pixels@[idx] == before[idx]);
                                    }
                                }
                            }
                        }
                    }
                    yy += 1;
                }
                proof {
                    // The whole column now matches the sprite spec: rows
                    // beyond the billboard keep the old value, which is what
                    // the spec gives them.
                    assert forall|c: int, y: int|
                        0 <= c < w && 0 <= y < h && anchor as int <= c < anchor + xx + 1 implies
                        fb.pixels@[#[trigger] pix_idx(w, c, y)] == spec_sprite_pixel(
                        *player,
                        *tm,
                        texture_name,
                        w,
                        h,
                        depth@,
                        sx as int,
                        sy as int,
                        scale as int,
                        c,
                        y,
                        pix0[pix_idx(w, c, y)],
                    ) by {
                        if c == col as int && !(h / 2 <= y < h / 2 + size) {
                            assert(fb.pixels@[pix_idx(w, c, y)] == pix0[pix_idx(w, c, y)]);
                        }
                    }
                }
            } else {
                proof {
                    // The depth test failed for this column: the spec keeps
                    // every one of its pixels.
                    assert forall|c: int, y: int|
                        0 <= c < w && 0 <= y < h && c == col as int implies spec_sprite_pixel(
                        *player,
                        *tm,
                        texture_name,
                        w,
                        h,
                        depth@,
                        sx as int,
                        sy as int,
                        scale as int,
                        c,
                        y,
                        pix0[pix_idx(w, c, y)],
                    ) == pix0[pix_idx(w, c, y)] by {}
                }
            }
        }
        xx += 1;
    }
    proof {
        // Columns right of the billboard keep their pixels, which is also
        // what the spec gives them.
        assert forall|c: int, y: int| 0 <= c < w && 0 <= y < h implies fb.pixels@[
            #[trigger] pix_idx(w, c, y)
        ] == spec_sprite_pixel(
            *player,
            *tm,
            texture_name,
            w,
            h,
            depth@,
            sx as int,
            sy as int,
            scale as int,
            c,
            y,
            pix0[pix_idx(w, c, y)],
        ) by {}
        assert forall|c: int, y: int|
            0 <= c < w && 0 <= y < h && spec_perp_distance(*player, sx as int, sy as int)
                >= depth@[c] implies fb.pixels@[#[trigger] pix_idx(w, c, y)] == pix0[pix_idx(
            w,
            c,
            y,
        )] by {}
        lemma_frame_from_pixels(
            *player,
            *tm,
            texture_name,
            w,
            h,
            depth@,
            sx as int,
            sy as int,
            scale as int,
            pix0,
            fb.pixels@,
        );
    }
    true
}

/// A frame that matches the one-sprite pixel map at every column and row is
/// the one-sprite draw frame.
proof fn lemma_frame_from_pixels(
    player: Player,
    tm: TextureManager,
    texture_name: char,
    w: int,
    h: int,
    depth: Seq<i64>,
    sx: int,
    sy: int,
    scale: int,
    pix: Seq<u32>,
    new_pix: Seq<u32>,
)
    requires
        0 < w,
        0 <= h,
        pix.len() == w * h,
        new_pix.len() == pix.len(),
        forall|c: int, y: int|
            0 <= c < w && 0 <= y < h ==> new_pix[#[trigger] pix_idx(w, c, y)] == spec_sprite_pixel(
                player,
                tm,
                texture_name,
                w,
                h,
                depth,
                sx,
                sy,
                scale,
                c,
                y,
                pix[pix_idx(w, c, y)],
            ),
    ensures
        new_pix == spec_draw_frame(player, tm, texture_name, w, h, depth, sx, sy, scale, pix),
{
    assert forall|idx: int| 0 <= idx < new_pix.len() implies new_pix[idx] == spec_draw_frame(
        player,
        tm,
        texture_name,
        w,
        h,
        depth,
        sx,
        sy,
        scale,
        pix,
    )[idx] by {
        vstd::arithmetic::div_mod::lemma_fundamental_div_mod(idx, w);
        vstd::arithmetic::div_mod::lemma_mod_bound(idx, w);
        vstd::arithmetic::div_mod::lemma_multiply_divide_lt(idx, w, h);
        lemma_div_pos_is_pos(idx, w);
        assert((idx / w) * w == w * (idx / w)) by (nonlinear_arith);
        assert(pix_idx(w, idx % w, idx / w) == idx);
        assert(new_pix[pix_idx(w, idx % w, idx / w)] == spec_sprite_pixel(
            player,
            tm,
            texture_name,
            w,
            h,
            depth,
            sx,
            sy,
            scale,
            idx % w,
            idx / w,
            pix[pix_idx(w, idx % w, idx / w)],
        ));
    }
    assert(new_pix =~= spec_draw_frame(player, tm, texture_name, w, h, depth, sx, sy, scale, pix));
}

/// The painter's precedence between two sprites by index: the farther one
/// comes first, equal distances keeping input order.
pub open spec fn spec_painter_before(player: Player, sprites: Seq<Sprite>, i: int, j: int) -> bool {
    let di = spec_dist2(player, sprites[i].x as int, sprites[i].y as int);
    let dj = spec_dist2(player, sprites[j].x as int, sprites[j].y as int);
    di > dj || (di == dj && i <= j)
}

/// `ord` is the painter's order over the sprite list: a permutation of all
/// the indices with the farthest sprite first and ties in input order.
pub open spec fn spec_painter_ordered(player: Player, sprites: Seq<Sprite>, ord: Seq<int>) -> bool {
    &&& ord.len() == sprites.len()
    &&& forall|k: int| 0 <= k < ord.len() ==> 0 <= #[trigger] ord[k] < sprites.len()
    &&& forall|k1: int, k2: int|
        0 <= k1 < k2 < ord.len() ==> #[trigger] ord[k1] != #[trigger] ord[k2]
    &&& forall|k1: int, k2: int|
        0 <= k1 < k2 < ord.len() ==> spec_painter_before(
            player,
            sprites,
            #[trigger] ord[k1],
            #[trigger] ord[k2],
        )
}

/// The frame after the sprites named by `ord` are drawn over `pix`, first
/// entry first: the painter's composition.
pub open spec fn spec_composite_frames(
    player: Player,
    tm: TextureManager,
    w: int,
    h: int,
    depth: Seq<i64>,
    sprites: Seq<Sprite>,
    ord: Seq<int>,
    pix: Seq<u32>,
) -> Seq<u32>
    decreases ord.len(),
{
    if ord.len() == 0 {
        pix
    } else {
        let s = sprites[ord[0]];
        spec_composite_frames(
            player,
            tm,
            w,
            h,
            depth,
            sprites,
            ord.drop_first(),
            spec_draw_frame(
                player,
                tm,
                s.texture_name,
                w,
                h,
                depth,
                s.x as int,
                s.y as int,
                s.scale as int,
                pix,
            ),
        )
    }
}

/// Drawing one more sprite after a composition is the composition over the
/// extended order.
proof fn lemma_composite_push(
    player: Player,
    tm: TextureManager,
    w: int,
    h: int,
    depth: Seq<i64>,
    sprites: Seq<Sprite>,
    ord: Seq<int>,
    i: int,
    pix: Seq<u32>,
)
    ensures
        spec_composite_frames(player, tm, w, h, depth, sprites, ord.push(i), pix)
            == spec_draw_frame(
            player,
            tm,
            sprites[i].texture_name,
            w,
            h,
            depth,
            sprites[i].x as int,
            sprites[i].y as int,
            sprites[i].scale as int,
            spec_composite_frames(player, tm, w, h, depth, sprites, ord, pix),
        ),
    decreases ord.len(),
{
    reveal_with_fuel(spec_composite_frames, 3);
    if ord.len() == 0 {
        assert(ord.push(i)[0] == i);
        assert(ord.push(i).drop_first() =~= Seq::<int>::empty());
    } else {
        assert(ord.push(i)[0] == ord[0]);
        assert(ord.push(i).drop_first() =~= ord.drop_first().push(i));
        let s = sprites[ord[0]];
        lemma_composite_push(
            player,
            tm,
            w,
            h,
            depth,
            sprites,
            ord.drop_first(),
            i,
            spec_draw_frame(
                player,
                tm,
                s.texture_name,
                w,
                h,
                depth,
                s.x as int,
                s.y as int,
                s.scale as int,
                pix,
            ),
        );
    }
}

/// A sprite that contributes nothing to the frame: outside the field of
/// view, or at a degenerate (zero or negative) perpendicular distance.
pub open spec fn spec_sprite_hidden(player: Player, sx: int, sy: int) -> bool {
    let rel = spec_rel_angle(player, sx, sy);
    ||| rel > (player.fov as int) / 2
    ||| rel < -((player.fov as int) / 2)
    ||| spec_perp_distance(player, sx, sy) <= 0
}

/// Culling at the compositor: drawing a hidden sprite, or one whose symbol
/// has no bound texture, leaves the whole frame exactly as it was.
pub proof fn lemma_draw_frame_hidden(
    player: Player,
    tm: TextureManager,
    texture_name: char,
    w: int,
    h: int,
    depth: Seq<i64>,
    sx: int,
    sy: int,
    scale: int,
    pix: Seq<u32>,
)
    requires
        spec_sprite_hidden(player, sx, sy) || tm.spec_sprite(texture_name) is None,
    ensures
        spec_draw_frame(player, tm, texture_name, w, h, depth, sx, sy, scale, pix) == pix,
{
    let drawn = spec_draw_frame(player, tm, texture_name, w, h, depth, sx, sy, scale, pix);
    assert forall|idx: int| 0 <= idx < pix.len() implies drawn[idx] == pix[idx] by {}
    assert(drawn =~= pix);
}

/// Culling at the compositor: a hidden sprite drops out of the painter's
/// composition entirely.
pub proof fn lemma_composite_drops_hidden(
    player: Player,
    tm: TextureManager,
    w: int,
    h: int,
    depth: Seq<i64>,
    sprites: Seq<Sprite>,
    ord: Seq<int>,
    k: int,
    pix: Seq<u32>,
)
    requires
        0 <= k < ord.len(),
        forall|k2: int| 0 <= k2 < ord.len() ==> 0 <= #[trigger] ord[k2] < sprites.len(),
        spec_sprite_hidden(player, sprites[ord[k]].x as int, sprites[ord[k]].y as int)
            || tm.spec_sprite(sprites[ord[k]].texture_name) is None,
    ensures
        spec_composite_frames(player, tm, w, h, depth, sprites, ord, pix)
            == spec_composite_frames(player, tm, w, h, depth, sprites, ord.remove(k), pix),
    decreases ord.len(),
{
    reveal_with_fuel(spec_composite_frames, 2);
    let s = sprites[ord[0]];
    if k == 0 {
        lemma_draw_frame_hidden(
            player,
            tm,
            s.texture_name,
            w,
            h,
            depth,
            s.x as int,
            s.y as int,
            s.scale as int,
            pix,
        );
        assert(ord.remove(0) =~= ord.drop_first());
    } else {
        let drawn = spec_draw_frame(
            player,
            tm,
            s.texture_name,
            w,
            h,
            depth,
            s.x as int,
            s.y as int,
            s.scale as int,
            pix,
        );
        assert(ord.drop_first()[k - 1] == ord[k]);
        lemma_composite_drops_hidden(
            player,
            tm,
            w,
            h,
            depth,
            sprites,
            ord.drop_first(),
            k - 1,
            drawn,
        );
        assert(ord.remove(k)[0] == ord[0]);
        assert(ord.remove(k).drop_first() =~= ord.drop_first().remove(k - 1));
    }
}

/// Occlusion at the compositor: a column whose wall stands at or in front of
/// every sprite keeps all its pixels through the whole composition.
pub proof fn lemma_composite_occluded_column(
    player: Player,
    tm: TextureManager,
    w: int,
    h: int,
    depth: Seq<i64>,
    sprites: Seq<Sprite>,
    ord: Seq<int>,
    pix: Seq<u32>,
    c: int,
)
    requires
        0 < w,
        0 <= h,
        pix.len() == w * h,
        0 <= c < w,
        forall|k: int| 0 <= k < ord.len() ==> 0 <= #[trigger] ord[k] < sprites.len(),
        forall|k: int|
            0 <= k < ord.len() ==> spec_perp_distance(
                player,
                sprites[#[trigger] ord[k]].x as int,
                sprites[ord[k]].y as int,
            ) >= depth[c],
    ensures
        forall|y: int|
            0 <= y < h ==> spec_composite_frames(player, tm, w, h, depth, sprites, ord, pix)[
                #[trigger] pix_idx(w, c, y)
            ] == pix[pix_idx(w, c, y)],
    decreases ord.len(),
{
    reveal_with_fuel(spec_composite_frames, 2);
    if ord.len() > 0 {
        let s = sprites[ord[0]];
        let drawn = spec_draw_frame(
            player,
            tm,
            s.texture_name,
            w,
            h,
            depth,
            s.x as int,
            s.y as int,
            s.scale as int,
            pix,
        );
        assert forall|y: int| 0 <= y < h implies drawn[#[trigger] pix_idx(w, c, y)] == pix[
            pix_idx(w, c, y)
        ] by {
            lemma_row_major_index(w, h, c, y);
            vstd::arithmetic::div_mod::lemma_fundamental_div_mod_converse(
                pix_idx(w, c, y),
                w,
                y,
                c,
            );
        }
        lemma_composite_occluded_column(
            player,
            tm,
            w,
            h,
            depth,
            sprites,
            ord.drop_first(),
            drawn,
            c,
        );
    }
}

/// The painter's order on keyed sprites: farther first, ties kept in input
/// order by index.
pub open spec fn spec_order_le(a: (u64, usize), b: (u64, usize)) -> bool {
    a.0 > b.0 || (a.0 == b.0 && a.1 <= b.1)
}

/// Orders keyed sprites farthest first, ties in input order: the result is a
/// permutation of the input, sorted by the painter's order.
fn sort_sprite_order(keys: Vec<(u64, usize)>) -> (r: Vec<(u64, usize)>)
    ensures
        r@.len() == keys@.len(),
        r@.to_multiset() == keys@.to_multiset(),
        forall|i: int, j: int|
            0 <= i < j < r@.len() ==> spec_order_le(#[trigger] r@[i], #[trigger] r@[j]),
{
    broadcast use vstd::seq_lib::group_seq_properties;

    let mut rem = keys;
    let mut out: Vec<(u64, usize)> = Vec::new();
    proof {
        rem@.to_multiset_ensures();
        out@.to_multiset_ensures();
        assert(out@.to_multiset().add(rem@.to_multiset()) =~= keys@.to_multiset());
    }
    while rem.len() > 0
        invariant
            out@.len() + rem@.len() == keys@.len(),
            out@.to_multiset().add(rem@.to_multiset()) == keys@.to_multiset(),
            forall|i: int, j: int|
                0 <= i < j < out@.len() ==> spec_order_le(#[trigger] out@[i], #[trigger] out@[j]),
            forall|i: int, j: int|
                0 <= i < out@.len() && 0 <= j < rem@.len() ==> spec_order_le(
                    #[trigger] out@[i],
                    #[trigger] rem@[j],
                ),
        decreases rem@.len(),
    {
        // Select the element that precedes every other remaining element.
        let mut best: usize = 0;
        let mut j: usize = 1;
        while j < rem.len()
            invariant
                0 < rem@.len(),
                0 <= best < j <= rem@.len(),
                forall|k: int| 0 <= k < j ==> spec_order_le(rem@[best as int], #[trigger] rem@[k]),
            decreases rem@.len() - j,
        {
            let better = {
                let a = rem[j];
                let b = rem[best];
                a.0 > b.0 || (a.0 == b.0 && a.1 <= b.1)
            };
            if better {
                best = j;
            }
            j += 1;
        }
        let ghost rem_before = rem@;
        let ghost out_before = out@;
        let e = rem.remove(best);
        out.push(e);
        proof {
            rem_before.to_multiset_ensures();
            out_before.to_multiset_ensures();
            assert(rem@.to_multiset() =~= rem_before.to_multiset().remove(e));
            assert(out@.to_multiset() =~= out_before.to_multiset().insert(e));
            assert(rem_before.to_multiset().count(e) > 0) by {
                assert(rem_before[best as int] == e);
                assert(rem_before.contains(e));
            }
            assert(out@.to_multiset().add(rem@.to_multiset()) =~= keys@.to_multiset());
            assert forall|i2: int, j2: int|
                0 <= i2 < out@.len() && 0 <= j2 < rem@.len() implies spec_order_le(
                #[trigger] out@[i2],
                #[trigger] rem@[j2],
            ) by {
                assert(rem@[j2] == rem_before[if j2 < best as int {
                    j2
                } else {
                    j2 + 1
                }]);
                if i2 < out@.len() - 1 {
                    assert(out@[i2] == out_before[i2]);
                } else {
                    assert(out@[i2] == e);
                }
            }
        }
    }
    out
}

/// The squared distance from the player to a point, as a sort key.
fn dist2_key(player: &Player, sx: i64, sy: i64) -> (r: u64)
    requires
        player.wf(),
        -RAY_LIMIT <= sx <= RAY_LIMIT,
        -RAY_LIMIT <= sy <= RAY_LIMIT,
    ensures
        r as int == spec_dist2(*player, sx as int, sy as int),
{
    let dx = sx - player.x;
    let dy = sy - player.y;
    proof {
        crate::fixed::lemma_mul_bound(dx as int, dx as int, RAY_LIMIT as int * 2);
        crate::fixed::lemma_mul_bound(dy as int, dy as int, RAY_LIMIT as int * 2);
        assert(0 <= (dx as int) * (dx as int) && 0 <= (dy as int) * (dy as int))
            by (nonlinear_arith);
    }
    ((dx * dx) as u64) + ((dy * dy) as u64)
}

/// Renders all sprites into the frame over the wall pass: advances every
/// animation by `dt` seconds, orders the sprites farthest first (ties in
/// input order), and composites each one with view culling and per-column
/// depth testing.  Every pixel the pass touches carries a sampled color
/// whose alpha clears the threshold.
pub fn render_sprites(
    fb: &mut Framebuffer,
    sprites: &mut Vec<Sprite>,
    player: &Player,
    tm: &TextureManager,
    depth: &Vec<i64>,
    dt: i64,
)
    requires
        old(fb).wf(),
        player.wf(),
        tm.wf(),
        depth@.len() == old(fb).width,
        0 <= dt <= FP_BOUND,
        forall|i: int| 0 <= i < old(sprites)@.len() ==> (#[trigger] old(sprites)@[i]).wf(),
    ensures
        final(fb).wf(),
        final(fb).same_shape(*old(fb)),
        final(sprites)@.len() == old(sprites)@.len(),
        forall|i: int|
            0 <= i < old(sprites)@.len() ==> #[trigger] final(sprites)@[i] == spec_update_sprite(
                old(sprites)@[i],
                dt as int,
            ),
        // The frame is the painter's composition: the updated sprites drawn
        // farthest first (ties in input order) over the old pixels.
        exists|ord: Seq<int>|
            {
                &&& #[trigger] spec_painter_ordered(*player, final(sprites)@, ord)
                &&& final(fb).pixels@ == spec_composite_frames(
                    *player,
                    *tm,
                    old(fb).width as int,
                    old(fb).height as int,
                    depth@,
                    final(sprites)@,
                    ord,
                    old(fb).pixels@,
                )
            },
        forall|idx: int|
            0 <= idx < final(fb).pixels@.len() ==> final(fb).pixels@[idx] == old(fb).pixels@[idx]
                || spec_alpha(final(fb).pixels@[idx] as int) > ALPHA_THRESHOLD as int,
{
    // Advance every animation by the simulated time step.
    let n = sprites.len();
    let mut updated: Vec<Sprite> = Vec::new();
    let mut i: usize = 0;
    while i < n
        invariant
            0 <= i <= n,
            n == old(sprites)@.len(),
            sprites@.len() == n - i,
            0 <= dt <= FP_BOUND,
            forall|j: int| 0 <= j < sprites@.len() ==> sprites@[j] == old(sprites)@[j + i],
            updated@.len() == i,
            forall|j: int|
                0 <= j < i ==> #[trigger] updated@[j] == spec_update_sprite(
                    old(sprites)@[j],
                    dt as int,
                ) && updated@[j].wf(),
            forall|j: int| 0 <= j < old(sprites)@.len() ==> (#[trigger] old(sprites)@[j]).wf(),
        decreases n - i,
    {
        let mut s = sprites.remove(0);
        s.update(dt);
        updated.push(s);
        i += 1;
    }
    *sprites = updated;

    // The painter's order: farthest sprite first, ties in input order.
    let mut keyed: Vec<(u64, usize)> = Vec::new();
    let mut k: usize = 0;
    while k < n
        invariant
            0 <= k <= n,
            n == sprites@.len(),
            player.wf(),
            forall|j: int| 0 <= j < sprites@.len() ==> (#[trigger] sprites@[j]).wf(),
            keyed@.len() == k,
            forall|j: int| 0 <= j < k ==> (#[trigger] keyed@[j]).1 == j,
            forall|j: int| 0 <= j < k ==> (#[trigger] keyed@[j]).1 < n,
            forall|j: int|
                0 <= j < k ==> (#[trigger] keyed@[j]).0 as int == spec_dist2(
                    *player,
                    sprites@[j].x as int,
                    sprites@[j].y as int,
                ),
        decreases n - k,
    {
        let sp_x = sprites[k].x;
        let sp_y = sprites[k].y;
        let key = dist2_key(player, sp_x, sp_y);
        keyed.push((key, k));
        k += 1;
    }
    let order = sort_sprite_order(keyed);
    let ghost ord_full = Seq::new(order@.len() as nat, |k: int| order@[k].1 as int);
    proof {
        keyed@.to_multiset_ensures();
        order@.to_multiset_ensures();
        // Every ordered entry is one of the keyed entries, so its index is a
        // sprite index and its key is that sprite's squared distance.
        assert forall|j: int| 0 <= j < order@.len() implies (#[trigger] order@[j]).1 < n
            && order@[j] == keyed@[order@[j].1 as int] by {
            assert(order@.contains(order@[j]));
            assert(order@.to_multiset().count(order@[j]) > 0);
            assert(keyed@.to_multiset().count(order@[j]) > 0);
            assert(keyed@.contains(order@[j]));
            let m = choose|m: int| 0 <= m < keyed@.len() && keyed@[m] == order@[j];
            assert(keyed@[m].1 == m);
        }
        // The keyed entries are pairwise distinct, so the ordered entries
        // are too, and the witness order is a permutation of the indices.
        assert(keyed@.no_duplicates()) by {
            assert forall|m1: int, m2: int|
                0 <= m1 < keyed@.len() && 0 <= m2 < keyed@.len() && m1 != m2 implies keyed@[m1]
                != keyed@[m2] by {
                assert(keyed@[m1].1 == m1);
            }
        }
        keyed@.lemma_multiset_has_no_duplicates();
        order@.lemma_multiset_has_no_duplicates_conv();
        assert(spec_painter_ordered(*player, sprites@, ord_full)) by {
            assert forall|k1: int, k2: int| 0 <= k1 < k2 < ord_full.len() implies #[trigger] ord_full[k1]
                != #[trigger] ord_full[k2] by {
                if ord_full[k1] == ord_full[k2] {
                    assert(order@[k1] == keyed@[order@[k1].1 as int]);
                    assert(order@[k2] == keyed@[order@[k2].1 as int]);
                    assert(order@[k1] == order@[k2]);
                }
            }
            assert forall|k1: int, k2: int| 0 <= k1 < k2 < ord_full.len() implies
                spec_painter_before(
                *player,
                sprites@,
                #[trigger] ord_full[k1],
                #[trigger] ord_full[k2],
            ) by {
                assert(spec_order_le(order@[k1], order@[k2]));
                assert(order@[k1] == keyed@[order@[k1].1 as int]);
                assert(order@[k2] == keyed@[order@[k2].1 as int]);
            }
        }
    }

    // Composite back to front.
    let ghost pix_start = fb.pixels@;
    let ghost w = fb.width as int;
    let ghost h = fb.height as int;
    let mut t: usize = 0;
    while t < order.len()
        invariant
            fb.wf(),
            fb.same_shape(*old(fb)),
            player.wf(),
            tm.wf(),
            n == sprites@.len(),
            depth@.len() == fb.width,
            pix_start.len() == fb.pixels@.len(),
            w == fb.width as int,
            h == fb.height as int,
            0 <= t <= order@.len(),
            ord_full.len() == order@.len(),
            forall|j: int| 0 <= j < order@.len() ==> ord_full[j] == (#[trigger] order@[j]).1,
            forall|j: int| 0 <= j < sprites@.len() ==> (#[trigger] sprites@[j]).wf(),
            forall|j: int| 0 <= j < order@.len() ==> (#[trigger] order@[j]).1 < n,
            fb.pixels@ == spec_composite_frames(
                *player,
                *tm,
                w,
                h,
                depth@,
                sprites@,
                ord_full.take(t as int),
                pix_start,
            ),
            forall|idx: int|
                0 <= idx < fb.pixels@.len() ==> fb.pixels@[idx] == pix_start[idx] || spec_alpha(
                    fb.pixels@[idx] as int,
                ) > ALPHA_THRESHOLD as int,
        decreases order@.len() - t,
    {
        let idx = order[t].1;
        let sp_x = sprites[idx].x;
        let sp_y = sprites[idx].y;
        let sp_tex = sprites[idx].texture_name;
        let sp_scale = sprites[idx].scale;
        let ghost mid = fb.pixels@;
        draw_sprite(fb, sp_x, sp_y, sp_tex, sp_scale, player, tm, depth);
        proof {
            assert forall|idx2: int|
                0 <= idx2 < fb.pixels@.len() implies fb.pixels@[idx2] == pix_start[idx2]
                || spec_alpha(fb.pixels@[idx2] as int) > ALPHA_THRESHOLD as int by {
                assert(fb.pixels@[idx2] == mid[idx2] || spec_alpha(fb.pixels@[idx2] as int)
                    > ALPHA_THRESHOLD as int);
            }
            lemma_composite_push(
                *player,
                *tm,
                w,
                h,
                depth@,
                sprites@,
                ord_full.take(t as int),
                ord_full[t as int],
                pix_start,
            );
            assert(ord_full.take(t as int).push(ord_full[t as int]) =~= ord_full.take(
                t as int + 1,
            ));
        }
        t += 1;
    }
    proof {
        assert(ord_full.take(order@.len() as int) =~= ord_full);
        assert(spec_painter_ordered(*player, sprites@, ord_full) && fb.pixels@
            == spec_composite_frames(
            *player,
            *tm,
            old(fb).width as int,
            old(fb).height as int,
            depth@,
            sprites@,
            ord_full,
            pix_start,
        ));
    }
}

} // verus!
