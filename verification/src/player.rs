//! The player pose: position in fixed-point world units, facing angle and
//! field of view in angle units, and the collision probe the movement layer
//! asks before applying a step.

use vstd::prelude::*;
use crate::fixed::{fp_mul, lemma_fp_mul_contract};
use crate::angle::{ANGLE_FULL, valid_angle, add_angle, sub_angle, cos_angle, sin_angle};
use crate::framebuffer::{Framebuffer, spec_on_line};
use crate::fixed::fp_mul_spec;
use crate::renderer::pix_idx;
use crate::grid::{Grid, spec_empty_at_world, cell_at_world, EMPTY_CELL};
use crate::cast::RAY_LIMIT;

verus! {

/// How far from a wall the player's hitbox keeps, in fixed-point units.
pub const COLLISION_BUFFER: i64 = 524288;

/// The player pose the renderer reads: position, facing angle, field of view.
pub struct Player {
    /// World x coordinate, fixed point.
    pub x: i64,
    /// World y coordinate, fixed point.
    pub y: i64,
    /// Facing angle, normalized angle units.
    pub a: i64,
    /// Field of view, angle units.
    pub fov: i64,
}

impl Player {
    /// A pose the renderer can consume: a normalized angle, a positive field
    /// of view below half a turn, and coordinates inside the caster's range.
    pub open spec fn wf(self) -> bool {
        &&& valid_angle(self.a as int)
        &&& 2 <= self.fov <= ANGLE_FULL / 2
        &&& 0 <= self.x <= RAY_LIMIT
        &&& 0 <= self.y <= RAY_LIMIT
    }

    /// A fresh player at a position, facing a sixth of a turn from east with
    /// a sixth of a turn of view.
    pub fn new(x: i64, y: i64) -> (r: Player)
        requires
            0 <= x <= RAY_LIMIT,
            0 <= y <= RAY_LIMIT,
        ensures
            r.wf(),
            r.x == x,
            r.y == y,
            r.a == ANGLE_FULL / 6,
            r.fov == ANGLE_FULL / 6,
    {
        Player { x, y, a: ANGLE_FULL / 6, fov: ANGLE_FULL / 6 }
    }

    /// Draws the player's facing marker on the minimap: a triangle of three
    /// line segments pointing along the facing, anchored at the given pixel
    /// center.  Every in-screen pixel on one of the three segments takes the
    /// marker color; every other pixel keeps its value.
    pub fn draw_player_triangle(
        &self,
        fb: &mut Framebuffer,
        center_x: i64,
        center_y: i64,
        size: i64,
        color: u32,
    )
        requires
            old(fb).wf(),
            valid_angle(self.a as int),
            -0x8000 <= center_x <= 0xc000,
            -0x8000 <= center_y <= 0xc000,
            0 <= size <= 0x4000,
        ensures
            final(fb).wf(),
            final(fb).same_shape(*old(fb)),
            forall|px: int, py: int|
                0 <= px < old(fb).width && 0 <= py < old(fb).height ==> final(fb).pixels@[
                    #[trigger] pix_idx(old(fb).width as int, px, py)
                ] == (if spec_on_triangle(*self, center_x as int, center_y as int, size as int, px, py) {
                    color
                } else {
                    old(fb).pixels@[pix_idx(old(fb).width as int, px, py)]
                }),
    {
        let back: i64 = 5 * ANGLE_FULL / 12;
        let left = add_angle(self.a, back);
        let right = sub_angle(self.a, back);
        proof {
            crate::angle::lemma_cos_bounds(self.a as int);
            crate::angle::lemma_sin_bounds(self.a as int);
            crate::angle::lemma_cos_bounds(left as int);
            crate::angle::lemma_sin_bounds(left as int);
            crate::angle::lemma_cos_bounds(right as int);
            crate::angle::lemma_sin_bounds(right as int);
            lemma_fp_mul_contract(size as int, crate::angle::spec_cos(self.a as int));
            lemma_fp_mul_contract(size as int, crate::angle::spec_sin(self.a as int));
        }
        let tip_x = center_x + fp_mul(size, cos_angle(self.a));
        let tip_y = center_y + fp_mul(size, sin_angle(self.a));
        let back_scale: i64 = size * 3 / 5;
        proof {
            lemma_fp_mul_contract(back_scale as int, crate::angle::spec_cos(left as int));
            lemma_fp_mul_contract(back_scale as int, crate::angle::spec_sin(left as int));
            lemma_fp_mul_contract(back_scale as int, crate::angle::spec_cos(right as int));
            lemma_fp_mul_contract(back_scale as int, crate::angle::spec_sin(right as int));
        }
        let left_x = center_x + fp_mul(back_scale, cos_angle(left));
        let left_y = center_y + fp_mul(back_scale, sin_angle(left));
        let right_x = center_x + fp_mul(back_scale, cos_angle(right));
        let right_y = center_y + fp_mul(back_scale, sin_angle(right));
        let ghost w = fb.width as int;
        let ghost h = fb.height as int;
        let ghost p0 = fb.pixels@;
        fb.draw_line(tip_x, tip_y, left_x, left_y, color);
        let ghost p1 = fb.pixels@;
        fb.draw_line(left_x, left_y, right_x, right_y, color);
        let ghost p2 = fb.pixels@;
        fb.draw_line(right_x, right_y, tip_x, tip_y, color);
        proof {
            assert forall|px: int, py: int|
                0 <= px < w && 0 <= py < h implies fb.pixels@[#[trigger] pix_idx(w, px, py)] == (
                if spec_on_triangle(*self, center_x as int, center_y as int, size as int, px, py) {
                    color
                } else {
                    p0[pix_idx(w, px, py)]
                }) by {
                assert(fb.pixels@[pix_idx(w, px, py)] == (
                if spec_on_line(right_x as int, right_y as int, tip_x as int, tip_y as int, px, py) {
                    color
                } else {
                    p2[pix_idx(w, px, py)]
                }));
                assert(p2[pix_idx(w, px, py)] == (
                if spec_on_line(left_x as int, left_y as int, right_x as int, right_y as int, px, py) {
                    color
                } else {
                    p1[pix_idx(w, px, py)]
                }));
                assert(p1[pix_idx(w, px, py)] == (
                if spec_on_line(tip_x as int, tip_y as int, left_x as int, left_y as int, px, py) {
                    color
                } else {
                    p0[pix_idx(w, px, py)]
                }));
            }
        }
    }
}

/// The triangle's tip: one marker length along the facing from the center.
pub open spec fn spec_tri_tip(p: Player, cx: int, cy: int, size: int) -> (int, int) {
    (
        cx + fp_mul_spec(size, crate::angle::spec_cos(p.a as int)),
        cy + fp_mul_spec(size, crate::angle::spec_sin(p.a as int)),
    )
}

/// The triangle's left back corner: three fifths of the marker length, five
/// twelfths of a turn counterclockwise of the facing.
pub open spec fn spec_tri_left(p: Player, cx: int, cy: int, size: int) -> (int, int) {
    let a = crate::angle::spec_add_angle(p.a as int, (5 * ANGLE_FULL / 12) as int);
    (
        cx + fp_mul_spec(size * 3 / 5, crate::angle::spec_cos(a)),
        cy + fp_mul_spec(size * 3 / 5, crate::angle::spec_sin(a)),
    )
}

/// The triangle's right back corner, mirror of the left.
pub open spec fn spec_tri_right(p: Player, cx: int, cy: int, size: int) -> (int, int) {
    let a = crate::angle::spec_sub_angle(p.a as int, (5 * ANGLE_FULL / 12) as int);
    (
        cx + fp_mul_spec(size * 3 / 5, crate::angle::spec_cos(a)),
        cy + fp_mul_spec(size * 3 / 5, crate::angle::spec_sin(a)),
    )
}

/// Whether a pixel lies on one of the three segments of the player marker.
pub open spec fn spec_on_triangle(p: Player, cx: int, cy: int, size: int, px: int, py: int) -> bool {
    let tip = spec_tri_tip(p, cx, cy, size);
    let left = spec_tri_left(p, cx, cy, size);
    let right = spec_tri_right(p, cx, cy, size);
    ||| spec_on_line(tip.0, tip.1, left.0, left.1, px, py)
    ||| spec_on_line(left.0, left.1, right.0, right.1, px, py)
    ||| spec_on_line(right.0, right.1, tip.0, tip.1, px, py)
}

/// Where a pose may stand: the four corners of its hitbox and its center all
/// lie in passable cells of the grid.
pub open spec fn spec_can_move_to(g: Grid, cell_size: int, x: int, y: int) -> bool {
    let b = COLLISION_BUFFER as int;
    &&& spec_empty_at_world(g, cell_size, x - b, y - b)
    &&& spec_empty_at_world(g, cell_size, x + b, y - b)
    &&& spec_empty_at_world(g, cell_size, x - b, y + b)
    &&& spec_empty_at_world(g, cell_size, x + b, y + b)
    &&& spec_empty_at_world(g, cell_size, x, y)
}

/// Whether the player may stand at `(x, y)`: its hitbox corners and center
/// must all be passable cells inside the grid.
pub fn can_move_to(x: i64, y: i64, g: &Grid, cell_size: i64) -> (r: bool)
    requires
        g.wf(),
        0 < cell_size,
        -RAY_LIMIT <= x <= RAY_LIMIT,
        -RAY_LIMIT <= y <= RAY_LIMIT,
    ensures
        r == spec_can_move_to(*g, cell_size as int, x as int, y as int),
{
    let points: [(i64, i64); 5] = [
        (x - COLLISION_BUFFER, y - COLLISION_BUFFER),
        (x + COLLISION_BUFFER, y - COLLISION_BUFFER),
        (x - COLLISION_BUFFER, y + COLLISION_BUFFER),
        (x + COLLISION_BUFFER, y + COLLISION_BUFFER),
        (x, y),
    ];
    let mut i: usize = 0;
    let mut ok = true;
    while i < 5
        invariant
            0 <= i <= 5,
            points@.len() == 5,
            points@[0] == (((x - COLLISION_BUFFER) as i64, (y - COLLISION_BUFFER) as i64)),
            points@[1] == (((x + COLLISION_BUFFER) as i64, (y - COLLISION_BUFFER) as i64)),
            points@[2] == (((x - COLLISION_BUFFER) as i64, (y + COLLISION_BUFFER) as i64)),
            points@[3] == (((x + COLLISION_BUFFER) as i64, (y + COLLISION_BUFFER) as i64)),
            points@[4] == ((x, y)),
            g.wf(),
            0 < cell_size,
            ok == forall|j: int|
                0 <= j < i ==> spec_empty_at_world(
                    *g,
                    cell_size as int,
                    (#[trigger] points@[j]).0 as int,
                    points@[j].1 as int,
                ),
        decreases 5 - i,
    {
        let (px, py) = points[i];
        match cell_at_world(g, cell_size, px, py) {
            Some(c) => {
                if c != EMPTY_CELL {
                    ok = false;
                }
            },
            None => {
                ok = false;
            },
        }
        i += 1;
    }
    ok
}

} // verus!
