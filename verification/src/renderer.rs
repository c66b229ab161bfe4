//! The wall pass: per-column geometry and coloring.
//!
//! For each screen column the renderer casts a ray, removes the fish-eye
//! distortion by the cosine of the column's angular offset, turns the
//! corrected distance into a vertical wall slab, derives the texture U
//! coordinate (disambiguating junction tiles from their grid neighbors), and
//! shades by distance with a centered flashlight band.

use vstd::prelude::*;
use vstd::arithmetic::div_mod::{
    lemma_div_is_ordered, lemma_div_is_ordered_by_denominator, lemma_div_pos_is_pos,
    lemma_multiply_divide_lt,
};
use crate::fixed::{
    FP_ONE, FP_BOUND, fp_mul, fp_mul_spec, div_floor_i64, mod_floor_i64, lemma_fp_mul_one,
    lemma_div_le,
};
use crate::angle::{
    spec_cos, spec_sin, spec_add_angle, spec_sub_angle, lemma_cos_zero, valid_angle, add_angle,
    sub_angle, cos_angle, sin_angle,
};
use crate::grid::{Grid, spec_cell_signed};
use crate::cast::{Intersect, cast_post, cast_ray, spec_ray_x, spec_ray_y};
use crate::player::Player;
use crate::texture::{TextureManager, spec_ceiling_color, spec_floor_color, spec_wall_color};
use crate::framebuffer::{Framebuffer, lemma_row_major_index, lemma_index_unique};
use crate::framebuffer::{spec_rgba, spec_red, spec_green, spec_blue, spec_alpha, rgba_to_u32, unpack_rgba};

verus! {

/// Below this corrected distance (a tenth of a world unit) the wall fills
/// the whole screen height: the near-degenerate guard.
pub const NEAR_GUARD: i64 = 6553;

/// The symbols that count as wall connections when orienting a junction.
pub open spec fn is_wall_symbol(c: char) -> bool {
    c == '|' || c == '-' || c == '+'
}

/// What surrounds a junction tile: which axes connect to it and how often.
pub struct WallContext {
    /// A vertically-flavored wall stands above or below.
    pub has_vertical_walls: bool,
    /// A horizontally-flavored wall stands left or right.
    pub has_horizontal_walls: bool,
    /// At most two of the four neighbors connect.
    pub is_corner: bool,
    /// At least three of the four neighbors connect.
    pub is_intersection: bool,
    /// Wall connections above and below.
    pub vertical_connections: usize,
    /// Wall connections left and right.
    pub horizontal_connections: usize,
}

/// One when the neighbor is a wall connection, else zero.
pub open spec fn spec_conn(c: Option<char>) -> int {
    match c {
        Some(s) => if is_wall_symbol(s) {
            1int
        } else {
            0int
        },
        None => 0int,
    }
}

/// The neighbor reads as a horizontally-flavored wall.
pub open spec fn spec_h_marker(c: Option<char>) -> bool {
    c == Some('-') || c == Some('+')
}

/// The neighbor reads as a vertically-flavored wall.
pub open spec fn spec_v_marker(c: Option<char>) -> bool {
    c == Some('|') || c == Some('+')
}

/// The context of the cell at `(col x, row y)`, read from its four
/// neighbors.
pub open spec fn spec_wall_context(g: Grid, x: int, y: int) -> WallContext {
    let left = spec_cell_signed(g, y, x - 1);
    let right = spec_cell_signed(g, y, x + 1);
    let up = spec_cell_signed(g, y - 1, x);
    let down = spec_cell_signed(g, y + 1, x);
    let hc = spec_conn(left) + spec_conn(right);
    let vc = spec_conn(up) + spec_conn(down);
    WallContext {
        has_vertical_walls: spec_v_marker(up) || spec_v_marker(down),
        has_horizontal_walls: spec_h_marker(left) || spec_h_marker(right),
        is_corner: hc + vc <= 2,
        is_intersection: hc + vc >= 3,
        vertical_connections: vc as usize,
        horizontal_connections: hc as usize,
    }
}

impl WallContext {
    /// The junction reads as a vertical face: more vertical connections, or
    /// only vertically-flavored neighbors.
    pub open spec fn spec_vertical_preference(self) -> bool {
        self.vertical_connections > self.horizontal_connections || (self.has_vertical_walls
            && !self.has_horizontal_walls)
    }

    /// The junction reads as a horizontal face: more horizontal connections,
    /// or only horizontally-flavored neighbors.
    pub open spec fn spec_horizontal_preference(self) -> bool {
        self.horizontal_connections > self.vertical_connections || (self.has_horizontal_walls
            && !self.has_vertical_walls)
    }

    /// The junction reads as a vertical face.
    pub fn has_vertical_preference(&self) -> (r: bool)
        ensures
            r == self.spec_vertical_preference(),
    {
        self.vertical_connections > self.horizontal_connections || (self.has_vertical_walls
            && !self.has_horizontal_walls)
    }

    /// The junction reads as a horizontal face.
    pub fn has_horizontal_preference(&self) -> (r: bool)
        ensures
            r == self.spec_horizontal_preference(),
    {
        self.horizontal_connections > self.vertical_connections || (self.has_horizontal_walls
            && !self.has_vertical_walls)
    }
}

/// The symbol of a cell read with signed indices, `None` outside the grid.
pub fn get_maze_cell(g: &Grid, x: i64, y: i64) -> (r: Option<char>)
    requires
        g.wf(),
    ensures
        r == spec_cell_signed(*g, y as int, x as int),
{
    g.at_signed(y, x)
}

/// Reads the context of the cell at `(col x, row y)` from its four
/// neighbors.
pub fn analyze_wall_context(g: &Grid, x: i64, y: i64) -> (r: WallContext)
    requires
        g.wf(),
        -0x7fff_ffff_0000 < x < 0x7fff_ffff_0000,
        -0x7fff_ffff_0000 < y < 0x7fff_ffff_0000,
    ensures
        r == spec_wall_context(*g, x as int, y as int),
{
    let left = get_maze_cell(g, x - 1, y);
    let right = get_maze_cell(g, x + 1, y);
    let up = get_maze_cell(g, x, y - 1);
    let down = get_maze_cell(g, x, y + 1);
    let mut horizontal_connections: usize = 0;
    let mut vertical_connections: usize = 0;
    let mut has_horizontal_walls = false;
    let mut has_vertical_walls = false;
    match left {
        Some(c) => {
            if c == '|' || c == '-' || c == '+' {
                horizontal_connections += 1;
                if c == '-' || c == '+' {
                    has_horizontal_walls = true;
                }
            }
        },
        None => {},
    }
    match right {
        Some(c) => {
            if c == '|' || c == '-' || c == '+' {
                horizontal_connections += 1;
                if c == '-' || c == '+' {
                    has_horizontal_walls = true;
                }
            }
        },
        None => {},
    }
    match up {
        Some(c) => {
            if c == '|' || c == '-' || c == '+' {
                vertical_connections += 1;
                if c == '|' || c == '+' {
                    has_vertical_walls = true;
                }
            }
        },
        None => {},
    }
    match down {
        Some(c) => {
            if c == '|' || c == '-' || c == '+' {
                vertical_connections += 1;
                if c == '|' || c == '+' {
                    has_vertical_walls = true;
                }
            }
        },
        None => {},
    }
    let total = vertical_connections + horizontal_connections;
    WallContext {
        has_vertical_walls,
        has_horizontal_walls,
        is_corner: total <= 2,
        is_intersection: total >= 3,
        vertical_connections,
        horizontal_connections,
    }
}

/// How many of the four neighbors of `(col x, row y)` are wall connections.
pub fn count_wall_connections(g: &Grid, x: i64, y: i64) -> (r: usize)
    requires
        g.wf(),
        -0x7fff_ffff_0000 < x < 0x7fff_ffff_0000,
        -0x7fff_ffff_0000 < y < 0x7fff_ffff_0000,
    ensures
        r == spec_conn(spec_cell_signed(*g, y as int, (x - 1) as int)) + spec_conn(
            spec_cell_signed(*g, y as int, (x + 1) as int),
        ) + spec_conn(spec_cell_signed(*g, (y - 1) as int, x as int)) + spec_conn(
            spec_cell_signed(*g, (y + 1) as int, x as int),
        ),
{
    let ctx = analyze_wall_context(g, x, y);
    ctx.vertical_connections + ctx.horizontal_connections
}

/// The texture U coordinate and effective wall symbol of a hit.  A plain
/// symbol keeps itself and reads its face from the nearest cell edge (the
/// axis with the smaller fractional remainder), a tie reading as vertical;
/// U runs along that face.  A junction tile reads its face from the counts
/// of its vertical and horizontal neighbor wall connections, equal counts
/// preferring the vertical reading, and takes the matching face symbol.
pub open spec fn spec_wall_orientation(
    g: Grid,
    hit_x: int,
    hit_y: int,
    cell_size: int,
    impact: char,
) -> (int, char) {
    let cx = hit_x % cell_size;
    let cy = hit_y % cell_size;
    let u_vertical = cy * (FP_ONE as int) / cell_size;
    let u_horizontal = cx * (FP_ONE as int) / cell_size;
    if impact != '+' {
        let edge_x = if cx < cell_size - cx {
            cx
        } else {
            cell_size - cx
        };
        let edge_y = if cy < cell_size - cy {
            cy
        } else {
            cell_size - cy
        };
        if edge_x <= edge_y {
            (u_vertical, impact)
        } else {
            (u_horizontal, impact)
        }
    } else {
        let ctx = spec_wall_context(g, hit_x / cell_size, hit_y / cell_size);
        if ctx.vertical_connections >= ctx.horizontal_connections {
            (u_vertical, '|')
        } else {
            (u_horizontal, '-')
        }
    }
}

/// A cell-relative coordinate maps to a U value inside one tile.
proof fn lemma_u_in_tile(c: int, cell: int)
    requires
        0 <= c < cell,
    ensures
        0 <= c * (FP_ONE as int) / cell < FP_ONE as int,
{
    lemma_div_pos_is_pos(c * (FP_ONE as int), cell);
    assert(c * (FP_ONE as int) < cell * (FP_ONE as int)) by (nonlinear_arith)
        requires
            0 <= c < cell,
    ;
    assert(cell * (FP_ONE as int) == (FP_ONE as int) * cell) by (nonlinear_arith);
    lemma_multiply_divide_lt(c * (FP_ONE as int), cell, FP_ONE as int);
}

/// Derives the texture U coordinate and effective wall symbol of a hit.
pub fn determine_wall_orientation_and_texture(
    g: &Grid,
    hit_x: i64,
    hit_y: i64,
    cell_size: i64,
    impact: char,
) -> (r: (i64, char))
    requires
        g.wf(),
        0 < cell_size <= FP_BOUND,
        -0x4000_0000_0000 < hit_x < 0x4000_0000_0000,
        -0x4000_0000_0000 < hit_y < 0x4000_0000_0000,
    ensures
        (r.0 as int, r.1) == spec_wall_orientation(
            *g,
            hit_x as int,
            hit_y as int,
            cell_size as int,
            impact,
        ),
        0 <= r.0 < FP_ONE,
{
    let cx = mod_floor_i64(hit_x, cell_size);
    let cy = mod_floor_i64(hit_y, cell_size);
    proof {
        lemma_u_in_tile(cx as int, cell_size as int);
        lemma_u_in_tile(cy as int, cell_size as int);
    }
    if impact != '+' {
        let edge_x = if cx < cell_size - cx {
            cx
        } else {
            cell_size - cx
        };
        let edge_y = if cy < cell_size - cy {
            cy
        } else {
            cell_size - cy
        };
        if edge_x <= edge_y {
            ((cy * FP_ONE) / cell_size, impact)
        } else {
            ((cx * FP_ONE) / cell_size, impact)
        }
    } else {
        let map_x = div_floor_i64(hit_x, cell_size);
        let map_y = div_floor_i64(hit_y, cell_size);
        let ctx = analyze_wall_context(g, map_x, map_y);
        if ctx.vertical_connections >= ctx.horizontal_connections {
            ((cy * FP_ONE) / cell_size, '|')
        } else {
            ((cx * FP_ONE) / cell_size, '-')
        }
    }
}

/// The shading factor at a corrected distance, with a flashlight term: the
/// base darkness falls linearly with distance, floors at thirty percent, is
/// scaled to a tenth, and the flashlight adds up to a cap of one.
pub open spec fn spec_shade_factor(distance: int, flashlight: int) -> int {
    let ratio = distance / 500;
    let capped = if ratio > 45875 {
        45875int
    } else {
        ratio
    };
    let base = if 65536 - capped < 19661 {
        19661int
    } else {
        65536 - capped
    };
    let shade = base * 6554 / 65536;
    if shade + flashlight > 65536 {
        65536int
    } else {
        shade + flashlight
    }
}

/// A color with each channel scaled by the shading factor; alpha is kept.
pub open spec fn spec_shaded_color(color: int, distance: int, flashlight: int) -> int {
    let f = spec_shade_factor(distance, flashlight);
    spec_rgba(
        spec_red(color) * f / 65536,
        spec_green(color) * f / 65536,
        spec_blue(color) * f / 65536,
        spec_alpha(color),
    )
}

/// A channel scaled by a factor in `[0, FP_ONE]` stays a channel.
proof fn lemma_scale_channel(ch: int, f: int)
    requires
        0 <= ch < 256,
        0 <= f <= 65536,
    ensures
        0 <= ch * f / 65536 <= ch,
{
    assert(0 <= ch * f <= ch * 65536) by (nonlinear_arith)
        requires
            0 <= ch < 256,
            0 <= f <= 65536,
    ;
    lemma_div_le(ch * f, ch, 65536);
}

/// Applies distance shading and a flashlight term to a packed color.
pub fn apply_distance_shading(color: u32, distance: i64, flashlight: i64) -> (r: u32)
    requires
        0 <= distance,
        0 <= flashlight <= FP_ONE,
    ensures
        r == spec_shaded_color(color as int, distance as int, flashlight as int),
{
    let ratio: i64 = distance / 500;
    let capped: i64 = if ratio > 45875 {
        45875
    } else {
        ratio
    };
    let base: i64 = if 65536 - capped < 19661 {
        19661
    } else {
        65536 - capped
    };
    let shade: i64 = (base * 6554) / 65536;
    let f: i64 = if shade + flashlight > 65536 {
        65536
    } else {
        shade + flashlight
    };
    let (cr, cg, cb, ca) = unpack_rgba(color);
    proof {
        lemma_div_pos_is_pos(distance as int, 500);
        lemma_div_pos_is_pos((base as int) * 6554, 65536);
        lemma_scale_channel(cr as int, f as int);
        lemma_scale_channel(cg as int, f as int);
        lemma_scale_channel(cb as int, f as int);
        lemma_div_pos_is_pos((color as int) / 65536, 256);
        lemma_div_pos_is_pos(color as int, 65536);
        lemma_div_pos_is_pos(color as int, 256);
        lemma_div_pos_is_pos(color as int, 16777216);
        vstd::arithmetic::div_mod::lemma_mod_bound(color as int, 256);
        vstd::arithmetic::div_mod::lemma_mod_bound((color as int) / 256, 256);
        vstd::arithmetic::div_mod::lemma_mod_bound((color as int) / 65536, 256);
        lemma_multiply_divide_lt(color as int, 16777216, 256);
    }
    let sr: u8 = ((cr as i64) * f / 65536) as u8;
    let sg: u8 = ((cg as i64) * f / 65536) as u8;
    let sb: u8 = ((cb as i64) * f / 65536) as u8;
    rgba_to_u32(sr, sg, sb, ca)
}

/// The flashlight strength of the full-resolution wall pass: seventy
/// percent.
pub const FLASHLIGHT_FULL: i64 = 45875;

/// The flashlight strength of the downsampled wall pass: sixty percent.
pub const FLASHLIGHT_DOWNSCALE: i64 = 39321;

/// The flashlight term of a screen column: a centered band of the given
/// strength, strongest in the middle of the screen and fading linearly to
/// zero at twelve percent of the width to either side.
pub open spec fn spec_flashlight_factor(i: int, width: int, strength: int) -> int {
    let off = if 2 * i >= width {
        2 * i - width
    } else {
        width - 2 * i
    };
    if 100 * off < 24 * width {
        strength * (24 * width - 100 * off) / (24 * width)
    } else {
        0
    }
}

/// The flashlight factor of a column, in `[0, FP_ONE]`.
pub fn flashlight_factor(i: usize, width: usize, strength: i64) -> (r: i64)
    requires
        0 < width <= 16384,
        i < width,
        0 <= strength <= FP_ONE,
    ensures
        r == spec_flashlight_factor(i as int, width as int, strength as int),
        0 <= r <= FP_ONE,
{
    let off: i64 = if 2 * (i as i64) >= width as i64 {
        2 * (i as i64) - width as i64
    } else {
        width as i64 - 2 * (i as i64)
    };
    if 100 * off < 24 * (width as i64) {
        proof {
            assert(0 <= (strength as int) * (24 * (width as int) - 100 * (off as int))
                <= (strength as int) * (24 * (width as int))) by (nonlinear_arith)
                requires
                    0 <= 24 * (width as int) - 100 * (off as int) <= 24 * (width as int),
                    0 <= strength as int,
            ;
            lemma_div_pos_is_pos(
                (strength as int) * (24 * (width as int) - 100 * (off as int)),
                24 * (width as int),
            );
            lemma_div_le(
                (strength as int) * (24 * (width as int) - 100 * (off as int)),
                strength as int,
                24 * (width as int),
            );
            assert((strength as int) * (24 * (width as int)) <= 65536 * (24 * 16384))
                by (nonlinear_arith)
                requires
                    0 <= strength as int <= 65536,
                    0 < width as int <= 16384,
            ;
        }
        (strength * (24 * (width as i64) - 100 * off)) / (24 * (width as i64))
    } else {
        0
    }
}

/// The unclipped wall slab height at a corrected distance: inverse to the
/// distance, full screen height inside the near guard.
pub open spec fn spec_wall_height(cell_size: int, screen_h: int, corrected: int) -> int {
    if corrected > NEAR_GUARD as int {
        cell_size * screen_h / corrected
    } else {
        screen_h
    }
}

/// The wall slab rows of a column: the height centered vertically and
/// clipped to the screen.
pub open spec fn spec_slab(cell_size: int, screen_h: int, corrected: int) -> (int, int) {
    let wh = spec_wall_height(cell_size, screen_h, corrected);
    let start = if wh >= screen_h {
        0int
    } else {
        (screen_h - wh) / 2
    };
    let end = if (screen_h + wh) / 2 > screen_h {
        screen_h
    } else {
        (screen_h + wh) / 2
    };
    (start, end)
}

/// Computes the wall slab rows of a column.
pub fn wall_slab(cell_size: i64, screen_h: usize, corrected: i64) -> (r: (usize, usize))
    requires
        0 < cell_size <= FP_BOUND,
        0 < screen_h <= 16384,
    ensures
        (r.0 as int, r.1 as int) == spec_slab(cell_size as int, screen_h as int, corrected as int),
        r.0 <= r.1 <= screen_h,
{
    let wh: i64 = if corrected > NEAR_GUARD {
        proof {
            lemma_div_pos_is_pos((cell_size as int) * (screen_h as int), corrected as int);
            assert((cell_size as int) * (screen_h as int) <= ((cell_size as int) * (screen_h
                as int)) * (corrected as int)) by (nonlinear_arith)
                requires
                    0 <= (cell_size as int) * (screen_h as int),
                    1 <= corrected as int,
            ;
            lemma_div_le(
                (cell_size as int) * (screen_h as int),
                (cell_size as int) * (screen_h as int),
                corrected as int,
            );
            assert((cell_size as int) * (screen_h as int) <= 0x7fff_ffff * 16384)
                by (nonlinear_arith)
                requires
                    0 < cell_size as int <= 0x7fff_ffff,
                    0 < screen_h as int <= 16384,
            ;
        }
        ((cell_size as u64) * (screen_h as u64) / (corrected as u64)) as i64
    } else {
        screen_h as i64
    };
    let start: usize = if wh >= screen_h as i64 {
        0
    } else {
        ((screen_h as i64 - wh) / 2) as usize
    };
    let end: usize = if (screen_h as i64 + wh) / 2 > screen_h as i64 {
        screen_h
    } else {
        ((screen_h as i64 + wh) / 2) as usize
    };
    (start, end)
}

/// Perspective correction is exact at the view center: with no angular
/// offset between the ray and the facing, the corrected distance equals the
/// raw distance.
pub proof fn lemma_center_correction(d: int)
    ensures
        fp_mul_spec(d, spec_cos(0)) == d,
{
    lemma_cos_zero();
    lemma_fp_mul_one(d);
}

/// The unclipped wall height never increases as the corrected distance
/// grows, past the near guard.
pub proof fn lemma_wall_height_monotone(cell_size: int, screen_h: int, c1: int, c2: int)
    requires
        0 < cell_size,
        0 < screen_h,
        (NEAR_GUARD as int) < c1 <= c2,
    ensures
        spec_wall_height(cell_size, screen_h, c1) >= spec_wall_height(cell_size, screen_h, c2),
{
    assert(0 <= cell_size * screen_h) by (nonlinear_arith)
        requires
            0 < cell_size,
            0 < screen_h,
    ;
    lemma_div_is_ordered_by_denominator(cell_size * screen_h, c1, c2);
}

/// Inside the near guard the slab is the whole screen, and no slab anywhere
/// is taller than that.
pub proof fn lemma_slab_full_inside_guard(
    cell_size: int,
    screen_h: int,
    corrected: int,
    other: int,
)
    requires
        0 < cell_size,
        0 < screen_h,
    ensures
        corrected <= NEAR_GUARD as int ==> spec_slab(cell_size, screen_h, corrected) == (
        0int, screen_h),
        0 <= spec_slab(cell_size, screen_h, other).0 <= spec_slab(cell_size, screen_h, other).1
            <= screen_h,
{
    if corrected <= NEAR_GUARD as int {
        lemma_div_is_ordered(2 * screen_h, 2 * screen_h, 2);
        assert((2 * screen_h) / 2 == screen_h);
    }
    let wh = spec_wall_height(cell_size, screen_h, other);
    if other > NEAR_GUARD as int {
        lemma_div_pos_is_pos(cell_size * screen_h, other);
        assert(0 <= cell_size * screen_h) by (nonlinear_arith)
            requires
                0 < cell_size,
                0 < screen_h,
        ;
    }
    if wh < screen_h {
        lemma_div_pos_is_pos(screen_h - wh, 2);
        lemma_div_pos_is_pos(screen_h + wh, 2);
        lemma_div_is_ordered(screen_h - wh, screen_h + wh, 2);
    }
}

/// The drawn slab never grows as the corrected distance grows: fewer rows of
/// wall at greater depth, whatever side of the near guard the distances lie.
pub proof fn lemma_slab_monotone(cell_size: int, screen_h: int, c1: int, c2: int)
    requires
        0 < cell_size,
        0 < screen_h,
        0 < c1 <= c2,
    ensures
        spec_slab(cell_size, screen_h, c1).1 - spec_slab(cell_size, screen_h, c1).0 >= spec_slab(
            cell_size,
            screen_h,
            c2,
        ).1 - spec_slab(cell_size, screen_h, c2).0,
{
    let wh1 = spec_wall_height(cell_size, screen_h, c1);
    let wh2 = spec_wall_height(cell_size, screen_h, c2);
    assert(0 <= cell_size * screen_h) by (nonlinear_arith)
        requires
            0 < cell_size,
            0 < screen_h,
    ;
    if c1 > NEAR_GUARD as int {
        lemma_wall_height_monotone(cell_size, screen_h, c1, c2);
    } else {
        // Inside the guard the first slab is the full screen, which no slab
        // exceeds.
        if c2 > NEAR_GUARD as int {
            lemma_div_pos_is_pos(cell_size * screen_h, c2);
        }
    }
    lemma_slab_size_from_height(screen_h, wh1, wh2);
}

/// A taller wall never draws a smaller slab.
proof fn lemma_slab_size_from_height(screen_h: int, wh1: int, wh2: int)
    requires
        0 < screen_h,
        0 <= wh2,
        wh1 >= wh2 || wh1 >= screen_h,
    ensures
        ({
            let start1 = if wh1 >= screen_h {
                0int
            } else {
                (screen_h - wh1) / 2
            };
            let end1 = if (screen_h + wh1) / 2 > screen_h {
                screen_h
            } else {
                (screen_h + wh1) / 2
            };
            let start2 = if wh2 >= screen_h {
                0int
            } else {
                (screen_h - wh2) / 2
            };
            let end2 = if (screen_h + wh2) / 2 > screen_h {
                screen_h
            } else {
                (screen_h + wh2) / 2
            };
            end1 - start1 >= end2 - start2
        }),
{
    if wh1 >= screen_h {
        // The first slab is the whole screen.
        if wh2 < screen_h {
            lemma_div_pos_is_pos(screen_h - wh2, 2);
            lemma_div_is_ordered(screen_h + wh2, 2 * screen_h, 2);
            assert((2 * screen_h) / 2 == screen_h);
        }
    } else {
        lemma_div_is_ordered(screen_h - wh1, screen_h - wh2, 2);
        lemma_div_is_ordered(screen_h + wh2, screen_h + wh1, 2);
        lemma_div_is_ordered(screen_h + wh1, 2 * screen_h, 2);
        assert((2 * screen_h) / 2 == screen_h);
        lemma_div_pos_is_pos(screen_h - wh1, 2);
    }
}

/// The ray-march step the renderers use: one world unit.
pub const RAY_STEP: i64 = 65536;

/// The ray range the renderers use: a thousand world units.
pub const MAX_RANGE: i64 = 65536000;

/// The angle of the ray for screen column `i` of `w`: the facing swept from
/// half the field of view left of center, by the column's fraction of it.
pub open spec fn spec_ray_angle(pa: int, fov: int, i: int, w: int) -> int {
    spec_add_angle(spec_sub_angle(pa, fov / 2), fov * i / w)
}

/// The corrected distance of a cast: the raw distance scaled by the cosine
/// of the ray's angular offset from the facing, removing the fish-eye.
pub open spec fn spec_corrected(pa: int, angle: int, distance: int) -> int {
    fp_mul_spec(distance, spec_cos(spec_sub_angle(pa, angle)))
}

/// The color the wall pass gives one pixel of a column, given the ray result
/// `r` sampled for that column: ceiling above the slab, the shaded textured
/// wall inside it, the shaded floor below it, and the pixel left alone on
/// the degenerate horizon rows.
pub open spec fn spec_column_pixel(
    g: Grid,
    tm: TextureManager,
    player: Player,
    cell_size: int,
    w: int,
    h: int,
    sample_x: int,
    flash_strength: int,
    r: Intersect,
    y: int,
    old_pixel: u32,
) -> u32 {
    let angle = spec_ray_angle(player.a as int, player.fov as int, sample_x, w);
    let corrected = spec_corrected(player.a as int, angle, r.distance as int);
    let slab = spec_slab(cell_size, h, corrected);
    if y < slab.0 {
        spec_ceiling_color(tm, sample_x, y, w, h)
    } else if y < slab.1 {
        let hit_x = spec_ray_x(player.x as int, spec_cos(angle), r.distance as int);
        let hit_y = spec_ray_y(player.y as int, spec_sin(angle), r.distance as int);
        let uv = spec_wall_orientation(g, hit_x, hit_y, cell_size, r.impact);
        let v = (y - slab.0) * (FP_ONE as int) / (slab.1 - slab.0);
        let shade_dist = if corrected > 0 {
            corrected
        } else {
            0int
        };
        spec_shaded_color(
            spec_wall_color(tm, uv.1, uv.0, v) as int,
            shade_dist,
            spec_flashlight_factor(sample_x, w, flash_strength),
        ) as u32
    } else {
        if 2 * y <= h {
            old_pixel
        } else {
            let row_dist = h * (FP_ONE as int) / (2 * y - h);
            let fx = player.x + fp_mul_spec(row_dist, spec_cos(angle));
            let fy = player.y + fp_mul_spec(row_dist, spec_sin(angle));
            spec_shaded_color(spec_floor_color(tm, fx, fy, cell_size) as int, row_dist, 0) as u32
        }
    }
}

/// The row-major pixel index of a column and row.
pub open spec fn pix_idx(w: int, c: int, y: int) -> int {
    y * w + c
}

/// What the wall pass leaves in the columns `x0..x1` of the buffer and in
/// their depth entry, all sampled from the ray of column `sample_x`: some
/// cast result consistent with `cast_post` whose corrected distance is the
/// depth, every pixel of the block matching `spec_column_pixel`.
pub open spec fn block_rendered(
    g: Grid,
    tm: TextureManager,
    player: Player,
    cell_size: int,
    w: int,
    h: int,
    x0: int,
    x1: int,
    sample_x: int,
    flash_strength: int,
    old_pix: Seq<u32>,
    new_pix: Seq<u32>,
    depth_val: int,
) -> bool {
    exists|r: Intersect|
        {
            &&& #[trigger] cast_post(
                g,
                cell_size,
                player.x as int,
                player.y as int,
                spec_ray_angle(player.a as int, player.fov as int, sample_x, w),
                RAY_STEP as int,
                MAX_RANGE as int,
                r,
            )
            &&& depth_val == spec_corrected(
                player.a as int,
                spec_ray_angle(player.a as int, player.fov as int, sample_x, w),
                r.distance as int,
            )
            &&& forall|c: int, y: int|
                x0 <= c < x1 && 0 <= y < h ==> new_pix[#[trigger] pix_idx(w, c, y)]
                    == spec_column_pixel(
                    g,
                    tm,
                    player,
                    cell_size,
                    w,
                    h,
                    sample_x,
                    flash_strength,
                    r,
                    y,
                    old_pix[pix_idx(w, c, y)],
                )
        }
}

/// Renders the columns `x0..x1` of one frame from the ray of column
/// `sample_x`, and returns that ray's corrected distance for the depth
/// buffer.  Columns outside the block are left untouched.
fn render_block(
    fb: &mut Framebuffer,
    g: &Grid,
    player: &Player,
    cell_size: i64,
    tm: &TextureManager,
    x0: usize,
    x1: usize,
    sample_x: usize,
    flash_strength: i64,
) -> (depth_val: i64)
    requires
        old(fb).wf(),
        g.wf(),
        player.wf(),
        tm.wf(),
        0 < cell_size <= FP_BOUND,
        x0 <= sample_x < x1 <= old(fb).width,
        0 <= flash_strength <= FP_ONE,
    ensures
        final(fb).wf(),
        final(fb).same_shape(*old(fb)),
        block_rendered(
            *g,
            *tm,
            *player,
            cell_size as int,
            old(fb).width as int,
            old(fb).height as int,
            x0 as int,
            x1 as int,
            sample_x as int,
            flash_strength as int,
            old(fb).pixels@,
            final(fb).pixels@,
            depth_val as int,
        ),
        forall|idx: int|
            0 <= idx < final(fb).pixels@.len() && !(x0 <= idx % (old(fb).width as int) < x1)
                ==> final(fb).pixels@[idx] == old(fb).pixels@[idx],
{
    let ghost w = fb.width as int;
    let ghost h = fb.height as int;
    let width = fb.width;
    let height = fb.height;

    // The ray angle of the sampled column.
    let half_fov: i64 = player.fov / 2;
    let base = sub_angle(player.a, half_fov);
    proof {
        assert((player.fov as int) * (sample_x as int) < (width as int) * (player.fov as int))
            by (nonlinear_arith)
            requires
                0 <= (sample_x as int) < width as int,
                0 < player.fov as int,
        ;
        lemma_multiply_divide_lt(
            (player.fov as int) * (sample_x as int),
            width as int,
            player.fov as int,
        );
        lemma_div_pos_is_pos((player.fov as int) * (sample_x as int), width as int);
        assert((player.fov as int) * (sample_x as int) <= 32768 * 16384) by (nonlinear_arith)
            requires
                0 < player.fov as int <= 32768,
                0 <= sample_x as int <= 16384,
        ;
    }
    let off: i64 = (player.fov * (sample_x as i64)) / (width as i64);
    let angle = add_angle(base, off);

    let intersection = cast_ray(
        fb,
        g,
        player.x,
        player.y,
        angle,
        cell_size,
        RAY_STEP,
        MAX_RANGE,
        false,
    );
    let ghost r = intersection;

    let diff = sub_angle(player.a, angle);
    let cos_diff = cos_angle(diff);
    let corrected = fp_mul(intersection.distance, cos_diff);
    proof {
        crate::fixed::lemma_fp_mul_contract(r.distance as int, cos_diff as int);
    }

    let slab = wall_slab(cell_size, height, corrected);
    let wall_start = slab.0;
    let wall_end = slab.1;

    // The world hit point and the wall texture of this column.
    let dir_cos = cos_angle(angle);
    let dir_sin = sin_angle(angle);
    proof {
        crate::fixed::lemma_fp_mul_contract(r.distance as int, dir_cos as int);
        crate::fixed::lemma_fp_mul_contract(r.distance as int, dir_sin as int);
    }
    let hit_x = player.x + fp_mul(intersection.distance, dir_cos);
    let hit_y = player.y + fp_mul(intersection.distance, dir_sin);
    let wall_uv = determine_wall_orientation_and_texture(g, hit_x, hit_y, cell_size, intersection.impact);
    let wall_u = wall_uv.0;
    let wall_char = wall_uv.1;
    let flash = flashlight_factor(sample_x, width, flash_strength);
    let shade_dist: i64 = if corrected > 0 {
        corrected
    } else {
        0
    };

    let ghost pix0 = fb.pixels@;
    let mut y: usize = 0;
    while y < height
        invariant
            fb.wf(),
            fb.same_shape(*old(fb)),
            fb.width == width,
            fb.height == height,
            g.wf(),
            player.wf(),
            tm.wf(),
            0 < cell_size <= FP_BOUND,
            x0 <= sample_x < x1 <= width as int,
            0 <= y <= height,
            pix0.len() == fb.pixels@.len(),
            angle == spec_ray_angle(player.a as int, player.fov as int, sample_x as int, w),
            valid_angle(angle as int),
            w == width as int,
            h == height as int,
            cast_post(
                *g,
                cell_size as int,
                player.x as int,
                player.y as int,
                angle as int,
                RAY_STEP as int,
                MAX_RANGE as int,
                r,
            ),
            0 <= r.distance <= MAX_RANGE,
            corrected == spec_corrected(player.a as int, angle as int, r.distance as int),
            -MAX_RANGE <= corrected <= MAX_RANGE,
            (wall_start as int, wall_end as int) == spec_slab(cell_size as int, h, corrected as int),
            wall_start <= wall_end <= height,
            hit_x == player.x + fp_mul_spec(r.distance as int, spec_cos(angle as int)),
            hit_y == player.y + fp_mul_spec(r.distance as int, spec_sin(angle as int)),
            (wall_u as int, wall_char) == spec_wall_orientation(
                *g,
                hit_x as int,
                hit_y as int,
                cell_size as int,
                r.impact,
            ),
            0 <= wall_u < FP_ONE,
            flash == spec_flashlight_factor(sample_x as int, w, flash_strength as int),
            0 <= flash <= FP_ONE,
            dir_cos == spec_cos(angle as int),
            dir_sin == spec_sin(angle as int),
            -FP_ONE <= dir_cos <= FP_ONE,
            -FP_ONE <= dir_sin <= FP_ONE,
            shade_dist == (if corrected > 0 {
                corrected as int
            } else {
                0int
            }),
            forall|idx: int|
                0 <= idx < fb.pixels@.len() && !(x0 <= idx % w < x1) ==> fb.pixels@[idx]
                    == pix0[idx],
            forall|c: int, yy: int|
                x0 <= c < x1 && 0 <= yy < y ==> fb.pixels@[#[trigger] pix_idx(w, c, yy)]
                    == spec_column_pixel(
                    *g,
                    *tm,
                    *player,
                    cell_size as int,
                    w,
                    h,
                    sample_x as int,
                    flash_strength as int,
                    r,
                    yy,
                    pix0[pix_idx(w, c, yy)],
                ),
            forall|c: int, yy: int|
                x0 <= c < x1 && y <= yy < h ==> fb.pixels@[#[trigger] pix_idx(w, c, yy)]
                    == pix0[pix_idx(w, c, yy)],
        decreases height - y,
    {
        // The color of this row, the same across the block.
        let skip: bool = wall_end <= y && 2 * y <= height;
        let color: u32 = if y < wall_start {
            tm.get_ceiling_color(sample_x, y, width, height)
        } else if y < wall_end {
            proof {
                lemma_u_in_tile((y - wall_start) as int, (wall_end - wall_start) as int);
            }
            let v: i64 = (((y - wall_start) as i64) * FP_ONE) / ((wall_end - wall_start) as i64);
            let base_color = tm.get_wall_color(wall_char, wall_u, v);
            apply_distance_shading(base_color, shade_dist, flash)
        } else if 2 * y <= height {
            0
        } else {
            proof {
                lemma_div_pos_is_pos(h * 65536, 2 * y - h);
                assert(h * 65536 <= (h * 65536) * (2 * y - h)) by (nonlinear_arith)
                    requires
                        0 <= h * 65536,
                        1 <= 2 * y - h,
                ;
                lemma_div_le(h * 65536, h * 65536, 2 * y - h);
            }
            let row_dist: i64 = ((height as i64) * FP_ONE) / (2 * (y as i64) - height as i64);
            proof {
                crate::angle::lemma_cos_bounds(angle as int);
                crate::angle::lemma_sin_bounds(angle as int);
                crate::fixed::lemma_fp_mul_contract(row_dist as int, spec_cos(angle as int));
                crate::fixed::lemma_fp_mul_contract(row_dist as int, spec_sin(angle as int));
            }
            let fx = player.x + fp_mul(row_dist, dir_cos);
            let fy = player.y + fp_mul(row_dist, dir_sin);
            let floor_color = tm.get_floor_color(fx, fy, cell_size);
            apply_distance_shading(floor_color, row_dist, 0)
        };
        if !skip {
            let mut c: usize = x0;
            while c < x1
                invariant
                    fb.wf(),
                    fb.same_shape(*old(fb)),
                    fb.width == width,
                    fb.height == height,
                    w == width as int,
                    h == height as int,
                    pix0.len() == fb.pixels@.len(),
                    x0 <= c <= x1 <= width as int,
                    0 <= y < height,
                    !(wall_end <= y && 2 * y <= height),
                    forall|cc: int|
                        x0 <= cc < x1 ==> color == spec_column_pixel(
                            *g,
                            *tm,
                            *player,
                            cell_size as int,
                            w,
                            h,
                            sample_x as int,
                            flash_strength as int,
                            r,
                            y as int,
                            pix0[#[trigger] pix_idx(w, cc, y as int)],
                        ),
                    forall|idx: int|
                        0 <= idx < fb.pixels@.len() && !(x0 <= idx % w < x1) ==> fb.pixels@[idx]
                            == pix0[idx],
                    forall|cc: int, yy: int|
                        x0 <= cc < x1 && 0 <= yy < y ==> fb.pixels@[#[trigger] pix_idx(w, cc, yy)]
                            == spec_column_pixel(
                            *g,
                            *tm,
                            *player,
                            cell_size as int,
                            w,
                            h,
                            sample_x as int,
                            flash_strength as int,
                            r,
                            yy,
                            pix0[pix_idx(w, cc, yy)],
                        ),
                    forall|cc: int, yy: int|
                        x0 <= cc < x1 && y as int == yy && x0 <= cc < c ==> fb.pixels@[
                            #[trigger] pix_idx(w, cc, yy)
                        ] == spec_column_pixel(
                            *g,
                            *tm,
                            *player,
                            cell_size as int,
                            w,
                            h,
                            sample_x as int,
                            flash_strength as int,
                            r,
                            yy,
                            pix0[pix_idx(w, cc, yy)],
                        ),
                    forall|cc: int, yy: int|
                        x0 <= cc < x1 && y as int <= yy < h && !(yy == y as int && x0 <= cc < c)
                            ==> fb.pixels@[#[trigger] pix_idx(w, cc, yy)] == pix0[pix_idx(
                            w,
                            cc,
                            yy,
                        )],
                decreases x1 - c,
            {
                let ghost before = fb.pixels@;
                fb.set_pixel_fast(c, y, color);
                proof {
                    lemma_row_major_index(w, h, c as int, y as int);
                    assert forall|idx: int|
                        0 <= idx < fb.pixels@.len() && idx != (y as int) * w + c implies
                        fb.pixels@[idx] == before[idx] by {
                        assert(fb.pixels@ == before.update((y as int) * w + c, color));
                    }
                    assert(fb.pixels@[(y as int) * w + c] == color);
                    assert forall|idx: int|
                        0 <= idx < fb.pixels@.len() && !(x0 <= idx % w < x1) implies fb.pixels@[idx]
                        == pix0[idx] by {
                        vstd::arithmetic::div_mod::lemma_fundamental_div_mod_converse(
                            (y as int) * w + c,
                            w,
                            y as int,
                            c as int,
                        );
                    }
                    assert forall|cc: int, yy: int|
                        x0 <= cc < x1 && 0 <= yy < h && (yy != y as int || cc != c as int) implies
                        fb.pixels@[#[trigger] pix_idx(w, cc, yy)] == before[pix_idx(w, cc, yy)] by {
                        lemma_index_unique(w, yy, cc, y as int, c as int);
                        lemma_row_major_index(w, h, cc, yy);
                        assert(fb.pixels@[pix_idx(w, cc, yy)] == before[pix_idx(w, cc, yy)]);
                    }
                    assert(fb.pixels@[pix_idx(w, c as int, y as int)] == color);
                }
                c += 1;
            }
        }
        proof {
            // Rows up to and including this one now match the column spec.
            assert forall|cc: int, yy: int|
                x0 <= cc < x1 && 0 <= yy < y + 1 implies fb.pixels@[#[trigger] pix_idx(w, cc, yy)]
                == spec_column_pixel(
                *g,
                *tm,
                *player,
                cell_size as int,
                w,
                h,
                sample_x as int,
                flash_strength as int,
                r,
                yy,
                pix0[pix_idx(w, cc, yy)],
            ) by {
                if yy == y as int {
                    if wall_end <= y && 2 * y <= height {
                        assert(fb.pixels@[pix_idx(w, cc, yy)] == pix0[pix_idx(w, cc, yy)]);
                    }
                }
            }
        }
        y += 1;
    }
    proof {
        assert(block_rendered(
            *g,
            *tm,
            *player,
            cell_size as int,
            w,
            h,
            x0 as int,
            x1 as int,
            sample_x as int,
            flash_strength as int,
            pix0,
            fb.pixels@,
            corrected as int,
        )) by {
            assert(cast_post(
                *g,
                cell_size as int,
                player.x as int,
                player.y as int,
                spec_ray_angle(player.a as int, player.fov as int, sample_x as int, w),
                RAY_STEP as int,
                MAX_RANGE as int,
                r,
            ));
        }
    }
    corrected
}


/// The sampled column of a screen column under two-fold downsampling: the
/// center of its two-column block, clipped to the screen.
pub open spec fn spec_downscale_sample(i: int, w: int) -> int {
    let x0 = 2 * (i / 2);
    if x0 + 1 < w {
        x0 + 1
    } else {
        w - 1
    }
}

/// Renders the full wall pass at one ray per column and returns the depth
/// buffer: one corrected wall distance per screen column, each column's
/// pixels matching the column spec for its own ray.
pub fn render_world_with_textures(
    fb: &mut Framebuffer,
    g: &Grid,
    player: &Player,
    cell_size: i64,
    tm: &TextureManager,
) -> (depth: Vec<i64>)
    requires
        old(fb).wf(),
        g.wf(),
        player.wf(),
        tm.wf(),
        0 < cell_size <= FP_BOUND,
    ensures
        final(fb).wf(),
        final(fb).same_shape(*old(fb)),
        depth@.len() == old(fb).width,
        forall|i: int|
            0 <= i < old(fb).width ==> block_rendered(
                *g,
                *tm,
                *player,
                cell_size as int,
                old(fb).width as int,
                old(fb).height as int,
                i,
                i + 1,
                i,
                FLASHLIGHT_FULL as int,
                old(fb).pixels@,
                final(fb).pixels@,
                (#[trigger] depth@[i]) as int,
            ),
{
    let ghost w = fb.width as int;
    let ghost h = fb.height as int;
    let width = fb.width;
    let mut depth: Vec<i64> = Vec::new();
    let mut i: usize = 0;
    while i < width
        invariant
            fb.wf(),
            fb.same_shape(*old(fb)),
            fb.width == width,
            w == width as int,
            h == fb.height as int,
            g.wf(),
            player.wf(),
            tm.wf(),
            0 < cell_size <= FP_BOUND,
            0 <= i <= width,
            depth@.len() == i,
            forall|j: int|
                0 <= j < i ==> block_rendered(
                    *g,
                    *tm,
                    *player,
                    cell_size as int,
                    w,
                    h,
                    j,
                    j + 1,
                    j,
                    FLASHLIGHT_FULL as int,
                    old(fb).pixels@,
                    fb.pixels@,
                    (#[trigger] depth@[j]) as int,
                ),
            forall|idx: int|
                0 <= idx < fb.pixels@.len() && idx % w >= i ==> fb.pixels@[idx] == old(
                    fb,
                ).pixels@[idx],
        decreases width - i,
    {
        let ghost pix_before = fb.pixels@;
        let d = render_block(fb, g, player, cell_size, tm, i, i + 1, i, FLASHLIGHT_FULL);
        depth.push(d);
        proof {
            lemma_blocks_carry_over(
                w,
                h,
                i as int,
                i as int + 1,
                old(fb).pixels@,
                pix_before,
                fb.pixels@,
            );
        }
        i += 1;
    }
    depth
}

/// Renders the wall pass at one ray per two columns, replicating each
/// block's ray across both of its columns, and returns the depth buffer with
/// the block's corrected distance in each of its columns.
#[verifier::rlimit(30)]
pub fn render_world_with_textures_downscale(
    fb: &mut Framebuffer,
    g: &Grid,
    player: &Player,
    cell_size: i64,
    tm: &TextureManager,
) -> (depth: Vec<i64>)
    requires
        old(fb).wf(),
        g.wf(),
        player.wf(),
        tm.wf(),
        0 < cell_size <= FP_BOUND,
    ensures
        final(fb).wf(),
        final(fb).same_shape(*old(fb)),
        depth@.len() == old(fb).width,
        forall|i: int|
            0 <= i < old(fb).width ==> block_rendered(
                *g,
                *tm,
                *player,
                cell_size as int,
                old(fb).width as int,
                old(fb).height as int,
                2 * (i / 2),
                if 2 * (i / 2) + 2 < old(fb).width as int {
                    2 * (i / 2) + 2
                } else {
                    old(fb).width as int
                },
                spec_downscale_sample(i, old(fb).width as int),
                FLASHLIGHT_DOWNSCALE as int,
                old(fb).pixels@,
                final(fb).pixels@,
                (#[trigger] depth@[i]) as int,
            ),
{
    let ghost w = fb.width as int;
    let ghost h = fb.height as int;
    let width = fb.width;
    let mut depth: Vec<i64> = Vec::new();
    let mut x0: usize = 0;
    while x0 < width
        invariant
            fb.wf(),
            fb.same_shape(*old(fb)),
            fb.width == width,
            w == width as int,
            h == fb.height as int,
            g.wf(),
            player.wf(),
            tm.wf(),
            0 < cell_size <= FP_BOUND,
            0 <= x0 <= width,
            x0 % 2 == 0 || x0 == width,
            depth@.len() == x0,
            forall|j: int|
                0 <= j < x0 ==> block_rendered(
                    *g,
                    *tm,
                    *player,
                    cell_size as int,
                    w,
                    h,
                    2 * (j / 2),
                    if 2 * (j / 2) + 2 < w {
                        2 * (j / 2) + 2
                    } else {
                        w
                    },
                    spec_downscale_sample(j, w),
                    FLASHLIGHT_DOWNSCALE as int,
                    old(fb).pixels@,
                    fb.pixels@,
                    (#[trigger] depth@[j]) as int,
                ),
            forall|idx: int|
                0 <= idx < fb.pixels@.len() && idx % w >= x0 ==> fb.pixels@[idx] == old(
                    fb,
                ).pixels@[idx],
        decreases width - x0,
    {
        let x1: usize = if x0 + 2 < width {
            x0 + 2
        } else {
            width
        };
        let sample: usize = if x0 + 1 < width {
            x0 + 1
        } else {
            width - 1
        };
        let ghost pix_before = fb.pixels@;
        let d = render_block(fb, g, player, cell_size, tm, x0, x1, sample, FLASHLIGHT_DOWNSCALE);
        depth.push(d);
        if x1 > x0 + 1 {
            depth.push(d);
        }
        proof {
            lemma_blocks_carry_over(
                w,
                h,
                x0 as int,
                x1 as int,
                old(fb).pixels@,
                pix_before,
                fb.pixels@,
            );
            assert forall|j: int| x0 as int <= j < depth@.len() implies block_rendered(
                *g,
                *tm,
                *player,
                cell_size as int,
                w,
                h,
                2 * (j / 2),
                if 2 * (j / 2) + 2 < w {
                    2 * (j / 2) + 2
                } else {
                    w
                },
                spec_downscale_sample(j, w),
                FLASHLIGHT_DOWNSCALE as int,
                old(fb).pixels@,
                fb.pixels@,
                (#[trigger] depth@[j]) as int,
            ) by {
                assert(j / 2 == (x0 as int) / 2);
                assert(2 * (j / 2) == x0 as int);
                assert(depth@[j] == d);
            }
        }
        x0 = x1;
    }
    depth
}

/// Blocks already rendered stay rendered when a later, disjoint block is
/// painted, and the block just painted reads as rendered against the frame's
/// original pixels.
proof fn lemma_blocks_carry_over(
    w: int,
    h: int,
    x0: int,
    x1: int,
    orig: Seq<u32>,
    before: Seq<u32>,
    after: Seq<u32>,
)
    requires
        0 < w,
        0 <= x0 < x1 <= w,
        orig.len() == before.len(),
        before.len() == after.len(),
        orig.len() == w * h,
        0 <= h,
        // Everything right of the already-rendered columns was still
        // original before this block.
        forall|idx: int| 0 <= idx < before.len() && idx % w >= x0 ==> before[idx] == orig[idx],
        // The block wrote only its own columns.
        forall|idx: int| 0 <= idx < after.len() && !(x0 <= idx % w < x1) ==> after[idx] == before[idx],
    ensures
        forall|idx: int| 0 <= idx < after.len() && idx % w >= x1 ==> after[idx] == orig[idx],
        forall|c: int, y: int|
            0 <= c < x0 && 0 <= y < h ==> after[#[trigger] pix_idx(w, c, y)] == before[pix_idx(
                w,
                c,
                y,
            )],
        forall|c: int, y: int|
            x0 <= c < x1 && 0 <= y < h ==> before[#[trigger] pix_idx(w, c, y)] == orig[pix_idx(
                w,
                c,
                y,
            )],
{
    assert forall|idx: int| 0 <= idx < after.len() && idx % w >= x1 implies after[idx]
        == orig[idx] by {
        vstd::arithmetic::div_mod::lemma_mod_bound(idx, w);
    }
    assert forall|c: int, y: int| 0 <= c < x0 && 0 <= y < h implies after[#[trigger] pix_idx(
        w,
        c,
        y,
    )] == before[pix_idx(w, c, y)] by {
        vstd::arithmetic::div_mod::lemma_fundamental_div_mod_converse(pix_idx(w, c, y), w, y, c);
        lemma_row_major_index(w, h, c, y);
    }
    assert forall|c: int, y: int| x0 <= c < x1 && 0 <= y < h implies before[#[trigger] pix_idx(
        w,
        c,
        y,
    )] == orig[pix_idx(w, c, y)] by {
        vstd::arithmetic::div_mod::lemma_fundamental_div_mod_converse(pix_idx(w, c, y), w, y, c);
        lemma_row_major_index(w, h, c, y);
    }
}


/// The flat wall color of a corrected distance: four gray levels by depth.
pub open spec fn spec_flat_wall_color(corrected: int) -> int {
    if corrected < 100 * (FP_ONE as int) {
        spec_rgba(200, 200, 200, 255)
    } else if corrected < 200 * (FP_ONE as int) {
        spec_rgba(150, 150, 150, 255)
    } else if corrected < 400 * (FP_ONE as int) {
        spec_rgba(100, 100, 100, 255)
    } else {
        spec_rgba(50, 50, 50, 255)
    }
}

/// What the flat wall pass leaves in one column: some cast result consistent
/// with `cast_post`, its slab filled with the depth-keyed gray, everything
/// else untouched.
/// The pixel of one flat wall column: the slab of the corrected distance
/// filled with its depth-keyed gray, everything else keeping the old value.
pub open spec fn spec_flat_pixel(cell_size: int, h: int, corrected: int, y: int, old_px: u32) -> u32 {
    let slab = spec_slab(cell_size, h, corrected);
    if slab.0 <= y < slab.1 {
        spec_flat_wall_color(corrected) as u32
    } else {
        old_px
    }
}

pub open spec fn flat_column_rendered(
    g: Grid,
    player: Player,
    cell_size: int,
    w: int,
    h: int,
    i: int,
    old_pix: Seq<u32>,
    new_pix: Seq<u32>,
) -> bool {
    exists|r: Intersect|
        {
            &&& #[trigger] cast_post(
                g,
                cell_size,
                player.x as int,
                player.y as int,
                spec_ray_angle(player.a as int, player.fov as int, i, w),
                RAY_STEP as int,
                MAX_RANGE as int,
                r,
            )
            &&& forall|y: int|
                0 <= y < h ==> new_pix[#[trigger] pix_idx(w, i, y)] == spec_flat_pixel(
                    cell_size,
                    h,
                    spec_corrected(
                        player.a as int,
                        spec_ray_angle(player.a as int, player.fov as int, i, w),
                        r.distance as int,
                    ),
                    y,
                    old_pix[pix_idx(w, i, y)],
                )
        }
}

/// Renders the untextured wall pass: for each column one ray, and the wall
/// slab filled with a gray keyed to the corrected distance.
pub fn render_world(fb: &mut Framebuffer, g: &Grid, player: &Player, cell_size: i64)
    requires
        old(fb).wf(),
        g.wf(),
        player.wf(),
        0 < cell_size <= FP_BOUND,
    ensures
        final(fb).wf(),
        final(fb).same_shape(*old(fb)),
        forall|i: int|
            0 <= i < old(fb).width ==> #[trigger] flat_column_rendered(
                *g,
                *player,
                cell_size as int,
                old(fb).width as int,
                old(fb).height as int,
                i,
                old(fb).pixels@,
                final(fb).pixels@,
            ),
{
    let ghost w = fb.width as int;
    let ghost h = fb.height as int;
    let width = fb.width;
    let height = fb.height;
    let mut i: usize = 0;
    while i < width
        invariant
            fb.wf(),
            fb.same_shape(*old(fb)),
            fb.width == width,
            fb.height == height,
            w == width as int,
            h == height as int,
            g.wf(),
            player.wf(),
            0 < cell_size <= FP_BOUND,
            0 <= i <= width,
            forall|j: int|
                0 <= j < i ==> #[trigger] flat_column_rendered(
                    *g,
                    *player,
                    cell_size as int,
                    w,
                    h,
                    j,
                    old(fb).pixels@,
                    fb.pixels@,
                ),
            forall|idx: int|
                0 <= idx < fb.pixels@.len() && idx % w >= i ==> fb.pixels@[idx] == old(
                    fb,
                ).pixels@[idx],
        decreases width - i,
    {
        let half_fov: i64 = player.fov / 2;
        let base = sub_angle(player.a, half_fov);
        proof {
            assert((player.fov as int) * (i as int) < (width as int) * (player.fov as int))
                by (nonlinear_arith)
                requires
                    0 <= (i as int) < width as int,
                    0 < player.fov as int,
            ;
            lemma_multiply_divide_lt((player.fov as int) * (i as int), width as int, player.fov as int);
            lemma_div_pos_is_pos((player.fov as int) * (i as int), width as int);
            assert((player.fov as int) * (i as int) <= 32768 * 16384) by (nonlinear_arith)
                requires
                    0 < player.fov as int <= 32768,
                    0 <= i as int <= 16384,
            ;
        }
        let off: i64 = (player.fov * (i as i64)) / (width as i64);
        let angle = add_angle(base, off);
        let ghost pix_before = fb.pixels@;
        let intersection = cast_ray(
            fb,
            g,
            player.x,
            player.y,
            angle,
            cell_size,
            RAY_STEP,
            MAX_RANGE,
            false,
        );
        let ghost r = intersection;
        let diff = sub_angle(player.a, angle);
        let cos_diff = cos_angle(diff);
        let corrected = fp_mul(intersection.distance, cos_diff);
        proof {
            crate::fixed::lemma_fp_mul_contract(r.distance as int, cos_diff as int);
        }
        let slab = wall_slab(cell_size, height, corrected);
        let wall_start = slab.0;
        let wall_end = slab.1;
        let color: u32 = if corrected < 100 * FP_ONE {
            rgba_to_u32(200, 200, 200, 255)
        } else if corrected < 200 * FP_ONE {
            rgba_to_u32(150, 150, 150, 255)
        } else if corrected < 400 * FP_ONE {
            rgba_to_u32(100, 100, 100, 255)
        } else {
            rgba_to_u32(50, 50, 50, 255)
        };
        if wall_start < wall_end {
            let ghost before_line = fb.pixels@;
            fb.draw_vertical_line(i, wall_start, wall_end - 1, color);
            proof {
                assert forall|y: int| 0 <= y < h implies fb.pixels@[#[trigger] pix_idx(w, i as int, y)]
                    == (if wall_start as int <= y < wall_end as int {
                    color
                } else {
                    before_line[pix_idx(w, i as int, y)]
                }) by {
                    lemma_row_major_index(w, h, i as int, y);
                    if wall_start as int <= y < wall_end as int {
                        assert(wall_start as int <= y <= (wall_end - 1) as int && pix_idx(
                            w,
                            i as int,
                            y,
                        ) == y * w + (i as int));
                    } else {
                        if exists|yy: int|
                            wall_start as int <= yy <= (wall_end - 1) as int && pix_idx(
                                w,
                                i as int,
                                y,
                            ) == #[trigger] (yy * w) + i as int {
                            let yy = choose|yy: int|
                                wall_start as int <= yy <= (wall_end - 1) as int && pix_idx(
                                    w,
                                    i as int,
                                    y,
                                ) == #[trigger] (yy * w) + i as int;
                            lemma_index_unique(w, y, i as int, yy, i as int);
                            assert(false);
                        }
                    }
                }
                assert forall|idx: int|
                    0 <= idx < fb.pixels@.len() && idx % w != i as int implies fb.pixels@[idx]
                    == before_line[idx] by {
                    if exists|yy: int|
                        wall_start as int <= yy <= (wall_end - 1) as int && idx == #[trigger] (yy
                            * w) + i as int {
                        let yy = choose|yy: int|
                            wall_start as int <= yy <= (wall_end - 1) as int && idx == #[trigger] (
                            yy * w) + i as int;
                        vstd::arithmetic::div_mod::lemma_fundamental_div_mod_converse(
                            idx,
                            w,
                            yy,
                            i as int,
                        );
                        assert(false);
                    }
                }
            }
        }
        proof {
            if !(wall_start < wall_end) {
                assert(fb.pixels@ == pix_before);
            }
            assert forall|idx: int|
                0 <= idx < fb.pixels@.len() && !(i as int <= idx % w < i as int + 1) implies
                fb.pixels@[idx] == pix_before[idx] by {}
            lemma_blocks_carry_over(
                w,
                h,
                i as int,
                i as int + 1,
                old(fb).pixels@,
                pix_before,
                fb.pixels@,
            );
            let angle_s = spec_ray_angle(player.a as int, player.fov as int, i as int, w);
            let corr_s = spec_corrected(player.a as int, angle_s, r.distance as int);
            assert(angle_s == angle as int);
            assert(corr_s == corrected as int);
            assert forall|y: int| 0 <= y < h implies fb.pixels@[#[trigger] pix_idx(w, i as int, y)]
                == spec_flat_pixel(
                cell_size as int,
                h,
                corr_s,
                y,
                old(fb).pixels@[pix_idx(w, i as int, y)],
            ) by {
                if !(wall_start < wall_end) {
                    assert(fb.pixels@[pix_idx(w, i as int, y)] == pix_before[pix_idx(
                        w,
                        i as int,
                        y,
                    )]);
                }
            }
            assert(cast_post(
                *g,
                cell_size as int,
                player.x as int,
                player.y as int,
                angle_s,
                RAY_STEP as int,
                MAX_RANGE as int,
                r,
            ));
            assert forall|j: int| 0 <= j < i as int implies flat_column_rendered(
                *g,
                *player,
                cell_size as int,
                w,
                h,
                j,
                old(fb).pixels@,
                fb.pixels@,
            ) by {
                assert(flat_column_rendered(
                    *g,
                    *player,
                    cell_size as int,
                    w,
                    h,
                    j,
                    old(fb).pixels@,
                    pix_before,
                ));
            }
        }
        i += 1;
    }
}


} // verus!
