//! Exercises the ray caster, slab geometry, textures and the level parser on
//! concrete worlds.

use raycaster::angle::{atan2_angle, cos_angle, sin_angle, ANGLE_FULL, ANGLE_QUARTER};
use raycaster::cast::cast_ray;
use raycaster::fixed::{isqrt_u64, FP_ONE};
use raycaster::framebuffer::{rgba_to_u32, unpack_rgba, Framebuffer};
use raycaster::grid::Grid;
use raycaster::maze::load_maze_with_sprites;
use raycaster::player::{can_move_to, Player};
use raycaster::renderer::{
    apply_distance_shading, flashlight_factor, render_world, render_world_with_textures,
    wall_slab, FLASHLIGHT_DOWNSCALE, FLASHLIGHT_FULL, NEAR_GUARD,
};
use raycaster::texture::TextureManager;

const CELL: i64 = 30 * FP_ONE;

fn grid_from(rows: &[&str]) -> Grid {
    let cells: Vec<Vec<char>> = rows.iter().map(|r| r.chars().collect()).collect();
    Grid::new(cells).expect("rectangular grid")
}

fn small_fb() -> Framebuffer {
    Framebuffer::new(100, 100, rgba_to_u32(0, 0, 0, 255))
}

/// A ray across an all-empty neighborhood exhausts its range with no hit.
#[test]
fn ray_over_empty_grid_reaches_max_range() {
    let g = grid_from(&["     ", "     ", "     ", "     ", "     "]);
    let mut fb = small_fb();
    // From the center of the 5x5 grid, sixty units stay inside it whatever
    // the direction.
    for angle in [0i64, 5000, 16384, 30000, 40000, 65000] {
        let hit = cast_ray(
            &mut fb,
            &g,
            75 * FP_ONE,
            75 * FP_ONE,
            angle,
            CELL,
            FP_ONE,
            60 * FP_ONE,
            false,
        );
        assert_eq!(hit.distance, 60 * FP_ONE);
        assert_eq!(hit.impact, ' ');
    }
}

/// A ray aimed straight at a wall two cells away stops within one step of it.
#[test]
fn ray_hits_wall_within_one_step() {
    let g = grid_from(&["   # ", "   # ", "   # "]);
    let mut fb = small_fb();
    // Facing east from the middle of the left cell of the middle row: the
    // wall column starts ninety minus fifteen units ahead.
    let hit = cast_ray(
        &mut fb,
        &g,
        15 * FP_ONE,
        45 * FP_ONE,
        0,
        CELL,
        FP_ONE,
        1000 * FP_ONE,
        false,
    );
    let expected = 75 * FP_ONE;
    assert!(hit.distance >= expected);
    assert!(hit.distance < expected + FP_ONE);
    assert_eq!(hit.impact, '#');
}

/// A ray that leaves the grid reports the last distance still inside it.
#[test]
fn ray_leaving_grid_reports_no_hit() {
    let g = grid_from(&["  ", "  "]);
    let mut fb = small_fb();
    let hit = cast_ray(
        &mut fb,
        &g,
        30 * FP_ONE,
        30 * FP_ONE,
        0,
        CELL,
        FP_ONE,
        1000 * FP_ONE,
        false,
    );
    assert_eq!(hit.impact, ' ');
    // The grid is sixty units wide; the ray starts in the middle.
    assert!(hit.distance <= 30 * FP_ONE);
    assert!(hit.distance >= 29 * FP_ONE);
}

/// The exact trigonometric anchors the geometry relies on.
#[test]
fn trig_anchors_are_exact() {
    assert_eq!(sin_angle(0), 0);
    assert_eq!(cos_angle(0), FP_ONE);
    assert_eq!(sin_angle(ANGLE_QUARTER), FP_ONE);
    assert_eq!(cos_angle(ANGLE_QUARTER), 0);
    assert_eq!(sin_angle(ANGLE_FULL / 2), 0);
    assert_eq!(atan2_angle(0, 12345), 0);
    // A point straight up the y axis sits a quarter turn away.
    assert_eq!(atan2_angle(100, 0), ANGLE_QUARTER);
}

/// The integer square root brackets its argument.
#[test]
fn isqrt_brackets() {
    assert_eq!(isqrt_u64(0), 0);
    assert_eq!(isqrt_u64(1), 1);
    assert_eq!(isqrt_u64(24), 4);
    assert_eq!(isqrt_u64(25), 5);
    assert_eq!(isqrt_u64(u64::MAX), 4294967295);
}

/// Packing and unpacking RGBA round-trips the channels.
#[test]
fn rgba_roundtrip() {
    let c = rgba_to_u32(1, 2, 3, 4);
    assert_eq!(c, 1 + 2 * 256 + 3 * 65536 + 4 * 16777216);
    assert_eq!(unpack_rgba(c), (1, 2, 3, 4));
    assert_eq!(unpack_rgba(rgba_to_u32(255, 0, 255, 255)), (255, 0, 255, 255));
}

/// The wall slab shrinks as the corrected distance grows, and fills the
/// screen inside the near guard.
#[test]
fn slab_monotone_and_guarded() {
    let mut last = 101usize;
    for corrected in [1i64, NEAR_GUARD, FP_ONE, 10 * FP_ONE, 100 * FP_ONE, 900 * FP_ONE] {
        let (s, e) = wall_slab(CELL, 100, corrected);
        assert!(e >= s);
        assert!(e - s <= last);
        last = e - s;
    }
    // Inside the guard the wall fills the whole screen.
    assert_eq!(wall_slab(CELL, 100, NEAR_GUARD), (0, 100));
    assert_eq!(wall_slab(CELL, 100, -5 * FP_ONE), (0, 100));
    // Thirty units of wall seen from thirty units away at height 100:
    // exactly the screen height.
    assert_eq!(wall_slab(CELL, 100, 30 * FP_ONE), (0, 100));
    // From three hundred units: a tenth of it, centered.
    assert_eq!(wall_slab(CELL, 100, 300 * FP_ONE), (45, 55));
}

/// Distance shading at zero distance and no flashlight: a tenth of each
/// channel survives.
#[test]
fn shading_exact_value() {
    let c = rgba_to_u32(100, 200, 50, 255);
    let shaded = apply_distance_shading(c, 0, 0);
    assert_eq!(unpack_rgba(shaded), (10, 20, 5, 255));
    // The flashlight cap: factor one keeps the color.
    let bright = apply_distance_shading(c, 0, FP_ONE);
    assert_eq!(unpack_rgba(bright), (100, 200, 50, 255));
}

/// The flashlight band peaks at the screen center at the pass's strength
/// and is dark at the edge.
#[test]
fn flashlight_band() {
    assert_eq!(flashlight_factor(50, 100, FLASHLIGHT_FULL), 45875);
    assert_eq!(flashlight_factor(50, 100, FLASHLIGHT_DOWNSCALE), 39321);
    assert_eq!(flashlight_factor(0, 100, FLASHLIGHT_FULL), 0);
    assert_eq!(flashlight_factor(99, 100, FLASHLIGHT_FULL), 0);
    assert!(flashlight_factor(52, 100, FLASHLIGHT_FULL) > 0);
}

/// The end-to-end center-column scenario: a player in the middle of a walled
/// three-by-three room, facing east, sees the east wall half a cell away and
/// the wall fills more than half the screen.
#[test]
fn center_column_scenario() {
    let g = grid_from(&["###", "# #", "###"]);
    let mut fb = small_fb();
    let mut player = Player::new(45 * FP_ONE, 45 * FP_ONE);
    player.a = 0;
    let mut tm = TextureManager::new();
    tm.generate_default_textures();
    let depth = render_world_with_textures(&mut fb, &g, &player, CELL, &tm);
    assert_eq!(depth.len(), 100);
    // The center column's ray runs along the facing: its corrected distance
    // is the raw distance, half a cell.
    assert_eq!(depth[50], 15 * FP_ONE);
    // That close, the slab fills the whole screen: more than half of it.
    let (s, e) = wall_slab(CELL, 100, depth[50]);
    assert!(e - s > 50);
}

/// The untextured pass paints the near-wall gray over the center column.
#[test]
fn flat_render_paints_center_column() {
    let g = grid_from(&["###", "# #", "###"]);
    let mut fb = small_fb();
    let mut player = Player::new(45 * FP_ONE, 45 * FP_ONE);
    player.a = 0;
    render_world(&mut fb, &g, &player, CELL);
    let near_gray = rgba_to_u32(200, 200, 200, 255);
    let idx = 50 * 100 + 50;
    assert_eq!(fb.pixels[idx], near_gray);
}

/// The parser spawns sprites at marker cells and blanks them in the grid.
#[test]
fn parser_spawns_sprites() {
    let rows: Vec<Vec<char>> = vec![
        "###".chars().collect(),
        "#O#".chars().collect(),
        "#A#".chars().collect(),
    ];
    let rows2 = rows.clone();
    let (g, sprites) = load_maze_with_sprites(rows, CELL).expect("parses");
    assert_eq!(g.row_count(), 3);
    assert_eq!(g.col_count(), 3);
    assert_eq!(g.at(1, 1), ' ');
    assert_eq!(g.at(2, 1), ' ');
    assert_eq!(g.at(0, 1), '#');
    assert_eq!(sprites.len(), 2);
    let key = sprites.iter().find(|s| s.texture_name == 'O').expect("key sprite");
    assert_eq!(key.x, CELL + CELL / 2);
    assert_eq!(key.y, CELL + CELL / 2);
    assert!(!key.damaging);
    assert_eq!(key.scale, 8 * FP_ONE);
    let spike = sprites.iter().find(|s| s.texture_name == 'A').expect("spike sprite");
    assert_eq!(spike.y, 2 * CELL + CELL / 2);
    assert!(spike.damaging);
    assert_eq!(spike.scale, 12 * FP_ONE);
    // Ragged rows are refused.
    let mut ragged = rows2;
    ragged[1].push('#');
    assert!(load_maze_with_sprites(ragged, CELL).is_none());
}

/// The collision probe keeps the player's hitbox out of walls and off the
/// grid edge.
#[test]
fn collision_probe() {
    let g = grid_from(&["###", "# #", "###"]);
    // The center of the middle cell is free.
    assert!(can_move_to(45 * FP_ONE, 45 * FP_ONE, &g, CELL));
    // Flush against the east wall the hitbox overlaps it.
    assert!(!can_move_to(59 * FP_ONE, 45 * FP_ONE, &g, CELL));
    // Outside the grid entirely.
    assert!(!can_move_to(500 * FP_ONE, 45 * FP_ONE, &g, CELL));
}
