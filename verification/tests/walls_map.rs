//! Exercises junction-tile orientation, the downsampled wall pass, the
//! ceiling gradient, and the minimap.

use raycaster::fixed::FP_ONE;
use raycaster::framebuffer::{rgba_to_u32, Framebuffer};
use raycaster::grid::Grid;
use raycaster::maze::{render_maze, MAP_EMPTY_COLOR, MAP_WALL_COLOR};
use raycaster::player::Player;
use raycaster::renderer::{
    analyze_wall_context, count_wall_connections, determine_wall_orientation_and_texture,
    render_world_with_textures_downscale,
};
use raycaster::texture::TextureManager;

const CELL: i64 = 30 * FP_ONE;

fn grid_from(rows: &[&str]) -> Grid {
    let cells: Vec<Vec<char>> = rows.iter().map(|r| r.chars().collect()).collect();
    Grid::new(cells).expect("rectangular grid")
}

/// A junction between two vertical walls reads as a vertical face when its
/// vertical side is struck; between two horizontal walls it reads as
/// horizontal.
#[test]
fn junction_orientation() {
    let vertical = grid_from(&[" | ", " + ", " | "]);
    let ctx = analyze_wall_context(&vertical, 1, 1);
    assert!(ctx.has_vertical_preference());
    assert!(!ctx.has_horizontal_preference());
    assert_eq!(count_wall_connections(&vertical, 1, 1), 2);
    // A hit just inside the left edge of the junction cell, halfway down:
    // a vertical face, so the U coordinate runs along y.
    let (u, w) = determine_wall_orientation_and_texture(
        &vertical,
        CELL + 1000,
        CELL + 15 * FP_ONE,
        CELL,
        '+',
    );
    assert_eq!(w, '|');
    assert_eq!(u, FP_ONE / 2);

    let horizontal = grid_from(&["   ", "-+-", "   "]);
    let ctx2 = analyze_wall_context(&horizontal, 1, 1);
    assert!(ctx2.has_horizontal_preference());
    // A hit just inside the top edge: a horizontal face, U runs along x.
    let (u2, w2) = determine_wall_orientation_and_texture(
        &horizontal,
        CELL + 15 * FP_ONE,
        CELL + 1000,
        CELL,
        '+',
    );
    assert_eq!(w2, '-');
    assert_eq!(u2, FP_ONE / 2);
}

/// A junction with one vertical and one horizontal connection reads as a
/// vertical face: equal counts prefer the vertical interpretation.
#[test]
fn junction_tie_reads_vertical() {
    let tied = grid_from(&[" | ", "-+ ", "   "]);
    let ctx = analyze_wall_context(&tied, 1, 1);
    assert_eq!(count_wall_connections(&tied, 1, 1), 2);
    // Hit halfway down the cell: the vertical reading takes U along y.
    let (u, w) = determine_wall_orientation_and_texture(
        &tied,
        CELL + 1000,
        CELL + 15 * FP_ONE,
        CELL,
        '+',
    );
    assert_eq!(w, '|');
    assert_eq!(u, FP_ONE / 2);
    // With more horizontal connections the junction reads horizontal.
    let horiz = grid_from(&["   ", "-+-", "   "]);
    let (u2, w2) = determine_wall_orientation_and_texture(
        &horiz,
        CELL + 6 * FP_ONE,
        CELL + 1000,
        CELL,
        '+',
    );
    assert_eq!(w2, '-');
    assert_eq!(u2, 6 * FP_ONE / 30);
    let _ = ctx;
}

/// A plain wall symbol keeps itself and takes U straight from the face.
#[test]
fn plain_wall_u_coordinate() {
    let g = grid_from(&["---"]);
    let (u, w) = determine_wall_orientation_and_texture(&g, CELL + 6 * FP_ONE, 1000, CELL, '-');
    assert_eq!(w, '-');
    // Six of thirty units across the cell.
    assert_eq!(u, 6 * FP_ONE / 30);
    let (u2, w2) = determine_wall_orientation_and_texture(&g, 1000, CELL / 2, CELL, '|');
    assert_eq!(w2, '|');
    assert_eq!(u2, FP_ONE / 2);
}

/// The downsampled pass replicates each block's depth across its two
/// columns and matches the full pass on the block's sampled ray.
#[test]
fn downscale_replicates_depth() {
    let g = grid_from(&["###", "# #", "###"]);
    let mut fb = Framebuffer::new(100, 100, rgba_to_u32(0, 0, 0, 255));
    let mut player = Player::new(45 * FP_ONE, 45 * FP_ONE);
    player.a = 0;
    let mut tm = TextureManager::new();
    tm.generate_default_textures();
    let depth = render_world_with_textures_downscale(&mut fb, &g, &player, CELL, &tm);
    assert_eq!(depth.len(), 100);
    let mut k = 0;
    while k + 1 < 100 {
        assert_eq!(depth[k], depth[k + 1]);
        k += 2;
    }
}

/// The textured pass shades a bound wall texture by distance and the
/// flashlight band: the center pixel of the walled room comes out at the
/// exact composed value.
#[test]
fn textured_wall_pixel_exact() {
    let g = grid_from(&["###", "# #", "###"]);
    let mut fb = Framebuffer::new(100, 100, rgba_to_u32(0, 0, 0, 255));
    let mut player = Player::new(45 * FP_ONE, 45 * FP_ONE);
    player.a = 0;
    let mut tm = TextureManager::new();
    let red = raycaster::texture::TextureData {
        width: 1,
        height: 1,
        pixels: vec![rgba_to_u32(255, 0, 0, 255)],
    };
    tm.insert_wall_texture('#', red);
    let depth = raycaster::renderer::render_world_with_textures(&mut fb, &g, &player, CELL, &tm);
    assert_eq!(depth[50], 15 * FP_ONE);
    // Shading at fifteen units: base darkness 6357 of 65536, flashlight
    // 45875 at the center, so the red channel keeps 52232 of 65536.
    assert_eq!(fb.pixels[50 * 100 + 50], rgba_to_u32(203, 0, 0, 255));
}

/// The night-sky gradient without a ceiling texture: brightest at the top
/// row, darkest at the bottom.
#[test]
fn ceiling_gradient_values() {
    let tm = TextureManager::new();
    assert_eq!(tm.get_ceiling_color(0, 0, 100, 100), rgba_to_u32(50, 45, 130, 255));
    assert_eq!(tm.get_ceiling_color(0, 100, 100, 100), rgba_to_u32(20, 20, 50, 255));
}

/// The minimap paints wall cells in the wall color.
#[test]
fn minimap_paints_walls() {
    let g = grid_from(&["###", "# #", "###"]);
    let mut fb = Framebuffer::new(100, 100, rgba_to_u32(7, 7, 7, 255));
    let player = Player::new(45 * FP_ONE, 45 * FP_ONE);
    render_maze(&mut fb, &g, &player, 10, CELL, 0, 0, false);
    // A pixel well inside the top-left wall cell.
    assert_eq!(fb.pixels[5 * 100 + 5], MAP_WALL_COLOR);
    // A pixel inside the open center cell, clear of the player marker,
    // keeps the map's empty color.
    assert_eq!(fb.pixels[11 * 100 + 11], MAP_EMPTY_COLOR);
}

/// The minimap drawn at an offset paints each cell square at its offset
/// rectangle, and leaves pixels outside the map area alone.
#[test]
fn minimap_respects_offset() {
    let g = grid_from(&["# ", " #"]);
    let mut fb = Framebuffer::new(100, 100, rgba_to_u32(7, 7, 7, 255));
    let player = Player::new(45 * FP_ONE, 45 * FP_ONE);
    render_maze(&mut fb, &g, &player, 10, CELL, 40, 20, false);
    // Cell (0,0) is a wall: its square starts at (40, 20).
    assert_eq!(fb.pixels[25 * 100 + 45], MAP_WALL_COLOR);
    // Cell (0,1) is passable.
    assert_eq!(fb.pixels[25 * 100 + 55], MAP_EMPTY_COLOR);
    // Cell (1,1) is a wall; probe clear of the player marker.
    assert_eq!(fb.pixels[38 * 100 + 58], MAP_WALL_COLOR);
    // Left of the map area nothing changed.
    assert_eq!(fb.pixels[25 * 100 + 10], rgba_to_u32(7, 7, 7, 255));
}
