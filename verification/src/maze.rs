//! Level layout: turning raw symbol rows into a grid plus sprite spawns, and
//! the 2-D minimap drawn from above.

use vstd::prelude::*;
use crate::fixed::{FP_ONE, FP_BOUND};
use crate::grid::{Grid, GRID_DIM_MAX, EMPTY_CELL};
use crate::framebuffer::{Framebuffer, lemma_row_major_index, lemma_index_unique};
use crate::cast::{RAY_LIMIT, RAY_TRACE_COLOR, cast_ray};
use crate::sprites::Sprite;
use crate::player::Player;
use crate::renderer::pix_idx;

verus! {

/// What the game is doing between frames.
#[derive(PartialEq, Eq, Structural)]
pub enum GameState {
    /// The level-select menu is up.
    Menu,
    /// A level is being played.
    Playing,
    /// The program is shutting down.
    Exiting,
}

/// The minimap color of a passable cell.
pub const MAP_EMPTY_COLOR: u32 = 4278190080;

/// The minimap color of a wall cell.
pub const MAP_WALL_COLOR: u32 = 4278190335;

/// The minimap color of the player marker.
pub const PLAYER_COLOR: u32 = 4294309365;

/// A level symbol that spawns a sprite rather than a wall: a pickup or a
/// hazard.
pub open spec fn spec_is_marker(ch: char) -> bool {
    ch == 'O' || ch == 'A'
}

/// The sprite a marker spawns: centered in its cell, a pickup at a smaller
/// scale or a damaging hazard at a larger one, textured by its own symbol.
pub open spec fn spec_spawn(cell_size: int, row: int, col: int, ch: char) -> Sprite {
    Sprite {
        x: (col * cell_size + cell_size / 2) as i64,
        y: (row * cell_size + cell_size / 2) as i64,
        texture_name: ch,
        scale: if ch == 'O' {
            (8 * FP_ONE) as i64
        } else {
            (12 * FP_ONE) as i64
        },
        damaging: ch == 'A',
        animation: None,
    }
}

/// What a level symbol leaves in the parsed grid: markers become passable,
/// everything else keeps its symbol.
pub open spec fn spec_parsed_cell(ch: char) -> char {
    if spec_is_marker(ch) {
        EMPTY_CELL
    } else {
        ch
    }
}

/// The spawns of one row from column `c` on, in column order: one sprite per
/// marker symbol.
pub open spec fn spec_row_spawns(row: Seq<char>, cell_size: int, r: int, c: int) -> Seq<Sprite>
    decreases row.len() - c,
{
    if c < 0 || c >= row.len() {
        Seq::empty()
    } else if spec_is_marker(row[c]) {
        seq![spec_spawn(cell_size, r, c, row[c])] + spec_row_spawns(row, cell_size, r, c + 1)
    } else {
        spec_row_spawns(row, cell_size, r, c + 1)
    }
}

/// The spawns of all rows from `r` on: the markers' sprites in row-major
/// order, exactly one per marker.
pub open spec fn spec_spawns(rows: Seq<Vec<char>>, cell_size: int, r: int) -> Seq<Sprite>
    decreases rows.len() - r,
{
    if r < 0 || r >= rows.len() {
        Seq::empty()
    } else {
        spec_row_spawns(rows[r]@, cell_size, r, 0) + spec_spawns(rows, cell_size, r + 1)
    }
}

/// Raw rows that form a well-formed grid: non-empty, rectangular, within the
/// dimension cap.
pub open spec fn spec_rows_rect(rows: Seq<Vec<char>>) -> bool {
    &&& 0 < rows.len() <= GRID_DIM_MAX as int
    &&& 0 < rows[0]@.len() <= GRID_DIM_MAX as int
    &&& forall|i: int| 0 <= i < rows.len() ==> (#[trigger] rows[i])@.len() == rows[0]@.len()
}

/// Parses raw level rows: each marker symbol becomes a sprite spawned at the
/// center of its cell and its cell becomes passable; every other symbol is
/// kept.  Succeeds exactly when the rows form a well-formed grid whose world
/// extent stays inside the caster's range.
pub fn load_maze_with_sprites(rows: Vec<Vec<char>>, cell_size: i64) -> (r: Option<
    (Grid, Vec<Sprite>),
>)
    requires
        FP_ONE <= cell_size <= FP_BOUND,
    ensures
        match r {
            Some((g, sprites)) => {
                &&& spec_rows_rect(rows@)
                &&& g.wf()
                &&& g.rows() == rows@.len()
                &&& g.cols() == rows@[0]@.len()
                &&& (g.rows()) * cell_size <= RAY_LIMIT
                &&& (g.cols()) * cell_size <= RAY_LIMIT
                &&& forall|rr: int, cc: int|
                    0 <= rr < g.rows() && 0 <= cc < g.cols() ==> #[trigger] g.cell(rr, cc)
                        == spec_parsed_cell(rows@[rr]@[cc])
                &&& sprites@ == spec_spawns(rows@, cell_size as int, 0)
                &&& forall|j: int| 0 <= j < sprites@.len() ==> (#[trigger] sprites@[j]).wf()
            },
            None => !spec_rows_rect(rows@) || rows@.len() * cell_size > RAY_LIMIT || (
            spec_rows_rect(rows@) && rows@[0]@.len() * cell_size > RAY_LIMIT),
        },
{
    if rows.len() == 0 || rows.len() > GRID_DIM_MAX {
        return None;
    }
    let want: usize = rows[0].len();
    if want == 0 || want > GRID_DIM_MAX {
        return None;
    }
    proof {
        lemma_extent_check(rows@.len() as int, cell_size as int);
        lemma_extent_check(want as int, cell_size as int);
    }
    if (rows.len() as i64) > RAY_LIMIT / cell_size || (want as i64) > RAY_LIMIT / cell_size {
        return None;
    }
    let n_rows = rows.len();
    let mut cells: Vec<Vec<char>> = Vec::new();
    let mut sprites: Vec<Sprite> = Vec::new();
    let mut rr: usize = 0;
    while rr < n_rows
        invariant
            0 <= rr <= n_rows,
            n_rows == rows@.len(),
            0 < n_rows <= GRID_DIM_MAX,
            0 < want <= GRID_DIM_MAX,
            want == rows@[0]@.len(),
            FP_ONE <= cell_size <= FP_BOUND,
            (n_rows as int) * cell_size <= RAY_LIMIT,
            (want as int) * cell_size <= RAY_LIMIT,
            cells@.len() == rr,
            forall|i: int| 0 <= i < rr ==> (#[trigger] rows@[i])@.len() == want,
            forall|i: int| 0 <= i < rr ==> (#[trigger] cells@[i])@.len() == want,
            forall|i: int, j: int|
                0 <= i < rr && 0 <= j < want ==> #[trigger] (cells@[i]@[j]) == spec_parsed_cell(
                    rows@[i]@[j],
                ),
            spec_spawns(rows@, cell_size as int, 0) == sprites@ + spec_spawns(
                rows@,
                cell_size as int,
                rr as int,
            ),
            forall|j: int| 0 <= j < sprites@.len() ==> (#[trigger] sprites@[j]).wf(),
        decreases n_rows - rr,
    {
        let row_len = rows[rr].len();
        if row_len != want {
            return None;
        }
        proof {
            // Unfold this row's pending spawns out of the remaining rows'.
            let cs = cell_size as int;
            assert(spec_spawns(rows@, cs, rr as int) == spec_row_spawns(
                rows@[rr as int]@,
                cs,
                rr as int,
                0,
            ) + spec_spawns(rows@, cs, rr as int + 1));
            assert(sprites@ + (spec_row_spawns(rows@[rr as int]@, cs, rr as int, 0) + spec_spawns(
                rows@,
                cs,
                rr as int + 1,
            )) =~= sprites@ + spec_row_spawns(rows@[rr as int]@, cs, rr as int, 0) + spec_spawns(
                rows@,
                cs,
                rr as int + 1,
            ));
        }
        let mut row_out: Vec<char> = Vec::new();
        let mut cc: usize = 0;
        while cc < want
            invariant
                0 <= cc <= want,
                0 <= rr < n_rows,
                n_rows == rows@.len(),
                0 < n_rows <= GRID_DIM_MAX,
                rows@[rr as int]@.len() == want,
                want == rows@[0]@.len(),
                0 < want <= GRID_DIM_MAX,
                FP_ONE <= cell_size <= FP_BOUND,
                (n_rows as int) * cell_size <= RAY_LIMIT,
                (want as int) * cell_size <= RAY_LIMIT,
                row_out@.len() == cc,
                forall|j: int|
                    0 <= j < cc ==> #[trigger] row_out@[j] == spec_parsed_cell(
                        rows@[rr as int]@[j],
                    ),
                spec_spawns(rows@, cell_size as int, 0) == sprites@ + spec_row_spawns(
                    rows@[rr as int]@,
                    cell_size as int,
                    rr as int,
                    cc as int,
                ) + spec_spawns(rows@, cell_size as int, rr as int + 1),
                forall|j: int| 0 <= j < sprites@.len() ==> (#[trigger] sprites@[j]).wf(),
            decreases want - cc,
        {
            let ch = rows[rr][cc];
            let ghost sprites_before = sprites@;
            if ch == 'O' || ch == 'A' {
                proof {
                    lemma_spawn_in_range(
                        n_rows as int,
                        want as int,
                        cell_size as int,
                        rr as int,
                        cc as int,
                    );
                }
                let sx: i64 = (cc as i64) * cell_size + cell_size / 2;
                let sy: i64 = (rr as i64) * cell_size + cell_size / 2;
                let scale: i64 = if ch == 'O' {
                    8 * FP_ONE
                } else {
                    12 * FP_ONE
                };
                let sprite = Sprite {
                    x: sx,
                    y: sy,
                    texture_name: ch,
                    scale,
                    damaging: ch == 'A',
                    animation: None,
                };
                sprites.push(sprite);
                row_out.push(EMPTY_CELL);
            } else {
                row_out.push(ch);
            }
            proof {
                // One column scanned: the pending spawns of this row shrink
                // by the marker just handled (or stay, off a blank).
                let row = rows@[rr as int]@;
                let cs = cell_size as int;
                if spec_is_marker(row[cc as int]) {
                    assert(sprites@ =~= sprites_before + seq![
                        spec_spawn(cs, rr as int, cc as int, row[cc as int]),
                    ]);
                    assert(spec_row_spawns(row, cs, rr as int, cc as int) == seq![
                        spec_spawn(cs, rr as int, cc as int, row[cc as int]),
                    ] + spec_row_spawns(row, cs, rr as int, cc as int + 1));
                } else {
                    assert(sprites@ == sprites_before);
                    assert(spec_row_spawns(row, cs, rr as int, cc as int) == spec_row_spawns(
                        row,
                        cs,
                        rr as int,
                        cc as int + 1,
                    ));
                }
                assert(sprites@ + spec_row_spawns(row, cs, rr as int, cc as int + 1) =~= (
                sprites_before + spec_row_spawns(row, cs, rr as int, cc as int)));
                assert(sprites@ + spec_row_spawns(row, cs, rr as int, cc as int + 1)
                    + spec_spawns(rows@, cs, rr as int + 1) =~= (sprites_before + spec_row_spawns(
                    row,
                    cs,
                    rr as int,
                    cc as int,
                ) + spec_spawns(rows@, cs, rr as int + 1)));
            }
            cc += 1;
        }
        proof {
            // The row is fully scanned: its pending spawn list is empty, and
            // the remaining rows pick up from the next row index.
            let row = rows@[rr as int]@;
            let cs = cell_size as int;
            assert(spec_row_spawns(row, cs, rr as int, want as int) =~= Seq::<Sprite>::empty());
            assert(spec_spawns(rows@, cs, rr as int) == spec_row_spawns(row, cs, rr as int, 0)
                + spec_spawns(rows@, cs, rr as int + 1));
            assert(sprites@ + spec_row_spawns(row, cs, rr as int, want as int) + spec_spawns(
                rows@,
                cs,
                rr as int + 1,
            ) =~= sprites@ + spec_spawns(rows@, cs, rr as int + 1));
        }
        cells.push(row_out);
        rr += 1;
    }
    proof {
        assert(spec_spawns(rows@, cell_size as int, n_rows as int) =~= Seq::<Sprite>::empty());
        assert(sprites@ + Seq::<Sprite>::empty() =~= sprites@);
    }
    let ghost cells_snapshot = cells@;
    let grid = match Grid::new(cells) {
        Some(g) => g,
        None => {
            proof {
                // The transformed rows are rectangular and within the caps,
                // so the grid constructor cannot refuse them.
                assert(false);
            }
            return None;
        },
    };
    Some((grid, sprites))
}

/// A grid extent that passes the range check keeps every cell center inside
/// the caster's range.
proof fn lemma_extent_check(n: int, cell_size: int)
    requires
        0 < n,
        0 < cell_size,
    ensures
        n <= (RAY_LIMIT as int) / cell_size <==> n * cell_size <= RAY_LIMIT as int,
{
    if n <= (RAY_LIMIT as int) / cell_size {
        assert(n * cell_size <= ((RAY_LIMIT as int) / cell_size) * cell_size) by (nonlinear_arith)
            requires
                n <= (RAY_LIMIT as int) / cell_size,
                0 < cell_size,
        ;
        vstd::arithmetic::div_mod::lemma_fundamental_div_mod(RAY_LIMIT as int, cell_size);
        vstd::arithmetic::div_mod::lemma_mod_bound(RAY_LIMIT as int, cell_size);
        assert(((RAY_LIMIT as int) / cell_size) * cell_size == cell_size * ((RAY_LIMIT as int)
            / cell_size)) by (nonlinear_arith);
    }
    if n * cell_size <= RAY_LIMIT as int {
        assert(n * cell_size == cell_size * n) by (nonlinear_arith);
        vstd::arithmetic::div_mod::lemma_div_is_ordered(cell_size * n, RAY_LIMIT as int, cell_size);
        vstd::arithmetic::div_mod::lemma_div_multiples_vanish(n, cell_size);
    }
}

/// A spawn centered in a cell of a range-checked grid lies inside the
/// caster's range.
proof fn lemma_spawn_in_range(n_rows: int, n_cols: int, cell_size: int, rr: int, cc: int)
    requires
        0 < cell_size,
        0 <= rr < n_rows,
        0 <= cc < n_cols,
        n_rows * cell_size <= RAY_LIMIT as int,
        n_cols * cell_size <= RAY_LIMIT as int,
    ensures
        0 <= cc * cell_size <= RAY_LIMIT as int,
        0 <= rr * cell_size <= RAY_LIMIT as int,
        0 <= cc * cell_size + cell_size / 2 <= RAY_LIMIT as int,
        0 <= rr * cell_size + cell_size / 2 <= RAY_LIMIT as int,
{
    assert((cc + 1) * cell_size <= n_cols * cell_size && 0 <= cc * cell_size) by (nonlinear_arith)
        requires
            0 <= cc < n_cols,
            0 < cell_size,
    ;
    assert((rr + 1) * cell_size <= n_rows * cell_size && 0 <= rr * cell_size) by (nonlinear_arith)
        requires
            0 <= rr < n_rows,
            0 < cell_size,
    ;
    assert((cc + 1) * cell_size == cc * cell_size + cell_size) by (nonlinear_arith);
    assert((rr + 1) * cell_size == rr * cell_size + cell_size) by (nonlinear_arith);
    vstd::arithmetic::div_mod::lemma_div_pos_is_pos(cell_size, 2);
    vstd::arithmetic::div_mod::lemma_div_is_ordered(cell_size, 2 * cell_size, 2);
    assert((2 * cell_size) / 2 == cell_size);
}

/// Fills the minimap rectangle of one cell with its color: passable cells
/// dark, walls bright.  Every in-screen pixel of the rectangle takes the
/// cell's color; every other pixel keeps its value.
pub fn draw_cell_optimized(
    fb: &mut Framebuffer,
    xo: usize,
    yo: usize,
    block_size: usize,
    cell: char,
    empty_color: u32,
    wall_color: u32,
)
    requires
        old(fb).wf(),
        xo <= 0x8000,
        yo <= 0x8000,
        block_size <= 0x4000,
    ensures
        final(fb).wf(),
        final(fb).same_shape(*old(fb)),
        forall|px: int, py: int|
            0 <= px < old(fb).width && 0 <= py < old(fb).height ==> final(fb).pixels@[
                #[trigger] pix_idx(old(fb).width as int, px, py)
            ] == (if xo <= px < xo + block_size && yo <= py < yo + block_size {
                if cell == EMPTY_CELL {
                    empty_color
                } else {
                    wall_color
                }
            } else {
                old(fb).pixels@[pix_idx(old(fb).width as int, px, py)]
            }),
{
    let ghost w = fb.width as int;
    let ghost h = fb.height as int;
    let ghost pix0 = fb.pixels@;
    let color: u32 = if cell == EMPTY_CELL {
        empty_color
    } else {
        wall_color
    };
    let mut y: usize = yo;
    while y < yo + block_size
        invariant
            fb.wf(),
            fb.same_shape(*old(fb)),
            w == fb.width as int,
            h == fb.height as int,
            pix0 == old(fb).pixels@,
            pix0.len() == fb.pixels@.len(),
            yo <= y <= yo + block_size,
            yo + block_size <= 0xc000,
            xo + block_size <= 0xc000,
            color == (if cell == EMPTY_CELL {
                empty_color
            } else {
                wall_color
            }),
            forall|px: int, py: int|
                0 <= px < w && 0 <= py < h ==> fb.pixels@[#[trigger] pix_idx(w, px, py)] == (
                if xo <= px < xo + block_size && yo <= py < y {
                    color
                } else {
                    pix0[pix_idx(w, px, py)]
                }),
        decreases yo + block_size - y,
    {
        let mut x: usize = xo;
        while x < xo + block_size
            invariant
                fb.wf(),
                fb.same_shape(*old(fb)),
                w == fb.width as int,
                h == fb.height as int,
                pix0 == old(fb).pixels@,
                pix0.len() == fb.pixels@.len(),
                xo <= x <= xo + block_size,
                yo <= y < yo + block_size,
                yo + block_size <= 0xc000,
                xo + block_size <= 0xc000,
                color == (if cell == EMPTY_CELL {
                    empty_color
                } else {
                    wall_color
                }),
                forall|px: int, py: int|
                    0 <= px < w && 0 <= py < h ==> fb.pixels@[#[trigger] pix_idx(w, px, py)] == (
                    if (xo <= px < xo + block_size && yo <= py < y) || (py == y as int && xo <= px
                        < x) {
                        color
                    } else {
                        pix0[pix_idx(w, px, py)]
                    }),
            decreases xo + block_size - x,
        {
            let ghost before = fb.pixels@;
            fb.set_pixel_fast(x, y, color);
            proof {
                if x < fb.width && y < fb.height {
                    lemma_row_major_index(w, h, x as int, y as int);
                    assert(fb.pixels@ == before.update(pix_idx(w, x as int, y as int), color));
                }
                assert forall|px: int, py: int|
                    0 <= px < w && 0 <= py < h implies fb.pixels@[#[trigger] pix_idx(w, px, py)]
                    == (if (xo <= px < xo + block_size && yo <= py < y) || (py == y as int && xo
                        <= px < x + 1) {
                    color
                } else {
                    pix0[pix_idx(w, px, py)]
                }) by {
                    lemma_row_major_index(w, h, px, py);
                    if x < fb.width && y < fb.height {
                        lemma_index_unique(w, py, px, y as int, x as int);
                    }
                }
            }
            x += 1;
        }
        y += 1;
    }
}

/// Fills the minimap rectangle of one cell through the buffer's current
/// draw color: the current color is set to the cell's color, then every
/// in-screen pixel of the rectangle takes it; every other pixel keeps its
/// value.
pub fn draw_cell(fb: &mut Framebuffer, xo: usize, yo: usize, block_size: usize, cell: char)
    requires
        old(fb).wf(),
        xo <= 0x8000,
        yo <= 0x8000,
        block_size <= 0x4000,
    ensures
        final(fb).wf(),
        final(fb).width == old(fb).width,
        final(fb).height == old(fb).height,
        final(fb).background_color == old(fb).background_color,
        final(fb).current_color == (if cell == EMPTY_CELL {
            MAP_EMPTY_COLOR
        } else {
            MAP_WALL_COLOR
        }),
        forall|px: int, py: int|
            0 <= px < old(fb).width && 0 <= py < old(fb).height ==> final(fb).pixels@[
                #[trigger] pix_idx(old(fb).width as int, px, py)
            ] == (if xo <= px < xo + block_size && yo <= py < yo + block_size {
                if cell == EMPTY_CELL {
                    MAP_EMPTY_COLOR
                } else {
                    MAP_WALL_COLOR
                }
            } else {
                old(fb).pixels@[pix_idx(old(fb).width as int, px, py)]
            }),
{
    let ghost w = fb.width as int;
    let ghost h = fb.height as int;
    let ghost pix0 = fb.pixels@;
    if cell == EMPTY_CELL {
        fb.set_current_color(MAP_EMPTY_COLOR);
    } else {
        fb.set_current_color(MAP_WALL_COLOR);
    }
    let mut x: usize = xo;
    while x < xo + block_size
        invariant
            fb.wf(),
            fb.width == old(fb).width,
            fb.height == old(fb).height,
            fb.background_color == old(fb).background_color,
            w == fb.width as int,
            h == fb.height as int,
            pix0 == old(fb).pixels@,
            pix0.len() == fb.pixels@.len(),
            xo <= x <= xo + block_size,
            xo + block_size <= 0xc000,
            yo + block_size <= 0xc000,
            fb.current_color == (if cell == EMPTY_CELL {
                MAP_EMPTY_COLOR
            } else {
                MAP_WALL_COLOR
            }),
            forall|px: int, py: int|
                0 <= px < w && 0 <= py < h ==> fb.pixels@[#[trigger] pix_idx(w, px, py)] == (
                if xo <= px < x && yo <= py < yo + block_size {
                    fb.current_color
                } else {
                    pix0[pix_idx(w, px, py)]
                }),
        decreases xo + block_size - x,
    {
        let mut y: usize = yo;
        while y < yo + block_size
            invariant
                fb.wf(),
                fb.width == old(fb).width,
                fb.height == old(fb).height,
                fb.background_color == old(fb).background_color,
                w == fb.width as int,
                h == fb.height as int,
                pix0 == old(fb).pixels@,
                pix0.len() == fb.pixels@.len(),
                xo <= x < xo + block_size,
                yo <= y <= yo + block_size,
                xo + block_size <= 0xc000,
                yo + block_size <= 0xc000,
                fb.current_color == (if cell == EMPTY_CELL {
                    MAP_EMPTY_COLOR
                } else {
                    MAP_WALL_COLOR
                }),
                forall|px: int, py: int|
                    0 <= px < w && 0 <= py < h ==> fb.pixels@[#[trigger] pix_idx(w, px, py)] == (
                    if (xo <= px < x && yo <= py < yo + block_size) || (px == x as int && yo <= py
                        < y) {
                        fb.current_color
                    } else {
                        pix0[pix_idx(w, px, py)]
                    }),
            decreases yo + block_size - y,
        {
            let ghost before = fb.pixels@;
            fb.set_pixel(x, y);
            proof {
                if x < fb.width && y < fb.height {
                    lemma_row_major_index(w, h, x as int, y as int);
                    assert(fb.pixels@ == before.update(
                        pix_idx(w, x as int, y as int),
                        fb.current_color,
                    ));
                }
                assert forall|px: int, py: int|
                    0 <= px < w && 0 <= py < h implies fb.pixels@[#[trigger] pix_idx(w, px, py)]
                    == (if (xo <= px < x && yo <= py < yo + block_size) || (px == x as int && yo
                        <= py < y + 1) {
                    fb.current_color
                } else {
                    pix0[pix_idx(w, px, py)]
                }) by {
                    lemma_row_major_index(w, h, px, py);
                    if x < fb.width && y < fb.height {
                        lemma_index_unique(w, py, px, y as int, x as int);
                    }
                }
            }
            y += 1;
        }
        x += 1;
    }
}

/// The cell of the minimap containing a pixel, and its color: `None` for a
/// pixel outside the drawn map area.
pub open spec fn spec_map_cell_color(
    g: Grid,
    block_size: int,
    off_x: int,
    off_y: int,
    px: int,
    py: int,
) -> Option<u32> {
    let cx = (px - off_x) / block_size;
    let cy = (py - off_y) / block_size;
    if 0 <= cx < g.cols() && 0 <= cy < g.rows() {
        Some(
            if g.cell(cy, cx) == EMPTY_CELL {
                MAP_EMPTY_COLOR
            } else {
                MAP_WALL_COLOR
            },
        )
    } else {
        None
    }
}

/// A pixel lies in the rectangle of cell `k` along one axis exactly when its
/// cell index along that axis is `k`.
proof fn lemma_rect_is_cell(off: int, block: int, k: int, p: int)
    requires
        0 < block,
        0 <= k,
        0 <= off,
    ensures
        (off + k * block <= p < off + k * block + block) <==> ((p - off) / block == k),
{
    assert(k * block == block * k) by (nonlinear_arith);
    if off + k * block <= p < off + k * block + block {
        vstd::arithmetic::div_mod::lemma_fundamental_div_mod_converse(
            p - off,
            block,
            k,
            p - off - k * block,
        );
    }
    if (p - off) / block == k {
        vstd::arithmetic::div_mod::lemma_fundamental_div_mod(p - off, block);
        vstd::arithmetic::div_mod::lemma_mod_bound(p - off, block);
    }
}

/// Draws the 2-D minimap at a pixel offset: every pixel of the map area
/// takes its cell's color (passable dark, wall bright); pixels outside it
/// keep their value; on top of that, the traced view rays (when asked) and
/// the player marker may overlay their own colors.
pub fn render_maze(
    fb: &mut Framebuffer,
    g: &Grid,
    player: &Player,
    block_size: usize,
    cell_size: i64,
    off_x: usize,
    off_y: usize,
    with_rays: bool,
)
    requires
        old(fb).wf(),
        g.wf(),
        player.wf(),
        0 < block_size <= 0x1000,
        FP_ONE <= cell_size <= FP_BOUND,
        off_x <= 0x4000,
        off_y <= 0x4000,
    ensures
        final(fb).wf(),
        final(fb).same_shape(*old(fb)),
        forall|px: int, py: int|
            0 <= px < old(fb).width && 0 <= py < old(fb).height ==> #[trigger] final_map_pixel_ok(
                *g,
                block_size as int,
                off_x as int,
                off_y as int,
                old(fb).width as int,
                with_rays,
                old(fb).pixels@,
                final(fb).pixels@,
                px,
                py,
            ),
{
    let ghost w = fb.width as int;
    let ghost h = fb.height as int;
    let ghost pix0 = fb.pixels@;
    let rows = g.row_count();
    let cols = g.col_count();
    let mut r: usize = 0;
    while r < rows
        invariant
            fb.wf(),
            fb.same_shape(*old(fb)),
            w == fb.width as int,
            h == fb.height as int,
            pix0 == old(fb).pixels@,
            pix0.len() == fb.pixels@.len(),
            g.wf(),
            rows == g.rows(),
            cols == g.cols(),
            0 <= r <= rows,
            rows <= 0xffff,
            cols <= 0xffff,
            0 < block_size <= 0x1000,
            off_x <= 0x4000,
            off_y <= 0x4000,
            forall|px: int, py: int|
                0 <= px < w && 0 <= py < h ==> fb.pixels@[#[trigger] pix_idx(w, px, py)] == (
                match spec_map_cell_color(
                    *g,
                    block_size as int,
                    off_x as int,
                    off_y as int,
                    px,
                    py,
                ) {
                    Some(col) => if (py - off_y) / (block_size as int) < r as int {
                        col
                    } else {
                        pix0[pix_idx(w, px, py)]
                    },
                    None => pix0[pix_idx(w, px, py)],
                }),
        decreases rows - r,
    {
        let mut c: usize = 0;
        while c < cols
            invariant
                fb.wf(),
                fb.same_shape(*old(fb)),
                w == fb.width as int,
                h == fb.height as int,
                pix0 == old(fb).pixels@,
                pix0.len() == fb.pixels@.len(),
                g.wf(),
                rows == g.rows(),
                cols == g.cols(),
                0 <= r < rows,
                0 <= c <= cols,
                rows <= 0xffff,
                cols <= 0xffff,
                0 < block_size <= 0x1000,
                off_x <= 0x4000,
                off_y <= 0x4000,
                forall|px: int, py: int|
                    0 <= px < w && 0 <= py < h ==> fb.pixels@[#[trigger] pix_idx(w, px, py)] == (
                    match spec_map_cell_color(
                        *g,
                        block_size as int,
                        off_x as int,
                        off_y as int,
                        px,
                        py,
                    ) {
                        Some(col) => if (py - off_y) / (block_size as int) < r as int || ((py
                            - off_y) / (block_size as int) == r as int && (px - off_x) / (
                        block_size as int) < c as int) {
                            col
                        } else {
                            pix0[pix_idx(w, px, py)]
                        },
                        None => pix0[pix_idx(w, px, py)],
                    }),
            decreases cols - c,
        {
            proof {
                assert((c as int) * (block_size as int) <= 0xffff * 0x1000) by (nonlinear_arith)
                    requires
                        0 <= c as int <= 0xffff,
                        0 <= block_size as int <= 0x1000,
                ;
                assert((r as int) * (block_size as int) <= 0xffff * 0x1000) by (nonlinear_arith)
                    requires
                        0 <= r as int <= 0xffff,
                        0 <= block_size as int <= 0x1000,
                ;
            }
            let ghost before = fb.pixels@;
            if c * block_size <= 0x4000 && r * block_size <= 0x4000 {
                let xo = c * block_size + off_x;
                let yo = r * block_size + off_y;
                let cell = g.at(r, c);
                draw_cell_optimized(fb, xo, yo, block_size, cell, MAP_EMPTY_COLOR, MAP_WALL_COLOR);
            }
            proof {
                let bs = block_size as int;
                assert forall|px: int, py: int| 0 <= px < w && 0 <= py < h implies fb.pixels@[
                    #[trigger] pix_idx(w, px, py)
                ] == (match spec_map_cell_color(*g, bs, off_x as int, off_y as int, px, py) {
                    Some(col) => if (py - off_y) / bs < r as int || ((py - off_y) / bs == r as int
                        && (px - off_x) / bs < c as int + 1) {
                        col
                    } else {
                        pix0[pix_idx(w, px, py)]
                    },
                    None => pix0[pix_idx(w, px, py)],
                }) by {
                    lemma_rect_is_cell(off_x as int, bs, c as int, px);
                    lemma_rect_is_cell(off_y as int, bs, r as int, py);
                    if !(c * block_size <= 0x4000 && r * block_size <= 0x4000) {
                        // The cell's rectangle starts beyond the largest
                        // screen, so no in-screen pixel lies in it.
                        assert(fb.pixels@[pix_idx(w, px, py)] == before[pix_idx(w, px, py)]);
                        assert(w <= 16384 && h <= 16384);
                    }
                }
            }
            c += 1;
        }
        proof {
            // A full row of cells painted: every map pixel of this cell row
            // has its color, whatever its column.
            assert forall|px: int, py: int| 0 <= px < w && 0 <= py < h implies fb.pixels@[
                #[trigger] pix_idx(w, px, py)
            ] == (match spec_map_cell_color(
                *g,
                block_size as int,
                off_x as int,
                off_y as int,
                px,
                py,
            ) {
                Some(col) => if (py - off_y) / (block_size as int) < r as int + 1 {
                    col
                } else {
                    pix0[pix_idx(w, px, py)]
                },
                None => pix0[pix_idx(w, px, py)],
            }) by {}
        }
        r += 1;
    }
    let ghost post_cells = fb.pixels@;
    if with_rays {
        let num_rays: usize = 25;
        let mut i: usize = 0;
        while i < num_rays
            invariant
                fb.wf(),
                fb.same_shape(*old(fb)),
                w == fb.width as int,
                post_cells.len() == fb.pixels@.len(),
                g.wf(),
                player.wf(),
                FP_ONE <= cell_size <= FP_BOUND,
                0 <= i <= num_rays,
                num_rays == 25,
                forall|j: int|
                    0 <= j < fb.pixels@.len() ==> fb.pixels@[j] == post_cells[j] || fb.pixels@[j]
                        == RAY_TRACE_COLOR,
            decreases num_rays - i,
        {
            proof {
                assert(0 <= (player.fov as int) * (i as int) <= (player.fov as int) * 25)
                    by (nonlinear_arith)
                    requires
                        0 <= (i as int) <= 25,
                        0 < player.fov as int,
                ;
                crate::fixed::lemma_div_le(
                    (player.fov as int) * (i as int),
                    player.fov as int,
                    25,
                );
            }
            let off: i64 = (player.fov * (i as i64)) / 25;
            let base = crate::angle::sub_angle(player.a, player.fov / 2);
            let angle = if off < crate::angle::ANGLE_FULL {
                crate::angle::add_angle(base, off)
            } else {
                base
            };
            let ghost before = fb.pixels@;
            let _hit = cast_ray(
                fb,
                g,
                player.x,
                player.y,
                angle,
                cell_size,
                FP_ONE,
                crate::renderer::MAX_RANGE,
                true,
            );
            proof {
                assert forall|j: int|
                    0 <= j < fb.pixels@.len() implies fb.pixels@[j] == post_cells[j]
                    || fb.pixels@[j] == RAY_TRACE_COLOR by {
                    assert(fb.pixels@[j] == before[j] || fb.pixels@[j] == RAY_TRACE_COLOR);
                }
            }
            i += 1;
        }
    }
    // The marker sits at the player's cell position scaled to minimap
    // pixels; a position beyond the largest screen is pinned to its edge
    // (it is off-screen either way).
    proof {
        assert(0 <= (player.x as int) * (block_size as int) <= 0x4000_0000 * 0x1000)
            by (nonlinear_arith)
            requires
                0 <= player.x as int <= 0x4000_0000,
                0 < block_size as int <= 0x1000,
        ;
        assert(0 <= (player.y as int) * (block_size as int) <= 0x4000_0000 * 0x1000)
            by (nonlinear_arith)
            requires
                0 <= player.y as int <= 0x4000_0000,
                0 < block_size as int <= 0x1000,
        ;
        crate::fixed::lemma_div_trunc_bound(
            (player.x as int) * (block_size as int),
            cell_size as int,
        );
        crate::fixed::lemma_div_trunc_bound(
            (player.y as int) * (block_size as int),
            cell_size as int,
        );
    }
    let marker_px: i64 = (player.x * (block_size as i64)) / cell_size;
    let marker_py: i64 = (player.y * (block_size as i64)) / cell_size;
    let center_x: i64 = if marker_px > 0x4000 {
        0x4000 + off_x as i64
    } else {
        marker_px + off_x as i64
    };
    let center_y: i64 = if marker_py > 0x4000 {
        0x4000 + off_y as i64
    } else {
        marker_py + off_y as i64
    };
    let ghost before_tri = fb.pixels@;
    player.draw_player_triangle(fb, center_x, center_y, (block_size as i64) / 2, PLAYER_COLOR);
    proof {
        assert forall|px: int, py: int| 0 <= px < w && 0 <= py < h implies final_map_pixel_ok(
            *g,
            block_size as int,
            off_x as int,
            off_y as int,
            w,
            with_rays,
            pix0,
            fb.pixels@,
            px,
            py,
        ) by {
            lemma_row_major_index(w, h, px, py);
            assert(fb.pixels@[pix_idx(w, px, py)] == before_tri[pix_idx(w, px, py)]
                || fb.pixels@[pix_idx(w, px, py)] == PLAYER_COLOR);
            if with_rays {
                assert(before_tri[pix_idx(w, px, py)] == post_cells[pix_idx(w, px, py)]
                    || before_tri[pix_idx(w, px, py)] == RAY_TRACE_COLOR);
            } else {
                assert(before_tri[pix_idx(w, px, py)] == post_cells[pix_idx(w, px, py)]);
            }
        }
    }
}

/// The per-pixel claim the minimap leaves behind: the cell color over the
/// map area (the old value elsewhere), possibly overlaid by a traced ray or
/// the player marker.
pub open spec fn final_map_pixel_ok(
    g: Grid,
    block_size: int,
    off_x: int,
    off_y: int,
    w: int,
    with_rays: bool,
    old_pix: Seq<u32>,
    new_pix: Seq<u32>,
    px: int,
    py: int,
) -> bool {
    ||| new_pix[pix_idx(w, px, py)] == (match spec_map_cell_color(
        g,
        block_size,
        off_x,
        off_y,
        px,
        py,
    ) {
        Some(col) => col,
        None => old_pix[pix_idx(w, px, py)],
    })
    ||| (with_rays && new_pix[pix_idx(w, px, py)] == RAY_TRACE_COLOR)
    ||| new_pix[pix_idx(w, px, py)] == PLAYER_COLOR
}

} // verus!
