//! Ray casting: march a point along a direction by a fixed step until it
//! leaves the grid, enters a wall cell, or exhausts the range.
//!
//! The contract pins the result as the first sampled multiple of the step at
//! which the march stops, and says of every earlier sample that it was a
//! passable cell inside the grid.

use vstd::prelude::*;
use vstd::arithmetic::div_mod::{
    lemma_fundamental_div_mod, lemma_fundamental_div_mod_converse, lemma_mod_add_multiples_vanish,
    lemma_mod_self_0,
};
use crate::fixed::{FP_ONE, fp_mul, fp_mul_spec, lemma_fp_mul_contract};
use crate::grid::{Grid, EMPTY_CELL, spec_cell_at_world, cell_at_world};
use crate::framebuffer::{Framebuffer, lemma_row_major_index};
use crate::angle::{valid_angle, spec_sin, spec_cos, sin_angle, cos_angle};

verus! {

/// Largest origin coordinate and ray range the caster accepts.
pub const RAY_LIMIT: i64 = 0x3fff_ffff;

/// The color a traced ray paints into the minimap.
pub const RAY_TRACE_COLOR: u32 = 1684672468;

/// The result of one ray cast: how far the ray travelled and the symbol of
/// the cell it stopped in (`EMPTY_CELL` when it never hit a wall).
pub struct Intersect {
    /// Distance travelled, in fixed-point world units.
    pub distance: i64,
    /// The symbol hit, or `EMPTY_CELL` for no hit.
    pub impact: char,
}

/// The x coordinate of the marching point at distance `d`.
pub open spec fn spec_ray_x(ox: int, dir_cos: int, d: int) -> int {
    ox + fp_mul_spec(d, dir_cos)
}

/// The y coordinate of the marching point at distance `d`.
pub open spec fn spec_ray_y(oy: int, dir_sin: int, d: int) -> int {
    oy + fp_mul_spec(d, dir_sin)
}

/// The grid cell under the marching point at distance `d` along the angle.
pub open spec fn spec_sample(
    g: Grid,
    cell_size: int,
    ox: int,
    oy: int,
    angle: int,
    d: int,
) -> Option<char> {
    spec_cell_at_world(
        g,
        cell_size,
        spec_ray_x(ox, spec_cos(angle), d),
        spec_ray_y(oy, spec_sin(angle), d),
    )
}

/// The sample at distance `d` is a passable cell inside the grid.
pub open spec fn sample_empty(g: Grid, cell_size: int, ox: int, oy: int, angle: int, d: int) -> bool {
    spec_sample(g, cell_size, ox, oy, angle, d) == Some(EMPTY_CELL)
}

/// The sample at distance `d` is a wall cell inside the grid.
pub open spec fn sample_wall(g: Grid, cell_size: int, ox: int, oy: int, angle: int, d: int) -> bool {
    match spec_sample(g, cell_size, ox, oy, angle, d) {
        Some(c) => c != EMPTY_CELL,
        None => false,
    }
}

/// The minimap pixel of a marching point: its world coordinates in whole
/// units.
pub open spec fn spec_trace_px(ox: int, angle: int, d: int) -> int {
    spec_ray_x(ox, spec_cos(angle), d) / (FP_ONE as int)
}

/// The minimap pixel row of a marching point.
pub open spec fn spec_trace_py(oy: int, angle: int, d: int) -> int {
    spec_ray_y(oy, spec_sin(angle), d) / (FP_ONE as int)
}

/// What `cast_ray` promises of its result: the march stopped at the first
/// sampled multiple of `step` that is a wall or outside the grid, or went the
/// whole range.
pub open spec fn cast_post(
    g: Grid,
    cell_size: int,
    ox: int,
    oy: int,
    angle: int,
    step: int,
    max_range: int,
    r: Intersect,
) -> bool {
    let dist = r.distance as int;
    &&& 0 <= dist <= max_range
    &&& forall|j: int|
        0 <= j && #[trigger] (j * step) < dist ==> sample_empty(
            g,
            cell_size,
            ox,
            oy,
            angle,
            j * step,
        )
    &&& (r.impact != EMPTY_CELL ==> {
        &&& dist < max_range
        &&& dist % step == 0
        &&& spec_sample(g, cell_size, ox, oy, angle, dist) == Some(r.impact)
    })
    &&& (r.impact == EMPTY_CELL ==> dist == max_range || {
        &&& dist % step == 0
        &&& ((dist == 0 && spec_sample(g, cell_size, ox, oy, angle, 0) is None) || {
            &&& sample_empty(g, cell_size, ox, oy, angle, dist)
            &&& spec_sample(g, cell_size, ox, oy, angle, dist + step) is None
            &&& dist + step < max_range
        })
    })
}

/// Casts a ray from `(ox, oy)` along `angle` and reports the first wall cell
/// sampled, stepping `step` world units at a time.  With `trace` set, the
/// passable cells the ray crossed are painted into the framebuffer (the
/// minimap ray overlay); the pixel data is otherwise untouched.
pub fn cast_ray(
    fb: &mut Framebuffer,
    g: &Grid,
    ox: i64,
    oy: i64,
    angle: i64,
    cell_size: i64,
    step: i64,
    max_range: i64,
    trace: bool,
) -> (r: Intersect)
    requires
        old(fb).wf(),
        g.wf(),
        valid_angle(angle as int),
        0 <= ox <= RAY_LIMIT,
        0 <= oy <= RAY_LIMIT,
        0 < cell_size,
        0 < step <= max_range <= RAY_LIMIT,
    ensures
        cast_post(
            *g,
            cell_size as int,
            ox as int,
            oy as int,
            angle as int,
            step as int,
            max_range as int,
            r,
        ),
        final(fb).wf(),
        final(fb).same_shape(*old(fb)),
        !trace ==> final(fb).pixels@ == old(fb).pixels@,
        trace ==> forall|i: int|
            0 <= i < final(fb).pixels@.len() ==> final(fb).pixels@[i] == old(fb).pixels@[i]
                || final(fb).pixels@[i] == RAY_TRACE_COLOR,
        // In trace mode every crossed sample that lands on the screen is
        // painted in the trace color.
        trace ==> forall|j: int|
            0 <= j && #[trigger] (j * step) < r.distance ==> {
                let px = spec_trace_px(ox as int, angle as int, j * step);
                let py = spec_trace_py(oy as int, angle as int, j * step);
                0 <= px < old(fb).width && 0 <= py < old(fb).height ==> final(fb).pixels@[
                    crate::renderer::pix_idx(old(fb).width as int, px, py)
                ] == RAY_TRACE_COLOR
            },
    {
        let dc = cos_angle(angle);
        let ds = sin_angle(angle);
        let mut d: i64 = 0;
        proof {
            lemma_mod_self_0(step as int);
        }
        while d < max_range
            invariant
                fb.wf(),
                fb.same_shape(*old(fb)),
                !trace ==> fb.pixels@ == old(fb).pixels@,
                trace ==> forall|i: int|
                    0 <= i < fb.pixels@.len() ==> fb.pixels@[i] == old(fb).pixels@[i]
                        || fb.pixels@[i] == RAY_TRACE_COLOR,
                g.wf(),
                valid_angle(angle as int),
                0 <= ox <= RAY_LIMIT,
                0 <= oy <= RAY_LIMIT,
                0 < cell_size,
                0 < step <= max_range <= RAY_LIMIT,
                0 <= d <= max_range + step,
                d % step == 0,
                dc == spec_cos(angle as int),
                ds == spec_sin(angle as int),
                -FP_ONE <= dc <= FP_ONE,
                -FP_ONE <= ds <= FP_ONE,
                forall|j: int|
                    0 <= j && #[trigger] (j * step) < d ==> sample_empty(
                        *g,
                        cell_size as int,
                        ox as int,
                        oy as int,
                        angle as int,
                        j * step,
                    ),
                trace ==> forall|j: int|
                    0 <= j && #[trigger] (j * step) < d ==> {
                        let px = spec_trace_px(ox as int, angle as int, j * step);
                        let py = spec_trace_py(oy as int, angle as int, j * step);
                        0 <= px < fb.width && 0 <= py < fb.height ==> fb.pixels@[
                            crate::renderer::pix_idx(fb.width as int, px, py)
                        ] == RAY_TRACE_COLOR
                    },
            decreases max_range + step - d,
        {
            proof {
                lemma_fp_mul_contract(d as int, dc as int);
                lemma_fp_mul_contract(d as int, ds as int);
            }
            let x: i64 = ox + fp_mul(d, dc);
            let y: i64 = oy + fp_mul(d, ds);
            match cell_at_world(g, cell_size, x, y) {
                None => {
                    let prev: i64 = if d == 0 {
                        0
                    } else {
                        d - step
                    };
                    proof {
                        if d != 0 {
                            lemma_fundamental_div_mod(d as int, step as int);
                            let q = (d as int) / (step as int);
                            assert((q - 1) * (step as int) == d - step) by (nonlinear_arith)
                                requires
                                    d as int == (step as int) * q + 0,
                            ;
                            assert(q >= 1) by (nonlinear_arith)
                                requires
                                    d as int == (step as int) * q,
                                    d as int > 0,
                                    step as int > 0,
                            ;
                            assert(sample_empty(
                                *g,
                                cell_size as int,
                                ox as int,
                                oy as int,
                                angle as int,
                                (q - 1) * (step as int),
                            ));
                            assert((d - step) % (step as int) == 0) by {
                                lemma_fundamental_div_mod_converse(
                                    d - step,
                                    step as int,
                                    q - 1,
                                    0,
                                );
                            }
                        }
                    }
                    return Intersect { distance: prev, impact: EMPTY_CELL };
                },
                Some(c) => {
                    if c != EMPTY_CELL {
                        return Intersect { distance: d, impact: c };
                    }
                },
            }
            if trace {
                let px: usize = (x / FP_ONE) as usize;
                let py: usize = (y / FP_ONE) as usize;
                let ghost before = fb.pixels@;
                fb.set_pixel_fast(px, py, RAY_TRACE_COLOR);
                proof {
                    assert forall|i: int| 0 <= i < fb.pixels@.len() implies fb.pixels@[i]
                        == old(fb).pixels@[i] || fb.pixels@[i] == RAY_TRACE_COLOR by {
                        if px < old(fb).width && py < old(fb).height {
                            let idx = (py as int) * (old(fb).width as int) + (px as int);
                            lemma_row_major_index(
                                old(fb).width as int,
                                old(fb).height as int,
                                px as int,
                                py as int,
                            );
                            assert(fb.pixels@ == before.update(idx, RAY_TRACE_COLOR));
                            assert(fb.pixels@[i] == before.update(idx, RAY_TRACE_COLOR)[i]);
                        } else {
                            assert(fb.pixels@[i] == before[i]);
                        }
                    }
                    // Earlier painted samples keep the trace color: every
                    // write is that same color.
                    assert forall|i: int| 0 <= i < fb.pixels@.len() && before[i]
                        == RAY_TRACE_COLOR implies fb.pixels@[i] == RAY_TRACE_COLOR by {
                        if px < old(fb).width && py < old(fb).height {
                            let idx = (py as int) * (old(fb).width as int) + (px as int);
                            lemma_row_major_index(
                                old(fb).width as int,
                                old(fb).height as int,
                                px as int,
                                py as int,
                            );
                            assert(fb.pixels@ == before.update(idx, RAY_TRACE_COLOR));
                            assert(fb.pixels@[i] == before.update(idx, RAY_TRACE_COLOR)[i]);
                        } else {
                            assert(fb.pixels@[i] == before[i]);
                        }
                    }
                    // And the sample just crossed is painted when on screen.
                    lemma_fundamental_div_mod(d as int, step as int);
                    let q = (d as int) / (step as int);
                    assert forall|j: int| 0 <= j && #[trigger] (j * step) < d + step implies {
                        let jpx = spec_trace_px(ox as int, angle as int, j * (step as int));
                        let jpy = spec_trace_py(oy as int, angle as int, j * (step as int));
                        0 <= jpx < fb.width && 0 <= jpy < fb.height ==> fb.pixels@[
                            crate::renderer::pix_idx(fb.width as int, jpx, jpy)
                        ] == RAY_TRACE_COLOR
                    } by {
                        let jpx = spec_trace_px(ox as int, angle as int, j * (step as int));
                        let jpy = spec_trace_py(oy as int, angle as int, j * (step as int));
                        if 0 <= jpx < fb.width && 0 <= jpy < fb.height {
                            lemma_row_major_index(fb.width as int, fb.height as int, jpx, jpy);
                            if j * (step as int) < d {
                                assert(before[crate::renderer::pix_idx(fb.width as int, jpx, jpy)]
                                    == RAY_TRACE_COLOR);
                            } else {
                                assert(j == q) by (nonlinear_arith)
                                    requires
                                        d as int == (step as int) * q,
                                        j * (step as int) >= d as int,
                                        j * (step as int) < d + step,
                                        step as int > 0,
                                ;
                                assert(j * (step as int) == d) by (nonlinear_arith)
                                    requires
                                        j == q,
                                        d as int == (step as int) * q,
                                ;
                                assert(jpx == px as int && jpy == py as int);
                                assert(fb.pixels@ == before.update(
                                    (py as int) * (fb.width as int) + (px as int),
                                    RAY_TRACE_COLOR,
                                ));
                            }
                        }
                    }
                }
            }
            proof {
                lemma_step_multiples_extend(
                    *g,
                    cell_size as int,
                    ox as int,
                    oy as int,
                    angle as int,
                    step as int,
                    d as int,
                );
                lemma_mod_add_multiples_vanish(d as int, step as int);
            }
            d = d + step;
        }
        Intersect { distance: max_range, impact: EMPTY_CELL }
    }

/// Extending the all-samples-empty range by one step: the only multiple of
/// `step` in `[d, d + step)` is `d` itself.
proof fn lemma_step_multiples_extend(
    g: Grid,
    cell_size: int,
    ox: int,
    oy: int,
    angle: int,
    step: int,
    d: int,
)
    requires
        0 < step,
        0 <= d,
        d % step == 0,
        sample_empty(g, cell_size, ox, oy, angle, d),
        forall|j: int|
            0 <= j && #[trigger] (j * step) < d ==> sample_empty(g, cell_size, ox, oy, angle, j * step),
    ensures
        forall|j: int|
            0 <= j && #[trigger] (j * step) < d + step ==> sample_empty(
                g,
                cell_size,
                ox,
                oy,
                angle,
                j * step,
            ),
{
    lemma_fundamental_div_mod(d, step);
    let q = d / step;
    assert forall|j: int| 0 <= j && #[trigger] (j * step) < d + step implies sample_empty(
        g,
        cell_size,
        ox,
        oy,
        angle,
        j * step,
    ) by {
        if j * step >= d {
            assert(j == q) by (nonlinear_arith)
                requires
                    d == step * q,
                    j * step >= d,
                    j * step < d + step,
                    step > 0,
            ;
            assert(j * step == d) by (nonlinear_arith)
                requires
                    j == q,
                    d == step * q,
            ;
        }
    }
}

/// A ray over passable ground: when every sample within the range lies in a
/// passable cell of the grid, the cast exhausts its range and reports no hit.
pub proof fn lemma_cast_all_empty(
    g: Grid,
    cell_size: int,
    ox: int,
    oy: int,
    angle: int,
    step: int,
    max_range: int,
    r: Intersect,
)
    requires
        0 < step <= max_range,
        cast_post(g, cell_size, ox, oy, angle, step, max_range, r),
        forall|j: int|
            0 <= j && #[trigger] (j * step) <= max_range ==> sample_empty(
                g,
                cell_size,
                ox,
                oy,
                angle,
                j * step,
            ),
    ensures
        r.distance == max_range,
        r.impact == EMPTY_CELL,
{
    let dist = r.distance as int;
    if r.impact != EMPTY_CELL {
        lemma_fundamental_div_mod(dist, step);
        let j = dist / step;
        assert(j * step == dist) by (nonlinear_arith)
            requires
                dist == step * j + dist % step,
                dist % step == 0,
        ;
        assert(j >= 0) by (nonlinear_arith)
            requires
                dist == step * j,
                dist >= 0,
                step > 0,
        ;
        assert(sample_empty(g, cell_size, ox, oy, angle, j * step));
        assert(false);
    }
    if dist != max_range {
        assert(dist % step == 0);
        if dist == 0 && spec_sample(g, cell_size, ox, oy, angle, 0) is None {
            assert(0 * step == 0);
            assert(sample_empty(g, cell_size, ox, oy, angle, 0 * step));
            assert(false);
        } else {
            lemma_fundamental_div_mod(dist + step, step);
            lemma_mod_add_multiples_vanish(dist, step);
            let j = (dist + step) / step;
            assert(j * step == dist + step) by (nonlinear_arith)
                requires
                    dist + step == step * j + (dist + step) % step,
                    (dist + step) % step == 0,
            ;
            assert(j >= 0) by (nonlinear_arith)
                requires
                    dist + step == step * j,
                    dist >= 0,
                    step > 0,
            ;
            assert(sample_empty(g, cell_size, ox, oy, angle, j * step));
            assert(false);
        }
    }
}

/// A ray aimed at a wall `k` cells ahead: when every sample short of
/// `k * cell_size` is passable and every sample from there on is a wall, the
/// reported distance lands within one step of `k * cell_size`.
pub proof fn lemma_cast_wall_ahead(
    g: Grid,
    cell_size: int,
    ox: int,
    oy: int,
    angle: int,
    step: int,
    max_range: int,
    k: int,
    r: Intersect,
)
    requires
        0 < step,
        0 < cell_size,
        1 <= k,
        k * cell_size + step <= max_range,
        cast_post(g, cell_size, ox, oy, angle, step, max_range, r),
        forall|j: int|
            0 <= j && #[trigger] (j * step) < k * cell_size ==> sample_empty(
                g,
                cell_size,
                ox,
                oy,
                angle,
                j * step,
            ),
        forall|j: int|
            0 <= j && k * cell_size <= #[trigger] (j * step) <= max_range ==> sample_wall(
                g,
                cell_size,
                ox,
                oy,
                angle,
                j * step,
            ),
    ensures
        k * cell_size <= (r.distance as int) < k * cell_size + step,
        r.impact != EMPTY_CELL,
{
    let dist = r.distance as int;
    let kk = k * cell_size;
    assert(kk >= 1) by (nonlinear_arith)
        requires
            1 <= k,
            1 <= cell_size,
            kk == k * cell_size,
    ;
    lemma_fundamental_div_mod(kk - 1, step);
    let q0 = (kk - 1) / step;
    let j0 = q0 + 1;
    assert(kk - 1 == step * q0 + (kk - 1) % step);
    assert(j0 * step == step * q0 + step) by (nonlinear_arith)
        requires
            j0 == q0 + 1,
    ;
    assert(q0 >= 0) by (nonlinear_arith)
        requires
            kk - 1 == step * q0 + (kk - 1) % step,
            0 <= (kk - 1) % step < step,
            kk >= 1,
            step > 0,
    ;
    assert(kk <= j0 * step < kk + step);
    assert(sample_wall(g, cell_size, ox, oy, angle, j0 * step));
    if r.impact != EMPTY_CELL {
        // The stop is a sampled wall; every earlier sample is passable, so it
        // cannot lie short of the wall face nor beyond the first wall sample.
        lemma_fundamental_div_mod(dist, step);
        let j = dist / step;
        assert(j * step == dist) by (nonlinear_arith)
            requires
                dist == step * j + dist % step,
                dist % step == 0,
        ;
        assert(j >= 0) by (nonlinear_arith)
            requires
                dist == step * j,
                dist >= 0,
                step > 0,
        ;
        if dist < kk {
            assert(sample_empty(g, cell_size, ox, oy, angle, j * step));
            assert(false);
        }
        if dist > j0 * step {
            assert(sample_empty(g, cell_size, ox, oy, angle, j0 * step));
            assert(false);
        }
    } else {
        if dist == max_range {
            assert(j0 * step < max_range);
            assert(sample_empty(g, cell_size, ox, oy, angle, j0 * step));
            assert(false);
        } else if dist == 0 && spec_sample(g, cell_size, ox, oy, angle, 0) is None {
            assert(0 * step == 0);
            assert(sample_empty(g, cell_size, ox, oy, angle, 0 * step));
            assert(false);
        } else {
            lemma_fundamental_div_mod(dist + step, step);
            lemma_mod_add_multiples_vanish(dist, step);
            let j = (dist + step) / step;
            assert(j * step == dist + step) by (nonlinear_arith)
                requires
                    dist + step == step * j + (dist + step) % step,
                    (dist + step) % step == 0,
            ;
            assert(j >= 0) by (nonlinear_arith)
                requires
                    dist + step == step * j,
                    dist >= 0,
                    step > 0,
            ;
            if dist + step < kk {
                assert(sample_empty(g, cell_size, ox, oy, angle, j * step));
            } else {
                assert(sample_wall(g, cell_size, ox, oy, angle, j * step));
            }
            assert(false);
        }
    }
}

} // verus!
