use vstd::prelude::*;

use crate::field::{Direction, PixelPropertyCanvas, PixelValue, FULL_TURN, LIGHTNESS_ONE, UNITS_PER_PIXEL, UNIT_VECTOR_LENGTH};
use crate::registry::{brute_force_allowed, Point, StreamlineRegistry, StreamlineRegistryEntry};

verus! {

/// The fixed-point value of a separation factor of 1.0.
pub const FACTOR_ONE: u32 = 1024;

/// The limits that govern the growth of a streamline. Distances are in
/// canvas units, `d_test_factor` in units of `1 / FACTOR_ONE`, angles in
/// binary angle units.
#[derive(Clone, Copy, Debug, PartialEq, Eq, Structural)]
pub struct StreamlineParams {
    pub d_sep_min: u32,
    pub d_sep_max: u32,
    pub d_test_factor: u32,
    pub d_step: u32,
    pub max_depth_step: u32,
    pub max_accum_angle: u32,
    pub max_steps: u32,
    pub min_steps: u32,
}

impl StreamlineParams {
    pub open spec fn wf(&self) -> bool {
        &&& self.d_sep_min <= self.d_sep_max
        &&& self.d_sep_max <= i32::MAX
        &&& self.d_test_factor <= FACTOR_ONE
        &&& self.d_step <= i32::MAX
    }
}

/// Separation for a lightness: `d_sep_min + (d_sep_max - d_sep_min) * lightness^3`,
/// with lightness read as a fraction of `LIGHTNESS_ONE` and the product rounded down.
pub open spec fn d_sep_of(d_sep_min: int, d_sep_max: int, lightness: int) -> int {
    d_sep_min + ((d_sep_max - d_sep_min) * (lightness * lightness * lightness)) / (LIGHTNESS_ONE as int
        * LIGHTNESS_ONE as int * LIGHTNESS_ONE as int)
}

/// `d` scaled by `factor / FACTOR_ONE`, rounded down.
pub open spec fn scaled_sep(d: int, factor: int) -> int {
    (d * factor) / FACTOR_ONE as int
}

/// `u * d / UNIT_VECTOR_LENGTH`, rounded toward zero.
pub open spec fn step_offset(u: int, d: int) -> int {
    if u * d >= 0 {
        (u * d) / UNIT_VECTOR_LENGTH as int
    } else {
        -((-(u * d)) / UNIT_VECTOR_LENGTH as int)
    }
}

/// The unsigned angle between two binary angles, at most half a turn.
pub open spec fn turn_between(a: int, b: int) -> int {
    let d = (a + FULL_TURN - b) % (FULL_TURN as int);
    if d <= FULL_TURN / 2 {
        d
    } else {
        FULL_TURN - d
    }
}

pub open spec fn abs_diff(a: int, b: int) -> int {
    if a >= b {
        a - b
    } else {
        b - a
    }
}

/// The points that one branch of a streamline gains from `p`, stepping by
/// `step` along the field's direction, with turning `accum` used so far and
/// at most `steps` further points.
pub open spec fn grow(
    canvas: PixelPropertyCanvas,
    entries: Seq<StreamlineRegistryEntry>,
    prm: StreamlineParams,
    step: int,
    max_accum: int,
    p: Point,
    dir: Direction,
    depth: int,
    accum: int,
    steps: nat,
) -> Seq<Point>
    decreases steps,
{
    if steps == 0 {
        Seq::empty()
    } else {
        let nx = p.x + step_offset(dir.ux as int, step);
        let ny = p.y + step_offset(dir.uy as int, step);
        match canvas.value_at(nx, ny) {
            None => Seq::empty(),
            Some(v) => {
                let acc = accum + turn_between(dir.angle as int, v.direction.angle as int);
                let q = Point { x: nx as i32, y: ny as i32 };
                let dt = scaled_sep(
                    d_sep_of(prm.d_sep_min as int, prm.d_sep_max as int, v.lightness as int),
                    prm.d_test_factor as int,
                );
                if acc > max_accum || abs_diff(v.depth as int, depth) > prm.max_depth_step || !brute_force_allowed(
                    entries,
                    q,
                    dt as u32,
                    dt as u32,
                    0,
                ) {
                    Seq::empty()
                } else {
                    seq![q] + grow(canvas, entries, prm, step, max_accum, q, v.direction, v.depth as int, acc, (steps - 1) as nat)
                }
            },
        }
    }
}

/// The streamline grown from seed `p_seed`, as the integrator defines it: none
/// where the seed has no data or is too close to a registered streamline
/// (streamline `start_id` counting at the relaxed separation), else the
/// backward branch reversed, the seed and the forward branch, kept only if
/// that has more than `min_steps + 1` points.
pub open spec fn streamline_of(
    canvas: PixelPropertyCanvas,
    entries: Seq<StreamlineRegistryEntry>,
    start_id: u32,
    p_seed: Point,
    prm: StreamlineParams,
) -> Option<Seq<Point>> {
    match canvas.value_at(p_seed.x as int, p_seed.y as int) {
        None => None,
        Some(seed_value) => {
            let d = d_sep_of(prm.d_sep_min as int, prm.d_sep_max as int, seed_value.lightness as int);
            let dr = scaled_sep(d, prm.d_test_factor as int);
            if !brute_force_allowed(entries, p_seed, d as u32, dr as u32, start_id) {
                None
            } else {
                let half_angle = (prm.max_accum_angle / 2) as int;
                let half_steps = (prm.max_steps / 2) as nat;
                let fwd = grow(canvas, entries, prm, prm.d_step as int, half_angle, p_seed, seed_value.direction, seed_value.depth as int, 0, half_steps);
                let bwd = grow(canvas, entries, prm, -(prm.d_step as int), half_angle, p_seed, seed_value.direction, seed_value.depth as int, 0, half_steps);
                let line = bwd.reverse() + seq![p_seed] + fwd;
                if line.len() > prm.min_steps + 1 {
                    Some(line)
                } else {
                    None
                }
            }
        },
    }
}

/// Separation for a pixel of the given lightness: shrinks with the cube of
/// the lightness, so strokes crowd in dark areas.
pub fn streamline_d_sep_from_lightness(d_sep_min: u32, d_sep_max: u32, lightness: u32) -> (r: u32)
    requires
        d_sep_min <= d_sep_max,
        lightness <= LIGHTNESS_ONE,
    ensures
        r == d_sep_of(d_sep_min as int, d_sep_max as int, lightness as int),
        d_sep_min <= r <= d_sep_max,
{
    let l = lightness as u64;
    assert(0 <= l * l <= 1024 * 1024 && 0 <= l * l * l <= 1024 * 1024 * 1024) by (nonlinear_arith)
        requires
            0 <= l <= 1024,
    ;
    let cube: u64 = l * l * l;
    let span: u64 = (d_sep_max - d_sep_min) as u64;
    assert(0 <= span * cube <= span * (1024 * 1024 * 1024)) by (nonlinear_arith)
        requires
            0 <= cube <= 1024 * 1024 * 1024,
            0 <= span,
    ;
    assert(span * (1024 * 1024 * 1024) <= 0xffff_ffff * (1024 * 1024 * 1024)) by (nonlinear_arith)
        requires
            0 <= span <= 0xffff_ffff,
    ;
    let scaled: u64 = span * cube / (1024 * 1024 * 1024);
    proof {
        let g: int = 0x4000_0000u64 as int;
        vstd::arithmetic::div_mod::lemma_div_is_ordered((span * cube) as int, (span * (1024 * 1024 * 1024)) as int, g);
        vstd::arithmetic::div_mod::lemma_div_multiples_vanish(span as int, g);
        assert(span * (1024 * 1024 * 1024) == (1024 * 1024 * 1024) * span) by (nonlinear_arith);
    }
    d_sep_min + scaled as u32
}

/// `d * d_test_factor / FACTOR_ONE`, rounded down.
fn test_separation(d: u32, d_test_factor: u32) -> (r: u32)
    requires
        d_test_factor <= FACTOR_ONE,
    ensures
        r == scaled_sep(d as int, d_test_factor as int),
        r <= d,
{
    assert(0 <= (d as int) * (d_test_factor as int) <= (d as int) * 1024) by (nonlinear_arith)
        requires
            0 <= d_test_factor <= 1024,
            0 <= d,
    ;
    let prod: u64 = (d as u64) * (d_test_factor as u64);
    proof {
        vstd::arithmetic::div_mod::lemma_div_is_ordered(prod as int, (d as int) * 1024, 1024);
        vstd::arithmetic::div_mod::lemma_div_multiples_vanish(d as int, 1024);
        assert((d as int) * 1024 == 1024 * (d as int)) by (nonlinear_arith);
    }
    (prod / 1024) as u32
}

/// `u * d / UNIT_VECTOR_LENGTH`, rounded toward zero.
pub(crate) fn offset_along(u: i32, d: i64) -> (r: i64)
    requires
        -UNIT_VECTOR_LENGTH <= u <= UNIT_VECTOR_LENGTH,
        -0x8000_0000 <= d <= 0x8000_0000,
    ensures
        r == step_offset(u as int, d as int),
        -0x8000_0000 <= r <= 0x8000_0000,
{
    assert(-0x8000_0000 * 16384 <= (u as int) * (d as int) <= 0x8000_0000 * 16384) by (nonlinear_arith)
        requires
            -16384 <= u <= 16384,
            -0x8000_0000 <= d <= 0x8000_0000,
    ;
    let prod: i64 = (u as i64) * d;
    if prod >= 0 {
        proof {
            let bound: int = 0x2000_0000_0000u64 as int;
            vstd::arithmetic::div_mod::lemma_div_is_ordered(prod as int, bound, 16384);
            vstd::arithmetic::div_mod::lemma_div_pos_is_pos(prod as int, 16384);
        }
        ((prod as u64) / 16384) as i64
    } else {
        proof {
            let bound: int = 0x2000_0000_0000u64 as int;
            vstd::arithmetic::div_mod::lemma_div_is_ordered(-(prod as int), bound, 16384);
            vstd::arithmetic::div_mod::lemma_div_pos_is_pos(-(prod as int), 16384);
        }
        let neg: u64 = (-prod) as u64;
        -((neg / 16384) as i64)
    }
}

/// The unsigned angle between two binary angles.
fn turn_angle(a: u16, b: u16) -> (r: u64)
    ensures
        r == turn_between(a as int, b as int),
        r <= FULL_TURN / 2,
{
    let d: u32 = (a as u32 + 65536 - b as u32) % 65536;
    if d <= 32768 {
        d as u64
    } else {
        (65536 - d) as u64
    }
}

/// Grows one branch from `p_start`, stepping by `step` canvas units along
/// the field's direction (against it when `step` is negative).
fn continue_line(
    canvas: &PixelPropertyCanvas,
    streamline_registry: &StreamlineRegistry,
    prm: &StreamlineParams,
    p_start: &Point,
    direction_start: Direction,
    depth_start: u32,
    step: i64,
    max_accum_angle: u32,
    max_steps: u32,
) -> (r: Vec<Point>)
    requires
        canvas.wf(),
        streamline_registry.wf(),
        prm.wf(),
        direction_start.wf(),
        -0x8000_0000 <= step <= 0x8000_0000,
    ensures
        r@ == grow(
            *canvas,
            streamline_registry.entries(),
            *prm,
            step as int,
            max_accum_angle as int,
            *p_start,
            direction_start,
            depth_start as int,
            0,
            max_steps as nat,
        ),
{
    let ghost total = grow(
        *canvas,
        streamline_registry.entries(),
        *prm,
        step as int,
        max_accum_angle as int,
        *p_start,
        direction_start,
        depth_start as int,
        0,
        max_steps as nat,
    );
    let extent_x: i64 = (canvas.width() as i64) * (UNITS_PER_PIXEL as i64);
    let extent_y: i64 = (canvas.height() as i64) * (UNITS_PER_PIXEL as i64);
    let mut line: Vec<Point> = Vec::new();
    let mut p_last: Point = *p_start;
    let mut dir: Direction = direction_start;
    let mut last_depth: u32 = depth_start;
    let mut accum: u64 = 0;
    let mut i: u32 = 0;
    while i < max_steps
        invariant
            canvas.wf(),
            streamline_registry.wf(),
            prm.wf(),
            dir.wf(),
            -0x8000_0000 <= step <= 0x8000_0000,
            extent_x == canvas.extent_x(),
            extent_y == canvas.extent_y(),
            i <= max_steps,
            accum <= (i as int) * (FULL_TURN / 2),
            line@ + grow(
                *canvas,
                streamline_registry.entries(),
                *prm,
                step as int,
                max_accum_angle as int,
                p_last,
                dir,
                last_depth as int,
                accum as int,
                (max_steps - i) as nat,
            ) == total,
        ensures
            line@ == total,
        decreases max_steps - i,
    {
        let nx: i64 = p_last.x as i64 + offset_along(dir.ux, step);
        let ny: i64 = p_last.y as i64 + offset_along(dir.uy, step);
        if nx < 0 || ny < 0 || nx >= extent_x || ny >= extent_y {
            proof {
                assert(line@ + Seq::<Point>::empty() == line@);
            }
            break;
        }
        let q = Point { x: nx as i32, y: ny as i32 };
        let v: PixelValue = match canvas.pixel_value(&q) {
            None => {
                proof {
                    assert(line@ + Seq::<Point>::empty() == line@);
                }
                break;
            },
            Some(v) => v,
        };
        let t = turn_angle(dir.angle, v.direction.angle);
        assert(accum + t <= (i as int + 1) * (FULL_TURN / 2) <= 0x1_0000_0000 * 32768) by (nonlinear_arith)
            requires
                accum <= (i as int) * (FULL_TURN / 2),
                t <= FULL_TURN / 2,
                i < 0x1_0000_0000,
        ;
        let acc: u64 = accum + t;
        let d = streamline_d_sep_from_lightness(prm.d_sep_min, prm.d_sep_max, v.lightness);
        let dt = test_separation(d, prm.d_test_factor);
        let depth_diff: u32 = if v.depth >= last_depth { v.depth - last_depth } else { last_depth - v.depth };
        proof {
            streamline_registry.lemma_grid_agrees_with_brute_force(q, dt, dt, 0);
        }
        if acc > max_accum_angle as u64 || depth_diff > prm.max_depth_step || !streamline_registry.is_point_allowed(
            &q,
            dt,
            dt,
            0,
        ) {
            proof {
                assert(line@ + Seq::<Point>::empty() == line@);
            }
            break;
        }
        proof {
            let rest = grow(
                *canvas,
                streamline_registry.entries(),
                *prm,
                step as int,
                max_accum_angle as int,
                q,
                v.direction,
                v.depth as int,
                acc as int,
                (max_steps - i - 1) as nat,
            );
            assert(line@.push(q) + rest == line@ + (seq![q] + rest));
        }
        line.push(q);
        p_last = q;
        dir = v.direction;
        last_depth = v.depth;
        accum = acc;
        i = i + 1;
    }
    line
}

/// Every point a branch gains has data in the field.
pub proof fn lemma_grown_points_have_data(
    canvas: PixelPropertyCanvas,
    entries: Seq<StreamlineRegistryEntry>,
    prm: StreamlineParams,
    step: int,
    max_accum: int,
    p: Point,
    dir: Direction,
    depth: int,
    accum: int,
    steps: nat,
)
    requires
        canvas.wf(),
    ensures
        forall|i: int|
            0 <= i < grow(canvas, entries, prm, step, max_accum, p, dir, depth, accum, steps).len() ==> canvas.value_at(
                (#[trigger] grow(canvas, entries, prm, step, max_accum, p, dir, depth, accum, steps)[i]).x as int,
                grow(canvas, entries, prm, step, max_accum, p, dir, depth, accum, steps)[i].y as int,
            ) is Some,
        grow(canvas, entries, prm, step, max_accum, p, dir, depth, accum, steps).len() <= steps,
    decreases steps,
{
    if steps > 0 {
        let nx = p.x + step_offset(dir.ux as int, step);
        let ny = p.y + step_offset(dir.uy as int, step);
        match canvas.value_at(nx, ny) {
            None => {},
            Some(v) => {
                let acc = accum + turn_between(dir.angle as int, v.direction.angle as int);
                let q = Point { x: nx as i32, y: ny as i32 };
                lemma_grown_points_have_data(canvas, entries, prm, step, max_accum, q, v.direction, v.depth as int, acc, (steps - 1) as nat);
                let g = grow(canvas, entries, prm, step, max_accum, p, dir, depth, accum, steps);
                let rest = grow(canvas, entries, prm, step, max_accum, q, v.direction, v.depth as int, acc, (steps - 1) as nat);
                if g.len() > 0 {
                    assert(g == seq![q] + rest);
                    assert(q.x as int == nx && q.y as int == ny);
                    assert forall|i: int| 0 <= i < g.len() implies canvas.value_at(
                        (#[trigger] g[i]).x as int,
                        g[i].y as int,
                    ) is Some by {
                        if i > 0 {
                            assert(g[i] == rest[i - 1]);
                        }
                    }
                }
            },
        }
    }
}

/// Grows a streamline through the flow field from seed `p_start`, as
/// `streamline_of` defines it. The registry is only read: a rejected growth
/// leaves no trace in it.
pub fn flow_field_streamline(
    canvas: &PixelPropertyCanvas,
    streamline_registry: &StreamlineRegistry,
    start_from_streamline_id: u32,
    p_start: &Point,
    params: &StreamlineParams,
) -> (r: Option<Vec<Point>>)
    requires
        canvas.wf(),
        streamline_registry.wf(),
        params.wf(),
    ensures
        r is Some <==> streamline_of(*canvas, streamline_registry.entries(), start_from_streamline_id, *p_start, *params) is Some,
        r matches Some(line) ==> streamline_of(*canvas, streamline_registry.entries(), start_from_streamline_id, *p_start, *params)
            == Some(line@),
        r matches Some(line) ==> line@.len() > params.min_steps + 1,
        r matches Some(line) ==> forall|i: int|
            0 <= i < line@.len() ==> canvas.value_at((#[trigger] line@[i]).x as int, line@[i].y as int) is Some,
{
    let pv_start = match canvas.pixel_value(p_start) {
        None => {
            return None;
        },
        Some(v) => v,
    };
    let d_sep = streamline_d_sep_from_lightness(params.d_sep_min, params.d_sep_max, pv_start.lightness);
    let d_relaxed = test_separation(d_sep, params.d_test_factor);
    proof {
        streamline_registry.lemma_grid_agrees_with_brute_force(*p_start, d_sep, d_relaxed, start_from_streamline_id);
    }
    if !streamline_registry.is_point_allowed(p_start, d_sep, d_relaxed, start_from_streamline_id) {
        return None;
    }
    let half_angle: u32 = params.max_accum_angle / 2;
    let half_steps: u32 = params.max_steps / 2;
    let mut forward = continue_line(
        canvas,
        streamline_registry,
        params,
        p_start,
        pv_start.direction,
        pv_start.depth,
        params.d_step as i64,
        half_angle,
        half_steps,
    );
    let backward = continue_line(
        canvas,
        streamline_registry,
        params,
        p_start,
        pv_start.direction,
        pv_start.depth,
        -(params.d_step as i64),
        half_angle,
        half_steps,
    );
    let ghost fwd = forward@;
    let ghost bwd = backward@;
    proof {
        lemma_grown_points_have_data(
            *canvas,
            streamline_registry.entries(),
            *params,
            params.d_step as int,
            half_angle as int,
            *p_start,
            pv_start.direction,
            pv_start.depth as int,
            0,
            half_steps as nat,
        );
        lemma_grown_points_have_data(
            *canvas,
            streamline_registry.entries(),
            *params,
            -(params.d_step as int),
            half_angle as int,
            *p_start,
            pv_start.direction,
            pv_start.depth as int,
            0,
            half_steps as nat,
        );
    }
    let mut line: Vec<Point> = Vec::new();
    let n = backward.len();
    let mut k: usize = n;
    while k > 0
        invariant
            n == bwd.len(),
            backward@ == bwd,
            k <= n,
            line@.len() == n - k,
            forall|j: int| 0 <= j < n - k ==> line@[j] == bwd[n - 1 - j],
        decreases k,
    {
        k = k - 1;
        line.push(backward[k]);
    }
    proof {
        assert(line@ == bwd.reverse());
    }
    line.push(*p_start);
    line.append(&mut forward);
    proof {
        assert(line@ == bwd.reverse() + seq![*p_start] + fwd);
        let all = line@;
        assert forall|i: int| 0 <= i < all.len() implies canvas.value_at(
            (#[trigger] all[i]).x as int,
            all[i].y as int,
        ) is Some by {
            if i < n {
                assert(all[i] == bwd[n - 1 - i]);
            } else if i > n {
                assert(all[i] == fwd[i - n - 1]);
            }
        }
    }
    if line.len() as u64 > (params.min_steps as u64) + 1 {
        Some(line)
    } else {
        None
    }
}

} // verus!
