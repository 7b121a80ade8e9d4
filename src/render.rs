use vstd::prelude::*;

use std::collections::VecDeque;

use rand_xoshiro::Xoshiro128StarStar;

use crate::field::{PixelPropertyCanvas, UNITS_PER_PIXEL, UNIT_VECTOR_LENGTH};
use crate::random::next_random;
use crate::registry::{ceil_div, Point, StreamlineRegistry, StreamlineRegistryEntry};
use crate::streamline::{d_sep_of, flow_field_streamline, offset_along, step_offset, streamline_d_sep_from_lightness, streamline_of, StreamlineParams};

verus! {

/// `cell * r / 2^32`: a draw `r` spread over `[0, cell)`.
pub open spec fn jitter_of(cell: int, r: int) -> int {
    (cell * r) / 0x1_0000_0000
}

/// Origins of the cells of a `cell_count_x` x `cell_count_y` grid over a
/// `width` x `height` area, row by row; cells are `width / cell_count_x` by
/// `height / cell_count_y` units.
pub fn on_grid(width: u32, height: u32, cell_count_x: u32, cell_count_y: u32) -> (r: Vec<Point>)
    requires
        width <= i32::MAX,
        height <= i32::MAX,
    ensures
        cell_count_x == 0 || cell_count_y == 0 ==> r@.len() == 0,
        cell_count_x > 0 && cell_count_y > 0 ==> r@.len() == cell_count_x * cell_count_y,
        cell_count_x > 0 && cell_count_y > 0 ==> forall|iy: int, ix: int|
            0 <= iy < cell_count_y && 0 <= ix < cell_count_x ==> (#[trigger] r@[iy * cell_count_x + ix]) == (Point {
                x: (ix * (width / cell_count_x)) as i32,
                y: (iy * (height / cell_count_y)) as i32,
            }),
{
    let mut seeds: Vec<Point> = Vec::new();
    if cell_count_x == 0 || cell_count_y == 0 {
        return seeds;
    }
    let cell_width: u32 = width / cell_count_x;
    let cell_height: u32 = height / cell_count_y;
    let mut i_y: u32 = 0;
    while i_y < cell_count_y
        invariant
            cell_count_x > 0,
            cell_width == width / cell_count_x,
            cell_height == height / cell_count_y,
            width <= i32::MAX,
            height <= i32::MAX,
            i_y <= cell_count_y,
            seeds@.len() == i_y * cell_count_x,
            forall|iy: int, ix: int|
                0 <= iy < i_y && 0 <= ix < cell_count_x ==> (#[trigger] seeds@[iy * cell_count_x + ix]) == (Point {
                    x: (ix * cell_width) as i32,
                    y: (iy * cell_height) as i32,
                }),
        decreases cell_count_y - i_y,
    {
        let mut i_x: u32 = 0;
        while i_x < cell_count_x
            invariant
                cell_count_x > 0,
                cell_width == width / cell_count_x,
                cell_height == height / cell_count_y,
                width <= i32::MAX,
                height <= i32::MAX,
                i_y < cell_count_y,
                i_x <= cell_count_x,
                seeds@.len() == i_y * cell_count_x + i_x,
                forall|iy: int, ix: int|
                    (0 <= iy < i_y && 0 <= ix < cell_count_x) || (iy == i_y && 0 <= ix < i_x) ==> (#[trigger] seeds@[iy
                        * cell_count_x + ix]) == (Point { x: (ix * cell_width) as i32, y: (iy * cell_height) as i32 }),
            decreases cell_count_x - i_x,
        {
            proof {
                lemma_cell_origin_fits(i_x as int, cell_count_x as int, width as int);
                lemma_cell_origin_fits(i_y as int, cell_count_y as int, height as int);
            }
            proof {
                assert(cell_width * i_x == i_x * cell_width) by (nonlinear_arith);
                assert(cell_height * i_y == i_y * cell_height) by (nonlinear_arith);
            }
            let x = (cell_width as u64) * (i_x as u64);
            let y = (cell_height as u64) * (i_y as u64);
            let ghost prev = seeds@;
            let pt = Point { x: x as i32, y: y as i32 };
            seeds.push(pt);
            proof {
                assert forall|iy: int, ix: int|
                    (0 <= iy < i_y && 0 <= ix < cell_count_x) || (iy == i_y && 0 <= ix < i_x + 1) implies #[trigger] seeds@[iy
                        * cell_count_x + ix] == (Point { x: (ix * cell_width) as i32, y: (iy * cell_height) as i32 }) by {
                    if iy == i_y && ix == i_x {
                        assert(seeds@[iy * cell_count_x + ix] == pt);
                    } else {
                        lemma_row_major_before(iy, ix, i_y as int, i_x as int, cell_count_x as int);
                        assert(seeds@[iy * cell_count_x + ix] == prev[iy * cell_count_x + ix]);
                    }
                }
            }
            i_x = i_x + 1;
        }
        proof {
            assert((i_y + 1) * cell_count_x == i_y * cell_count_x + cell_count_x) by (nonlinear_arith);
        }
        i_y = i_y + 1;
    }
    proof {
        assert(cell_count_y * cell_count_x == cell_count_x * cell_count_y) by (nonlinear_arith);
    }
    seeds
}

/// Row-major indices of cells before `(i_y, i_x)` come before its own.
proof fn lemma_row_major_before(iy: int, ix: int, i_y: int, i_x: int, n: int)
    requires
        (0 <= iy < i_y && 0 <= ix < n) || (iy == i_y && 0 <= ix < i_x),
        0 <= i_x,
        0 <= i_y,
        0 <= n,
    ensures
        0 <= iy * n + ix < i_y * n + i_x,
{
    if iy < i_y {
        assert(0 <= iy * n + ix < i_y * n + i_x) by (nonlinear_arith)
            requires
                0 <= iy < i_y,
                0 <= ix < n,
                0 <= i_x,
        {
            assert(iy * n + n <= i_y * n) by (nonlinear_arith)
                requires
                    iy + 1 <= i_y,
                    n > 0,
            ;
        }
    } else {
        assert(0 <= iy * n) by (nonlinear_arith)
            requires
                0 <= iy,
                0 <= n,
        ;
    }
}

/// The origin of cell `i < n` of a split of `extent` into `n` equal cells
/// lies within the extent.
proof fn lemma_cell_origin_fits(i: int, n: int, extent: int)
    requires
        0 <= i < n,
        0 <= extent,
    ensures
        0 <= i * (extent / n) <= extent,
        0 <= (i + 1) * (extent / n) <= extent,
{
    vstd::arithmetic::div_mod::lemma_fundamental_div_mod(extent, n);
    let c = extent / n;
    vstd::arithmetic::div_mod::lemma_div_pos_is_pos(extent, n);
    assert(0 <= i * c <= (i + 1) * c <= n * c) by (nonlinear_arith)
        requires
            0 <= i < n,
            c >= 0,
    ;
    assert(n * c <= extent) by {
        assert(extent == n * c + extent % n);
    }
}

/// `seeds` holds one point per cell of a `cell_count_x` x `cell_count_y`
/// grid over a `width` x `height` area, row by row, each within its cell.
pub open spec fn jittered_grid(seeds: Seq<Point>, width: u32, height: u32, cell_count_x: u32, cell_count_y: u32) -> bool {
    &&& (cell_count_x == 0 || cell_count_y == 0 ==> seeds.len() == 0)
    &&& (cell_count_x > 0 && cell_count_y > 0 ==> seeds.len() == cell_count_x * cell_count_y)
    &&& (cell_count_x > 0 && cell_count_y > 0 ==> forall|iy: int, ix: int|
        0 <= iy < cell_count_y && 0 <= ix < cell_count_x ==> {
            let p = #[trigger] seeds[iy * cell_count_x + ix];
            let cw = (width / cell_count_x) as int;
            let ch = (height / cell_count_y) as int;
            &&& ix * cw <= p.x <= ix * cw + cw
            &&& (p.x < ix * cw + cw || cw == 0)
            &&& iy * ch <= p.y <= iy * ch + ch
            &&& (p.y < iy * ch + ch || ch == 0)
        })
}

/// One seed per cell of a `cell_count_x` x `cell_count_y` grid over a
/// `width` x `height` area, row by row, each placed at a pseudorandom
/// position within its cell.
pub fn on_jittered_grid(
    width: u32,
    height: u32,
    cell_count_x: u32,
    cell_count_y: u32,
    rng: &mut Xoshiro128StarStar,
) -> (r: Vec<Point>)
    requires
        width <= i32::MAX,
        height <= i32::MAX,
    ensures
        jittered_grid(r@, width, height, cell_count_x, cell_count_y),
{
    let mut seeds: Vec<Point> = Vec::new();
    if cell_count_x == 0 || cell_count_y == 0 {
        return seeds;
    }
    let cell_width: u32 = width / cell_count_x;
    let cell_height: u32 = height / cell_count_y;
    let mut i_y: u32 = 0;
    while i_y < cell_count_y
        invariant
            cell_count_x > 0,
            cell_width == width / cell_count_x,
            cell_height == height / cell_count_y,
            width <= i32::MAX,
            height <= i32::MAX,
            i_y <= cell_count_y,
            seeds@.len() == i_y * cell_count_x,
            forall|iy: int, ix: int|
                0 <= iy < i_y && 0 <= ix < cell_count_x ==> {
                    let p = #[trigger] seeds@[iy * cell_count_x + ix];
                    &&& ix * cell_width <= p.x <= ix * cell_width + cell_width
                    &&& (p.x < ix * cell_width + cell_width || cell_width == 0)
                    &&& iy * cell_height <= p.y <= iy * cell_height + cell_height
                    &&& (p.y < iy * cell_height + cell_height || cell_height == 0)
                },
        decreases cell_count_y - i_y,
    {
        let mut i_x: u32 = 0;
        while i_x < cell_count_x
            invariant
                cell_count_x > 0,
                cell_width == width / cell_count_x,
                cell_height == height / cell_count_y,
                width <= i32::MAX,
                height <= i32::MAX,
                i_y < cell_count_y,
                i_x <= cell_count_x,
                seeds@.len() == i_y * cell_count_x + i_x,
                forall|iy: int, ix: int|
                    (0 <= iy < i_y && 0 <= ix < cell_count_x) || (iy == i_y && 0 <= ix < i_x) ==> {
                        let p = #[trigger] seeds@[iy * cell_count_x + ix];
                        &&& ix * cell_width <= p.x <= ix * cell_width + cell_width
                        &&& (p.x < ix * cell_width + cell_width || cell_width == 0)
                        &&& iy * cell_height <= p.y <= iy * cell_height + cell_height
                        &&& (p.y < iy * cell_height + cell_height || cell_height == 0)
                    },
            decreases cell_count_x - i_x,
        {
            let rx = next_random(rng);
            let ry = next_random(rng);
            let jx = jitter(cell_width, rx);
            let jy = jitter(cell_height, ry);
            proof {
                lemma_cell_origin_fits(i_x as int, cell_count_x as int, width as int);
                lemma_cell_origin_fits(i_y as int, cell_count_y as int, height as int);
            }
            proof {
                assert(cell_width * i_x == i_x * cell_width) by (nonlinear_arith);
                assert(cell_height * i_y == i_y * cell_height) by (nonlinear_arith);
                assert((i_x + 1) * cell_width == i_x * cell_width + cell_width) by (nonlinear_arith);
                assert((i_y + 1) * cell_height == i_y * cell_height + cell_height) by (nonlinear_arith);
            }
            let x = (cell_width as u64) * (i_x as u64) + jx as u64;
            let y = (cell_height as u64) * (i_y as u64) + jy as u64;
            let ghost prev = seeds@;
            let pt = Point { x: x as i32, y: y as i32 };
            seeds.push(pt);
            proof {
                assert forall|iy: int, ix: int|
                    (0 <= iy < i_y && 0 <= ix < cell_count_x) || (iy == i_y && 0 <= ix < i_x + 1) implies {
                        let p = #[trigger] seeds@[iy * cell_count_x + ix];
                        &&& ix * cell_width <= p.x <= ix * cell_width + cell_width
                        &&& (p.x < ix * cell_width + cell_width || cell_width == 0)
                        &&& iy * cell_height <= p.y <= iy * cell_height + cell_height
                        &&& (p.y < iy * cell_height + cell_height || cell_height == 0)
                    } by {
                    if iy == i_y && ix == i_x {
                        assert(seeds@[iy * cell_count_x + ix] == pt);
                    } else {
                        lemma_row_major_before(iy, ix, i_y as int, i_x as int, cell_count_x as int);
                        assert(seeds@[iy * cell_count_x + ix] == prev[iy * cell_count_x + ix]);
                    }
                }
            }
            i_x = i_x + 1;
        }
        proof {
            assert((i_y + 1) * cell_count_x == i_y * cell_count_x + cell_count_x) by (nonlinear_arith);
        }
        i_y = i_y + 1;
    }
    proof {
        assert(cell_count_y * cell_count_x == cell_count_x * cell_count_y) by (nonlinear_arith);
    }
    seeds
}

/// `cell * r / 2^32`, which lies in `[0, cell)` for a non-empty cell.
fn jitter(cell: u32, r: u32) -> (j: u32)
    ensures
        j == jitter_of(cell as int, r as int),
        j <= cell,
        j < cell || cell == 0,
{
    assert((cell as int) * (r as int) <= 0xffff_ffff * 0xffff_ffff) by (nonlinear_arith)
        requires
            cell <= 0xffff_ffff,
            r <= 0xffff_ffff,
    ;
    let prod: u64 = (cell as u64) * (r as u64);
    proof {
        assert(prod < (cell as int) * 0x1_0000_0000 || cell == 0) by (nonlinear_arith)
            requires
                prod == (cell as int) * (r as int),
                r < 0x1_0000_0000,
        ;
        assert(prod <= (cell as int) * 0x1_0000_0000) by (nonlinear_arith)
            requires
                prod == (cell as int) * (r as int),
                r < 0x1_0000_0000,
        ;
        let m: int = 0x1_0000_0000u64 as int;
        vstd::arithmetic::div_mod::lemma_div_is_ordered(prod as int, (cell as int) * m, m);
        vstd::arithmetic::div_mod::lemma_div_multiples_vanish(cell as int, m);
        assert((cell as int) * m == m * (cell as int)) by (nonlinear_arith);
        if cell > 0 {
            vstd::arithmetic::div_mod::lemma_div_is_ordered(prod as int, (cell as int) * m - 1, m);
            assert(((cell as int) * m - 1) / m == cell - 1) by {
                vstd::arithmetic::div_mod::lemma_fundamental_div_mod_converse((cell as int) * m - 1, m, cell - 1, m - 1);
            }
        }
    }
    (prod / 0x1_0000_0000) as u32
}

/// The state of streamline placement: what is registered, the next
/// identifier, the accepted streamlines in order, the queue of
/// (identifier, index of the streamline) still to offer seeds, and whether
/// placement stopped because identifiers ran out.
pub struct Placement {
    pub entries: Seq<StreamlineRegistryEntry>,
    pub next_id: int,
    pub lines: Seq<Seq<Point>>,
    pub queue: Seq<(u32, usize)>,
    pub halted: bool,
}

pub open spec fn initial_placement() -> Placement {
    Placement { entries: Seq::empty(), next_id: 1, lines: Seq::empty(), queue: Seq::empty(), halted: false }
}

/// `st` after accepting `line` under the next identifier.
pub open spec fn accept(st: Placement, line: Seq<Point>) -> Placement {
    Placement {
        entries: st.entries + line.map_values(
            |p: Point| StreamlineRegistryEntry { streamline_id: st.next_id as u32, point: p },
        ),
        next_id: st.next_id + 1,
        lines: st.lines.push(line),
        queue: st.queue.push((st.next_id as u32, st.lines.len() as usize)),
        halted: false,
    }
}

/// `st` after trying to grow a streamline from `seed`, exempting streamline
/// `start_id`.
pub open spec fn try_seed(
    canvas: PixelPropertyCanvas,
    prm: StreamlineParams,
    st: Placement,
    start_id: u32,
    seed: Point,
) -> Placement {
    if st.halted {
        st
    } else if st.next_id >= u32::MAX {
        Placement { halted: true, ..st }
    } else {
        match streamline_of(canvas, st.entries, start_id, seed, prm) {
            None => st,
            Some(line) => accept(st, line),
        }
    }
}

/// `st` after trying every seed of `seeds` in order, with no exemption.
pub open spec fn seed_phase(canvas: PixelPropertyCanvas, prm: StreamlineParams, st: Placement, seeds: Seq<Point>) -> Placement
    decreases seeds.len(),
{
    if seeds.len() == 0 {
        st
    } else {
        try_seed(canvas, prm, seed_phase(canvas, prm, st, seeds.drop_last()), 0, seeds.last())
    }
}

/// The seed proposed beside point number `j` of a streamline: `d_sep` away
/// along the perpendicular of the flow, on the left for even `j` and on the
/// right for odd `j`; none where the point has no data or the seed falls
/// outside the canvas.
pub open spec fn neighbour_seed(canvas: PixelPropertyCanvas, prm: StreamlineParams, p: Point, j: int) -> Option<Point> {
    match canvas.value_at(p.x as int, p.y as int) {
        None => None,
        Some(v) => {
            let d = d_sep_of(prm.d_sep_min as int, prm.d_sep_max as int, v.lightness as int);
            let signed = if j % 2 == 0 { -d } else { d };
            let sx = p.x + step_offset(-v.direction.uy, signed);
            let sy = p.y + step_offset(v.direction.ux as int, signed);
            if canvas.contains(sx, sy) {
                Some(Point { x: sx as i32, y: sy as i32 })
            } else {
                None
            }
        },
    }
}

/// `st` after offering the seeds beside the first `j` points of `line`,
/// exempting streamline `id`.
pub open spec fn offer(
    canvas: PixelPropertyCanvas,
    prm: StreamlineParams,
    st: Placement,
    id: u32,
    line: Seq<Point>,
    j: nat,
) -> Placement
    decreases j,
{
    if j == 0 {
        st
    } else {
        let prev = offer(canvas, prm, st, id, line, (j - 1) as nat);
        match neighbour_seed(canvas, prm, line[j - 1], j - 1) {
            None => prev,
            Some(seed) => try_seed(canvas, prm, prev, id, seed),
        }
    }
}

pub open spec fn finished(st: Placement) -> bool {
    st.halted || st.queue.len() == 0
}

/// `st` after taking the first queued streamline and offering seeds beside
/// all of its points.
pub open spec fn drain_step(canvas: PixelPropertyCanvas, prm: StreamlineParams, st: Placement) -> Placement {
    let id = st.queue[0].0;
    let line = st.lines[st.queue[0].1 as int];
    offer(canvas, prm, Placement { queue: st.queue.drop_first(), ..st }, id, line, line.len())
}

/// `st` after at most `fuel` steps of the queue.
pub open spec fn drain(canvas: PixelPropertyCanvas, prm: StreamlineParams, st: Placement, fuel: nat) -> Placement
    decreases fuel,
{
    if fuel == 0 || finished(st) {
        st
    } else {
        drain(canvas, prm, drain_step(canvas, prm, st), (fuel - 1) as nat)
    }
}

/// `lines` is what placement from `seeds` ends with.
pub open spec fn placed(canvas: PixelPropertyCanvas, prm: StreamlineParams, seeds: Seq<Point>, lines: Seq<Seq<Point>>) -> bool {
    exists|fuel: nat|
        {
            let end = #[trigger] drain(canvas, prm, seed_phase(canvas, prm, initial_placement(), seeds), fuel);
            finished(end) && end.lines == lines
        }
}

pub open spec fn views(lines: Seq<Vec<Point>>) -> Seq<Seq<Point>> {
    lines.map_values(|l: Vec<Point>| l@)
}

/// Once the queue is finished, more steps change nothing.
proof fn lemma_drain_settles(canvas: PixelPropertyCanvas, prm: StreamlineParams, st: Placement, f: nat, g: nat)
    requires
        finished(drain(canvas, prm, st, f)),
        f <= g,
    ensures
        drain(canvas, prm, st, g) == drain(canvas, prm, st, f),
    decreases f,
{
    if f > 0 && !finished(st) {
        lemma_drain_settles(canvas, prm, drain_step(canvas, prm, st), (f - 1) as nat, (g - 1) as nat);
    }
}

/// Placement is deterministic: for the same field, seeds and limits, any two
/// results of placement are the same streamlines in the same order.
pub proof fn lemma_placement_deterministic(
    canvas: PixelPropertyCanvas,
    prm: StreamlineParams,
    seeds: Seq<Point>,
    lines1: Seq<Seq<Point>>,
    lines2: Seq<Seq<Point>>,
)
    requires
        placed(canvas, prm, seeds, lines1),
        placed(canvas, prm, seeds, lines2),
    ensures
        lines1 == lines2,
{
    let st = seed_phase(canvas, prm, initial_placement(), seeds);
    let f1 = choose|fuel: nat|
        {
            let end = #[trigger] drain(canvas, prm, st, fuel);
            finished(end) && end.lines == lines1
        };
    let f2 = choose|fuel: nat|
        {
            let end = #[trigger] drain(canvas, prm, st, fuel);
            finished(end) && end.lines == lines2
        };
    if f1 <= f2 {
        lemma_drain_settles(canvas, prm, st, f1, f2);
    } else {
        lemma_drain_settles(canvas, prm, st, f2, f1);
    }
}

/// Side of the registry's cells for a largest separation `d_sep_max`: half
/// of it, and at least one unit.
pub open spec fn registry_cell_size(d_sep_max: u32) -> int {
    if d_sep_max / 2 == 0 {
        1
    } else {
        (d_sep_max / 2) as int
    }
}

/// Every streamline is longer than `min_steps + 1` points, and each of its
/// points has data in the field.
pub open spec fn accepted_lines(canvas: PixelPropertyCanvas, lines: Seq<Vec<Point>>, min_steps: u32) -> bool {
    forall|k: int|
        0 <= k < lines.len() ==> {
            &&& (#[trigger] lines[k])@.len() > min_steps + 1
            &&& forall|j: int|
                0 <= j < lines[k]@.len() ==> canvas.value_at((#[trigger] lines[k]@[j]).x as int, lines[k]@[j].y as int) is Some
        }
}

spec fn state_of(reg: StreamlineRegistry, lines: Seq<Vec<Point>>, queue: Seq<(u32, usize)>) -> Placement {
    Placement { entries: reg.entries(), next_id: reg.next_id(), lines: views(lines), queue, halted: false }
}

proof fn lemma_drain_next(canvas: PixelPropertyCanvas, prm: StreamlineParams, st: Placement, i: nat)
    ensures
        drain(canvas, prm, st, i + 1) == (if finished(drain(canvas, prm, st, i)) {
            drain(canvas, prm, st, i)
        } else {
            drain_step(canvas, prm, drain(canvas, prm, st, i))
        }),
    decreases i,
{
    if finished(st) {
        assert(drain(canvas, prm, st, i) == st);
        assert(drain(canvas, prm, st, i + 1) == st);
    } else if i == 0 {
        assert(drain(canvas, prm, st, 0) == st);
        assert(drain(canvas, prm, st, 1) == drain(canvas, prm, drain_step(canvas, prm, st), 0));
    } else {
        let next = drain_step(canvas, prm, st);
        lemma_drain_next(canvas, prm, next, (i - 1) as nat);
        assert(drain(canvas, prm, st, i) == drain(canvas, prm, next, (i - 1) as nat));
        assert(drain(canvas, prm, st, i + 1) == drain(canvas, prm, next, i));
    }
}

proof fn lemma_offer_halted(
    canvas: PixelPropertyCanvas,
    prm: StreamlineParams,
    st: Placement,
    id: u32,
    line: Seq<Point>,
    j: nat,
    n: nat,
)
    requires
        offer(canvas, prm, st, id, line, j).halted,
        j <= n,
    ensures
        offer(canvas, prm, st, id, line, n) == offer(canvas, prm, st, id, line, j),
    decreases n,
{
    if n > j {
        lemma_offer_halted(canvas, prm, st, id, line, j, (n - 1) as nat);
    }
}

proof fn lemma_seed_phase_halted(
    canvas: PixelPropertyCanvas,
    prm: StreamlineParams,
    st: Placement,
    seeds: Seq<Point>,
    k: int,
    n: int,
)
    requires
        0 <= k <= n <= seeds.len(),
        seed_phase(canvas, prm, st, seeds.subrange(0, k)).halted,
    ensures
        seed_phase(canvas, prm, st, seeds.subrange(0, n)) == seed_phase(canvas, prm, st, seeds.subrange(0, k)),
    decreases n,
{
    if n > k {
        lemma_seed_phase_halted(canvas, prm, st, seeds, k, n - 1);
        assert(seeds.subrange(0, n).drop_last() == seeds.subrange(0, n - 1));
    }
}

/// Lays out evenly spaced streamlines from the given seeds and returns them
/// in the order they were accepted, as `placed` defines it.
///
/// Each seed is grown with no exempted streamline. Every accepted streamline
/// is registered and queued; for each queued streamline, in first-in
/// first-out order, a seed is proposed beside each of its points, `d_sep`
/// away along the perpendicular of the flow, on alternating sides, and grown
/// with that streamline exempted at the relaxed separation. Placement ends
/// when the queue is empty, or when the registry has no identifier left.
pub fn place_streamlines(canvas: &PixelPropertyCanvas, seeds: &Vec<Point>, params: &StreamlineParams) -> (r: Vec<
    Vec<Point>,
>)
    requires
        canvas.wf(),
        params.wf(),
        ceil_div(canvas.extent_x(), registry_cell_size(params.d_sep_max)) * ceil_div(
            canvas.extent_y(),
            registry_cell_size(params.d_sep_max),
        ) <= usize::MAX,
    ensures
        accepted_lines(*canvas, r@, params.min_steps),
        placed(*canvas, *params, seeds@, views(r@)),
{
    let width = canvas.width();
    let height = canvas.height();
    let ext_x: u32 = width * UNITS_PER_PIXEL;
    let ext_y: u32 = height * UNITS_PER_PIXEL;
    let cell_size: u32 = if params.d_sep_max / 2 == 0 { 1 } else { params.d_sep_max / 2 };
    let mut reg = StreamlineRegistry::new(ext_x, ext_y, cell_size);
    let mut lines: Vec<Vec<Point>> = Vec::new();
    let mut queue: VecDeque<(u32, usize)> = VecDeque::new();
    proof {
        assert(views(lines@) == Seq::<Seq<Point>>::empty());
        assert(seeds@.subrange(0, 0) == Seq::<Point>::empty());
    }
    let mut k: usize = 0;
    while k < seeds.len()
        invariant
            canvas.wf(),
            params.wf(),
            reg.wf(),
            reg.spec_width() == canvas.extent_x(),
            reg.spec_height() == canvas.extent_y(),
            0 <= k <= seeds@.len(),
            accepted_lines(*canvas, lines@, params.min_steps),
            forall|i: int| 0 <= i < queue@.len() ==> (#[trigger] queue@[i]).1 < lines@.len(),
            state_of(reg, lines@, queue@) == seed_phase(*canvas, *params, initial_placement(), seeds@.subrange(0, k as int)),
        decreases seeds@.len() - k,
    {
        let ghost before = state_of(reg, lines@, queue@);
        proof {
            assert(seeds@.subrange(0, k + 1).drop_last() == seeds@.subrange(0, k as int));
            reg.lemma_stored_ids_below_next();
        }
        if reg.next_streamline_id() == u32::MAX {
            proof {
                let halted = seed_phase(*canvas, *params, initial_placement(), seeds@.subrange(0, k + 1));
                assert(halted == Placement { halted: true, ..before });
                lemma_seed_phase_halted(*canvas, *params, initial_placement(), seeds@, k + 1, seeds@.len() as int);
                assert(seeds@.subrange(0, seeds@.len() as int) == seeds@);
                assert(drain(*canvas, *params, halted, 0) == halted);
            }
            return lines;
        }
        match flow_field_streamline(canvas, &reg, 0, &seeds[k], params) {
            Some(line) => {
                let ghost old_lines = lines@;
                let id = reg.add_streamline(&line);
                queue.push_back((id, lines.len()));
                lines.push(line);
                proof {
                    assert(views(lines@) == views(old_lines).push(line@));
                    assert(state_of(reg, lines@, queue@) == accept(before, line@));
                }
            },
            None => {},
        }
        k = k + 1;
    }
    proof {
        assert(seeds@.subrange(0, seeds@.len() as int) == seeds@);
    }
    let ghost start = state_of(reg, lines@, queue@);
    let ghost mut steps: nat = 0;
    while queue.len() > 0
        invariant
            canvas.wf(),
            params.wf(),
            reg.wf(),
            reg.spec_width() == canvas.extent_x(),
            reg.spec_height() == canvas.extent_y(),
            ext_x == canvas.extent_x(),
            ext_y == canvas.extent_y(),
            accepted_lines(*canvas, lines@, params.min_steps),
            forall|i: int| 0 <= i < queue@.len() ==> (#[trigger] queue@[i]).1 < lines@.len(),
            start == seed_phase(*canvas, *params, initial_placement(), seeds@),
            state_of(reg, lines@, queue@) == drain(*canvas, *params, start, steps),
        decreases u32::MAX - reg.next_id(), queue@.len(),
    {
        let ghost current = state_of(reg, lines@, queue@);
        let (id, idx) = match queue.pop_front() {
            Some(entry) => entry,
            None => {
                return lines;
            },
        };
        proof {
            reg.lemma_stored_ids_below_next();
            lemma_drain_next(*canvas, *params, start, steps);
        }
        let ghost popped = Placement { queue: current.queue.drop_first(), ..current };
        let ghost id_at_pop = reg.next_id();
        let ghost queue_at_pop = queue@.len();
        let ghost line = lines@[idx as int]@;
        proof {
            assert(state_of(reg, lines@, queue@) == popped);
            assert(offer(*canvas, *params, popped, id, line, 0) == popped);
        }
        let n = lines[idx].len();
        let mut j: usize = 0;
        while j < n
            invariant
                canvas.wf(),
                params.wf(),
                reg.wf(),
                reg.spec_width() == canvas.extent_x(),
                reg.spec_height() == canvas.extent_y(),
                ext_x == canvas.extent_x(),
                ext_y == canvas.extent_y(),
                accepted_lines(*canvas, lines@, params.min_steps),
                forall|i: int| 0 <= i < queue@.len() ==> (#[trigger] queue@[i]).1 < lines@.len(),
                idx < lines@.len(),
                lines@[idx as int]@ == line,
                n == line.len(),
                j <= n,
                reg.next_id() >= id_at_pop,
                reg.next_id() > id_at_pop || queue@.len() == queue_at_pop,
                start == seed_phase(*canvas, *params, initial_placement(), seeds@),
                !finished(current),
                current == drain(*canvas, *params, start, steps),
                drain(*canvas, *params, start, steps + 1) == offer(*canvas, *params, popped, id, line, n as nat),
                state_of(reg, lines@, queue@) == offer(*canvas, *params, popped, id, line, j as nat),
            decreases n - j,
        {
            let ghost before = state_of(reg, lines@, queue@);
            let p = lines[idx][j];
            if let Some(pixel) = canvas.pixel_value(&p) {
                let d = streamline_d_sep_from_lightness(params.d_sep_min, params.d_sep_max, pixel.lightness);
                let signed: i64 = if j % 2 == 0 { -(d as i64) } else { d as i64 };
                let sx: i64 = p.x as i64 + offset_along(-pixel.direction.uy, signed);
                let sy: i64 = p.y as i64 + offset_along(pixel.direction.ux, signed);
                if 0 <= sx && sx < ext_x as i64 && 0 <= sy && sy < ext_y as i64 {
                    let seed = Point { x: sx as i32, y: sy as i32 };
                    proof {
                        assert(neighbour_seed(*canvas, *params, line[j as int], j as int) == Some(seed));
                        reg.lemma_stored_ids_below_next();
                    }
                    if reg.next_streamline_id() == u32::MAX {
                        proof {
                            let halted = offer(*canvas, *params, popped, id, line, (j + 1) as nat);
                            assert(halted == Placement { halted: true, ..before });
                            lemma_offer_halted(*canvas, *params, popped, id, line, (j + 1) as nat, n as nat);
                            assert(drain(*canvas, *params, start, steps + 1).lines == views(lines@));
                        }
                        return lines;
                    }
                    match flow_field_streamline(canvas, &reg, id, &seed, params) {
                        Some(new_line) => {
                            let ghost old_lines = lines@;
                            let new_id = reg.add_streamline(&new_line);
                            queue.push_back((new_id, lines.len()));
                            lines.push(new_line);
                            proof {
                                assert(views(lines@) == views(old_lines).push(new_line@));
                                assert(lines@[idx as int] == old_lines[idx as int]);
                                assert(state_of(reg, lines@, queue@) == accept(before, new_line@));
                            }
                        },
                        None => {},
                    }
                } else {
                    proof {
                        assert(neighbour_seed(*canvas, *params, line[j as int], j as int) is None);
                    }
                }
            } else {
                proof {
                    assert(neighbour_seed(*canvas, *params, line[j as int], j as int) is None);
                }
            }
            j = j + 1;
        }
        proof {
            reg.lemma_stored_ids_below_next();
            steps = steps + 1;
        }
    }
    proof {
        assert(finished(drain(*canvas, *params, start, steps)));
    }
    lines
}

/// Lays out evenly spaced streamlines over the field, seeded on a jittered
/// grid of cells of `seed_box_size` pixels, and returns them in the order
/// they were accepted.
pub fn render_flow_field_streamlines(
    canvas: &PixelPropertyCanvas,
    rng: &mut Xoshiro128StarStar,
    seed_box_size: u32,
    params: &StreamlineParams,
) -> (r: Vec<Vec<Point>>)
    requires
        canvas.wf(),
        params.wf(),
        seed_box_size > 0,
        ceil_div(canvas.extent_x(), registry_cell_size(params.d_sep_max)) * ceil_div(
            canvas.extent_y(),
            registry_cell_size(params.d_sep_max),
        ) <= usize::MAX,
    ensures
        accepted_lines(*canvas, r@, params.min_steps),
        exists|seeds: Seq<Point>|
            jittered_grid(
                seeds,
                canvas.extent_x() as u32,
                canvas.extent_y() as u32,
                (canvas.spec_width() / seed_box_size as int) as u32,
                (canvas.spec_height() / seed_box_size as int) as u32,
            ) && #[trigger] placed(*canvas, *params, seeds, views(r@)),
{
    let width = canvas.width();
    let height = canvas.height();
    let seeds = on_jittered_grid(
        width * UNITS_PER_PIXEL,
        height * UNITS_PER_PIXEL,
        width / seed_box_size,
        height / seed_box_size,
        rng,
    );
    place_streamlines(canvas, &seeds, params)
}

} // verus!
