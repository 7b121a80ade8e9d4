use vstd::prelude::*;

verus! {

/// A point on the canvas in fixed-point canvas units.
#[derive(Clone, Copy, Debug, PartialEq, Eq, Structural)]
pub struct Point {
    pub x: i32,
    pub y: i32,
}

/// One registered sample point together with the streamline it belongs to.
#[derive(Clone, Copy, Debug, PartialEq, Eq, Structural)]
pub struct StreamlineRegistryEntry {
    pub streamline_id: u32,
    pub point: Point,
}

/// A uniform grid of buckets over the canvas that answers separation queries
/// against every streamline point registered so far.
pub struct StreamlineRegistry {
    width: u32,
    height: u32,
    cell_size: u32,
    cells_x: u32,
    cells_y: u32,
    next_streamline_id: u32,
    cell_content: Vec<Vec<StreamlineRegistryEntry>>,
    /// Every entry ever registered, in insertion order.
    entries: Ghost<Seq<StreamlineRegistryEntry>>,
}

/// `ceil(a / b)` for a positive divisor.
pub open spec fn ceil_div(a: int, b: int) -> int {
    if a <= 0 {
        0
    } else {
        (a - 1) / b + 1
    }
}

/// Index of the grid column or row holding coordinate `v`; negative
/// coordinates fall into the first one.
pub open spec fn cell_coord(v: int, cell_size: int) -> int {
    if v < 0 {
        0
    } else {
        v / cell_size
    }
}

pub open spec fn sq(v: int) -> int {
    v * v
}

/// Squared Euclidean distance between two points.
pub open spec fn dist2(p: Point, q: Point) -> int {
    sq(p.x - q.x) + sq(p.y - q.y)
}

/// The separation an entry must keep from a candidate: the relaxed one for
/// the exempted streamline, the full one for every other.
pub open spec fn required_sep(e: StreamlineRegistryEntry, d_sep: u32, d_sep_relaxed: u32, relaxed_id: u32) -> int {
    if e.streamline_id == relaxed_id {
        d_sep_relaxed as int
    } else {
        d_sep as int
    }
}

/// Entry `e` lies closer to `p` than it is allowed to.
pub open spec fn too_close(p: Point, e: StreamlineRegistryEntry, d_sep: u32, d_sep_relaxed: u32, relaxed_id: u32) -> bool {
    dist2(p, e.point) < sq(required_sep(e, d_sep, d_sep_relaxed, relaxed_id))
}

/// The exhaustive answer: no entry at all is too close to `p`.
pub open spec fn brute_force_allowed(
    entries: Seq<StreamlineRegistryEntry>,
    p: Point,
    d_sep: u32,
    d_sep_relaxed: u32,
    relaxed_id: u32,
) -> bool {
    forall|k: int| 0 <= k < entries.len() ==> !too_close(p, #[trigger] entries[k], d_sep, d_sep_relaxed, relaxed_id)
}

/// Squared distance between two points, computed exactly.
fn dist2_exec(p: &Point, q: &Point) -> (r: i128)
    ensures
        r == dist2(*p, *q),
{
    let dx: i128 = (p.x as i128) - (q.x as i128);
    let dy: i128 = (p.y as i128) - (q.y as i128);
    assert(0 <= dx * dx <= 0x1_0000_0000_0000_0000 && 0 <= dy * dy <= 0x1_0000_0000_0000_0000) by (nonlinear_arith)
        requires
            -0x1_0000_0000 <= dx <= 0x1_0000_0000,
            -0x1_0000_0000 <= dy <= 0x1_0000_0000,
    ;
    dx * dx + dy * dy
}

proof fn lemma_index_unique(a: int, b: int, c: int, d: int, w: int)
    requires
        0 <= b < w,
        0 <= d < w,
        a >= 0,
        c >= 0,
        a * w + b == c * w + d,
    ensures
        a == c,
        b == d,
{
    if a < c {
        assert(a * w + b < c * w + d) by (nonlinear_arith)
            requires
                a < c,
                0 <= b < w,
                0 <= d,
        {
            assert(a * w + w <= c * w) by (nonlinear_arith)
                requires
                    a + 1 <= c,
                    w > 0,
            ;
        }
    } else if a > c {
        assert(c * w + d < a * w + b) by (nonlinear_arith)
            requires
                c < a,
                0 <= d < w,
                0 <= b,
        {
            assert(c * w + w <= a * w) by (nonlinear_arith)
                requires
                    c + 1 <= a,
                    w > 0,
            ;
        }
    }
}

/// A coordinate difference is no larger than the distance it is part of.
proof fn lemma_coord_within(a: int, rest: int, d: int)
    requires
        d >= 0,
        rest >= 0,
        sq(a) + rest < sq(d),
    ensures
        -d < a < d,
{
    if a >= d {
        assert(sq(a) >= sq(d)) by (nonlinear_arith)
            requires
                a >= d >= 0,
        ;
    }
    if a <= -d {
        assert(sq(a) >= sq(d)) by (nonlinear_arith)
            requires
                a <= -d,
                d >= 0,
        ;
    }
}

/// Two non-negative values less than `m + 1` apart lie at most
/// `m / c + 1` cells of side `c` apart.
proof fn lemma_div_diff(a: int, b: int, m: int, c: int)
    requires
        0 <= b <= a,
        a - b <= m,
        c > 0,
    ensures
        a / c - b / c <= m / c + 1,
{
    vstd::arithmetic::div_mod::lemma_fundamental_div_mod(a, c);
    vstd::arithmetic::div_mod::lemma_fundamental_div_mod(b, c);
    vstd::arithmetic::div_mod::lemma_fundamental_div_mod(m, c);
    let qa = a / c;
    let qb = b / c;
    let qm = m / c;
    assert(qa - qb <= qm + 1) by (nonlinear_arith)
        requires
            a == c * qa + a % c,
            b == c * qb + b % c,
            m == c * qm + m % c,
            0 <= a % c < c,
            0 <= b % c < c,
            0 <= m % c < c,
            a - b <= m,
            c > 0,
    ;
}

/// A stored coordinate `q` within distance `d` of a query coordinate `p`
/// lies within `ceil(d / c)` cells of the query's cell.
proof fn lemma_close_in_window(p: int, q: int, d: int, c: int)
    requires
        c > 0,
        q >= 0,
        -d < p - q < d,
    ensures
        -ceil_div(d, c) <= cell_coord(q, c) - cell_coord(p, c) <= ceil_div(d, c),
{
    assert(d >= 1);
    vstd::arithmetic::div_mod::lemma_div_pos_is_pos(q, c);
    if p < 0 {
        vstd::arithmetic::div_mod::lemma_div_is_ordered(q, d - 1, c);
    } else {
        vstd::arithmetic::div_mod::lemma_div_pos_is_pos(p, c);
        if p >= q {
            lemma_div_diff(p, q, d - 1, c);
            vstd::arithmetic::div_mod::lemma_div_is_ordered(q, p, c);
        } else {
            lemma_div_diff(q, p, d - 1, c);
            vstd::arithmetic::div_mod::lemma_div_is_ordered(p, q, c);
        }
    }
}

impl StreamlineRegistry {
    pub closed spec fn spec_width(&self) -> int {
        self.width as int
    }

    pub closed spec fn spec_height(&self) -> int {
        self.height as int
    }

    pub closed spec fn spec_cell_size(&self) -> int {
        self.cell_size as int
    }

    pub closed spec fn spec_cells_x(&self) -> int {
        self.cells_x as int
    }

    pub closed spec fn spec_cells_y(&self) -> int {
        self.cells_y as int
    }

    /// The identifier the next added streamline receives.
    pub closed spec fn next_id(&self) -> int {
        self.next_streamline_id as int
    }

    /// Every registered entry, in insertion order.
    pub closed spec fn entries(&self) -> Seq<StreamlineRegistryEntry> {
        self.entries@
    }

    pub open spec fn in_bounds(&self, p: Point) -> bool {
        0 <= p.x < self.spec_width() && 0 <= p.y < self.spec_height()
    }

    pub open spec fn cell_x(&self, p: Point) -> int {
        cell_coord(p.x as int, self.spec_cell_size())
    }

    pub open spec fn cell_y(&self, p: Point) -> int {
        cell_coord(p.y as int, self.spec_cell_size())
    }

    pub closed spec fn cell_index_of(&self, p: Point) -> int {
        self.cell_y(p) * self.cells_x + self.cell_x(p)
    }

    /// Grid radius, in cells, that a query at separation `d_sep` scans.
    pub open spec fn cell_radius(&self, d_sep: u32) -> int {
        ceil_div(d_sep as int, self.spec_cell_size())
    }

    /// Entry `e` lies in a cell that a query at `p` with separation `d_sep` scans.
    pub open spec fn scanned(&self, p: Point, d_sep: u32, e: StreamlineRegistryEntry) -> bool {
        let r = self.cell_radius(d_sep);
        -r <= self.cell_x(e.point) - self.cell_x(p) <= r && -r <= self.cell_y(e.point) - self.cell_y(p) <= r
    }

    /// The answer of the grid search: no entry in a scanned cell is too close to `p`.
    pub open spec fn grid_allowed(&self, p: Point, d_sep: u32, d_sep_relaxed: u32, relaxed_id: u32) -> bool {
        forall|k: int|
            0 <= k < self.entries().len() && self.scanned(p, d_sep, #[trigger] self.entries()[k])
                ==> !too_close(p, self.entries()[k], d_sep, d_sep_relaxed, relaxed_id)
    }

    pub closed spec fn wf(&self) -> bool {
        &&& self.cell_size > 0
        &&& self.cells_x == ceil_div(self.width as int, self.cell_size as int)
        &&& self.cells_y == ceil_div(self.height as int, self.cell_size as int)
        &&& self.cell_content@.len() == self.cells_x * self.cells_y
        &&& self.width <= i32::MAX
        &&& self.height <= i32::MAX
        &&& forall|i: int, j: int|
            0 <= i < self.cell_content@.len() && 0 <= j < self.cell_content@[i]@.len() ==> {
                let e = #[trigger] self.cell_content@[i]@[j];
                &&& self.entries@.contains(e)
                &&& self.cell_index_of(e.point) == i
            }
        &&& forall|k: int|
            0 <= k < self.entries@.len() ==> {
                let e = #[trigger] self.entries@[k];
                &&& self.in_bounds(e.point)
                &&& 1 <= e.streamline_id < self.next_streamline_id
                &&& self.cell_content@[self.cell_index_of(e.point)]@.contains(e)
            }
        &&& self.next_streamline_id >= 1
    }

    proof fn lemma_cell_in_grid(&self, p: Point)
        requires
            self.wf(),
            self.in_bounds(p),
        ensures
            0 <= self.cell_x(p) < self.cells_x,
            0 <= self.cell_y(p) < self.cells_y,
            0 <= self.cell_index_of(p) < self.cell_content@.len(),
    {
        let cs = self.cell_size as int;
        let cx = self.cell_x(p);
        let cy = self.cell_y(p);
        assert(0 <= cx <= (self.width - 1) / cs) by (nonlinear_arith)
            requires
                cx == (p.x as int) / cs,
                0 <= p.x < self.width,
                cs > 0,
        {
            vstd::arithmetic::div_mod::lemma_div_is_ordered(p.x as int, self.width - 1, cs);
        }
        assert(0 <= cy <= (self.height - 1) / cs) by {
            vstd::arithmetic::div_mod::lemma_div_is_ordered(p.y as int, self.height - 1, cs);
        }
        let w = self.cells_x as int;
        let h = self.cells_y as int;
        assert(0 <= cy * w + cx < w * h) by (nonlinear_arith)
            requires
                0 <= cx < w,
                0 <= cy < h,
        {
            assert(cy * w + cx < cy * w + w);
            assert(cy * w + w == (cy + 1) * w);
            assert((cy + 1) * w <= h * w);
        }
    }

    fn cell_index(&self, p: Point) -> (r: usize)
        requires
            self.wf(),
            self.in_bounds(p),
        ensures
            r == self.cell_index_of(p),
            r < self.cell_content@.len(),
    {
        proof {
            self.lemma_cell_in_grid(p);
        }
        let cx = (p.x as u32) / self.cell_size;
        let cy = (p.y as u32) / self.cell_size;
        assert(cx == self.cell_x(p) && cy == self.cell_y(p));
        let len = self.cell_content.len();
        assert(0 <= (cy as int) * (self.cells_x as int) <= (cy as int) * (self.cells_x as int) + cx < len as int)
            by (nonlinear_arith)
            requires
                (cy as int) * (self.cells_x as int) + cx == self.cell_index_of(p),
                self.cell_index_of(p) < len as int,
                cy >= 0,
                self.cells_x >= 0,
        ;
        (cy as usize) * (self.cells_x as usize) + (cx as usize)
    }

    /// Registers every point of `streamline` under a fresh identifier and
    /// returns that identifier.
    pub fn add_streamline(&mut self, streamline: &Vec<Point>) -> (id: u32)
        requires
            old(self).wf(),
            old(self).next_id() < u32::MAX,
            forall|i: int| 0 <= i < streamline@.len() ==> old(self).in_bounds(#[trigger] streamline@[i]),
        ensures
            old(self).added(*final(self), streamline@, id),
            forall|k: int| 0 <= k < old(self).entries().len() ==> (#[trigger] old(self).entries()[k]).streamline_id < id,
    {
        let streamline_id = self.next_streamline_id;
        self.next_streamline_id = self.next_streamline_id + 1;
        let ghost old_entries = self.entries@;
        let ghost mapped = streamline@.map_values(
            |p: Point| StreamlineRegistryEntry { streamline_id, point: p },
        );
        let mut i: usize = 0;
        while i < streamline.len()
            invariant
                self.wf(),
                0 <= i <= streamline@.len(),
                self.next_streamline_id == streamline_id + 1,
                old(self).next_id() == streamline_id,
                streamline_id >= 1,
                self.entries@ == old_entries + mapped.subrange(0, i as int),
                old_entries == old(self).entries(),
                mapped == streamline@.map_values(
                    |p: Point| StreamlineRegistryEntry { streamline_id, point: p },
                ),
                forall|j: int| 0 <= j < streamline@.len() ==> self.in_bounds(#[trigger] streamline@[j]),
                self.width == old(self).spec_width(),
                self.height == old(self).spec_height(),
                self.cell_size == old(self).spec_cell_size(),
                self.cells_x == old(self).spec_cells_x(),
                self.cells_y == old(self).spec_cells_y(),
            decreases streamline@.len() - i,
        {
            let p = streamline[i];
            let idx = self.cell_index(p);
            let e = StreamlineRegistryEntry { streamline_id, point: p };
            let ghost before = *self;
            self.cell_content[idx].push(e);
            proof {
                self.entries@ = self.entries@.push(e);
                assert(mapped.subrange(0, i + 1) == mapped.subrange(0, i as int).push(e));
                assert forall|a: int, b: int|
                    0 <= a < self.cell_content@.len() && 0 <= b < self.cell_content@[a]@.len() implies {
                        let f = #[trigger] self.cell_content@[a]@[b];
                        &&& self.entries@.contains(f)
                        &&& self.cell_index_of(f.point) == a
                    } by {
                    let f = self.cell_content@[a]@[b];
                    if a == idx && b == before.cell_content@[a]@.len() {
                        assert(self.entries@[self.entries@.len() - 1] == e);
                    } else {
                        assert(f == before.cell_content@[a]@[b]);
                        assert(before.entries@.contains(f));
                        let k = choose|k: int| 0 <= k < before.entries@.len() && before.entries@[k] == f;
                        assert(self.entries@[k] == f);
                    }
                }
                assert forall|k: int| 0 <= k < self.entries@.len() implies {
                    let f = #[trigger] self.entries@[k];
                    &&& self.in_bounds(f.point)
                    &&& 1 <= f.streamline_id < self.next_streamline_id
                    &&& self.cell_content@[self.cell_index_of(f.point)]@.contains(f)
                } by {
                    let f = self.entries@[k];
                    if k == self.entries@.len() - 1 {
                        assert(self.cell_content@[idx as int]@[before.cell_content@[idx as int]@.len() as int] == e);
                    } else {
                        assert(f == before.entries@[k]);
                        before.lemma_cell_in_grid(f.point);
                        let ci = self.cell_index_of(f.point);
                        let j = choose|j: int|
                            0 <= j < before.cell_content@[ci]@.len() && before.cell_content@[ci]@[j] == f;
                        assert(self.cell_content@[ci]@[j] == f);
                    }
                }
            }
            i = i + 1;
        }
        proof {
            assert(mapped.subrange(0, streamline@.len() as int) == mapped);
        }
        streamline_id
    }

    /// Whether `p` keeps at least `d_sep` from every registered point, and at
    /// least `d_sep_relaxed` from the points of streamline
    /// `relaxed_streamline_id`, searching the cells within `ceil(d_sep / cell_size)`
    /// of the cell of `p`.
    pub fn is_point_allowed(&self, p: &Point, d_sep: u32, d_sep_relaxed: u32, relaxed_streamline_id: u32) -> (r: bool)
        requires
            self.wf(),
        ensures
            r == self.grid_allowed(*p, d_sep, d_sep_relaxed, relaxed_streamline_id),
    {
        if self.cells_x == 0 || self.cells_y == 0 {
            proof {
                assert forall|k: int| 0 <= k < self.entries().len() implies !self.scanned(
                    *p,
                    d_sep,
                    #[trigger] self.entries()[k],
                ) by {
                    self.lemma_cell_in_grid(self.entries@[k].point);
                }
            }
            return true;
        }
        let cs: u64 = self.cell_size as u64;
        let radius: u64 = if d_sep == 0 { 0 } else { (d_sep as u64 - 1) / cs + 1 };
        let cx: u64 = if p.x < 0 { 0 } else { (p.x as u64) / cs };
        let cy: u64 = if p.y < 0 { 0 } else { (p.y as u64) / cs };
        assert(radius == self.cell_radius(d_sep));
        assert(cx == self.cell_x(*p) && cy == self.cell_y(*p));
        let x_min: u64 = if cx >= radius { cx - radius } else { 0 };
        let x_max: u64 = if cx + radius < self.cells_x as u64 { cx + radius } else { self.cells_x as u64 - 1 };
        let y_min: u64 = if cy >= radius { cy - radius } else { 0 };
        let y_max: u64 = if cy + radius < self.cells_y as u64 { cy + radius } else { self.cells_y as u64 - 1 };
        let ghost q = *p;
        let ghost ents = self.entries@;
        if x_min > x_max || y_min > y_max {
            proof {
                assert forall|k: int| 0 <= k < ents.len() implies !self.scanned(q, d_sep, #[trigger] ents[k]) by {
                    self.lemma_cell_in_grid(ents[k].point);
                }
            }
            return true;
        }
        let mut iy: u64 = y_min;
        while iy <= y_max
            invariant
                self.wf(),
                ents == self.entries@,
                q == *p,
                radius == self.cell_radius(d_sep),
                cx == self.cell_x(q),
                cy == self.cell_y(q),
                x_min == (if cx >= radius { cx - radius } else { 0 }),
                y_min == (if cy >= radius { cy - radius } else { 0 }),
                x_min <= x_max,
                x_max <= cx + radius,
                x_max == (if cx + radius < self.cells_x as u64 { cx + radius } else { self.cells_x as u64 - 1 }),
                y_max == (if cy + radius < self.cells_y as u64 { cy + radius } else { self.cells_y as u64 - 1 }),
                y_max <= cy + radius,
                y_min <= iy <= y_max + 1,
                y_max < self.cells_y,
                x_max < self.cells_x,
                x_min <= self.cells_x,
                cs == self.cell_size,
                forall|k: int|
                    0 <= k < ents.len() && self.scanned(q, d_sep, #[trigger] ents[k]) && self.cell_y(ents[k].point) < iy
                        ==> !too_close(q, ents[k], d_sep, d_sep_relaxed, relaxed_streamline_id),
            decreases y_max + 1 - iy,
        {
            proof {
                assert forall|k: int|
                    0 <= k < ents.len() && self.scanned(q, d_sep, #[trigger] ents[k]) && self.cell_y(ents[k].point) == iy
                        implies self.cell_x(ents[k].point) >= x_min by {
                    self.lemma_cell_in_grid(ents[k].point);
                }
            }
            let mut ix: u64 = x_min;
            while ix <= x_max
                invariant
                    self.wf(),
                    ents == self.entries@,
                    q == *p,
                    y_min <= iy <= y_max,
                    radius == self.cell_radius(d_sep),
                    cx == self.cell_x(q),
                    cy == self.cell_y(q),
                    x_min == (if cx >= radius { cx - radius } else { 0 }),
                    y_min == (if cy >= radius { cy - radius } else { 0 }),
                    x_min <= x_max,
                    x_max <= cx + radius,
                    x_max == (if cx + radius < self.cells_x as u64 { cx + radius } else { self.cells_x as u64 - 1 }),
                    y_max == (if cy + radius < self.cells_y as u64 { cy + radius } else { self.cells_y as u64 - 1 }),
                    y_max <= cy + radius,
                x_max <= cx + radius,
                x_max == (if cx + radius < self.cells_x as u64 { cx + radius } else { self.cells_x as u64 - 1 }),
                y_max == (if cy + radius < self.cells_y as u64 { cy + radius } else { self.cells_y as u64 - 1 }),
                y_max <= cy + radius,
                    x_min <= ix <= x_max + 1,
                    y_max < self.cells_y,
                    x_max < self.cells_x,
                    cs == self.cell_size,
                    forall|k: int|
                        0 <= k < ents.len() && self.scanned(q, d_sep, #[trigger] ents[k]) && (self.cell_y(ents[k].point) < iy
                            || (self.cell_y(ents[k].point) == iy && self.cell_x(ents[k].point) < ix))
                            ==> !too_close(q, ents[k], d_sep, d_sep_relaxed, relaxed_streamline_id),
                decreases x_max + 1 - ix,
            {
                let ghost gidx = (iy as int) * (self.cells_x as int) + (ix as int);
                assert(0 <= gidx < self.cell_content@.len()) by (nonlinear_arith)
                    requires
                        gidx == (iy as int) * (self.cells_x as int) + (ix as int),
                        radius == self.cell_radius(d_sep),
                        cx == self.cell_x(q),
                        cy == self.cell_y(q),
                        x_min == (if cx >= radius { cx - radius } else { 0 }),
                        y_min == (if cy >= radius { cy - radius } else { 0 }),
                        x_max <= cx + radius,
                        x_max == (if cx + radius < self.cells_x as u64 { cx + radius } else { self.cells_x as u64 - 1 }),
                        y_max == (if cy + radius < self.cells_y as u64 { cy + radius } else { self.cells_y as u64 - 1 }),
                        y_max <= cy + radius,
                        y_min <= iy <= y_max,
                        x_min <= ix <= x_max,
                        y_max < self.cells_y,
                        x_max < self.cells_x,
                        cs == self.cell_size,
                        forall|k: int|
                            0 <= k < ents.len() && self.scanned(q, d_sep, #[trigger] ents[k]) && (self.cell_y(ents[k].point) < iy
                                || (self.cell_y(ents[k].point) == iy && self.cell_x(ents[k].point) < ix))
                                ==> !too_close(q, ents[k], d_sep, d_sep_relaxed, relaxed_streamline_id),
                        0 <= ix < self.cells_x,
                        0 <= iy < self.cells_y,
                        self.cell_content@.len() == self.cells_x * self.cells_y,
                {
                    assert((iy as int) * (self.cells_x as int) + (self.cells_x as int) == (iy as int + 1) * (self.cells_x as int));
                    assert((iy as int + 1) * (self.cells_x as int) <= (self.cells_y as int) * (self.cells_x as int));
                }
                let n = self.cell_content.len();
                let idx: usize = ((iy as usize) * (self.cells_x as usize) + (ix as usize)) as usize;
                let cell_len = self.cell_content[idx].len();
                let ghost cell = self.cell_content@[idx as int];
                let mut j: usize = 0;
                while j < cell_len
                    invariant
                        self.wf(),
                        q == *p,
                        ents == self.entries@,
                        cell == self.cell_content@[idx as int],
                        cell_len == cell@.len(),
                        iy < self.cells_y,
                        ix < self.cells_x,
                        gidx == (iy as int) * (self.cells_x as int) + (ix as int),
                        radius == self.cell_radius(d_sep),
                        cx == self.cell_x(q),
                        cy == self.cell_y(q),
                        x_min == (if cx >= radius { cx - radius } else { 0 }),
                        y_min == (if cy >= radius { cy - radius } else { 0 }),
                        x_max <= cx + radius,
                        x_max == (if cx + radius < self.cells_x as u64 { cx + radius } else { self.cells_x as u64 - 1 }),
                        y_max == (if cy + radius < self.cells_y as u64 { cy + radius } else { self.cells_y as u64 - 1 }),
                        y_max <= cy + radius,
                        y_min <= iy <= y_max,
                        x_min <= ix <= x_max,
                        y_max < self.cells_y,
                        x_max < self.cells_x,
                        cs == self.cell_size,
                        forall|k: int|
                            0 <= k < ents.len() && self.scanned(q, d_sep, #[trigger] ents[k]) && (self.cell_y(ents[k].point) < iy
                                || (self.cell_y(ents[k].point) == iy && self.cell_x(ents[k].point) < ix))
                                ==> !too_close(q, ents[k], d_sep, d_sep_relaxed, relaxed_streamline_id),
                        idx == gidx,
                        0 <= gidx < self.cell_content@.len(),
                        0 <= j <= cell@.len(),
                        forall|jj: int| 0 <= jj < j ==> !too_close(q, #[trigger] cell@[jj], d_sep, d_sep_relaxed, relaxed_streamline_id),
                    decreases cell_len - j,
                {
                    let e = self.cell_content[idx][j];
                    let min_dist: u32 = if e.streamline_id == relaxed_streamline_id { d_sep_relaxed } else { d_sep };
                    assert(0 <= (min_dist as int) * (min_dist as int) <= 0xffff_ffff * 0xffff_ffff) by (nonlinear_arith)
                        requires
                            0 <= min_dist <= 0xffff_ffff,
                    ;
                    if dist2_exec(p, &e.point) < (min_dist as i128) * (min_dist as i128) {
                        proof {
                            assert(self.cell_content@[idx as int]@[j as int] == e);
                            assert(ents.contains(e));
                            let k = choose|k: int| 0 <= k < ents.len() && ents[k] == e;
                            assert(ents[k] == e);
                            self.lemma_cell_in_grid(e.point);
                            lemma_index_unique(self.cell_y(e.point), self.cell_x(e.point), iy as int, ix as int, self.cells_x as int);
                            assert(self.scanned(q, d_sep, ents[k]));
                            assert(too_close(q, ents[k], d_sep, d_sep_relaxed, relaxed_streamline_id));
                            assert(self.entries()[k] == e);
                            assert(!self.grid_allowed(*p, d_sep, d_sep_relaxed, relaxed_streamline_id));
                        }
                        return false;
                    }
                    j = j + 1;
                }
                proof {
                    assert forall|k: int|
                        0 <= k < ents.len() && self.scanned(q, d_sep, #[trigger] ents[k]) && self.cell_y(ents[k].point) == iy
                            && self.cell_x(ents[k].point) == ix
                            implies !too_close(q, ents[k], d_sep, d_sep_relaxed, relaxed_streamline_id) by {
                        let e = ents[k];
                        self.lemma_cell_in_grid(e.point);
                        assert(self.cell_index_of(e.point) == gidx);
                        assert(self.cell_content@[gidx]@.contains(e));
                        let jj = choose|jj: int| 0 <= jj < cell@.len() && cell@[jj] == e;
                        assert(cell@[jj] == e);
                        assert(jj < j);
                        assert(!too_close(q, cell@[jj], d_sep, d_sep_relaxed, relaxed_streamline_id));
                    }
                }
                ix = ix + 1;
            }
            proof {
                assert forall|k: int|
                    0 <= k < ents.len() && self.scanned(q, d_sep, #[trigger] ents[k]) && self.cell_y(ents[k].point) == iy
                        implies !too_close(q, ents[k], d_sep, d_sep_relaxed, relaxed_streamline_id) by {
                    self.lemma_cell_in_grid(ents[k].point);
                }
            }
            iy = iy + 1;
        }
        proof {
            assert forall|k: int|
                0 <= k < ents.len() && self.scanned(q, d_sep, #[trigger] ents[k])
                    implies !too_close(q, ents[k], d_sep, d_sep_relaxed, relaxed_streamline_id) by {
                self.lemma_cell_in_grid(ents[k].point);
            }
        }
        true
    }

    /// The grid search gives the same answer as comparing the candidate with
    /// every registered point, for any query whose relaxed separation is no
    /// larger than its full separation.
    pub proof fn lemma_grid_agrees_with_brute_force(
        &self,
        p: Point,
        d_sep: u32,
        d_sep_relaxed: u32,
        relaxed_id: u32,
    )
        requires
            self.wf(),
            d_sep_relaxed <= d_sep,
        ensures
            self.grid_allowed(p, d_sep, d_sep_relaxed, relaxed_id) == brute_force_allowed(
                self.entries(),
                p,
                d_sep,
                d_sep_relaxed,
                relaxed_id,
            ),
    {
        let ents = self.entries();
        if self.grid_allowed(p, d_sep, d_sep_relaxed, relaxed_id) {
            assert forall|k: int| 0 <= k < ents.len() implies !too_close(
                p,
                #[trigger] ents[k],
                d_sep,
                d_sep_relaxed,
                relaxed_id,
            ) by {
                let e = ents[k];
                if too_close(p, e, d_sep, d_sep_relaxed, relaxed_id) {
                    let req = required_sep(e, d_sep, d_sep_relaxed, relaxed_id);
                    assert(sq(req) <= sq(d_sep as int)) by (nonlinear_arith)
                        requires
                            0 <= req <= d_sep,
                    ;
                    let dx = p.x - e.point.x;
                    let dy = p.y - e.point.y;
                    assert(sq(dx) >= 0 && sq(dy) >= 0) by (nonlinear_arith);
                    lemma_coord_within(dx, sq(dy), d_sep as int);
                    lemma_coord_within(dy, sq(dx), d_sep as int);
                    lemma_close_in_window(p.x as int, e.point.x as int, d_sep as int, self.spec_cell_size());
                    lemma_close_in_window(p.y as int, e.point.y as int, d_sep as int, self.spec_cell_size());
                    assert(self.scanned(p, d_sep, ents[k]));
                }
            }
        }
    }

    /// `after` is this registry once `points` were added under identifier `id`:
    /// the identifier is the next one, and the points are appended in order.
    pub open spec fn added(&self, after: StreamlineRegistry, points: Seq<Point>, id: u32) -> bool {
        &&& after.wf()
        &&& id == self.next_id()
        &&& after.next_id() == id + 1
        &&& after.entries() == self.entries() + points.map_values(
            |p: Point| StreamlineRegistryEntry { streamline_id: id, point: p },
        )
        &&& after.spec_width() == self.spec_width()
        &&& after.spec_height() == self.spec_height()
        &&& after.spec_cell_size() == self.spec_cell_size()
        &&& after.spec_cells_x() == self.spec_cells_x()
        &&& after.spec_cells_y() == self.spec_cells_y()
    }

    /// Every registered point carries an identifier below the next one, and
    /// the next one is a valid identifier.
    pub proof fn lemma_stored_ids_below_next(&self)
        requires
            self.wf(),
        ensures
            1 <= self.next_id() <= u32::MAX,
            forall|k: int| 0 <= k < self.entries().len() ==> 1 <= (#[trigger] self.entries()[k]).streamline_id < self.next_id(),
    {
    }

    /// Over two successive additions the identifiers strictly increase, and
    /// neither is one that a point registered before it already carries.
    pub proof fn lemma_identifiers_strictly_increase(
        r0: StreamlineRegistry,
        r1: StreamlineRegistry,
        r2: StreamlineRegistry,
        s1: Seq<Point>,
        s2: Seq<Point>,
        id1: u32,
        id2: u32,
    )
        requires
            r0.wf(),
            r0.added(r1, s1, id1),
            r1.added(r2, s2, id2),
        ensures
            id1 < id2,
            forall|k: int| 0 <= k < r0.entries().len() ==> (#[trigger] r0.entries()[k]).streamline_id != id1,
            forall|k: int| 0 <= k < r1.entries().len() ==> (#[trigger] r1.entries()[k]).streamline_id != id2,
    {
        r0.lemma_stored_ids_below_next();
        r1.lemma_stored_ids_below_next();
    }

    /// The identifier the next added streamline receives.
    pub fn next_streamline_id(&self) -> (r: u32)
        ensures
            r == self.next_id(),
    {
        self.next_streamline_id
    }

    /// An empty registry over a `width` x `height` canvas, with square cells
    /// of side `cell_size` (all in canvas units).
    pub fn new(width: u32, height: u32, cell_size: u32) -> (r: StreamlineRegistry)
        requires
            cell_size > 0,
            width <= i32::MAX,
            height <= i32::MAX,
            ceil_div(width as int, cell_size as int) * ceil_div(height as int, cell_size as int) <= usize::MAX,
        ensures
            r.wf(),
            r.spec_width() == width,
            r.spec_height() == height,
            r.spec_cell_size() == cell_size,
            r.spec_cells_x() == ceil_div(width as int, cell_size as int),
            r.spec_cells_y() == ceil_div(height as int, cell_size as int),
            r.next_id() == 1,
            r.entries() == Seq::<StreamlineRegistryEntry>::empty(),
    {
        let cells_x: u32 = if width == 0 { 0 } else { (width - 1) / cell_size + 1 };
        let cells_y: u32 = if height == 0 { 0 } else { (height - 1) / cell_size + 1 };
        let n: usize = (cells_x as usize) * (cells_y as usize);
        let mut cell_content: Vec<Vec<StreamlineRegistryEntry>> = Vec::new();
        let mut i: usize = 0;
        while i < n
            invariant
                i <= n,
                cell_content@.len() == i,
                forall|c: int| 0 <= c < i ==> (#[trigger] cell_content@[c])@.len() == 0,
            decreases n - i,
        {
            cell_content.push(Vec::new());
            i = i + 1;
        }
        StreamlineRegistry {
            width,
            height,
            cell_size,
            cells_x,
            cells_y,
            next_streamline_id: 1,
            cell_content,
            entries: Ghost(Seq::empty()),
        }
    }
}

} // verus!
