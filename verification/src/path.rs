//! Drag rasterization: a single-frame pointer drag, given as a begin and an
//! end position in integer world coordinates, is sampled into a dense run
//! of intermediate points so that a fast drag writes every cell it crosses.
//!
//! The samples are the linear interpolation `p(t) = begin + (end - begin) * t`
//! for `t = i / steps`, `i = 1, ..., steps - 1`: the begin point and the
//! `t = 1` end point are both excluded. Each coordinate is rounded toward
//! zero. A sample is mapped into a chunk by its signed offset from the
//! chunk's origin, and samples whose offset is negative or beyond the
//! chunk's size are rejected rather than folded back into range.

use vstd::arithmetic::div_mod::lemma_div_is_ordered;
use vstd::arithmetic::div_mod::lemma_div_multiples_vanish;
use vstd::arithmetic::div_mod::lemma_div_plus_one;
use vstd::arithmetic::div_mod::lemma_div_pos_is_pos;
use vstd::prelude::*;

use crate::TerrainError;
use crate::grid::MapData;
use crate::grid::MapDataValue;

verus! {

/// Largest magnitude a world coordinate handed to the rasterizer may have.
pub const COORD_BOUND: i64 = 0x4000_0000;

/// Largest sampling step count.
pub const MAX_STEPS: u32 = 0x10000;

/// Integer division rounding toward zero.
pub open spec fn div_trunc(a: int, n: int) -> int {
    if a >= 0 {
        a / n
    } else {
        -((-a) / n)
    }
}

/// One coordinate of the interpolation `b + (e - b) * (i / n)`, rounded
/// toward zero.
pub open spec fn lerp_coord(b: int, e: int, i: int, n: int) -> int {
    b + div_trunc((e - b) * i, n)
}

/// A world coordinate the rasterizer accepts.
pub open spec fn coord_in_range(c: int) -> bool {
    -COORD_BOUND <= c <= COORD_BOUND
}

/// A world point the rasterizer accepts.
pub open spec fn point_in_range(p: (i64, i64)) -> bool {
    coord_in_range(p.0 as int) && coord_in_range(p.1 as int)
}

/// Division rounding toward zero, executable.
pub(crate) fn div_trunc_i64(a: i64, n: i64) -> (r: i64)
    requires
        1 <= n,
        -i64::MAX <= a,
    ensures
        r == div_trunc(a as int, n as int),
{
    if a >= 0 {
        ((a as u64) / (n as u64)) as i64
    } else {
        let m: i64 = -a;
        let q: u64 = (m as u64) / (n as u64);
        proof {
            lemma_div_is_ordered(0, m as int, n as int);
            lemma_div_is_ordered(m as int, i64::MAX as int, n as int);
            lemma_div_multiples_vanish(i64::MAX as int, n as int);
            assert(i64::MAX * n >= i64::MAX) by (nonlinear_arith)
                requires n >= 1;
            lemma_div_is_ordered(i64::MAX as int, i64::MAX * n, n as int);
        }
        -(q as i64)
    }
}

/// A quotient rounded toward zero is no larger in magnitude than the
/// quotient of any multiple-of-`n` bound on the dividend.
pub(crate) proof fn lemma_div_trunc_bound(a: int, n: int, m: int)
    requires
        n >= 1,
        m >= 0,
        -(m * n) <= a <= m * n,
    ensures
        -m <= div_trunc(a, n) <= m,
{
    assert(m * n == n * m) by (nonlinear_arith);
    if a >= 0 {
        lemma_div_pos_is_pos(a, n);
        lemma_div_is_ordered(a, m * n, n);
        lemma_div_multiples_vanish(m, n);
    } else {
        lemma_div_pos_is_pos(-a, n);
        lemma_div_is_ordered(-a, m * n, n);
        lemma_div_multiples_vanish(m, n);
    }
}

/// `div_trunc((e - b) * i, n)` for step `i` of `n`, with the proof that the
/// result never overshoots the segment.
fn lerp_offset(d: i64, i: u32, n: u32) -> (r: i64)
    requires
        -0x1_0000_0000 <= d <= 0x1_0000_0000,
        1 <= n <= MAX_STEPS,
        i <= n,
    ensures
        r == div_trunc(d * i, n as int),
        d >= 0 ==> 0 <= r <= d,
        d < 0 ==> d <= r <= 0,
{
    proof {
        assert(-0x1_0000_0000_0000 <= d * i <= 0x1_0000_0000_0000) by (nonlinear_arith)
            requires -0x1_0000_0000 <= d <= 0x1_0000_0000 && 0 <= i <= 0x10000;
    }
    let num: i64 = d * (i as i64);
    let r = div_trunc_i64(num, n as i64);
    proof {
        if d >= 0 {
            assert(d * i >= 0) by (nonlinear_arith)
                requires d >= 0 && i >= 0;
            lemma_div_pos_is_pos(d * i, n as int);
            assert(d * i <= d * n) by (nonlinear_arith)
                requires d >= 0 && i <= n;
            lemma_div_is_ordered(d * i, d * n, n as int);
            lemma_div_multiples_vanish(d as int, n as int);
        } else {
            assert(d * i <= 0 && -(d * i) == (-d) * i) by (nonlinear_arith)
                requires d < 0 && i >= 0;
            lemma_div_pos_is_pos(-(d * i), n as int);
            assert((-d) * i <= (-d) * n) by (nonlinear_arith)
                requires d < 0 && i <= n;
            lemma_div_is_ordered((-d) * i, (-d) * n, n as int);
            lemma_div_multiples_vanish(-d as int, n as int);
        }
    }
    r
}

/// Samples along a drag never move backwards: for a drag whose end
/// coordinate is at least its begin coordinate, each step's sample
/// coordinate is at least the previous step's; and when the drag spans at
/// least one unit per step, each step advances strictly. With truncation,
/// a drag shorter than its step count can repeat a coordinate, so strict
/// advance holds only in this large-span regime.
pub proof fn lemma_samples_monotone(b: int, e: int, i: int, n: int)
    requires
        1 <= n,
        1 <= i,
        b <= e,
    ensures
        lerp_coord(b, e, i, n) <= lerp_coord(b, e, i + 1, n),
        e - b >= n ==> lerp_coord(b, e, i, n) < lerp_coord(b, e, i + 1, n),
{
    let d = e - b;
    assert(0 <= d * i <= d * (i + 1)) by (nonlinear_arith)
        requires d >= 0 && 1 <= i;
    lemma_div_is_ordered(d * i, d * (i + 1), n);
    if d >= n {
        assert(d * (i + 1) >= d * i + n) by (nonlinear_arith)
            requires d >= n;
        lemma_div_plus_one(d * i, n);
        lemma_div_is_ordered(d * i + n, d * (i + 1), n);
        assert(n + d * i == d * i + n);
    }
}

/// Samples along a drag never skip a cell: when the step count is at
/// least the drag's span on a coordinate, consecutive samples differ by at
/// most one on that coordinate, so together with the monotone advance the
/// samples cross every line of cells between the endpoints.
pub proof fn lemma_samples_no_skip(b: int, e: int, i: int, n: int)
    requires
        1 <= n,
        0 <= i,
        -n <= e - b <= n,
    ensures
        b <= e ==> lerp_coord(b, e, i, n) <= lerp_coord(b, e, i + 1, n) <= lerp_coord(b, e, i, n)
            + 1,
        e <= b ==> lerp_coord(b, e, i, n) - 1 <= lerp_coord(b, e, i + 1, n) <= lerp_coord(
            b,
            e,
            i,
            n,
        ),
{
    let d = if e >= b { e - b } else { b - e };
    assert(0 <= d * i && d * (i + 1) == d * i + d && d * i + d <= d * i + n) by (nonlinear_arith)
        requires 0 <= d <= n && 0 <= i;
    lemma_div_is_ordered(d * i, d * (i + 1), n);
    lemma_div_plus_one(d * i, n);
    lemma_div_is_ordered(d * (i + 1), d * i + n, n);
    assert(n + d * i == d * i + n);
    if e >= b {
        assert((e - b) * i == d * i && (e - b) * (i + 1) == d * (i + 1)) by (nonlinear_arith)
            requires d == e - b;
    } else {
        assert(-((e - b) * i) == d * i && -((e - b) * (i + 1)) == d * (i + 1)
            && (e - b) * i <= 0 && (e - b) * (i + 1) <= 0) by (nonlinear_arith)
            requires d == b - e && 0 <= i && e <= b;
    }
}

/// Samples the open segment between a begin and an end point: a finite,
/// non-restartable run of `steps - 1` evenly spaced intermediate points.
pub struct PathRasterizer {
    begin: (i64, i64),
    end: (i64, i64),
    steps: u32,
    index: u32,
}

impl PathRasterizer {
    pub closed spec fn spec_begin(&self) -> (i64, i64) {
        self.begin
    }

    pub closed spec fn spec_end(&self) -> (i64, i64) {
        self.end
    }

    pub closed spec fn spec_steps(&self) -> int {
        self.steps as int
    }

    /// The step the next `next` call will sample.
    pub closed spec fn spec_index(&self) -> int {
        self.index as int
    }

    pub closed spec fn wf(&self) -> bool {
        &&& point_in_range(self.begin)
        &&& point_in_range(self.end)
        &&& 1 <= self.steps <= MAX_STEPS
        &&& 1 <= self.index <= self.steps
    }

    /// The `i`-th sample's x coordinate.
    pub open spec fn sample_x(&self, i: int) -> int {
        lerp_coord(self.spec_begin().0 as int, self.spec_end().0 as int, i, self.spec_steps())
    }

    /// The `i`-th sample's y coordinate.
    pub open spec fn sample_y(&self, i: int) -> int {
        lerp_coord(self.spec_begin().1 as int, self.spec_end().1 as int, i, self.spec_steps())
    }

    pub fn new(begin: (i64, i64), end: (i64, i64), steps: u32) -> (r: PathRasterizer)
        requires
            point_in_range(begin),
            point_in_range(end),
            1 <= steps <= MAX_STEPS,
        ensures
            r.wf(),
            r.spec_begin() == begin,
            r.spec_end() == end,
            r.spec_steps() == steps,
            r.spec_index() == 1,
    {
        PathRasterizer { begin, end, steps, index: 1 }
    }

    /// The sample at step `i`, independent of how far the run has advanced.
    /// Each coordinate stays between the begin and the end coordinate.
    pub fn point_at(&self, i: u32) -> (r: (i64, i64))
        requires
            self.wf(),
            1 <= i < self.spec_steps(),
        ensures
            r.0 == self.sample_x(i as int),
            r.1 == self.sample_y(i as int),
            -2 * COORD_BOUND <= r.0 <= 2 * COORD_BOUND,
            -2 * COORD_BOUND <= r.1 <= 2 * COORD_BOUND,
    {
        let dx: i64 = self.end.0 - self.begin.0;
        let dy: i64 = self.end.1 - self.begin.1;
        let ox = lerp_offset(dx, i, self.steps);
        let oy = lerp_offset(dy, i, self.steps);
        (self.begin.0 + ox, self.begin.1 + oy)
    }

    /// Hands out the next sample, or `None` when the run is exhausted. The
    /// run yields the samples for `i = 1, ..., steps - 1` in order, once.
    pub fn next(&mut self) -> (r: Option<(i64, i64)>)
        requires
            old(self).wf(),
        ensures
            final(self).wf(),
            final(self).spec_begin() == old(self).spec_begin(),
            final(self).spec_end() == old(self).spec_end(),
            final(self).spec_steps() == old(self).spec_steps(),
            old(self).spec_index() < old(self).spec_steps() ==> {
                &&& final(self).spec_index() == old(self).spec_index() + 1
                &&& r matches Some(p) && p.0 == old(self).sample_x(old(self).spec_index())
                    && p.1 == old(self).sample_y(old(self).spec_index())
            },
            old(self).spec_index() == old(self).spec_steps() ==> r is None && *final(self) == *old(
                self,
            ),
    {
        if self.index >= self.steps {
            return None;
        }
        let p = self.point_at(self.index);
        self.index = self.index + 1;
        Some(p)
    }

    /// All `steps - 1` intermediate samples, in order.
    pub fn points(&self) -> (r: Vec<(i64, i64)>)
        requires
            self.wf(),
        ensures
            r@.len() == self.spec_steps() - 1,
            forall|k: int|
                0 <= k < r@.len() ==> r@[k].0 == self.sample_x(k + 1) && r@[k].1 == self.sample_y(
                    k + 1,
                ),
    {
        let mut out: Vec<(i64, i64)> = Vec::new();
        let mut i: u32 = 1;
        while i < self.steps
            invariant
                self.wf(),
                1 <= i <= self.steps,
                out@.len() == i - 1,
                forall|k: int|
                    0 <= k < out@.len() ==> out@[k].0 == self.sample_x(k + 1) && out@[k].1
                        == self.sample_y(k + 1),
            decreases self.steps - i,
        {
            let p = self.point_at(i);
            out.push(p);
            i = i + 1;
        }
        out
    }
}

/// Maps a world point into the chunk whose origin is `origin`: the signed
/// offset `(p - origin)` when it lies inside a `width x height` grid,
/// `None` when either offset is negative or too large.
pub fn to_cell(p: (i64, i64), origin: (i64, i64), width: usize, height: usize) -> (r: Option<
    (usize, usize),
>)
    requires
        -0x2000_0000_0000_0000 <= p.0 <= 0x2000_0000_0000_0000,
        -0x2000_0000_0000_0000 <= p.1 <= 0x2000_0000_0000_0000,
        -0x2000_0000_0000_0000 <= origin.0 <= 0x2000_0000_0000_0000,
        -0x2000_0000_0000_0000 <= origin.1 <= 0x2000_0000_0000_0000,
    ensures
        (0 <= p.0 - origin.0 < width && 0 <= p.1 - origin.1 < height) <==> r is Some,
        r is Some ==> r == Some::<(usize, usize)>(
            ((p.0 - origin.0) as usize, (p.1 - origin.1) as usize),
        ),
{
    let dx: i64 = p.0 - origin.0;
    let dy: i64 = p.1 - origin.1;
    if dx < 0 || dy < 0 {
        return None;
    }
    if (dx as u64) < (width as u64) && (dy as u64) < (height as u64) {
        Some((dx as usize, dy as usize))
    } else {
        None
    }
}

/// Some step `i` with `1 <= i < upto` of the drag over `(begin, end,
/// steps)` lands on cell `(x, y)` of the chunk anchored at `origin`.
pub open spec fn drag_hits_upto(
    origin: (i64, i64),
    begin: (i64, i64),
    end: (i64, i64),
    steps: int,
    upto: int,
    x: int,
    y: int,
) -> bool {
    exists|i: int|
        1 <= i < upto && lerp_coord(begin.0 as int, end.0 as int, i, steps) - origin.0 == x
            && lerp_coord(begin.1 as int, end.1 as int, i, steps) - origin.1 == y
}

/// Some step of the drag over `(begin, end, steps)` lands on cell `(x, y)`
/// of the chunk anchored at `origin`.
pub open spec fn drag_hits(
    origin: (i64, i64),
    begin: (i64, i64),
    end: (i64, i64),
    steps: int,
    x: int,
    y: int,
) -> bool {
    drag_hits_upto(origin, begin, end, steps, steps, x, y)
}

/// Rasterizes one drag into `grid`, the chunk anchored at `origin`: every
/// in-bounds cell that some intermediate sample lands on is overwritten
/// with `value` (Sand to paint, Empty to erase), every other cell keeps its
/// value. Samples that fall outside the chunk are dropped.
pub fn apply_drag(
    grid: &mut MapData,
    origin: (i64, i64),
    begin: (i64, i64),
    end: (i64, i64),
    steps: u32,
    value: MapDataValue,
)
    requires
        old(grid).wf(),
        point_in_range(begin),
        point_in_range(end),
        point_in_range(origin),
        1 <= steps <= MAX_STEPS,
    ensures
        final(grid).wf(),
        final(grid).spec_width() == old(grid).spec_width(),
        final(grid).spec_height() == old(grid).spec_height(),
        forall|x: int, y: int|
            old(grid).in_bounds(x, y) && drag_hits(origin, begin, end, steps as int, x, y)
                ==> final(grid).cell(x, y) == value,
        forall|x: int, y: int|
            old(grid).in_bounds(x, y) && !drag_hits(origin, begin, end, steps as int, x, y)
                ==> final(grid).cell(x, y) == old(grid).cell(x, y),
{
    let rast = PathRasterizer::new(begin, end, steps);
    let (width, height) = grid.dimensions();
    let mut i: u32 = 1;
    while i < steps
        invariant
            grid.wf(),
            rast.wf(),
            point_in_range(origin),
            1 <= steps <= MAX_STEPS,
            rast.spec_begin() == begin,
            rast.spec_end() == end,
            rast.spec_steps() == steps,
            1 <= i <= steps,
            width == grid.spec_width(),
            height == grid.spec_height(),
            grid.spec_width() == old(grid).spec_width(),
            grid.spec_height() == old(grid).spec_height(),
            forall|x: int, y: int|
                old(grid).in_bounds(x, y) && drag_hits_upto(
                    origin,
                    begin,
                    end,
                    steps as int,
                    i as int,
                    x,
                    y,
                ) ==> grid.cell(x, y) == value,
            forall|x: int, y: int|
                old(grid).in_bounds(x, y) && !drag_hits_upto(
                    origin,
                    begin,
                    end,
                    steps as int,
                    i as int,
                    x,
                    y,
                ) ==> grid.cell(x, y) == old(grid).cell(x, y),
        decreases steps - i,
    {
        let p = rast.point_at(i);
        proof {
            assert(p.0 == lerp_coord(begin.0 as int, end.0 as int, i as int, steps as int));
            assert(p.1 == lerp_coord(begin.1 as int, end.1 as int, i as int, steps as int));
        }
        let ghost pre = *grid;
        match to_cell(p, origin, width, height) {
            Some((cx, cy)) => {
                let res = grid.set(cx, cy, value);
                proof {
                    assert(pre.in_bounds(cx as int, cy as int));
                    assert(res == Ok::<(), TerrainError>(()));
                    assert forall|x: int, y: int|
                        old(grid).in_bounds(x, y) && drag_hits_upto(
                            origin,
                            begin,
                            end,
                            steps as int,
                            i + 1,
                            x,
                            y,
                        ) implies grid.cell(x, y) == value by {
                        let j = choose|j: int|
                            1 <= j < i + 1 && lerp_coord(begin.0 as int, end.0 as int, j, steps as int)
                                - origin.0 == x && lerp_coord(begin.1 as int, end.1 as int, j, steps as int)
                                - origin.1 == y;
                        if x == cx as int && y == cy as int {
                        } else {
                            assert(j < i);
                            assert(drag_hits_upto(origin, begin, end, steps as int, i as int, x, y));
                        }
                    }
                    assert forall|x: int, y: int|
                        old(grid).in_bounds(x, y) && !drag_hits_upto(
                            origin,
                            begin,
                            end,
                            steps as int,
                            i + 1,
                            x,
                            y,
                        ) implies grid.cell(x, y) == old(grid).cell(x, y) by {
                        assert(!(x == cx as int && y == cy as int));
                        assert(!drag_hits_upto(origin, begin, end, steps as int, i as int, x, y));
                    }
                }
            },
            None => {
                proof {
                    assert forall|x: int, y: int|
                        old(grid).in_bounds(x, y) && drag_hits_upto(
                            origin,
                            begin,
                            end,
                            steps as int,
                            i + 1,
                            x,
                            y,
                        ) implies drag_hits_upto(origin, begin, end, steps as int, i as int, x, y) by {
                        let j = choose|j: int|
                            1 <= j < i + 1 && lerp_coord(begin.0 as int, end.0 as int, j, steps as int)
                                - origin.0 == x && lerp_coord(begin.1 as int, end.1 as int, j, steps as int)
                                - origin.1 == y;
                        if j == i as int {
                            assert(!(0 <= p.0 - origin.0 < width && 0 <= p.1 - origin.1
                                < height));
                            assert(0 <= x < width && 0 <= y < height);
                            assert(false);
                        }
                    }
                }
            },
        }
        i = i + 1;
    }
}

} // verus!
