//! Contour extraction and simplification.
//!
//! A grid is turned into an `i16` density field (`0` for `Empty`, `1` for
//! everything else) and handed to the marching-squares implementation of
//! the `marching_squares` crate at threshold `0`, which yields the closed
//! polygon loops separating inside from outside. Each loop is then reduced
//! to a minimal polygon by dropping every vertex that lies on the line
//! through its two predecessors, an exact, tolerance-zero simplification.
//!
//! The order of the extracted loops, and where on a loop the point list
//! starts, depend on hash-map iteration order inside the extraction crate:
//! they are not stable across edits, and no contract speaks of them.

use vstd::prelude::*;

use crate::grid::MapData;
use crate::grid::MapDataValue;
use crate::path::COORD_BOUND;

verus! {

/// Largest field dimension contour extraction accepts. Below `2^24` every
/// grid coordinate, and every coordinate plus one, is exactly representable
/// in the extraction crate's 32-bit floats, so the points it returns
/// truncate to integers inside the field.
pub const MAX_FIELD_DIM: usize = 0x100_0000;

/// Largest magnitude a field value or a threshold may have. The extraction
/// crate interpolates edge crossings by subtracting field values and the
/// threshold in 16-bit arithmetic, so confining both to half the `i16`
/// range keeps every difference representable and the call free of
/// overflow. The density fields this crate builds hold only `0` and `1`.
pub const MAX_FIELD_VALUE: i16 = 0x3FFF;

/// Every value of the field lies within `MAX_FIELD_VALUE` of zero.
pub open spec fn field_values_in_range(values: Seq<Vec<i16>>) -> bool {
    forall|y: int, x: int|
        0 <= y < values.len() && 0 <= x < values[y]@.len() ==> -MAX_FIELD_VALUE <= (
        #[trigger] values[y]@[x]) <= MAX_FIELD_VALUE
}

/// Density an occupancy value contributes to the scalar field: `Empty` is
/// outside, every other value is inside.
pub open spec fn density_of(v: MapDataValue) -> i16 {
    if v is Empty {
        0i16
    } else {
        1i16
    }
}

/// `values` is a `height`-row, `width`-column field.
pub open spec fn rows_wf(values: Seq<Vec<i16>>, width: int, height: int) -> bool {
    &&& values.len() == height
    &&& forall|y: int| 0 <= y < height ==> (#[trigger] values[y])@.len() == width
}

/// The 2x2 window whose top-left corner is `(x, y)` straddles the
/// threshold `z`: one corner is above it and one is not.
pub open spec fn window_mixed(values: Seq<Vec<i16>>, z: int, x: int, y: int) -> bool {
    let a = values[y]@[x] as int;
    let b = values[y]@[x + 1] as int;
    let c = values[y + 1]@[x] as int;
    let d = values[y + 1]@[x + 1] as int;
    (a > z || b > z || c > z || d > z) && (a <= z || b <= z || c <= z || d <= z)
}

/// Some 2x2 window of the field straddles the threshold: the field has an
/// inside/outside boundary.
pub open spec fn has_mixed_window(values: Seq<Vec<i16>>, z: int, width: int, height: int) -> bool {
    exists|x: int, y: int|
        0 <= x < width - 1 && 0 <= y < height - 1 && #[trigger] window_mixed(values, z, x, y)
}

/// Relies on `marching_squares::Field::get_contours` (crate
/// `marching-squares`): marching squares over the `i16` heightmap `values`
/// at threshold `z`. Its per-window case analysis emits segments only for
/// windows whose corners straddle the threshold (cases 0 and 15 emit
/// nothing, every other case at least one segment), every emitted segment
/// becomes part of some line, each line starts from one segment's two
/// points and only grows, and each point is an edge crossing of some
/// window, its coordinates clamped to `[0, width-1] x [0, height-1]`. The
/// crate computes coordinates in 32-bit floats, which hold every integer
/// only up to `2^24`: the dimension bound keeps each coordinate, and each
/// coordinate plus a clamped fraction, exact or rounded within its window,
/// so the truncating casts land inside the field. With the 0/1 fields this
/// crate builds, crossings lie on whole coordinates and the casts are
/// exact. The interpolation subtracts field values and the threshold in
/// 16-bit arithmetic for every window edge, so values and threshold are
/// confined to half the `i16` range to keep the call free of overflow.
/// Which line comes first and where on a loop a line starts follow
/// hash-map iteration order, so nothing is assumed of them.
#[verifier::external_body]
fn march_contours(values: &Vec<Vec<i16>>, width: usize, height: usize, z: i16) -> (r: Vec<
    Vec<(i64, i64)>,
>)
    requires
        rows_wf(values@, width as int, height as int),
        field_values_in_range(values@),
        -MAX_FIELD_VALUE <= z <= MAX_FIELD_VALUE,
        width <= MAX_FIELD_DIM,
        height <= MAX_FIELD_DIM,
    ensures
        (r@.len() != 0) <==> has_mixed_window(values@, z as int, width as int, height as int),
        forall|i: int| 0 <= i < r@.len() ==> (#[trigger] r@[i])@.len() >= 2,
        forall|i: int, j: int|
            0 <= i < r@.len() && 0 <= j < r@[i]@.len() ==> 0 <= (#[trigger] r@[i]@[j]).0 < width
                && 0 <= r@[i]@[j].1 < height,
{
    let field = marching_squares::Field {
        dimensions: (width, height),
        top_left: marching_squares::Point { x: 0u8.into(), y: 0u8.into() },
        pixel_size: (1u8.into(), 1u8.into()),
        values,
    };
    field.get_contours(z).into_iter().map(
        |l| l.points.into_iter().map(|p| (p.x as i64, p.y as i64)).collect(),
    ).collect()
}

/// `c` lies on the straight line through `a` and `b` (cross product of the
/// two difference vectors is zero); degenerate triples with two equal
/// points count as collinear.
pub open spec fn collinear(a: (i64, i64), b: (i64, i64), c: (i64, i64)) -> bool {
    (b.0 - a.0) * (c.1 - a.1) - (b.1 - a.1) * (c.0 - a.0) == 0
}

/// No vertex lies on the line through its two predecessors.
pub open spec fn no_collinear_triple(s: Seq<(i64, i64)>) -> bool {
    forall|k: int| 0 <= k && k + 2 < s.len() ==> !collinear(s[k], s[k + 1], #[trigger] s[k + 2])
}

/// Every coordinate of every point has magnitude at most `bound`.
pub open spec fn coords_bounded(s: Seq<(i64, i64)>, bound: int) -> bool {
    forall|k: int|
        0 <= k < s.len() ==> -bound <= (#[trigger] s[k]).0 <= bound && -bound <= s[k].1 <= bound
}

/// Appends `p` to a partial simplification: first drops trailing vertices
/// that become collinear with their predecessor and `p`.
pub open spec fn push_point(out: Seq<(i64, i64)>, p: (i64, i64)) -> Seq<(i64, i64)>
    decreases out.len(),
{
    if out.len() >= 2 && collinear(out[out.len() - 2], out[out.len() - 1], p) {
        push_point(out.drop_last(), p)
    } else {
        out.push(p)
    }
}

/// The simplified form of a point list: every vertex that lies on the line
/// through its neighbours is dropped; endpoints are kept.
pub open spec fn simplify_seq(s: Seq<(i64, i64)>) -> Seq<(i64, i64)>
    decreases s.len(),
{
    if s.len() <= 1 {
        s
    } else {
        push_point(simplify_seq(s.drop_last()), s.last())
    }
}

proof fn lemma_push_point_shape(out: Seq<(i64, i64)>, p: (i64, i64))
    requires
        out.len() >= 1,
    ensures
        ({
            let r = push_point(out, p);
            exists|m: int|
                1 <= m <= out.len() && r == #[trigger] out.subrange(0, m).push(p) && (m >= 2
                    ==> !collinear(out[m - 2], out[m - 1], p))
        }),
    decreases out.len(),
{
    let r = push_point(out, p);
    if out.len() >= 2 && collinear(out[out.len() - 2], out[out.len() - 1], p) {
        lemma_push_point_shape(out.drop_last(), p);
        let m = choose|m: int|
            1 <= m <= out.drop_last().len() && push_point(out.drop_last(), p)
                == #[trigger] out.drop_last().subrange(0, m).push(p) && (m >= 2 ==> !collinear(
                out.drop_last()[m - 2],
                out.drop_last()[m - 1],
                p,
            ));
        assert(out.drop_last().subrange(0, m) == out.subrange(0, m));
        assert(r == out.subrange(0, m).push(p));
    } else {
        let m = out.len() as int;
        assert(out.subrange(0, m) == out);
        assert(r == out.subrange(0, m).push(p));
    }
}

/// What simplification guarantees of any non-empty point list: it keeps
/// both endpoints, keeps at least two points of any two, never adds a
/// point, only uses points of the input, and leaves no vertex on the line
/// through its predecessors.
pub proof fn lemma_simplify_props(s: Seq<(i64, i64)>)
    requires
        s.len() >= 1,
    ensures
        simplify_seq(s).len() >= 1,
        s.len() >= 2 ==> simplify_seq(s).len() >= 2,
        simplify_seq(s).len() <= s.len(),
        simplify_seq(s)[0] == s[0],
        simplify_seq(s).last() == s.last(),
        no_collinear_triple(simplify_seq(s)),
        forall|k: int| 0 <= k < simplify_seq(s).len() ==> s.contains(#[trigger] simplify_seq(s)[k]),
    decreases s.len(),
{
    let r = simplify_seq(s);
    if s.len() == 1 {
        assert(r == s);
        assert(s.contains(s[0]));
    } else {
        let prev = simplify_seq(s.drop_last());
        lemma_simplify_props(s.drop_last());
        lemma_push_point_shape(prev, s.last());
        let m = choose|m: int|
            1 <= m <= prev.len() && r == #[trigger] prev.subrange(0, m).push(s.last()) && (m >= 2
                ==> !collinear(prev[m - 2], prev[m - 1], s.last()));
        assert(r.len() == m + 1);
        assert(r[0] == prev[0]);
        assert(s.drop_last()[0] == s[0]);
        assert(r.last() == s.last());
        assert forall|k: int| 0 <= k && k + 2 < r.len() implies !collinear(
            r[k],
            r[k + 1],
            #[trigger] r[k + 2],
        ) by {
            if k + 2 < m {
                assert(!collinear(prev[k], prev[k + 1], prev[k + 2]));
            } else {
                assert(k + 2 == m);
                assert(r[k] == prev[m - 2] && r[k + 1] == prev[m - 1] && r[k + 2] == s.last());
            }
        }
        assert forall|k: int| 0 <= k < r.len() implies s.contains(r[k]) by {
            if k < m {
                assert(r[k] == prev[k]);
                assert(s.drop_last().contains(prev[k]));
                let j = choose|j: int| 0 <= j < s.drop_last().len() && s.drop_last()[j] == prev[k];
                assert(s[j] == prev[k]);
            } else {
                assert(r[k] == s.last());
                assert(s[s.len() - 1] == s.last());
            }
        }
    }
}

/// A list with no vertex on the line through its predecessors is already
/// minimal: simplification returns it unchanged.
pub proof fn lemma_simplify_fixed_point(s: Seq<(i64, i64)>)
    requires
        no_collinear_triple(s),
    ensures
        simplify_seq(s) == s,
    decreases s.len(),
{
    if s.len() <= 1 {
    } else {
        assert forall|k: int| 0 <= k && k + 2 < s.drop_last().len() implies !collinear(
            s.drop_last()[k],
            s.drop_last()[k + 1],
            #[trigger] s.drop_last()[k + 2],
        ) by {
            assert(!collinear(s[k], s[k + 1], s[k + 2]));
        }
        lemma_simplify_fixed_point(s.drop_last());
        let prev = s.drop_last();
        if prev.len() >= 2 && collinear(prev[prev.len() - 2], prev[prev.len() - 1], s.last()) {
            let k = s.len() - 3;
            assert(collinear(s[k], s[k + 1], s[k + 2]));
            assert(false);
        }
        assert(simplify_seq(s) == prev.push(s.last()));
        assert(prev.push(s.last()) == s);
    }
}

/// Simplification is idempotent: simplifying an already-simplified list
/// changes nothing, so a second pass can never move a vertex.
pub proof fn lemma_simplify_idempotent(s: Seq<(i64, i64)>)
    ensures
        simplify_seq(simplify_seq(s)) == simplify_seq(s),
{
    if s.len() == 0 {
        assert(simplify_seq(s) == s);
    } else {
        lemma_simplify_props(s);
        lemma_simplify_fixed_point(simplify_seq(s));
    }
}

/// Simplification never increases the vertex count.
pub proof fn lemma_simplify_never_grows(s: Seq<(i64, i64)>)
    ensures
        simplify_seq(s).len() <= s.len(),
{
    if s.len() == 0 {
        assert(simplify_seq(s) == s);
    } else {
        lemma_simplify_props(s);
    }
}

/// `out` ends in two points collinear with `p`, so simplification would
/// drop the trailing one.
fn should_pop(out: &Vec<(i64, i64)>, p: (i64, i64)) -> (r: bool)
    requires
        coords_bounded(out@, COORD_BOUND as int),
        -COORD_BOUND <= p.0 <= COORD_BOUND,
        -COORD_BOUND <= p.1 <= COORD_BOUND,
    ensures
        r == (out@.len() >= 2 && collinear(out@[out@.len() - 2], out@[out@.len() - 1], p)),
{
    if out.len() < 2 {
        return false;
    }
    let a = out[out.len() - 2];
    let b = out[out.len() - 1];
    let bax: i128 = (b.0 as i128) - (a.0 as i128);
    let bay: i128 = (b.1 as i128) - (a.1 as i128);
    let pax: i128 = (p.0 as i128) - (a.0 as i128);
    let pay: i128 = (p.1 as i128) - (a.1 as i128);
    proof {
        assert(-0x1_0000_0000_0000_0000 <= bax * pay <= 0x1_0000_0000_0000_0000
            && -0x1_0000_0000_0000_0000 <= bay * pax <= 0x1_0000_0000_0000_0000)
            by (nonlinear_arith)
            requires
                -0x1_0000_0000 <= bax <= 0x1_0000_0000,
                -0x1_0000_0000 <= bay <= 0x1_0000_0000,
                -0x1_0000_0000 <= pax <= 0x1_0000_0000,
                -0x1_0000_0000 <= pay <= 0x1_0000_0000;
    }
    let lhs: i128 = bax * pay;
    let rhs: i128 = bay * pax;
    lhs == rhs
}

/// Reduces a point list to a minimal polygon: drops every vertex that lies
/// on the straight line through its neighbours (including backtracking
/// spikes and repeated points), keeps both endpoints, so a closed loop
/// stays closed. The exact result is `simplify_seq` of the input.
pub fn simplify(points: &Vec<(i64, i64)>) -> (r: Vec<(i64, i64)>)
    requires
        coords_bounded(points@, COORD_BOUND as int),
    ensures
        r@ == simplify_seq(points@),
{
    let mut out: Vec<(i64, i64)> = Vec::new();
    if points.len() == 0 {
        return out;
    }
    out.push(points[0]);
    proof {
        assert(points@.subrange(0, 1) =~= seq![points@[0]]);
        assert(out@ =~= simplify_seq(points@.subrange(0, 1)));
    }
    let mut i: usize = 1;
    while i < points.len()
        invariant
            1 <= i <= points@.len(),
            coords_bounded(points@, COORD_BOUND as int),
            out@ == simplify_seq(points@.subrange(0, i as int)),
            out@.len() >= 1,
            coords_bounded(out@, COORD_BOUND as int),
        decreases points@.len() - i,
    {
        let p = points[i];
        proof {
            assert(points@.subrange(0, i + 1).drop_last() =~= points@.subrange(0, i as int));
            assert(points@.subrange(0, i + 1).last() == points@[i as int]);
        }
        while should_pop(&out, p)
            invariant
                coords_bounded(points@, COORD_BOUND as int),
                -COORD_BOUND <= p.0 <= COORD_BOUND,
                -COORD_BOUND <= p.1 <= COORD_BOUND,
                out@.len() >= 1,
                coords_bounded(out@, COORD_BOUND as int),
                push_point(out@, p) == push_point(
                    simplify_seq(points@.subrange(0, i as int)),
                    p,
                ),
            decreases out@.len(),
        {
            let _ = out.pop();
        }
        proof {
            assert(push_point(out@, p) == out@.push(p));
        }
        out.push(p);
        i = i + 1;
    }
    proof {
        assert(points@.subrange(0, points@.len() as int) =~= points@);
    }
    out
}

/// Extracts the contours of a density field at threshold `z`, reduces
/// each to a minimal polygon, and closes it: a loop whose point list does
/// not end where it began gets its first point appended, as the original
/// rendering closed every path. The field may be a single chunk's
/// (`MapData::density_rows`) or the four-chunk stitched field
/// (`stitched_density_rows`); the variant is chosen at the call site.
///
/// The result is empty exactly when no 2x2 window of the field straddles
/// the threshold; every loop keeps at least two points, holds only
/// field-local coordinates, ends on its first point, and carries no vertex
/// collinear with its predecessors apart from the closing point. With a
/// 0/1 field at threshold 0, crossing points sit on the occupied corners
/// of each window rather than on edge midpoints, and a saddle window (two
/// opposite occupied corners) can contribute a degenerate loop whose
/// points coincide; a consumer drawing the loops may skip those.
pub fn extract_contours(values: &Vec<Vec<i16>>, width: usize, height: usize, z: i16) -> (r: Vec<
    Vec<(i64, i64)>,
>)
    requires
        rows_wf(values@, width as int, height as int),
        field_values_in_range(values@),
        -MAX_FIELD_VALUE <= z <= MAX_FIELD_VALUE,
        width <= MAX_FIELD_DIM,
        height <= MAX_FIELD_DIM,
    ensures
        (r@.len() != 0) <==> has_mixed_window(values@, z as int, width as int, height as int),
        forall|i: int|
            0 <= i < r@.len() ==> (#[trigger] r@[i])@.len() >= 2 && r@[i]@[0] == r@[i]@.last()
                && no_collinear_triple(r@[i]@.drop_last()),
        forall|i: int, j: int|
            0 <= i < r@.len() && 0 <= j < r@[i]@.len() ==> 0 <= (#[trigger] r@[i]@[j]).0 < width
                && 0 <= r@[i]@[j].1 < height,
{
    let raw = march_contours(values, width, height, z);
    let mut out: Vec<Vec<(i64, i64)>> = Vec::new();
    let mut k: usize = 0;
    while k < raw.len()
        invariant
            k <= raw@.len(),
            out@.len() == k,
            width <= MAX_FIELD_DIM,
            height <= MAX_FIELD_DIM,
            forall|i: int| 0 <= i < raw@.len() ==> (#[trigger] raw@[i])@.len() >= 2,
            forall|i: int, j: int|
                0 <= i < raw@.len() && 0 <= j < raw@[i]@.len() ==> 0 <= (#[trigger] raw@[i]@[j]).0
                    < width && 0 <= raw@[i]@[j].1 < height,
            forall|i: int|
                0 <= i < k ==> (#[trigger] out@[i])@.len() >= 2 && out@[i]@[0] == out@[i]@.last()
                    && no_collinear_triple(out@[i]@.drop_last()),
            forall|i: int, j: int|
                0 <= i < k && 0 <= j < out@[i]@.len() ==> 0 <= (#[trigger] out@[i]@[j]).0 < width
                    && 0 <= out@[i]@[j].1 < height,
        decreases raw@.len() - k,
    {
        let mut s = simplify(&raw[k]);
        proof {
            lemma_simplify_props(raw@[k as int]@);
            assert forall|j: int| 0 <= j < s@.len() implies 0 <= (#[trigger] s@[j]).0 < width
                && 0 <= s@[j].1 < height by {
                assert(raw@[k as int]@.contains(s@[j]));
                let jj = choose|jj: int|
                    0 <= jj < raw@[k as int]@.len() && raw@[k as int]@[jj] == s@[j];
            }
        }
        let first = s[0];
        let last = s[s.len() - 1];
        if first.0 != last.0 || first.1 != last.1 {
            let ghost open_loop = s@;
            s.push(first);
            proof {
                assert(s@.drop_last() =~= open_loop);
            }
        } else {
            proof {
                assert(first == last);
                assert forall|j: int| 0 <= j && j + 2 < s@.drop_last().len() implies !collinear(
                    s@.drop_last()[j],
                    s@.drop_last()[j + 1],
                    #[trigger] s@.drop_last()[j + 2],
                ) by {
                    assert(!collinear(s@[j], s@[j + 1], s@[j + 2]));
                }
            }
        }
        out.push(s);
        k = k + 1;
    }
    out
}

impl MapData {
    /// The 2x2 cell window at `(x, y)` has both an `Empty` and a non-`Empty`
    /// corner: a piece of the inside/outside boundary runs through it.
    pub open spec fn boundary_window(&self, x: int, y: int) -> bool {
        let a = self.cell(x, y);
        let b = self.cell(x + 1, y);
        let c = self.cell(x, y + 1);
        let d = self.cell(x + 1, y + 1);
        (!(a is Empty) || !(b is Empty) || !(c is Empty) || !(d is Empty)) && ((a is Empty) || (
        b is Empty) || (c is Empty) || (d is Empty))
    }

    /// The grid has a boundary between `Empty` and occupied cells.
    pub open spec fn has_boundary(&self) -> bool {
        exists|x: int, y: int|
            0 <= x < self.spec_width() - 1 && 0 <= y < self.spec_height() - 1
                && #[trigger] self.boundary_window(x, y)
    }

    /// The grid as the density field that contour extraction consumes: one
    /// row per `y`, `0` where the cell is `Empty`, `1` elsewhere.
    pub fn density_rows(&self) -> (r: Vec<Vec<i16>>)
        requires
            self.wf(),
        ensures
            rows_wf(r@, self.spec_width(), self.spec_height()),
            field_values_in_range(r@),
            forall|x: int, y: int|
                self.in_bounds(x, y) ==> (#[trigger] r@[y]@[x]) == density_of(self.cell(x, y)),
    {
        let (width, height) = self.dimensions();
        let mut rows: Vec<Vec<i16>> = Vec::new();
        let mut y: usize = 0;
        while y < height
            invariant
                self.wf(),
                width == self.spec_width(),
                height == self.spec_height(),
                y <= height,
                rows@.len() == y,
                forall|yy: int| 0 <= yy < y ==> (#[trigger] rows@[yy])@.len() == width,
                forall|x: int, yy: int|
                    0 <= yy < y && 0 <= x < width ==> (#[trigger] rows@[yy]@[x]) == density_of(
                        self.cell(x, yy),
                    ),
            decreases height - y,
        {
            let mut row: Vec<i16> = Vec::new();
            let mut x: usize = 0;
            while x < width
                invariant
                    self.wf(),
                    width == self.spec_width(),
                    height == self.spec_height(),
                    y < height,
                    x <= width,
                    row@.len() == x,
                    forall|xx: int|
                        0 <= xx < x ==> (#[trigger] row@[xx]) == density_of(
                            self.cell(xx, y as int),
                        ),
                decreases width - x,
            {
                let v = match self.get(x, y) {
                    Ok(v) => v,
                    Err(_) => MapDataValue::Empty,
                };
                let d: i16 = match v {
                    MapDataValue::Empty => 0,
                    _ => 1,
                };
                row.push(d);
                x = x + 1;
            }
            rows.push(row);
            y = y + 1;
        }
        proof {
            assert forall|yy: int, xx: int|
                0 <= yy < rows@.len() && 0 <= xx < rows@[yy]@.len()
                implies -MAX_FIELD_VALUE <= (#[trigger] rows@[yy]@[xx]) <= MAX_FIELD_VALUE by {
                assert(rows@[yy]@[xx] == density_of(self.cell(xx, yy)));
            }
        }
        rows
    }

    /// Extracts the boundary contours of this grid by marching squares at
    /// the fixed inside/outside threshold, reduces each loop to a minimal
    /// polygon, and closes it. The result is empty exactly when the grid
    /// has no boundary window; every loop keeps at least two points, holds
    /// only grid-local coordinates, ends on its first point, and carries
    /// no vertex collinear with its predecessors apart from the closing
    /// point. Loop order is not stable across edits; see
    /// [`extract_contours`] for the corner geometry of the 0/1 field.
    pub fn to_paths(&self) -> (r: Vec<Vec<(i64, i64)>>)
        requires
            self.wf(),
            self.spec_width() <= MAX_FIELD_DIM,
            self.spec_height() <= MAX_FIELD_DIM,
        ensures
            (r@.len() != 0) <==> self.has_boundary(),
            forall|i: int|
                0 <= i < r@.len() ==> (#[trigger] r@[i])@.len() >= 2 && r@[i]@[0]
                    == r@[i]@.last() && no_collinear_triple(r@[i]@.drop_last()),
            forall|i: int, j: int|
                0 <= i < r@.len() && 0 <= j < r@[i]@.len() ==> 0 <= (#[trigger] r@[i]@[j]).0
                    < self.spec_width() && 0 <= r@[i]@[j].1 < self.spec_height(),
    {
        let (width, height) = self.dimensions();
        let rows = self.density_rows();
        proof {
            self.lemma_boundary_matches_densities(rows@);
        }
        extract_contours(&rows, width, height, 0)
    }

    /// The density field of `density_rows` has a mixed window exactly where
    /// the grid has a boundary window.
    proof fn lemma_boundary_matches_densities(&self, rows: Seq<Vec<i16>>)
        requires
            self.wf(),
            rows_wf(rows, self.spec_width(), self.spec_height()),
            forall|x: int, y: int|
                self.in_bounds(x, y) ==> (#[trigger] rows[y]@[x]) == density_of(self.cell(x, y)),
        ensures
            has_mixed_window(rows, 0, self.spec_width(), self.spec_height())
                == self.has_boundary(),
    {
        let w = self.spec_width();
        let h = self.spec_height();
        if has_mixed_window(rows, 0, w, h) {
            let (x, y) = choose|x: int, y: int|
                0 <= x < w - 1 && 0 <= y < h - 1 && #[trigger] window_mixed(rows, 0, x, y);
            assert(self.boundary_window(x, y));
        }
        if self.has_boundary() {
            let (x, y) = choose|x: int, y: int|
                0 <= x < w - 1 && 0 <= y < h - 1 && #[trigger] self.boundary_window(x, y);
            assert(window_mixed(rows, 0, x, y));
        }
    }
}

/// A grid whose cells all hold one value has no inside/outside boundary,
/// so contour extraction yields no loops for it.
pub proof fn lemma_uniform_grid_has_no_boundary(g: MapData, v: MapDataValue)
    requires
        g.wf(),
        forall|x: int, y: int| g.in_bounds(x, y) ==> #[trigger] g.cell(x, y) == v,
    ensures
        !g.has_boundary(),
{
    assert forall|x: int, y: int|
        0 <= x < g.spec_width() - 1 && 0 <= y < g.spec_height() - 1 implies !(
    #[trigger] g.boundary_window(x, y)) by {
        assert(g.cell(x, y) == v && g.cell(x + 1, y) == v && g.cell(x, y + 1) == v && g.cell(
            x + 1,
            y + 1,
        ) == v);
    }
}


/// The density field of four neighboring chunks stitched into one virtual
/// `(width + 1) x (height + 1)` field, so that the current chunk's cells on
/// its right and top edges see their true neighbor densities during
/// extraction: the extra column is the right neighbor's first column, the
/// extra row is the top neighbor's first row, and the corner is the
/// top-right neighbor's first cell. All four chunks must share one size.
/// This stitched variant is a secondary path; the live update cycle
/// extracts each chunk on its own.
pub fn stitched_density_rows(
    current: &MapData,
    right: &MapData,
    top: &MapData,
    top_right: &MapData,
) -> (r: Vec<Vec<i16>>)
    requires
        current.wf(),
        right.wf(),
        top.wf(),
        top_right.wf(),
        right.spec_width() == current.spec_width(),
        right.spec_height() == current.spec_height(),
        top.spec_width() == current.spec_width(),
        top.spec_height() == current.spec_height(),
        top_right.spec_width() == current.spec_width(),
        top_right.spec_height() == current.spec_height(),
        1 <= current.spec_width() < usize::MAX,
        1 <= current.spec_height() < usize::MAX,
    ensures
        rows_wf(r@, current.spec_width() + 1, current.spec_height() + 1),
        field_values_in_range(r@),
        forall|x: int, y: int|
            current.in_bounds(x, y) ==> (#[trigger] r@[y]@[x]) == density_of(current.cell(x, y)),
        forall|y: int|
            0 <= y < current.spec_height() ==> (#[trigger] r@[y])@[current.spec_width()]
                == density_of(right.cell(0, y)),
        forall|x: int|
            0 <= x < current.spec_width() ==> r@[current.spec_height()]@[x] == density_of(
                top.cell(x, 0),
            ),
        r@[current.spec_height()]@[current.spec_width()] == density_of(top_right.cell(0, 0)),
{
    let (width, height) = current.dimensions();
    let mut rows: Vec<Vec<i16>> = Vec::new();
    let mut y: usize = 0;
    while y < height + 1
        invariant
            current.wf(),
            right.wf(),
            top.wf(),
            top_right.wf(),
            right.spec_width() == current.spec_width(),
            right.spec_height() == current.spec_height(),
            top.spec_width() == current.spec_width(),
            top.spec_height() == current.spec_height(),
            top_right.spec_width() == current.spec_width(),
            top_right.spec_height() == current.spec_height(),
            width == current.spec_width(),
            height == current.spec_height(),
            1 <= width < usize::MAX,
            1 <= height < usize::MAX,
            y <= height + 1,
            rows@.len() == y,
            forall|yy: int| 0 <= yy < y ==> (#[trigger] rows@[yy])@.len() == width + 1,
            forall|x: int, yy: int|
                0 <= yy < y && current.in_bounds(x, yy) ==> (#[trigger] rows@[yy]@[x])
                    == density_of(current.cell(x, yy)),
            forall|yy: int|
                0 <= yy < y && yy < height ==> (#[trigger] rows@[yy])@[width as int]
                    == density_of(right.cell(0, yy)),
            y > height ==> (forall|x: int|
                0 <= x < width ==> (#[trigger] rows@[height as int]@[x]) == density_of(
                    top.cell(x, 0),
                )) && rows@[height as int]@[width as int] == density_of(top_right.cell(0, 0)),
        decreases height + 1 - y,
    {
        let mut row: Vec<i16> = Vec::new();
        let mut x: usize = 0;
        while x < width + 1
            invariant
                current.wf(),
                right.wf(),
                top.wf(),
                top_right.wf(),
                right.spec_width() == current.spec_width(),
                right.spec_height() == current.spec_height(),
                top.spec_width() == current.spec_width(),
                top.spec_height() == current.spec_height(),
                top_right.spec_width() == current.spec_width(),
                top_right.spec_height() == current.spec_height(),
                width == current.spec_width(),
                height == current.spec_height(),
                1 <= width < usize::MAX,
                1 <= height < usize::MAX,
                y <= height,
                x <= width + 1,
                row@.len() == x,
                forall|xx: int|
                    0 <= xx < x && xx < width && y < height ==> (#[trigger] row@[xx])
                        == density_of(current.cell(xx, y as int)),
                x > width && y < height ==> row@[width as int] == density_of(
                    right.cell(0, y as int),
                ),
                forall|xx: int|
                    0 <= xx < x && xx < width && y == height ==> (#[trigger] row@[xx])
                        == density_of(top.cell(xx, 0)),
                x > width && y == height ==> row@[width as int] == density_of(
                    top_right.cell(0, 0),
                ),
            decreases width + 1 - x,
        {
            let v = if y < height {
                if x < width {
                    match current.get(x, y) {
                        Ok(v) => v,
                        Err(_) => MapDataValue::Empty,
                    }
                } else {
                    match right.get(0, y) {
                        Ok(v) => v,
                        Err(_) => MapDataValue::Empty,
                    }
                }
            } else {
                if x < width {
                    match top.get(x, 0) {
                        Ok(v) => v,
                        Err(_) => MapDataValue::Empty,
                    }
                } else {
                    match top_right.get(0, 0) {
                        Ok(v) => v,
                        Err(_) => MapDataValue::Empty,
                    }
                }
            };
            let d: i16 = match v {
                MapDataValue::Empty => 0,
                _ => 1,
            };
            row.push(d);
            x = x + 1;
        }
        rows.push(row);
        y = y + 1;
    }
    proof {
        let w = current.spec_width();
        let h = current.spec_height();
        assert forall|yy: int, xx: int|
            0 <= yy < rows@.len() && 0 <= xx < rows@[yy]@.len()
            implies -MAX_FIELD_VALUE <= (#[trigger] rows@[yy]@[xx]) <= MAX_FIELD_VALUE by {
            if yy < h && xx < w {
                assert(rows@[yy]@[xx] == density_of(current.cell(xx, yy)));
            } else if yy < h {
                assert(rows@[yy]@[w] == density_of(right.cell(0, yy)));
            } else if xx < w {
                assert(rows@[h]@[xx] == density_of(top.cell(xx, 0)));
            } else {
                assert(rows@[h]@[w] == density_of(top_right.cell(0, 0)));
            }
        }
    }
    rows
}

} // verus!
