//! From a marker to the points at which the image is sampled.
//!
//! A lamp is sampled at its position. A row of digits is sampled at seven
//! points per cell, one on each segment, in the order a, b, c, d, e, f, g:
//!
//! ```text
//!  aa
//! f  b
//!  gg
//! e  c
//!  dd
//! ```
//!
//! Lengths are whole numbers of coordinate units, and every division rounds
//! towards minus infinity.

use crate::config::{Coord, MarkerType, Point};
use crate::units::{
    floor_div, floor_sqrt, isqrt, lemma_floor_div_bounds, lemma_floor_sqrt, UNIT,
};
use vstd::prelude::*;

verus! {

/// The length of the axis from `start` to `end`, rounded down.
pub open spec fn axis_length(start: Coord, end: Coord) -> int {
    floor_sqrt(
        ((end.x - start.x) * (end.x - start.x) + (end.y - start.y) * (end.y - start.y)) as nat,
    )
}

/// The length of one cell: what is left of the axis after the gaps between
/// the cells, shared out among the cells. It is not positive where the gaps
/// alone are as long as the axis.
pub open spec fn cell_length(length: int, digits: int, spacing: int) -> int {
    (length - spacing * (digits - 1)) / digits
}

/// How far one coordinate moves on the way of `distance` along an axis of
/// the given length, over which the coordinate changes by `delta`. An axis
/// without length has no direction, and nothing moves along it.
pub open spec fn travel(delta: int, distance: int, length: int) -> int {
    if length > 0 {
        delta * distance / length
    } else {
        0
    }
}

/// The middle between two numbers.
pub open spec fn middle(a: int, b: int) -> int {
    (a + b) / 2
}

impl MarkerType {
    /// The number of sample points.
    pub open spec fn point_count(self) -> nat {
        match self {
            MarkerType::Point { .. } => 1,
            MarkerType::SevenSegment { digits, .. } => (7 * digits) as nat,
        }
    }

    /// The size that every sample point carries: that of the marker.
    pub open spec fn point_size(self) -> i64 {
        match self {
            MarkerType::Point { size, .. } => size,
            MarkerType::SevenSegment { size, .. } => size,
        }
    }

    /// The point on the axis of a row at the given distance from its start.
    pub open spec fn on_axis(self, distance: int) -> (int, int)
        recommends
            self is SevenSegment,
    {
        let start = self->start;
        let end = self->end;
        let length = axis_length(start, end);
        (
            start.x + travel(end.x - start.x, distance, length),
            start.y + travel(end.y - start.y, distance, length),
        )
    }

    /// The distance from the start of a row to the start of a cell.
    pub open spec fn cell_offset(self, cell: int) -> int
        recommends
            self is SevenSegment,
    {
        let length = cell_length(
            axis_length(self->start, self->end),
            self->digits as int,
            self->spacing as int,
        );
        cell * (length + self->spacing)
    }

    /// Where a cell begins on the axis.
    pub open spec fn cell_origin(self, cell: int) -> (int, int)
        recommends
            self is SevenSegment,
    {
        self.on_axis(self.cell_offset(cell))
    }

    /// Where a cell ends on the axis.
    pub open spec fn cell_end(self, cell: int) -> (int, int)
        recommends
            self is SevenSegment,
    {
        self.on_axis(
            self.cell_offset(cell) + cell_length(
                axis_length(self->start, self->end),
                self->digits as int,
                self->spacing as int,
            ),
        )
    }

    /// The middle of a cell.
    pub open spec fn cell_center(self, cell: int) -> (int, int)
        recommends
            self is SevenSegment,
    {
        (
            middle(self.cell_origin(cell).0, self.cell_end(cell).0),
            middle(self.cell_origin(cell).1, self.cell_end(cell).1),
        )
    }

    /// The way from the axis to the top or bottom edge of a cell: from the
    /// start of the row to its `bottom`.
    pub open spec fn tangent(self) -> (int, int)
        recommends
            self is SevenSegment,
    {
        (self->bottom.x - self->start.x, self->bottom.y - self->start.y)
    }

    /// Where a segment of a cell is sampled. The labels a to g are numbered
    /// from 0 to 6.
    ///
    /// The top segment `a` and the bottom segment `d` lie a whole tangent
    /// above and below the middle of the cell, the middle segment `g` on it.
    /// The segments on the right, `b` and `c`, lie half a tangent above and
    /// below the end of the cell; those on the left, `f` and `e`, half a
    /// tangent above and below its start.
    pub open spec fn segment_position(self, cell: int, label: int) -> (int, int)
        recommends
            self is SevenSegment,
    {
        let origin = self.cell_origin(cell);
        let center = self.cell_center(cell);
        let end = self.cell_end(cell);
        let tangent = self.tangent();
        let half = (tangent.0 / 2, tangent.1 / 2);
        if label == 0 {
            (center.0 - tangent.0, center.1 - tangent.1)
        } else if label == 1 {
            (end.0 - half.0, end.1 - half.1)
        } else if label == 2 {
            (end.0 + half.0, end.1 + half.1)
        } else if label == 3 {
            (center.0 + tangent.0, center.1 + tangent.1)
        } else if label == 4 {
            (origin.0 + half.0, origin.1 + half.1)
        } else if label == 5 {
            (origin.0 - half.0, origin.1 - half.1)
        } else {
            center
        }
    }

    /// Where the sample point with the given index lies: a lamp has one
    /// point, at its position; a row has its cells one after the other,
    /// seven points each.
    pub open spec fn point_position(self, index: int) -> (int, int) {
        match self {
            MarkerType::Point { pos, .. } => (pos.x as int, pos.y as int),
            MarkerType::SevenSegment { .. } => self.segment_position(index / 7, index % 7),
        }
    }

    /// The point with the given index is the one that the marker asks for.
    pub open spec fn is_point(self, index: int, point: Point) -> bool {
        &&& point.pos.x == self.point_position(index).0
        &&& point.pos.y == self.point_position(index).1
        &&& point.size == self.point_size()
    }

    /// The sample points of the marker, in order. The positions of a well
    /// formed marker fit in 64 bits.
    pub open spec fn points(self) -> Seq<Point> {
        Seq::new(
            self.point_count(),
            |i: int|
                Point {
                    pos: Coord {
                        x: self.point_position(i).0 as i64,
                        y: self.point_position(i).1 as i64,
                    },
                    size: self.point_size(),
                },
        )
    }
}

/// The axis between two positions on the image is shorter than two units.
pub proof fn lemma_axis_length_bounds(start: Coord, end: Coord)
    requires
        start.in_unit_square(),
        end.in_unit_square(),
    ensures
        0 <= axis_length(start, end) < 2 * UNIT,
{
    let dx = end.x - start.x;
    let dy = end.y - start.y;
    assert(0 <= dx * dx + dy * dy <= 2_000_000_000_000) by (nonlinear_arith)
        requires
            -1_000_000 <= dx <= 1_000_000,
            -1_000_000 <= dy <= 1_000_000,
    ;
    let square = (dx * dx + dy * dy) as nat;
    lemma_floor_sqrt(square);
    let root = floor_sqrt(square);
    assert(root < 2_000_000) by (nonlinear_arith)
        requires
            0 <= root,
            root * root <= square,
            square <= 2_000_000_000_000,
    ;
}

/// How far anything moves along the axis of a well formed row is far from
/// the limits of 64 bits.
pub proof fn lemma_travel_bounds(delta: int, distance: int, length: int)
    requires
        -UNIT <= delta <= UNIT,
        -1_000_000_000 <= distance <= 1_000_000_000,
        0 <= length,
    ensures
        -1_000_000_000_000_000 <= travel(delta, distance, length) <= 1_000_000_000_000_000,
{
    if length > 0 {
        assert(-1_000_000_000_000_000 <= delta * distance <= 1_000_000_000_000_000)
            by (nonlinear_arith)
            requires
                -1_000_000 <= delta <= 1_000_000,
                -1_000_000_000 <= distance <= 1_000_000_000,
        ;
        lemma_floor_div_bounds(delta * distance, length);
    }
}

impl MarkerType {
    /// The first cell of a row begins at the start of the row.
    pub proof fn lemma_first_cell_origin(self)
        requires
            self is SevenSegment,
        ensures
            self.cell_origin(0) == (self->start.x as int, self->start.y as int),
    {
        let length = axis_length(self->start, self->end);
        assert(self.cell_offset(0) == 0);
        if length > 0 {
            assert((self->end.x - self->start.x) * 0 / length == 0);
            assert((self->end.y - self->start.y) * 0 / length == 0);
        }
    }

    /// Where the cells and the gaps between them fill the axis without a
    /// remainder, the last cell ends at the end of the row.
    pub proof fn lemma_last_cell_end(self)
        requires
            self is SevenSegment,
            self->digits >= 1,
            self->start != self->end,
            (axis_length(self->start, self->end) - self->spacing * (self->digits - 1))
                % (self->digits as int) == 0,
        ensures
            self.cell_end(self->digits - 1) == (self->end.x as int, self->end.y as int),
    {
        let dx = self->end.x - self->start.x;
        let dy = self->end.y - self->start.y;
        let digits = self->digits as int;
        let spacing = self->spacing as int;
        let length = axis_length(self->start, self->end);
        let cell = cell_length(length, digits, spacing);
        let square = (dx * dx + dy * dy) as nat;
        lemma_floor_sqrt(square);
        assert(dx * dx + dy * dy >= 1) by (nonlinear_arith)
            requires
                dx != 0 || dy != 0,
        ;
        assert(length >= 1) by {
            if length == 0 {
                assert((length + 1) * (length + 1) == 1);
            }
        }
        let filled = length - spacing * (digits - 1);
        vstd::arithmetic::div_mod::lemma_fundamental_div_mod(filled, digits);
        assert(digits * cell == filled);
        let distance = self.cell_offset(digits - 1) + cell;
        assert(distance == length) by (nonlinear_arith)
            requires
                distance == (digits - 1) * (cell + spacing) + cell,
                digits * cell == length - spacing * (digits - 1),
        ;
        vstd::arithmetic::div_mod::lemma_div_multiples_vanish(dx, length);
        vstd::arithmetic::div_mod::lemma_div_multiples_vanish(dy, length);
        assert(dx * length == length * dx) by (nonlinear_arith);
        assert(dy * length == length * dy) by (nonlinear_arith);
    }

    /// The sample points of a well formed marker fit in 64 bits: each of
    /// `points` is exactly where `point_position` says.
    pub proof fn lemma_points_fit(self, index: int)
        requires
            self.well_formed(),
            0 <= index < self.point_count(),
        ensures
            self.is_point(index, self.points()[index]),
            -3_000_000_000_000_000 <= self.point_position(index).0 <= 3_000_000_000_000_000,
            -3_000_000_000_000_000 <= self.point_position(index).1 <= 3_000_000_000_000_000,
    {
        if self is SevenSegment {
            let start = self->start;
            let end = self->end;
            let digits = self->digits as int;
            let spacing = self->spacing as int;
            let cell = index / 7;
            let length = axis_length(start, end);
            lemma_axis_length_bounds(start, end);
            assert(-17_000_000 <= spacing * (digits - 1) <= 17_000_000) by (nonlinear_arith)
                requires
                    -1_000_000 <= spacing <= 1_000_000,
                    0 <= digits - 1 <= 17,
            ;
            lemma_floor_div_bounds(length - spacing * (digits - 1), digits);
            let long = cell_length(length, digits, spacing);
            let offset = self.cell_offset(cell);
            assert(-400_000_000 <= offset <= 400_000_000) by (nonlinear_arith)
                requires
                    offset == cell * (long + spacing),
                    0 <= cell <= 17,
                    -20_000_000 <= long + spacing <= 20_000_000,
            ;
            lemma_travel_bounds(end.x - start.x, offset, length);
            lemma_travel_bounds(end.y - start.y, offset, length);
            lemma_travel_bounds(end.x - start.x, offset + long, length);
            lemma_travel_bounds(end.y - start.y, offset + long, length);
        }
    }
}

/// How far a coordinate moves along the axis.
fn travel_along(delta: i64, distance: i64, length: i64) -> (moved: i64)
    requires
        -UNIT <= delta <= UNIT,
        -1_000_000_000 <= distance <= 1_000_000_000,
        0 <= length,
    ensures
        moved == travel(delta as int, distance as int, length as int),
        -1_000_000_000_000_000 <= moved <= 1_000_000_000_000_000,
{
    if length > 0 {
        assert(-1_000_000_000_000_000 <= delta * distance <= 1_000_000_000_000_000)
            by (nonlinear_arith)
            requires
                -1_000_000 <= delta <= 1_000_000,
                -1_000_000_000 <= distance <= 1_000_000_000,
        ;
        floor_div(delta as i128 * distance as i128, length as i128) as i64
    } else {
        0
    }
}

/// The middle between two coordinates.
fn middle_of(a: i64, b: i64) -> (m: i64)
    requires
        -2_000_000_000_000_000 <= a <= 2_000_000_000_000_000,
        -2_000_000_000_000_000 <= b <= 2_000_000_000_000_000,
    ensures
        m == middle(a as int, b as int),
        -2_000_000_000_000_000 <= m <= 2_000_000_000_000_000,
{
    floor_div(a as i128 + b as i128, 2) as i64
}

impl MarkerType {
    /// The points at which a marker is sampled.
    ///
    /// A lamp is sampled at its position. A row of digits is sampled at
    /// seven points for each cell, the cells in their order from `start`
    /// towards `end`, the points of a cell in the order of the labels a to
    /// g. Every point carries the size of the marker.
    pub fn get_points(&self) -> (points: Vec<Point>)
        requires
            self.well_formed(),
        ensures
            points@ == self.points(),
            points@.len() == self.point_count(),
            forall|i: int| 0 <= i < points@.len() ==> self.is_point(i, #[trigger] points@[i]),
    {
        match *self {
            MarkerType::Point { pos, size } => {
                let mut points: Vec<Point> = Vec::new();
                points.push(Point { pos, size });
                points
            },
            MarkerType::SevenSegment { start, end, bottom, digits, spacing, size } => {
                let dx: i64 = end.x - start.x;
                let dy: i64 = end.y - start.y;
                assert(0 <= dx * dx <= 1_000_000_000_000 && 0 <= dy * dy <= 1_000_000_000_000)
                    by (nonlinear_arith)
                    requires
                        -1_000_000 <= dx <= 1_000_000,
                        -1_000_000 <= dy <= 1_000_000,
                ;
                let square: u64 = (dx * dx + dy * dy) as u64;
                let root: u64 = isqrt(square);
                assert(root <= 2_000_000) by (nonlinear_arith)
                    requires
                        0 <= root,
                        root * root <= square,
                        square <= 2_000_000_000_000,
                ;
                let length: i64 = root as i64;
                assert(length == axis_length(start, end));
                assert(-17_000_000 <= spacing * (digits - 1) <= 17_000_000) by (nonlinear_arith)
                    requires
                        -1_000_000 <= spacing <= 1_000_000,
                        0 <= digits - 1 <= 17,
                ;
                let gaps: i64 = spacing * (digits as i64 - 1);
                let cell: i64 = floor_div((length - gaps) as i128, digits as i128) as i64;
                assert(cell == cell_length(length as int, digits as int, spacing as int));
                let pitch: i64 = cell + spacing;
                let tx: i64 = bottom.x - start.x;
                let ty: i64 = bottom.y - start.y;
                let hx: i64 = floor_div(tx as i128, 2) as i64;
                let hy: i64 = floor_div(ty as i128, 2) as i64;
                let mut points: Vec<Point> = Vec::new();
                let mut n: usize = 0;
                while n < digits
                    invariant
                        *self == (MarkerType::SevenSegment {
                            start,
                            end,
                            bottom,
                            digits,
                            spacing,
                            size,
                        }),
                        self.well_formed(),
                        n <= digits,
                        points@.len() == 7 * n,
                        length == axis_length(start, end),
                        0 <= length <= 2_000_000,
                        cell == cell_length(length as int, digits as int, spacing as int),
                        -19_000_000 <= cell <= 19_000_000,
                        pitch == cell + spacing,
                        dx == end.x - start.x,
                        dy == end.y - start.y,
                        tx == bottom.x - start.x,
                        ty == bottom.y - start.y,
                        hx == tx as int / 2,
                        hy == ty as int / 2,
                        -UNIT <= hx <= UNIT,
                        -UNIT <= hy <= UNIT,
                        forall|i: int|
                            0 <= i < points@.len() ==> self.is_point(i, #[trigger] points@[i]),
                    decreases digits - n,
                {
                    assert(-400_000_000 <= n * pitch <= 400_000_000) by (nonlinear_arith)
                        requires
                            0 <= n <= 17,
                            -20_000_000 <= pitch <= 20_000_000,
                    ;
                    let offset: i64 = n as i64 * pitch;
                    assert(offset == self.cell_offset(n as int));
                    let ox: i64 = start.x + travel_along(dx, offset, length);
                    let oy: i64 = start.y + travel_along(dy, offset, length);
                    let ex: i64 = start.x + travel_along(dx, offset + cell, length);
                    let ey: i64 = start.y + travel_along(dy, offset + cell, length);
                    let cx: i64 = middle_of(ox, ex);
                    let cy: i64 = middle_of(oy, ey);
                    assert((ox as int, oy as int) == self.cell_origin(n as int));
                    assert((ex as int, ey as int) == self.cell_end(n as int));
                    assert((cx as int, cy as int) == self.cell_center(n as int));
                    let ghost before = points@;
                    points.push(Point { pos: Coord { x: cx - tx, y: cy - ty }, size });
                    points.push(Point { pos: Coord { x: ex - hx, y: ey - hy }, size });
                    points.push(Point { pos: Coord { x: ex + hx, y: ey + hy }, size });
                    points.push(Point { pos: Coord { x: cx + tx, y: cy + ty }, size });
                    points.push(Point { pos: Coord { x: ox + hx, y: oy + hy }, size });
                    points.push(Point { pos: Coord { x: ox - hx, y: oy - hy }, size });
                    points.push(Point { pos: Coord { x: cx, y: cy }, size });
                    assert forall|i: int| 0 <= i < points@.len() implies self.is_point(
                        i,
                        #[trigger] points@[i],
                    ) by {
                        if i < 7 * n {
                            assert(points@[i] == before[i]);
                        } else {
                            assert(i / 7 == n as int);
                            assert(i % 7 == i - 7 * n);
                        }
                    }
                    n = n + 1;
                }
                points
            },
        }
    }
}

} // verus!
