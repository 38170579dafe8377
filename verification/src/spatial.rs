//! A spatial index over a snapshot of positions.
//!
//! The plane is cut into a grid of square cells. The points of a cell form a
//! chain: the cell names its point with the highest handle, and every point
//! names the next lower one of its cell. A query walks only the chains of
//! the cells that its circle can touch. Points beyond the grid are kept in
//! the cells of its border, so the index is exact wherever the points lie.

use vstd::prelude::*;
use vstd::arithmetic::div_mod::lemma_div_is_ordered;
use crate::fixed::LIMIT;
use crate::particle::{Particle, population_in_limit};
use crate::vector::Vec2;

verus! {

/// Largest number of cells along one axis of the grid.
pub const MAX_AXIS_CELLS: usize = 1024;

/// The link that ends a chain.
const END: usize = usize::MAX;

/// Whether `point` lies nearer to `center` than `distance`.
pub open spec fn within_radius(point: Vec2, center: Vec2, distance: int) -> bool {
    let dx = point.x - center.x;
    let dy = point.y - center.y;
    dx * dx + dy * dy < distance * distance
}

/// The positions of a population, handle by handle.
pub open spec fn positions_of(particles: Seq<Particle>) -> Seq<Vec2> {
    Seq::new(particles.len(), |i: int| particles[i].position)
}

/// Whether an answer names `handle`.
pub open spec fn names(found: Seq<(Vec2, usize)>, handle: usize) -> bool {
    exists|k: int| 0 <= k < found.len() && (#[trigger] found[k]).1 == handle
}

/// Whether an answer names no handle twice.
pub open spec fn names_once(found: Seq<(Vec2, usize)>) -> bool {
    forall|i: int, j: int|
        0 <= i < j < found.len() ==> (#[trigger] found[i]).1 != (#[trigger] found[j]).1
}

/// The cell along one axis that holds `value`: cells have the given size and
/// start at `origin`; values before the first cell or after the last one
/// belong to that cell.
pub open spec fn axis_cell(value: int, origin: int, cell_size: int, count: int) -> int {
    if value < origin {
        0
    } else if (value - origin) / cell_size >= count {
        count - 1
    } else {
        (value - origin) / cell_size
    }
}

/// The cell of a value does not decrease when the value grows.
proof fn lemma_axis_cell_monotonic(a: int, b: int, origin: int, cell_size: int, count: int)
    requires
        a <= b,
        cell_size > 0,
        count >= 1,
    ensures
        0 <= axis_cell(a, origin, cell_size, count) <= axis_cell(b, origin, cell_size, count)
            < count,
{
    if a >= origin {
        lemma_div_is_ordered(a - origin, b - origin, cell_size);
    }
    if b >= origin {
        lemma_div_is_ordered(0, b - origin, cell_size);
    }
}

/// A point nearer to the center than `distance` differs from it by less
/// than `distance` along each axis.
proof fn lemma_within_radius_box(point: Vec2, center: Vec2, distance: int)
    requires
        distance >= 0,
        within_radius(point, center, distance),
    ensures
        center.x - distance <= point.x <= center.x + distance,
        center.y - distance <= point.y <= center.y + distance,
{
    let dx = point.x - center.x;
    let dy = point.y - center.y;
    assert(-distance <= dx <= distance && -distance <= dy <= distance) by (nonlinear_arith)
        requires
            dx * dx + dy * dy < distance * distance,
            distance >= 0,
    ;
}

/// An answer with one more entry names what it named before, and the
/// handle of that entry.
proof fn lemma_names_push(found: Seq<(Vec2, usize)>, entry: (Vec2, usize), h: usize)
    ensures
        names(found.push(entry), h) <==> names(found, h) || entry.1 == h,
{
    let longer = found.push(entry);
    if names(longer, h) {
        let k = choose|k: int| 0 <= k < longer.len() && (#[trigger] longer[k]).1 == h;
        if k < found.len() {
            assert(found[k].1 == h);
        }
    }
    if names(found, h) {
        let k = choose|k: int| 0 <= k < found.len() && (#[trigger] found[k]).1 == h;
        assert(longer[k].1 == h);
    }
    if entry.1 == h {
        assert(longer[found.len() as int].1 == h);
    }
}

/// Two cells of a grid with the same number are the same cell.
proof fn lemma_cell_number_unique(row1: int, col1: int, row2: int, col2: int, columns: int)
    requires
        0 <= col1 < columns,
        0 <= col2 < columns,
        row1 * columns + col1 == row2 * columns + col2,
    ensures
        row1 == row2,
        col1 == col2,
{
    assert(row1 == row2) by (nonlinear_arith)
        requires
            0 <= col1 < columns,
            0 <= col2 < columns,
            row1 * columns + col1 == row2 * columns + col2,
    ;
}

/// The number of a cell lies below the number of cells.
proof fn lemma_cell_number_bound(row: int, col: int, rows: int, columns: int)
    requires
        0 <= row < rows,
        0 <= col < columns,
    ensures
        0 <= row * columns + col < rows * columns,
        row * columns >= 0,
{
    assert(0 <= row * columns && row * columns + columns <= rows * columns) by (nonlinear_arith)
        requires
            0 <= row < rows,
            0 <= columns,
    ;
}

/// The layout of the grid.
#[derive(Clone, Copy)]
struct Grid {
    origin: Vec2,
    cell_size: i64,
    columns: usize,
    rows: usize,
}

impl Grid {
    spec fn wf(self) -> bool {
        &&& self.cell_size > 0
        &&& 1 <= self.columns <= MAX_AXIS_CELLS
        &&& 1 <= self.rows <= MAX_AXIS_CELLS
    }

    spec fn column_of(self, point: Vec2) -> int {
        axis_cell(point.x as int, self.origin.x as int, self.cell_size as int, self.columns as int)
    }

    spec fn row_of(self, point: Vec2) -> int {
        axis_cell(point.y as int, self.origin.y as int, self.cell_size as int, self.rows as int)
    }

    /// Whether `point` belongs to the cell in the given row and column.
    spec fn holds(self, point: Vec2, row: int, col: int) -> bool {
        self.row_of(point) == row && self.column_of(point) == col
    }

    /// The highest handle below `bound` whose point belongs to the cell, or
    /// `-1` where there is none.
    spec fn last_in_cell(self, points: Seq<Vec2>, row: int, col: int, bound: int) -> int
        decreases bound,
    {
        if bound <= 0 {
            -1
        } else if self.holds(points[bound - 1], row, col) {
            bound - 1
        } else {
            self.last_in_cell(points, row, col, bound - 1)
        }
    }

    /// What `last_in_cell` finds is a handle of the cell, and no handle of
    /// the cell lies between it and the bound.
    proof fn lemma_last_in_cell(self, points: Seq<Vec2>, row: int, col: int, bound: int)
        requires
            bound <= points.len(),
        ensures
            -1 <= self.last_in_cell(points, row, col, bound),
            self.last_in_cell(points, row, col, bound) < bound || bound < 0,
            self.last_in_cell(points, row, col, bound) >= 0 ==> self.holds(
                points[self.last_in_cell(points, row, col, bound)],
                row,
                col,
            ),
            forall|h: int|
                self.last_in_cell(points, row, col, bound) < h < bound ==> !self.holds(
                    #[trigger] points[h],
                    row,
                    col,
                ),
        decreases bound,
    {
        if bound > 0 && !self.holds(points[bound - 1], row, col) {
            self.lemma_last_in_cell(points, row, col, bound - 1);
        }
    }

    fn axis(value: i64, origin: i64, cell_size: i64, count: usize) -> (cell: usize)
        requires
            cell_size > 0,
            1 <= count <= MAX_AXIS_CELLS,
        ensures
            cell == axis_cell(value as int, origin as int, cell_size as int, count as int),
            cell < count,
    {
        if value < origin {
            0
        } else {
            let offset: i128 = value as i128 - origin as i128;
            let quotient: i128 = offset / (cell_size as i128);
            proof {
                lemma_div_is_ordered(0, offset as int, cell_size as int);
            }
            if quotient >= count as i128 {
                count - 1
            } else {
                quotient as usize
            }
        }
    }

    fn column(&self, x: i64) -> (col: usize)
        requires
            self.wf(),
        ensures
            col == axis_cell(x as int, self.origin.x as int, self.cell_size as int, self.columns as int),
            col < self.columns,
    {
        Grid::axis(x, self.origin.x, self.cell_size, self.columns)
    }

    fn row(&self, y: i64) -> (row: usize)
        requires
            self.wf(),
        ensures
            row == axis_cell(y as int, self.origin.y as int, self.cell_size as int, self.rows as int),
            row < self.rows,
    {
        Grid::axis(y, self.origin.y, self.cell_size, self.rows)
    }
}

/// The link that stands for a handle, or for the end of a chain where the
/// handle is `-1`.
spec fn link(handle: int) -> usize {
    if handle < 0 {
        END
    } else {
        handle as usize
    }
}

/// A grid of chained cells over a snapshot of positions.
pub struct SpatialIndex {
    grid: Grid,
    points: Vec<Vec2>,
    head: Vec<usize>,
    next: Vec<usize>,
}

/// Tells whether `point` lies nearer to `center` than `distance`.
fn is_within(point: Vec2, center: Vec2, distance: i64) -> (inside: bool)
    requires
        point.within_limit(),
        center.within_limit(),
        0 <= distance <= LIMIT,
    ensures
        inside == within_radius(point, center, distance as int),
{
    let dx: i128 = point.x as i128 - center.x as i128;
    let dy: i128 = point.y as i128 - center.y as i128;
    let d: i128 = distance as i128;
    assert(0 <= dx * dx <= 0x200_0000_0000 * 0x200_0000_0000) by (nonlinear_arith)
        requires
            -0x200_0000_0000 <= dx <= 0x200_0000_0000,
    ;
    assert(0 <= dy * dy <= 0x200_0000_0000 * 0x200_0000_0000) by (nonlinear_arith)
        requires
            -0x200_0000_0000 <= dy <= 0x200_0000_0000,
    ;
    assert(0 <= d * d <= 0x100_0000_0000 * 0x100_0000_0000) by (nonlinear_arith)
        requires
            0 <= d <= 0x100_0000_0000,
    ;
    dx * dx + dy * dy < d * d
}

impl SpatialIndex {
    /// The positions that the index was built over, handle by handle.
    pub closed spec fn points(&self) -> Seq<Vec2> {
        self.points@
    }

    /// Well-formedness: every cell names the last of its points, and every
    /// point the one before it in its cell.
    pub closed spec fn wf(&self) -> bool {
        &&& self.grid.wf()
        &&& self.head@.len() == self.grid.rows * self.grid.columns
        &&& self.next@.len() == self.points@.len()
        &&& forall|h: int| 0 <= h < self.points@.len() ==> (#[trigger] self.points@[h]).within_limit()
        &&& forall|row: int, col: int|
            0 <= row < self.grid.rows && 0 <= col < self.grid.columns ==> self.head@[row
                * self.grid.columns + col] == link(
                #[trigger] self.grid.last_in_cell(self.points@, row, col, self.points@.len() as int),
            )
        &&& forall|h: int|
            0 <= h < self.points@.len() ==> #[trigger] self.next@[h] == link(
                self.grid.last_in_cell(
                    self.points@,
                    self.grid.row_of(self.points@[h]),
                    self.grid.column_of(self.points@[h]),
                    h,
                ),
            )
    }

    /// Number of positions in the index.
    pub fn len(&self) -> (n: usize)
        ensures
            n == self.points().len(),
    {
        self.points.len()
    }

    /// Builds the index over the positions of a population, for a domain of
    /// the given width and height centered on the origin, with cells of the
    /// given size.
    pub fn build(
        particles: &Vec<Particle>,
        width: i64,
        height: i64,
        cell_size: i64,
    ) -> (index: SpatialIndex)
        requires
            population_in_limit(particles@),
            0 < width <= LIMIT,
            0 < height <= LIMIT,
            0 < cell_size <= LIMIT,
        ensures
            index.wf(),
            index.points() == positions_of(particles@),
    {
        let wide: i64 = width / cell_size + 1;
        let high: i64 = height / cell_size + 1;
        let columns: usize = if wide > MAX_AXIS_CELLS as i64 {
            MAX_AXIS_CELLS
        } else {
            wide as usize
        };
        let rows: usize = if high > MAX_AXIS_CELLS as i64 {
            MAX_AXIS_CELLS
        } else {
            high as usize
        };
        let grid = Grid {
            origin: Vec2 { x: -(width / 2), y: -(height / 2) },
            cell_size,
            columns,
            rows,
        };
        assert(rows * columns <= 1024 * 1024) by (nonlinear_arith)
            requires
                rows <= 1024,
                columns <= 1024,
        ;
        let cells: usize = rows * columns;
        let mut head: Vec<usize> = Vec::new();
        let mut c: usize = 0;
        while c < cells
            invariant
                c <= cells,
                head@.len() == c,
                forall|j: int| 0 <= j < c ==> #[trigger] head@[j] == END,
            decreases cells - c,
        {
            head.push(END);
            c += 1;
        }
        let mut points: Vec<Vec2> = Vec::new();
        let mut i: usize = 0;
        while i < particles.len()
            invariant
                i <= particles.len(),
                points@.len() == i,
                forall|j: int| 0 <= j < i ==> #[trigger] points@[j] == particles@[j].position,
            decreases particles.len() - i,
        {
            points.push(particles[i].position);
            i += 1;
        }
        assert(points@ =~= positions_of(particles@));
        let mut next: Vec<usize> = Vec::new();
        let mut h: usize = 0;
        proof {
            assert forall|row: int, col: int| 0 <= row < rows && 0 <= col < columns implies head@[row
                * columns + col] == link(#[trigger] grid.last_in_cell(points@, row, col, 0)) by {
                lemma_cell_number_bound(row, col, rows as int, columns as int);
            }
        }
        while h < points.len()
            invariant
                grid.wf(),
                grid.rows == rows,
                grid.columns == columns,
                cells == rows * columns,
                h <= points.len(),
                head@.len() == cells,
                next@.len() == h,
                forall|row: int, col: int|
                    0 <= row < rows && 0 <= col < columns ==> head@[row * columns + col] == link(
                        #[trigger] grid.last_in_cell(points@, row, col, h as int),
                    ),
                forall|j: int|
                    0 <= j < h ==> #[trigger] next@[j] == link(
                        grid.last_in_cell(
                            points@,
                            grid.row_of(points@[j]),
                            grid.column_of(points@[j]),
                            j,
                        ),
                    ),
            decreases points.len() - h,
        {
            let point = points[h];
            let row = grid.row(point.y);
            let col = grid.column(point.x);
            proof {
                lemma_cell_number_bound(row as int, col as int, rows as int, columns as int);
            }
            let cell = row * columns + col;
            let ghost before = head@;
            assert(before[row * columns + col] == link(
                grid.last_in_cell(points@, row as int, col as int, h as int),
            ));
            next.push(head[cell]);
            head.set(cell, h);
            proof {
                assert forall|r: int, c: int| 0 <= r < rows && 0 <= c < columns implies head@[r
                    * columns + c] == link(#[trigger] grid.last_in_cell(points@, r, c, h + 1)) by {
                    lemma_cell_number_bound(r, c, rows as int, columns as int);
                    if grid.holds(point, r, c) {
                        assert(r == row && c == col);
                    } else {
                        if r * columns + c == cell {
                            lemma_cell_number_unique(r, c, row as int, col as int, columns as int);
                        }
                        assert(grid.last_in_cell(points@, r, c, h + 1) == grid.last_in_cell(
                            points@,
                            r,
                            c,
                            h as int,
                        ));
                        assert(head@[r * columns + c] == before[r * columns + c]);
                    }
                }
            }
            h += 1;
        }
        SpatialIndex { grid, points, head, next }
    }

    /// Finds every position of the index that lies nearer to `center` than
    /// `distance`, each with its handle, in no particular order. A position
    /// at the center itself is found like any other.
    pub fn within_distance(&self, center: Vec2, distance: i64) -> (found: Vec<(Vec2, usize)>)
        requires
            self.wf(),
            center.within_limit(),
            0 <= distance <= LIMIT,
        ensures
            names_once(found@),
            forall|k: int|
                0 <= k < found@.len() ==> (#[trigger] found@[k]).1 < self.points().len()
                    && found@[k].0 == self.points()[found@[k].1 as int],
            forall|h: usize|
                names(found@, h) <==> h < self.points().len() && within_radius(
                    self.points()[h as int],
                    center,
                    distance as int,
                ),
    {
        let low_col = self.grid.column(center.x - distance);
        let high_col = self.grid.column(center.x + distance);
        let low_row = self.grid.row(center.y - distance);
        let high_row = self.grid.row(center.y + distance);
        let ghost size = self.points@.len() as int;
        let ghost radius = distance as int;
        proof {
            self.lemma_covers(center, radius);
        }
        let mut found: Vec<(Vec2, usize)> = Vec::new();
        let mut row: usize = low_row;
        while row <= high_row
            invariant
                self.wf(),
                center.within_limit(),
                0 <= distance <= LIMIT,
                radius == distance,
                size == self.points@.len(),
                self.covers(
                    center,
                    radius,
                    low_row as int,
                    high_row as int,
                    low_col as int,
                    high_col as int,
                ),
                low_row <= row <= high_row + 1,
                self.gathered(found@, center, radius, row as int, low_col as int, size),
            decreases high_row + 1 - row,
        {
            let mut col: usize = low_col;
            while col <= high_col
                invariant
                    self.wf(),
                    center.within_limit(),
                    0 <= distance <= LIMIT,
                    radius == distance,
                    size == self.points@.len(),
                    self.covers(
                        center,
                        radius,
                        low_row as int,
                        high_row as int,
                        low_col as int,
                        high_col as int,
                    ),
                    low_row <= row <= high_row,
                    low_col <= col <= high_col + 1,
                    self.gathered(found@, center, radius, row as int, col as int, size),
                decreases high_col + 1 - col,
            {
                self.walk_cell(row, col, center, distance, &mut found);
                col += 1;
            }
            row += 1;
        }
        found
    }

    /// Walks the chain of one cell and adds to `found` every point of it
    /// that lies nearer to `center` than `distance`.
    fn walk_cell(
        &self,
        row: usize,
        col: usize,
        center: Vec2,
        distance: i64,
        found: &mut Vec<(Vec2, usize)>,
    )
        requires
            self.wf(),
            center.within_limit(),
            0 <= distance <= LIMIT,
            row < self.grid.rows,
            col < self.grid.columns,
            self.gathered(
                old(found)@,
                center,
                distance as int,
                row as int,
                col as int,
                self.points@.len() as int,
            ),
        ensures
            self.gathered(
                final(found)@,
                center,
                distance as int,
                row as int,
                col + 1,
                self.points@.len() as int,
            ),
    {
        let ghost grid = self.grid;
        let ghost points = self.points@;
        let ghost radius = distance as int;
        let size = self.points.len();
        proof {
            lemma_cell_number_bound(row as int, col as int, grid.rows as int, grid.columns as int);
            grid.lemma_last_in_cell(points, row as int, col as int, size as int);
            assert(grid.rows * grid.columns <= 1024 * 1024) by (nonlinear_arith)
                requires
                    grid.rows <= 1024,
                    grid.columns <= 1024,
            ;
        }
        let mut cursor: usize = self.head[row * self.grid.columns + col];
        let ghost mut bound: int = size as int;
        while cursor != END
            invariant
                self.wf(),
                center.within_limit(),
                0 <= distance <= LIMIT,
                radius == distance,
                grid == self.grid,
                points == self.points@,
                points.len() == size,
                row < grid.rows,
                col < grid.columns,
                0 <= bound <= size,
                cursor == link(grid.last_in_cell(points, row as int, col as int, bound)),
                self.gathered(found@, center, radius, row as int, col as int, bound),
            decreases bound,
        {
            proof {
                grid.lemma_last_in_cell(points, row as int, col as int, bound);
            }
            let ghost here: int = grid.last_in_cell(points, row as int, col as int, bound);
            let ghost earlier = found@;
            let point = self.points[cursor];
            let inside = is_within(point, center, distance);
            if inside {
                found.push((point, cursor));
                proof {
                    assert(!self.seen(here, row as int, col as int, bound));
                    assert(!names(earlier, cursor));
                    assert forall|i: int, j: int| 0 <= i < j < found@.len() implies (
                    #[trigger] found@[i]).1 != (#[trigger] found@[j]).1 by {
                        if j == earlier.len() && earlier[i].1 == cursor {
                            assert(names(earlier, cursor));
                        }
                    }
                }
            }
            cursor = self.next[cursor];
            proof {
                assert forall|h: usize|
                    names(found@, h) <==> h < size && within_radius(points[h as int], center, radius)
                        && self.seen(h as int, row as int, col as int, here) by {
                    if inside {
                        lemma_names_push(earlier, (point, here as usize), h);
                    }
                    if h < size && here < h < bound {
                        assert(!grid.holds(points[h as int], row as int, col as int));
                    }
                }
                bound = here;
            }
        }
        proof {
            grid.lemma_last_in_cell(points, row as int, col as int, bound);
            assert forall|h: usize|
                names(found@, h) <==> h < size && within_radius(points[h as int], center, radius)
                    && self.seen(h as int, row as int, col + 1, size as int) by {
                if h < bound {
                    assert(!grid.holds(points[h as int], row as int, col as int));
                }
            }
        }
    }

    /// Whether the walk has passed the point with the given handle when it
    /// stands in the given row and column with the points of that cell from
    /// `bound` on behind it.
    spec fn seen(&self, h: int, row: int, col: int, bound: int) -> bool {
        let r = self.grid.row_of(self.points@[h]);
        let c = self.grid.column_of(self.points@[h]);
        r < row || (r == row && c < col) || (r == row && c == col && h >= bound)
    }

    /// Whether `found` names, each once and with its position, exactly the
    /// points within the distance that the walk has passed.
    spec fn gathered(
        &self,
        found: Seq<(Vec2, usize)>,
        center: Vec2,
        distance: int,
        row: int,
        col: int,
        bound: int,
    ) -> bool {
        &&& names_once(found)
        &&& forall|k: int|
            0 <= k < found.len() ==> (#[trigger] found[k]).1 < self.points@.len() && found[k].0
                == self.points@[found[k].1 as int]
        &&& forall|h: usize|
            names(found, h) <==> h < self.points@.len() && within_radius(
                self.points@[h as int],
                center,
                distance,
            ) && self.seen(h as int, row, col, bound)
    }

    /// Whether the cells between the given rows and columns are cells of the
    /// grid and hold every point within the distance.
    spec fn covers(
        &self,
        center: Vec2,
        distance: int,
        low_row: int,
        high_row: int,
        low_col: int,
        high_col: int,
    ) -> bool {
        &&& 0 <= low_row <= high_row < self.grid.rows
        &&& 0 <= low_col <= high_col < self.grid.columns
        &&& forall|h: int|
            0 <= h < self.points@.len() && within_radius(#[trigger] self.points@[h], center, distance)
                ==> low_row <= self.grid.row_of(self.points@[h]) <= high_row && low_col
                <= self.grid.column_of(self.points@[h]) <= high_col
    }

    /// The cells between those of the corners of the square around the
    /// circle hold every point within the distance.
    proof fn lemma_covers(&self, center: Vec2, distance: int)
        requires
            self.wf(),
            0 <= distance,
        ensures
            self.covers(
                center,
                distance,
                axis_cell(
                    center.y - distance,
                    self.grid.origin.y as int,
                    self.grid.cell_size as int,
                    self.grid.rows as int,
                ),
                axis_cell(
                    center.y + distance,
                    self.grid.origin.y as int,
                    self.grid.cell_size as int,
                    self.grid.rows as int,
                ),
                axis_cell(
                    center.x - distance,
                    self.grid.origin.x as int,
                    self.grid.cell_size as int,
                    self.grid.columns as int,
                ),
                axis_cell(
                    center.x + distance,
                    self.grid.origin.x as int,
                    self.grid.cell_size as int,
                    self.grid.columns as int,
                ),
            ),
    {
        let g = self.grid;
        let (ox, oy, size) = (g.origin.x as int, g.origin.y as int, g.cell_size as int);
        let (rows, columns) = (g.rows as int, g.columns as int);
        lemma_axis_cell_monotonic(center.x - distance, center.x + distance, ox, size, columns);
        lemma_axis_cell_monotonic(center.y - distance, center.y + distance, oy, size, rows);
        assert forall|h: int|
            0 <= h < self.points@.len() && within_radius(
                #[trigger] self.points@[h],
                center,
                distance,
            ) implies axis_cell(center.y - distance, oy, size, rows) <= g.row_of(self.points@[h])
            <= axis_cell(center.y + distance, oy, size, rows) && axis_cell(
            center.x - distance,
            ox,
            size,
            columns,
        ) <= g.column_of(self.points@[h]) <= axis_cell(center.x + distance, ox, size, columns) by {
            let p = self.points@[h];
            lemma_within_radius_box(p, center, distance);
            lemma_axis_cell_monotonic(center.x - distance, p.x as int, ox, size, columns);
            lemma_axis_cell_monotonic(p.x as int, center.x + distance, ox, size, columns);
            lemma_axis_cell_monotonic(center.y - distance, p.y as int, oy, size, rows);
            lemma_axis_cell_monotonic(p.y as int, center.y + distance, oy, size, rows);
        }
    }
}

} // verus!
