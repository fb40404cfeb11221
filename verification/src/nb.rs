use vstd::prelude::*;

use crate::types::{grid2_wf, grid_view, Cell};
use vstd::arithmetic::div_mod::{
    lemma_fundamental_div_mod, lemma_fundamental_div_mod_converse,
    lemma_fundamental_div_mod_converse_mod,
};
use vstd::arithmetic::mul::lemma_mul_is_commutative;

verus! {

/// A neighborhood shape together with its range: Moore neighborhoods contain
/// every cell within Chebyshev distance `range` of the center, Von Neumann
/// neighborhoods every cell within Manhattan distance `range`.
#[derive(Debug, PartialEq, Eq, Clone, Copy)]
pub enum Neighborhood {
    Moore(u32),
    VonNeumann(u32),
}

/// Maps a signed index onto a ring of `limit` cells: the result is the unique
/// representative of `idx` modulo `limit` that lies in `[0, limit)`.
pub fn wrap_idx(idx: i64, limit: usize) -> (r: i64)
    requires
        1 <= limit <= i64::MAX,
    ensures
        r == (idx as int) % (limit as int),
        0 <= r < limit,
{
    let limit = limit as i64;
    let rem = idx % limit;
    proof {
        let xi = idx as int;
        let li = limit as int;
        if idx < 0 {
            let d = (-xi) / li;
            let m = (-xi) % li;
            lemma_fundamental_div_mod(-xi, li);
            if m == 0 {
                assert(xi == (-d) * li + 0) by (nonlinear_arith)
                    requires
                        -xi == li * d + m,
                        m == 0,
                ;
                lemma_fundamental_div_mod_converse_mod(xi, li, -d, 0);
            } else {
                assert(xi == (-d - 1) * li + (li - m)) by (nonlinear_arith)
                    requires
                        -xi == li * d + m,
                ;
                lemma_fundamental_div_mod_converse_mod(xi, li, -d - 1, li - m);
            }
        }
    }
    if rem < 0 {
        rem + limit
    } else {
        rem
    }
}

/// Side length of the bounding square of a neighborhood of the given range.
pub open spec fn nb_side(range: int) -> int {
    2 * range + 1
}

/// Number of positions in the bounding square, the center included.
pub open spec fn nb_square(range: int) -> int {
    nb_side(range) * nb_side(range)
}

/// Flat row-major index of the center within its bounding square.
pub open spec fn center_flat(range: int) -> int {
    range * nb_side(range) + range
}

/// The pre-wrap coordinates at flat row-major index `j` of the bounding
/// square around `(row, col)`.
pub open spec fn square_coord(row: int, col: int, range: int, j: int) -> (int, int) {
    (row - range + j / nb_side(range), col - range + j % nb_side(range))
}

/// The grid value at pre-wrap coordinates `rc`, each coordinate wrapped
/// toroidally into the `h` x `w` grid.
pub open spec fn cell_at(g: Seq<Seq<Cell>>, h: int, w: int, rc: (int, int)) -> Cell {
    g[rc.0 % h][rc.1 % w]
}

/// Manhattan distance between pre-wrap coordinates `rc` and the center.
pub open spec fn manhattan(row: int, col: int, rc: (int, int)) -> int {
    vstd::math::abs(rc.0 - row) + vstd::math::abs(rc.1 - col) as int
}

/// Moore neighbor values of `(row, col)` from flat position `j` onward, in
/// row-major traversal order, the center excluded.
pub open spec fn moore_from(
    g: Seq<Seq<Cell>>,
    h: int,
    w: int,
    row: int,
    col: int,
    range: int,
    j: int,
) -> Seq<Cell>
    decreases nb_square(range) - j,
{
    if j < 0 || j >= nb_square(range) {
        Seq::empty()
    } else if j == center_flat(range) {
        moore_from(g, h, w, row, col, range, j + 1)
    } else {
        seq![cell_at(g, h, w, square_coord(row, col, range, j))] + moore_from(
            g,
            h,
            w,
            row,
            col,
            range,
            j + 1,
        )
    }
}

/// All Moore neighbors of `(row, col)` within `range`, in traversal order.
pub open spec fn moore_neighbors(
    g: Seq<Seq<Cell>>,
    h: int,
    w: int,
    row: int,
    col: int,
    range: int,
) -> Seq<Cell> {
    moore_from(g, h, w, row, col, range, 0)
}

/// Von Neumann neighbor values of `(row, col)` from flat position `j` onward:
/// the Moore traversal restricted to Manhattan distance at most `range`.
pub open spec fn von_neumann_from(
    g: Seq<Seq<Cell>>,
    h: int,
    w: int,
    row: int,
    col: int,
    range: int,
    j: int,
) -> Seq<Cell>
    decreases nb_square(range) - j,
{
    if j < 0 || j >= nb_square(range) {
        Seq::empty()
    } else if j == center_flat(range) || manhattan(row, col, square_coord(row, col, range, j))
        > range {
        von_neumann_from(g, h, w, row, col, range, j + 1)
    } else {
        seq![cell_at(g, h, w, square_coord(row, col, range, j))] + von_neumann_from(
            g,
            h,
            w,
            row,
            col,
            range,
            j + 1,
        )
    }
}

/// All Von Neumann neighbors of `(row, col)` within `range`, in traversal order.
pub open spec fn von_neumann_neighbors(
    g: Seq<Seq<Cell>>,
    h: int,
    w: int,
    row: int,
    col: int,
    range: int,
) -> Seq<Cell> {
    von_neumann_from(g, h, w, row, col, range, 0)
}

/// A flat row-major index formed from in-bounds row and column offsets lies
/// within the square.
proof fn lemma_flat_bound(a: int, b: int, side: int)
    requires
        0 <= a < side,
        0 <= b < side,
    ensures
        0 <= a * side + b < side * side,
{
    assert(0 <= a * side + b < side * side) by (nonlinear_arith)
        requires
            0 <= a < side,
            0 <= b < side,
    ;
}

/// The Moore traversal from position `j` holds one value per remaining
/// position, less one for the center if it has not yet been passed.
pub proof fn lemma_moore_from_len(
    g: Seq<Seq<Cell>>,
    h: int,
    w: int,
    row: int,
    col: int,
    range: int,
    j: int,
)
    requires
        range >= 0,
        0 <= j <= nb_square(range),
    ensures
        moore_from(g, h, w, row, col, range, j).len() == nb_square(range) - j - (
        if j <= center_flat(range) {
            1int
        } else {
            0int
        }),
    decreases nb_square(range) - j,
{
    lemma_flat_bound(range, range, nb_side(range));
    assert(center_flat(range) == range * nb_side(range) + range);
    if j < nb_square(range) {
        lemma_moore_from_len(g, h, w, row, col, range, j + 1);
    }
}

/// A Moore neighborhood of range `r` has exactly `(2r+1)^2 - 1` members.
pub proof fn lemma_moore_neighbors_len(
    g: Seq<Seq<Cell>>,
    h: int,
    w: int,
    row: int,
    col: int,
    range: int,
)
    requires
        range >= 0,
    ensures
        moore_neighbors(g, h, w, row, col, range).len() == nb_square(range) - 1,
{
    lemma_moore_from_len(g, h, w, row, col, range, 0);
}

/// The Von Neumann traversal never holds more values than the Moore one.
pub proof fn lemma_von_neumann_from_len_le(
    g: Seq<Seq<Cell>>,
    h: int,
    w: int,
    row: int,
    col: int,
    range: int,
    j: int,
)
    requires
        range >= 0,
        0 <= j <= nb_square(range),
    ensures
        von_neumann_from(g, h, w, row, col, range, j).len() <= nb_square(range) - j - (
        if j <= center_flat(range) {
            1int
        } else {
            0int
        }),
    decreases nb_square(range) - j,
{
    lemma_flat_bound(range, range, nb_side(range));
    assert(center_flat(range) == range * nb_side(range) + range);
    if j < nb_square(range) {
        lemma_von_neumann_from_len_le(g, h, w, row, col, range, j + 1);
    }
}

/// Number of Von Neumann members in the bounding-square row of offset `a`
/// whose column offset is at least `b`: the columns within the diamond,
/// less the center when it lies in that stretch.
pub open spec fn vn_row_count(range: int, a: int, b: int) -> int {
    let d = vstd::math::abs(a - range) as int;
    let lo = vstd::math::max(b, d);
    let hi = 2 * range - d;
    (if lo <= hi {
        hi - lo + 1
    } else {
        0
    }) - (if a == range && b <= range {
        1int
    } else {
        0int
    })
}

/// Number of Von Neumann members in the bounding-square rows of offset `a`
/// and below.
pub open spec fn vn_rows_total(range: int, a: int) -> int
    decreases nb_side(range) - a,
{
    if a < 0 || a >= nb_side(range) {
        0
    } else {
        vn_row_count(range, a, 0) + vn_rows_total(range, a + 1)
    }
}

/// Within one bounding-square row, the Von Neumann traversal holds exactly
/// the columns of the diamond stretch that are still ahead.
proof fn lemma_vn_row(
    g: Seq<Seq<Cell>>,
    h: int,
    w: int,
    row: int,
    col: int,
    range: int,
    a: int,
    b: int,
)
    requires
        range >= 0,
        0 <= a < nb_side(range),
        0 <= b <= nb_side(range),
    ensures
        von_neumann_from(g, h, w, row, col, range, a * nb_side(range) + b).len() == vn_row_count(
            range,
            a,
            b,
        ) + von_neumann_from(g, h, w, row, col, range, (a + 1) * nb_side(range)).len(),
    decreases nb_side(range) - b,
{
    let side = nb_side(range);
    assert((a + 1) * side == a * side + side) by (nonlinear_arith);
    assert(0 <= a * side && (a + 1) * side <= side * side) by (nonlinear_arith)
        requires
            0 <= a < side,
    ;
    assert(nb_square(range) == side * side);
    if b == side {
        assert(vn_row_count(range, a, b) == 0);
    } else {
        let j = a * side + b;
        lemma_flat_bound(a, b, side);
        lemma_fundamental_div_mod_converse(j, side, a, b);
        lemma_vn_row(g, h, w, row, col, range, a, b + 1);
        let rc = square_coord(row, col, range, j);
        assert(rc.0 - row == a - range && rc.1 - col == b - range);
        if j == center_flat(range) {
            lemma_fundamental_div_mod_converse(center_flat(range), side, range, range);
            assert(a == range && b == range);
        } else {
            if a == range && b == range {
                assert(j == range * side + range);
            }
        }
        assert(vn_row_count(range, a, b) == vn_row_count(range, a, b + 1) + (
        if a == range && b == range {
            0int
        } else if vstd::math::abs(a - range) + vstd::math::abs(b - range) <= range {
            1int
        } else {
            0int
        }));
    }
}

/// The Von Neumann traversal from a row boundary onward holds one member
/// per diamond position in the remaining rows.
proof fn lemma_vn_rows(
    g: Seq<Seq<Cell>>,
    h: int,
    w: int,
    row: int,
    col: int,
    range: int,
    a: int,
)
    requires
        range >= 0,
        0 <= a <= nb_side(range),
    ensures
        von_neumann_from(g, h, w, row, col, range, a * nb_side(range)).len() == vn_rows_total(
            range,
            a,
        ),
    decreases nb_side(range) - a,
{
    let side = nb_side(range);
    if a == side {
        assert(a * side == side * side) by (nonlinear_arith)
            requires
                a == side,
        ;
        assert(nb_square(range) == side * side);
    } else {
        lemma_vn_row(g, h, w, row, col, range, a, 0);
        lemma_vn_rows(g, h, w, row, col, range, a + 1);
    }
}

/// The diamond rows of offset `a` and below hold `2r^2+2r-a^2` members up
/// to the center row, and a perfect square of them past it.
proof fn lemma_vn_rows_total_value(range: int, a: int)
    requires
        range >= 0,
        0 <= a <= nb_side(range),
    ensures
        vn_rows_total(range, a) == if a <= range {
            2 * range * range + 2 * range - a * a
        } else {
            (2 * range + 1 - a) * (2 * range + 1 - a)
        },
    decreases nb_side(range) - a,
{
    let side = nb_side(range);
    if a == side {
        assert((2 * range + 1 - a) * (2 * range + 1 - a) == 0) by (nonlinear_arith)
            requires
                a == 2 * range + 1,
        ;
    } else {
        lemma_vn_rows_total_value(range, a + 1);
        if a < range {
            assert(vn_row_count(range, a, 0) == 2 * a + 1);
            assert(2 * range * range + 2 * range - a * a == (2 * a + 1) + (2 * range * range + 2
                * range - (a + 1) * (a + 1))) by (nonlinear_arith);
        } else if a == range {
            assert(vn_row_count(range, a, 0) == 2 * range);
            assert(2 * range * range + 2 * range - range * range == 2 * range + (2 * range + 1 - (
            range + 1)) * (2 * range + 1 - (range + 1))) by (nonlinear_arith);
        } else {
            assert(vn_row_count(range, a, 0) == 4 * range - 2 * a + 1);
            assert((2 * range + 1 - a) * (2 * range + 1 - a) == (4 * range - 2 * a + 1) + (2
                * range + 1 - (a + 1)) * (2 * range + 1 - (a + 1))) by (nonlinear_arith);
        }
    }
}

/// A Von Neumann neighborhood of range `r` has exactly `2r(r+1)` members.
pub proof fn lemma_von_neumann_neighbors_len(
    g: Seq<Seq<Cell>>,
    h: int,
    w: int,
    row: int,
    col: int,
    range: int,
)
    requires
        range >= 0,
    ensures
        von_neumann_neighbors(g, h, w, row, col, range).len() == 2 * range * (range + 1),
{
    let side = nb_side(range);
    assert((0int) * side == 0) by (nonlinear_arith);
    lemma_vn_rows(g, h, w, row, col, range, 0);
    lemma_vn_rows_total_value(range, 0);
    assert(2 * range * range + 2 * range - 0 * 0 == 2 * range * (range + 1)) by (nonlinear_arith);
}

/// The center is the only position of the bounding square whose pre-wrap
/// coordinates coincide with the center's own.
proof fn lemma_center_coord(row: int, col: int, range: int, j: int)
    requires
        range >= 0,
        0 <= j < nb_square(range),
    ensures
        square_coord(row, col, range, j) == (row, col) <==> j == center_flat(range),
{
    let side = nb_side(range);
    if j == center_flat(range) {
        lemma_fundamental_div_mod_converse(j, side, range, range);
    }
    if square_coord(row, col, range, j) == (row, col) {
        assert(j / side == range && j % side == range);
        lemma_fundamental_div_mod(j, side);
        lemma_mul_is_commutative(side, range);
    }
}

/// Walks the pre-wrap coordinates of the bounding square around a center, in
/// row-major order, the center included.
struct NeighborhoodCoordinatesIterator {
    row: i64,
    col: i64,
    nbrow: i64,
    nbcol: i64,
    lastrow: i64,
    lastcol: i64,
    startcol: i64,
    finished: bool,
}

impl NeighborhoodCoordinatesIterator {
    /// The range the iterator was created with.
    spec fn range(self) -> int {
        self.col - self.startcol
    }

    spec fn startrow(self) -> int {
        self.row - self.range()
    }

    /// Flat row-major index of the next coordinate to be produced.
    spec fn pos(self) -> int {
        if self.finished {
            nb_square(self.range())
        } else {
            (self.nbrow - self.startrow()) * nb_side(self.range()) + (self.nbcol - self.startcol)
        }
    }

    spec fn wf(self) -> bool {
        &&& self.startcol <= self.col
        &&& self.lastcol == self.col + self.range()
        &&& self.lastrow == self.row + self.range()
        &&& !self.finished ==> {
            &&& self.startrow() <= self.nbrow <= self.lastrow
            &&& self.startcol <= self.nbcol <= self.lastcol
        }
        &&& 0 <= self.pos()
        &&& !self.finished ==> self.pos() < nb_square(self.range())
    }

    spec fn keeps_center(self, other: Self) -> bool {
        &&& other.row == self.row
        &&& other.col == self.col
        &&& other.startcol == self.startcol
        &&& other.lastrow == self.lastrow
        &&& other.lastcol == self.lastcol
    }

    fn new(row: usize, col: usize, range: u32) -> (r: Self)
        requires
            row + range <= i64::MAX,
            col + range <= i64::MAX,
        ensures
            r.wf(),
            r.row == row,
            r.col == col,
            r.range() == range,
            r.pos() == 0,
    {
        let row_sgn = row as i64;
        let col_sgn = col as i64;
        let range_sgn = range as i64;
        let nbrow = row_sgn - range_sgn;
        let nbcol = col_sgn - range_sgn;
        let lastrow = row_sgn + range_sgn;
        let lastcol = col_sgn + range_sgn;
        let r = NeighborhoodCoordinatesIterator {
            row: row_sgn,
            col: col_sgn,
            nbrow,
            nbcol,
            lastrow,
            lastcol,
            startcol: nbcol,
            finished: false,
        };
        proof {
            lemma_flat_bound(0, 0, nb_side(r.range()));
            assert(r.pos() == (0int) * nb_side(r.range()) + 0);
        }
        r
    }

    fn advance(&mut self)
        requires
            old(self).wf(),
            !old(self).finished,
        ensures
            final(self).wf(),
            old(self).keeps_center(*final(self)),
            final(self).pos() == old(self).pos() + 1,
    {
        proof {
            let side = nb_side(self.range());
            let a = self.nbrow - self.startrow();
            let b = self.nbcol - self.startcol;
            assert(nb_square(self.range()) == side * side);
            if self.nbcol < self.lastcol {
                lemma_flat_bound(a, b + 1, side);
            } else if self.nbrow < self.lastrow {
                assert((a + 1) * side == a * side + side) by (nonlinear_arith);
                lemma_flat_bound(a + 1, 0, side);
            } else {
                assert(a * side + b + 1 == side * side) by (nonlinear_arith)
                    requires
                        a == side - 1,
                        b == side - 1,
                ;
            }
        }
        if self.nbcol < self.lastcol {
            self.nbcol = self.nbcol + 1;
        } else if self.nbrow < self.lastrow {
            self.nbrow = self.nbrow + 1;
            self.nbcol = self.startcol;
        } else {
            self.finished = true;
        }
    }

    fn next(&mut self) -> (r: Option<(i64, i64)>)
        requires
            old(self).wf(),
        ensures
            final(self).wf(),
            old(self).keeps_center(*final(self)),
            old(self).pos() < nb_square(old(self).range()) ==> {
                &&& final(self).pos() == old(self).pos() + 1
                &&& r matches Some(rc) && (rc.0 as int, rc.1 as int) == square_coord(
                    old(self).row as int,
                    old(self).col as int,
                    old(self).range(),
                    old(self).pos(),
                ) && old(self).startrow() <= rc.0 <= old(self).lastrow && old(self).startcol
                    <= rc.1 <= old(self).lastcol
            },
            old(self).pos() >= nb_square(old(self).range()) ==> {
                &&& r is None
                &&& *final(self) == *old(self)
            },
    {
        if self.finished {
            return None;
        }
        let result = (self.nbrow, self.nbcol);
        proof {
            let side = nb_side(self.range());
            let a = self.nbrow - self.startrow();
            let b = self.nbcol - self.startcol;
            lemma_flat_bound(a, b, side);
            lemma_fundamental_div_mod_converse(self.pos(), side, a, b);
        }
        self.advance();
        Some(result)
    }
}

/// Produces the Moore neighbors of a grid cell in row-major traversal order,
/// each coordinate wrapped toroidally, the center excluded.
pub struct MooreNeighborhoodIterator<'a> {
    cells: &'a Vec<Vec<Cell>>,
    w: usize,
    h: usize,
    nci: NeighborhoodCoordinatesIterator,
}

impl<'a> MooreNeighborhoodIterator<'a> {
    /// The neighbor values this iterator has not yet produced.
    pub closed spec fn remaining(self) -> Seq<Cell> {
        moore_from(
            grid_view(*self.cells),
            self.h as int,
            self.w as int,
            self.nci.row as int,
            self.nci.col as int,
            self.nci.range(),
            self.nci.pos(),
        )
    }

    pub closed spec fn wf(self) -> bool {
        &&& self.nci.wf()
        &&& grid2_wf(grid_view(*self.cells), self.h as int, self.w as int)
        &&& 1 <= self.h <= i64::MAX
        &&& 1 <= self.w <= i64::MAX
        &&& 0 <= self.nci.row < self.h
        &&& 0 <= self.nci.col < self.w
    }

    pub fn new(
        cells: &'a Vec<Vec<Cell>>,
        width: usize,
        height: usize,
        row: usize,
        col: usize,
        range: u32,
    ) -> (r: Self)
        requires
            grid2_wf(grid_view(*cells), height as int, width as int),
            row < height,
            col < width,
            height + range <= i64::MAX,
            width + range <= i64::MAX,
        ensures
            r.wf(),
            r.remaining() == moore_neighbors(
                grid_view(*cells),
                height as int,
                width as int,
                row as int,
                col as int,
                range as int,
            ),
    {
        let nci = NeighborhoodCoordinatesIterator::new(row, col, range);
        MooreNeighborhoodIterator { cells, w: width, h: height, nci }
    }

    /// Produces the next neighbor value, or `None` once every neighbor of the
    /// square has been produced.
    pub fn next(&mut self) -> (r: Option<Cell>)
        requires
            old(self).wf(),
        ensures
            final(self).wf(),
            old(self).remaining().len() > 0 ==> {
                &&& r == Some(old(self).remaining()[0])
                &&& final(self).remaining() == old(self).remaining().skip(1)
            },
            old(self).remaining().len() == 0 ==> {
                &&& r is None
                &&& final(self).remaining() == old(self).remaining()
            },
    {
        loop
            invariant
                self.wf(),
                old(self).nci.keeps_center(self.nci),
                self.cells == old(self).cells,
                self.w == old(self).w,
                self.h == old(self).h,
                self.remaining() == old(self).remaining(),
            decreases nb_square(self.nci.range()) - self.nci.pos(),
        {
            let ghost pre = *self;
            let ghost g = grid_view(*self.cells);
            match self.nci.next() {
                Some((row, col)) => {
                    proof {
                        lemma_center_coord(
                            pre.nci.row as int,
                            pre.nci.col as int,
                            pre.nci.range(),
                            pre.nci.pos(),
                        );
                    }
                    if self.nci.row == row && self.nci.col == col {
                        proof {
                            assert(pre.remaining() == self.remaining());
                        }
                    } else {
                        proof {
                            assert(pre.nci.pos() != center_flat(pre.nci.range()));
                            assert(pre.remaining() == seq![
                                cell_at(
                                    g,
                                    self.h as int,
                                    self.w as int,
                                    square_coord(
                                        pre.nci.row as int,
                                        pre.nci.col as int,
                                        pre.nci.range(),
                                        pre.nci.pos(),
                                    ),
                                ),
                            ] + self.remaining());
                            assert(pre.remaining().skip(1) =~= self.remaining());
                        }
                        let rw = wrap_idx(row, self.h) as usize;
                        let cw = wrap_idx(col, self.w) as usize;
                        let v = self.cells[rw][cw];
                        proof {
                            assert(g[rw as int] == self.cells@[rw as int]@);
                            assert(g[rw as int][cw as int] == v);
                            assert(pre.remaining()[0] == v);
                        }
                        return Some(v);
                    }
                },
                None => {
                    return None;
                },
            }
        }
    }
}

/// Produces the Von Neumann neighbors of a grid cell: the Moore traversal
/// restricted to Manhattan distance at most `range`, center excluded.
pub struct VonNeumannNeighborhoodIterator<'a> {
    cells: &'a Vec<Vec<Cell>>,
    w: usize,
    h: usize,
    range: i64,
    nci: NeighborhoodCoordinatesIterator,
}

impl<'a> VonNeumannNeighborhoodIterator<'a> {
    /// The neighbor values this iterator has not yet produced.
    pub closed spec fn remaining(self) -> Seq<Cell> {
        von_neumann_from(
            grid_view(*self.cells),
            self.h as int,
            self.w as int,
            self.nci.row as int,
            self.nci.col as int,
            self.nci.range(),
            self.nci.pos(),
        )
    }

    pub closed spec fn wf(self) -> bool {
        &&& self.nci.wf()
        &&& grid2_wf(grid_view(*self.cells), self.h as int, self.w as int)
        &&& 1 <= self.h <= i64::MAX
        &&& 1 <= self.w <= i64::MAX
        &&& 0 <= self.nci.row < self.h
        &&& 0 <= self.nci.col < self.w
        &&& self.range == self.nci.range()
        &&& self.nci.range() <= u32::MAX
    }

    pub fn new(
        cells: &'a Vec<Vec<Cell>>,
        width: usize,
        height: usize,
        row: usize,
        col: usize,
        range: u32,
    ) -> (r: Self)
        requires
            grid2_wf(grid_view(*cells), height as int, width as int),
            row < height,
            col < width,
            height + range <= i64::MAX,
            width + range <= i64::MAX,
        ensures
            r.wf(),
            r.remaining() == von_neumann_neighbors(
                grid_view(*cells),
                height as int,
                width as int,
                row as int,
                col as int,
                range as int,
            ),
    {
        let nci = NeighborhoodCoordinatesIterator::new(row, col, range);
        VonNeumannNeighborhoodIterator { cells, w: width, h: height, range: range as i64, nci }
    }

    /// Produces the next neighbor value, or `None` once every neighbor of the
    /// diamond has been produced.
    pub fn next(&mut self) -> (r: Option<Cell>)
        requires
            old(self).wf(),
        ensures
            final(self).wf(),
            old(self).remaining().len() > 0 ==> {
                &&& r == Some(old(self).remaining()[0])
                &&& final(self).remaining() == old(self).remaining().skip(1)
            },
            old(self).remaining().len() == 0 ==> {
                &&& r is None
                &&& final(self).remaining() == old(self).remaining()
            },
    {
        loop
            invariant
                self.wf(),
                old(self).nci.keeps_center(self.nci),
                self.cells == old(self).cells,
                self.w == old(self).w,
                self.h == old(self).h,
                self.range == old(self).range,
                self.remaining() == old(self).remaining(),
            decreases nb_square(self.nci.range()) - self.nci.pos(),
        {
            let ghost pre = *self;
            let ghost g = grid_view(*self.cells);
            match self.nci.next() {
                Some((row, col)) => {
                    proof {
                        lemma_center_coord(
                            pre.nci.row as int,
                            pre.nci.col as int,
                            pre.nci.range(),
                            pre.nci.pos(),
                        );
                    }
                    let ghost rc = square_coord(
                        pre.nci.row as int,
                        pre.nci.col as int,
                        pre.nci.range(),
                        pre.nci.pos(),
                    );
                    let dr = abs_diff_i64(self.nci.row, row);
                    let dc = abs_diff_i64(self.nci.col, col);
                    let dist = dr + dc;
                    proof {
                        assert(dist == manhattan(pre.nci.row as int, pre.nci.col as int, rc));
                    }
                    if dist > self.range {
                        proof {
                            assert(pre.remaining() == self.remaining());
                        }
                    } else if self.nci.row == row && self.nci.col == col {
                        proof {
                            assert(pre.remaining() == self.remaining());
                        }
                    } else {
                        proof {
                            assert(pre.nci.pos() != center_flat(pre.nci.range()));
                            assert(pre.remaining() == seq![
                                cell_at(g, self.h as int, self.w as int, rc),
                            ] + self.remaining());
                            assert(pre.remaining().skip(1) =~= self.remaining());
                        }
                        let rw = wrap_idx(row, self.h) as usize;
                        let cw = wrap_idx(col, self.w) as usize;
                        let v = self.cells[rw][cw];
                        proof {
                            assert(g[rw as int] == self.cells@[rw as int]@);
                            assert(g[rw as int][cw as int] == v);
                            assert(pre.remaining()[0] == v);
                        }
                        return Some(v);
                    }
                },
                None => {
                    return None;
                },
            }
        }
    }
}

/// The absolute difference of two signed indices, as a non-negative value.
fn abs_diff_i64(a: i64, b: i64) -> (r: i64)
    requires
        -0x2000_0000_0000_0000 <= a - b <= 0x2000_0000_0000_0000,
    ensures
        r == vstd::math::abs(b - a),
{
    if a >= b {
        a - b
    } else {
        b - a
    }
}

} // verus!
