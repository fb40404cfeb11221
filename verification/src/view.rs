use vstd::prelude::*;

use crate::digits::{digit_char, push_char};
use crate::types::{grid2_wf, grid_view, Cell};
use crate::CA1;

verus! {

/// The decimal rendering of a non-negative number, most significant digit
/// first.
pub open spec fn dec_digits(n: int) -> Seq<char>
    decreases n,
{
    if n < 10 {
        seq![digit_char(n)]
    } else {
        dec_digits(n / 10).push(digit_char(n % 10))
    }
}

/// Renders a number in decimal.
pub fn u32_string(n: u32) -> (r: String)
    ensures
        r@ == dec_digits(n as int),
    decreases n,
{
    if n < 10 {
        let mut s = String::new();
        push_char(&mut s, crate::digits::char_of_digit(n));
        proof {
            assert(s@ =~= dec_digits(n as int));
        }
        s
    } else {
        let mut s = u32_string(n / 10);
        push_char(&mut s, crate::digits::char_of_digit(n % 10));
        s
    }
}

/// The error text for a cell width that divides neither dimension.
pub open spec fn cell_width_error(cw: int, width: int, height: int) -> Seq<char> {
    "Cell width ("@ + dec_digits(cw) + ") must me divisor of width ("@ + dec_digits(width)
        + ") and height ("@ + dec_digits(height) + ")!"@
}

/// The cell size in pixels: the requested one if it divides both window
/// dimensions, else the largest of 1 to 4 that does.
pub fn get_cell_width(width: u32, height: u32, requested_cell_width: Option<u8>) -> (r: Result<
    u32,
    String,
>)
    requires
        requested_cell_width matches Some(c) ==> c > 0,
    ensures
        match requested_cell_width {
            Some(cw) => if width % (cw as u32) == 0 && height % (cw as u32) == 0 {
                r == Ok::<u32, String>(cw as u32)
            } else {
                r matches Err(m) && m@ == cell_width_error(cw as int, width as int, height as int)
            },
            None => r matches Ok(d) && 1 <= d <= 4 && width % d == 0 && height % d == 0 && (
            forall|e: u32| 1 <= e <= 4 && width % e == 0 && #[trigger] (height % e) == 0 ==> e <= d),
        },
{
    match requested_cell_width {
        Some(cw) => {
            let cw = cw as u32;
            if width % cw != 0 || height % cw != 0 {
                let mut m = String::new();
                m.append("Cell width (");
                let ws = u32_string(cw);
                m.append(ws.as_str());
                m.append(") must me divisor of width (");
                let ns = u32_string(width);
                m.append(ns.as_str());
                m.append(") and height (");
                let hs = u32_string(height);
                m.append(hs.as_str());
                m.append(")!");
                proof {
                    assert(m@ =~= cell_width_error(cw as int, width as int, height as int));
                }
                Err(m)
            } else {
                Ok(cw)
            }
        },
        None => {
            let d: u32 = if width % 4 == 0 && height % 4 == 0 {
                4
            } else if width % 3 == 0 && height % 3 == 0 {
                3
            } else if width % 2 == 0 && height % 2 == 0 {
                2
            } else {
                1
            };
            Ok(d)
        },
    }
}

/// A one-dimensional cell position: absolute, or relative to the center.
#[derive(Debug, PartialEq, Eq, Clone, Copy)]
pub enum Point1D {
    Abs(usize),
    RelToCenter(i32),
}

/// A two-dimensional cell position: absolute, or relative to the center.
#[derive(Debug, PartialEq, Eq, Clone, Copy)]
pub enum Point2D {
    Abs(usize, usize),
    RelToCenter(i32, i32),
}

/// What a shift from an origin resolves to on an axis of `limit` cells:
/// the absolute position when it lands inside.
pub open spec fn abs_coord(origin: int, shift: int, limit: int) -> Result<usize, ()> {
    if 0 <= origin + shift < limit {
        Ok((origin + shift) as usize)
    } else {
        Err(())
    }
}

/// Resolves a shift from an origin on an axis of `limit` cells.
pub fn get_abs_coord(origin: usize, shift: i32, limit: usize) -> (r: Result<usize, &'static str>)
    requires
        origin <= i64::MAX / 2,
        limit <= i64::MAX,
    ensures
        match r {
            Ok(v) => abs_coord(origin as int, shift as int, limit as int) == Ok::<usize, ()>(v),
            Err(m) => abs_coord(origin as int, shift as int, limit as int) == Err::<usize, ()>(())
                && m@ == "Relative coordinate outside bounds!"@,
        },
{
    let abs = (origin as i64) + (shift as i64);
    if abs < 0 || abs >= (limit as i64) {
        return Err("Relative coordinate outside bounds!");
    }
    Ok(abs as usize)
}

/// What a one-dimensional point resolves to on a ring of `w` cells.
pub open spec fn spec_point1d(p: Point1D, w: int) -> Result<usize, ()> {
    match p {
        Point1D::Abs(i) => Ok(i),
        Point1D::RelToCenter(sh) => abs_coord(w / 2, sh as int, w),
    }
}

/// What a sequence of one-dimensional points resolves to.
pub open spec fn spec_points1d_coords(points: Seq<Point1D>, w: int) -> Result<Seq<usize>, ()>
    decreases points.len(),
{
    if points.len() == 0 {
        Ok(Seq::empty())
    } else {
        match spec_point1d(points[0], w) {
            Err(e) => Err(e),
            Ok(v) => match spec_points1d_coords(points.skip(1), w) {
                Err(e) => Err(e),
                Ok(rest) => Ok(seq![v] + rest),
            },
        }
    }
}

/// Resolves one-dimensional points to absolute cell indexes, center-relative
/// ones against the middle of the row.
pub fn points1d_to_coords(points: Vec<Point1D>, ca_width: usize) -> (r: Result<
    Vec<usize>,
    &'static str,
>)
    requires
        ca_width <= i64::MAX,
    ensures
        match r {
            Ok(v) => spec_points1d_coords(points@, ca_width as int) == Ok::<Seq<usize>, ()>(v@),
            Err(m) => spec_points1d_coords(points@, ca_width as int) == Err::<Seq<usize>, ()>(())
                && m@ == "Relative coordinate outside bounds!"@,
        },
{
    let c = ca_width / 2;
    let mut coords: Vec<usize> = Vec::new();
    let mut k: usize = 0;
    proof {
        assert(points@.skip(0) =~= points@);
        if let Ok(rest) = spec_points1d_coords(points@, ca_width as int) {
            assert(coords@ + rest =~= rest);
        }
    }
    while k < points.len()
        invariant
            k <= points@.len(),
            c == ca_width / 2,
            ca_width <= i64::MAX,
            spec_points1d_coords(points@, ca_width as int) == (match spec_points1d_coords(
                points@.skip(k as int),
                ca_width as int,
            ) {
                Ok(rest) => Ok::<Seq<usize>, ()>(coords@ + rest),
                Err(e) => Err::<Seq<usize>, ()>(e),
            }),
        decreases points@.len() - k,
    {
        let ghost restv = points@.skip(k as int);
        proof {
            assert(restv[0] == points@[k as int]);
            assert(restv.skip(1) =~= points@.skip(k as int + 1));
        }
        let coord = match points[k] {
            Point1D::Abs(i) => i,
            Point1D::RelToCenter(shift) => match get_abs_coord(c, shift, ca_width) {
                Ok(v) => v,
                Err(m) => {
                    return Err(m);
                },
            },
        };
        let ghost prev = coords@;
        coords.push(coord);
        proof {
            if let Ok(rest) = spec_points1d_coords(points@.skip(k as int + 1), ca_width as int) {
                assert(prev + (seq![coord] + rest) =~= coords@ + rest);
            }
        }
        k = k + 1;
    }
    proof {
        assert(points@.skip(k as int) =~= Seq::<Point1D>::empty());
        assert(coords@ + Seq::<usize>::empty() =~= coords@);
    }
    Ok(coords)
}

/// What a two-dimensional point resolves to on a `w` x `h` torus.
pub open spec fn spec_point2d(p: Point2D, w: int, h: int) -> Result<(usize, usize), ()> {
    match p {
        Point2D::Abs(x, y) => Ok((x, y)),
        Point2D::RelToCenter(sx, sy) => match abs_coord(w / 2, sx as int, w) {
            Err(e) => Err(e),
            Ok(x) => match abs_coord(h / 2, sy as int, h) {
                Err(e) => Err(e),
                Ok(y) => Ok((x, y)),
            },
        },
    }
}

/// What a sequence of two-dimensional points resolves to.
pub open spec fn spec_points2d_coords(points: Seq<Point2D>, w: int, h: int) -> Result<
    Seq<(usize, usize)>,
    (),
>
    decreases points.len(),
{
    if points.len() == 0 {
        Ok(Seq::empty())
    } else {
        match spec_point2d(points[0], w, h) {
            Err(e) => Err(e),
            Ok(v) => match spec_points2d_coords(points.skip(1), w, h) {
                Err(e) => Err(e),
                Ok(rest) => Ok(seq![v] + rest),
            },
        }
    }
}

/// Resolves two-dimensional points to absolute coordinates, center-relative
/// ones against the middle of the grid.
pub fn points2d_to_coords(points: Vec<Point2D>, ca_width: usize, ca_height: usize) -> (r: Result<
    Vec<(usize, usize)>,
    &'static str,
>)
    requires
        ca_width <= i64::MAX,
        ca_height <= i64::MAX,
    ensures
        match r {
            Ok(v) => spec_points2d_coords(points@, ca_width as int, ca_height as int) == Ok::<
                Seq<(usize, usize)>,
                (),
            >(v@),
            Err(m) => spec_points2d_coords(points@, ca_width as int, ca_height as int) == Err::<
                Seq<(usize, usize)>,
                (),
            >(()) && m@ == "Relative coordinate outside bounds!"@,
        },
{
    let cx = ca_width / 2;
    let cy = ca_height / 2;
    let mut coords: Vec<(usize, usize)> = Vec::new();
    let mut k: usize = 0;
    proof {
        assert(points@.skip(0) =~= points@);
        if let Ok(rest) = spec_points2d_coords(points@, ca_width as int, ca_height as int) {
            assert(coords@ + rest =~= rest);
        }
    }
    while k < points.len()
        invariant
            k <= points@.len(),
            cx == ca_width / 2,
            cy == ca_height / 2,
            ca_width <= i64::MAX,
            ca_height <= i64::MAX,
            spec_points2d_coords(points@, ca_width as int, ca_height as int) == (match
                spec_points2d_coords(points@.skip(k as int), ca_width as int, ca_height as int) {
                Ok(rest) => Ok::<Seq<(usize, usize)>, ()>(coords@ + rest),
                Err(e) => Err::<Seq<(usize, usize)>, ()>(e),
            }),
        decreases points@.len() - k,
    {
        let ghost restv = points@.skip(k as int);
        proof {
            assert(restv[0] == points@[k as int]);
            assert(restv.skip(1) =~= points@.skip(k as int + 1));
        }
        let coord: (usize, usize) = match points[k] {
            Point2D::Abs(x, y) => (x, y),
            Point2D::RelToCenter(sx, sy) => {
                let x = match get_abs_coord(cx, sx, ca_width) {
                    Ok(v) => v,
                    Err(m) => {
                        return Err(m);
                    },
                };
                let y = match get_abs_coord(cy, sy, ca_height) {
                    Ok(v) => v,
                    Err(m) => {
                        return Err(m);
                    },
                };
                (x, y)
            },
        };
        let ghost prev = coords@;
        coords.push(coord);
        proof {
            if let Ok(rest) = spec_points2d_coords(
                points@.skip(k as int + 1),
                ca_width as int,
                ca_height as int,
            ) {
                assert(prev + (seq![coord] + rest) =~= coords@ + rest);
            }
        }
        k = k + 1;
    }
    proof {
        assert(points@.skip(k as int) =~= Seq::<Point2D>::empty());
        assert(coords@ + Seq::<(usize, usize)>::empty() =~= coords@);
    }
    Ok(coords)
}

/// A copy of a row of cells.
fn copy_row(v: &Vec<Cell>) -> (r: Vec<Cell>)
    ensures
        r@ == v@,
{
    let mut out: Vec<Cell> = Vec::new();
    let mut i: usize = 0;
    while i < v.len()
        invariant
            i <= v@.len(),
            out@ =~= v@.take(i as int),
        decreases v@.len() - i,
    {
        out.push(v[i]);
        proof {
            assert(out@ =~= v@.take(i as int + 1));
        }
        i = i + 1;
    }
    proof {
        assert(out@ =~= v@);
    }
    out
}

/// A scrolling history of a 1-D automaton: the most recent generations as
/// rows of a grid, the newest at the current row, older ones above it.
pub struct CA1View {
    pub automaton: CA1,
    pub cells: Vec<Vec<Cell>>,
    pub height: usize,
    pub current_row: usize,
    pub last_row: usize,
}

impl CA1View {
    /// A well-formed view: a rectangular history grid of the automaton's
    /// width, with the cursor inside it.
    pub open spec fn wf(self) -> bool {
        &&& self.automaton.wf()
        &&& grid2_wf(grid_view(self.cells), self.height as int, self.automaton.w as int)
        &&& 1 <= self.height
        &&& self.last_row == self.height - 1
        &&& self.current_row <= self.last_row
    }

    /// A view over the automaton with a blank history of `height` rows, the
    /// automaton's current cells as the first.
    pub fn new(automaton: CA1, height: usize) -> (r: CA1View)
        requires
            automaton.wf(),
            height >= 1,
        ensures
            r.wf(),
            r.automaton == automaton,
            r.height == height,
            r.current_row == 0,
            grid_view(r.cells)[0] == automaton.cells@,
            forall|y: int, x: int|
                1 <= y < height && 0 <= x < automaton.w ==> #[trigger] grid_view(r.cells)[y][x]
                    == 0,
    {
        let mut cells = crate::gen::zero_grid(automaton.w, height);
        let first = copy_row(&automaton.cells);
        crate::gen::set_grid_row(&mut cells, 0, first);
        proof {
            assert(grid_view(cells)[0] == automaton.cells@);
            assert forall|y: int, x: int|
                1 <= y < height && 0 <= x < automaton.w implies #[trigger] grid_view(cells)[y][x]
                == 0 by {
                assert(cells@[y]@[x] == 0);
            }
            assert forall|y: int| 0 <= y < height implies (#[trigger] grid_view(cells)[y]).len()
                == automaton.w by {
                assert(cells@[y]@.len() == automaton.w);
            }
        }
        CA1View { automaton, cells, height, current_row: 0, last_row: height - 1 }
    }

    /// The width of the history grid.
    pub fn width(&self) -> (r: usize)
        ensures
            r == self.automaton.w,
    {
        self.automaton.w
    }

    /// Advances the automaton one generation and records it: in the next
    /// history row while one is free, else by scrolling every row up one
    /// place and writing the newest generation at the bottom.
    pub fn tick(&mut self)
        requires
            old(self).wf(),
        ensures
            final(self).wf(),
            final(self).height == old(self).height,
            final(self).automaton.w == old(self).automaton.w,
            final(self).automaton.cells@ == CA1::step(
                old(self).automaton.spec_rule(),
                old(self).automaton.cells@,
                old(self).automaton.w as int,
            ),
            old(self).current_row < old(self).last_row ==> {
                &&& final(self).current_row == old(self).current_row + 1
                &&& forall|y: int|
                    0 <= y < old(self).height && y != final(self).current_row
                        ==> #[trigger] grid_view(final(self).cells)[y] == grid_view(
                        old(self).cells,
                    )[y]
                &&& grid_view(final(self).cells)[final(self).current_row as int] == final(self).automaton.cells@
            },
            old(self).current_row == old(self).last_row ==> {
                &&& final(self).current_row == old(self).current_row
                &&& forall|y: int|
                    0 <= y < old(self).last_row ==> #[trigger] grid_view(final(self).cells)[y]
                        == grid_view(old(self).cells)[y + 1]
                &&& grid_view(final(self).cells)[old(self).last_row as int] == final(self).automaton.cells@
            },
    {
        self.automaton.tick();
        let ghost auto_after = self.automaton;
        let ghost hist0 = grid_view(old(self).cells);
        let ghost w0 = old(self).automaton.w;
        proof {
            assert forall|y: int| 0 <= y < self.height implies (#[trigger] self.cells@[y])@.len()
                == w0 by {
                assert(grid_view(self.cells)[y].len() == w0);
            }
        }
        if self.current_row < self.last_row {
            self.current_row = self.current_row + 1;
            let row = copy_row(&self.automaton.cells);
            crate::gen::set_grid_row(&mut self.cells, self.current_row, row);
            proof {
                assert forall|y: int|
                    0 <= y < old(self).height && y != self.current_row implies #[trigger] grid_view(
                    self.cells,
                )[y] == hist0[y] by {
                    assert(self.cells@[y] == old(self).cells@[y]);
                }
                assert(grid_view(self.cells)[self.current_row as int]
                    == self.automaton.cells@);
                assert forall|y: int| 0 <= y < self.height implies (#[trigger] grid_view(
                    self.cells,
                )[y]).len() == self.automaton.w by {
                    assert(self.cells@[y]@.len() == w0);
                }
            }
        } else {
            let mut r: usize = 0;
            while r < self.last_row
                invariant
                    r <= self.last_row,
                    self.last_row == old(self).last_row,
                    self.last_row < self.height,
                    self.current_row == old(self).current_row,
                    self.height == old(self).height,
                    self.automaton == auto_after,
                    auto_after.w == w0,
                    auto_after.cells@.len() == w0,
                    self.cells@.len() == self.height,
                    hist0 == grid_view(old(self).cells),
                    hist0.len() == self.height,
                    forall|y: int|
                        0 <= y < self.height ==> (#[trigger] self.cells@[y])@.len() == w0,
                    forall|y: int| 0 <= y < r ==> #[trigger] self.cells@[y]@ == hist0[y + 1],
                    forall|y: int|
                        r <= y < self.height ==> #[trigger] self.cells@[y]@ == hist0[y],
                decreases self.last_row - r,
            {
                let row = copy_row(&self.cells[r + 1]);
                crate::gen::set_grid_row(&mut self.cells, r, row);
                r = r + 1;
            }
            let row = copy_row(&self.automaton.cells);
            crate::gen::set_grid_row(&mut self.cells, self.last_row, row);
            proof {
                assert forall|y: int| 0 <= y < old(self).last_row implies #[trigger] grid_view(
                    self.cells,
                )[y] == hist0[y + 1] by {
                    assert(self.cells@[y]@ == hist0[y + 1]);
                }
                assert(grid_view(self.cells)[old(self).last_row as int]
                    == self.automaton.cells@);
                assert forall|y: int| 0 <= y < self.height implies (#[trigger] grid_view(
                    self.cells,
                )[y]).len() == self.automaton.w by {
                    assert(self.cells@[y]@.len() == w0);
                }
            }
        }
    }
}

} // verus!
