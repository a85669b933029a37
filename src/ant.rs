//! Langton's Ant: a single agent that repaints the cell it stands on, turns
//! according to the cell's previous colour, and moves one cell forward.
use vstd::prelude::*;
use crate::{apply_inputs, before, flags_after, rows_of, Input};

verus! {

/// The heading of the ant. `N` is towards smaller `y`, `E` towards larger `x`.
#[derive(Copy, Clone, Debug, PartialEq, Eq, Structural)]
pub enum Direction {
    N,
    E,
    S,
    W,
}

/// The state of one cell of the ant's grid: never visited, or one of two marks.
#[derive(Copy, Clone, Debug, PartialEq, Eq, Structural)]
pub enum CellColor {
    Unmarked,
    Red,
    White,
}

/// A quarter turn, counter-clockwise (`Left`) or clockwise (`Right`).
#[derive(Copy, Clone, Debug, PartialEq, Eq, Structural)]
pub enum Turn {
    Left,
    Right,
}

/// The heading after turning `d` by a quarter turn in direction `t`.
pub open spec fn turned(d: Direction, t: Turn) -> Direction {
    match t {
        Turn::Left => match d {
            Direction::N => Direction::W,
            Direction::E => Direction::N,
            Direction::S => Direction::E,
            Direction::W => Direction::S,
        },
        Turn::Right => match d {
            Direction::N => Direction::E,
            Direction::E => Direction::S,
            Direction::S => Direction::W,
            Direction::W => Direction::N,
        },
    }
}

/// The colour a cell is repainted with when the ant leaves it.
pub open spec fn repainted(c: CellColor) -> CellColor {
    match c {
        CellColor::Red => CellColor::White,
        _ => CellColor::Red,
    }
}

/// The turn the ant makes on a cell of colour `c`.
pub open spec fn turn_on(c: CellColor) -> Turn {
    match c {
        CellColor::Red => Turn::Right,
        _ => Turn::Left,
    }
}

/// The position one cell ahead of `(x, y)` in direction `d`.
pub open spec fn moved(x: int, y: int, d: Direction) -> (int, int) {
    match d {
        Direction::N => (x, y - 1),
        Direction::E => (x + 1, y),
        Direction::S => (x, y + 1),
        Direction::W => (x - 1, y),
    }
}

/// Turns heading `d` a quarter turn in direction `t`.
pub fn apply_dir(d: Direction, t: Turn) -> (r: Direction)
    ensures
        r == turned(d, t),
{
    match t {
        Turn::Left => match d {
            Direction::N => Direction::W,
            Direction::E => Direction::N,
            Direction::S => Direction::E,
            Direction::W => Direction::S,
        },
        Turn::Right => match d {
            Direction::N => Direction::E,
            Direction::E => Direction::S,
            Direction::S => Direction::W,
            Direction::W => Direction::N,
        },
    }
}

/// The rule table: the colour a cell of colour `c` is repainted with, and the
/// turn the ant makes on it.
pub fn rule(c: CellColor) -> (r: (CellColor, Turn))
    ensures
        r == (repainted(c), turn_on(c)),
{
    match c {
        CellColor::Unmarked => (CellColor::Red, Turn::Left),
        CellColor::White => (CellColor::Red, Turn::Left),
        CellColor::Red => (CellColor::White, Turn::Right),
    }
}

/// Side of the square grid that `Ant::new` starts on.
pub const GRID_SIZE: u32 = 75;

/// `h` rows of `w` unmarked cells.
pub open spec fn blank(w: int, h: int) -> Seq<Seq<CellColor>> {
    Seq::new(h as nat, |y: int| Seq::new(w as nat, |x: int| CellColor::Unmarked))
}

/// `cells` with the cell at `(x, y)` replaced by `c`.
pub open spec fn painted(cells: Seq<Seq<CellColor>>, x: int, y: int, c: CellColor) -> Seq<
    Seq<CellColor>,
> {
    cells.update(y, cells[y].update(x, c))
}

/// A grid of `h` rows of `w` unmarked cells.
pub fn make_grid(_w: u32, _h: u32) -> (r: Vec<Vec<CellColor>>)
    ensures
        rows_of(r@) == blank(_w as int, _h as int),
{
    let mut body: Vec<Vec<CellColor>> = Vec::new();
    let mut y: u32 = 0;
    while y < _h
        invariant
            y <= _h,
            body@.len() == y,
            forall|yy: int| 0 <= yy < y ==> #[trigger] body@[yy]@ == blank(_w as int, _h as int)[yy],
        decreases _h - y,
    {
        let mut row: Vec<CellColor> = Vec::new();
        let mut x: u32 = 0;
        while x < _w
            invariant
                x <= _w,
                row@.len() == x,
                forall|xx: int| 0 <= xx < x ==> #[trigger] row@[xx] == CellColor::Unmarked,
            decreases _w - x,
        {
            row.push(CellColor::Unmarked);
            x = x + 1;
        }
        assert(row@ =~= blank(_w as int, _h as int)[y as int]);
        body.push(row);
        y = y + 1;
    }
    assert(rows_of(body@) =~= blank(_w as int, _h as int));
    body
}

/// The ant's world: a grid of coloured cells, with the two flags its driver
/// steers it by.
pub struct Grid {
    body: Vec<Vec<CellColor>>,
    w: u32,
    h: u32,
    is_running: bool,
    is_updating: bool,
}

impl Grid {
    /// The grid, row by row: `cells()[y][x]` is the cell at `(x, y)`.
    pub closed spec fn cells(&self) -> Seq<Seq<CellColor>> {
        rows_of(self.body@)
    }

    /// Whether the driver should keep going.
    pub closed spec fn running(&self) -> bool {
        self.is_running
    }

    /// Whether the ant moves on each tick of the driver.
    pub closed spec fn updating(&self) -> bool {
        self.is_updating
    }

    pub closed spec fn width(&self) -> int {
        self.w as int
    }

    pub closed spec fn height(&self) -> int {
        self.h as int
    }

    /// The grid is non-empty and has `height()` rows of `width()` cells.
    pub closed spec fn wf(&self) -> bool {
        &&& self.w > 0
        &&& self.h > 0
        &&& self.cells().len() == self.h
        &&& forall|y: int| 0 <= y < self.h ==> #[trigger] self.cells()[y].len() == self.w
    }

    /// Whether `(x, y)` is a cell of this grid.
    pub open spec fn contains(&self, x: int, y: int) -> bool {
        0 <= x < self.width() && 0 <= y < self.height()
    }

    /// An all-unmarked grid of `_w` by `_h` cells, running and paused; `None`
    /// when either side is zero.
    pub fn generate(_w: u32, _h: u32) -> (r: Option<Grid>)
        ensures
            r is Some <==> _w > 0 && _h > 0,
            r matches Some(g) ==> {
                &&& g.wf()
                &&& g.width() == _w
                &&& g.height() == _h
                &&& g.cells() == blank(_w as int, _h as int)
                &&& g.running()
                &&& !g.updating()
            },
    {
        if _w == 0 || _h == 0 {
            return None;
        }
        Some(Grid { body: make_grid(_w, _h), w: _w, h: _h, is_running: true, is_updating: false })
    }

    pub fn is_running(&self) -> (r: bool)
        ensures
            r == self.running(),
    {
        self.is_running
    }

    pub fn is_updating(&self) -> (r: bool)
        ensures
            r == self.updating(),
    {
        self.is_updating
    }

    pub fn width_of(&self) -> (r: u32)
        ensures
            r == self.width(),
    {
        self.w
    }

    pub fn height_of(&self) -> (r: u32)
        ensures
            r == self.height(),
    {
        self.h
    }

    fn get_cell(&self, coord: (u32, u32)) -> (r: CellColor)
        requires
            self.wf(),
            self.contains(coord.0 as int, coord.1 as int),
        ensures
            r == self.cells()[coord.1 as int][coord.0 as int],
    {
        assert(self.body@[coord.1 as int]@ == self.cells()[coord.1 as int]);
        self.body[coord.1 as usize][coord.0 as usize]
    }

    fn paint(&mut self, coord: (u32, u32), cl: CellColor)
        requires
            old(self).wf(),
            old(self).contains(coord.0 as int, coord.1 as int),
        ensures
            final(self).wf(),
            final(self).cells() == painted(
                old(self).cells(),
                coord.0 as int,
                coord.1 as int,
                cl,
            ),
            final(self).width() == old(self).width(),
            final(self).height() == old(self).height(),
            final(self).running() == old(self).running(),
            final(self).updating() == old(self).updating(),
    {
        let ghost prior = self.cells();
        assert(self.body@[coord.1 as int]@ == prior[coord.1 as int]);
        self.body[coord.1 as usize][coord.0 as usize] = cl;
        assert(self.cells() =~= painted(prior, coord.0 as int, coord.1 as int, cl));
    }

    /// Applies the driver's inputs, in order: `Quit` stops the simulation,
    /// `TogglePause` pauses or resumes the ant, the others change nothing.
    pub fn collect_events(&mut self, events: &Vec<Input>)
        requires
            old(self).wf(),
        ensures
            final(self).wf(),
            final(self).cells() == old(self).cells(),
            final(self).width() == old(self).width(),
            final(self).height() == old(self).height(),
            (final(self).running(), final(self).updating()) == flags_after(
                (old(self).running(), old(self).updating()),
                events@,
            ),
    {
        let (running, updating) = apply_inputs((self.is_running, self.is_updating), events);
        self.is_running = running;
        self.is_updating = updating;
    }

    /// The cells of colour `c`, as `(x, y)` pairs ordered by `x` and then by `y`,
    /// each once.
    pub fn cells_with(&self, c: CellColor) -> (r: Vec<(u32, u32)>)
        requires
            self.wf(),
        ensures
            forall|i: int, j: int| 0 <= i < j < r@.len() ==> before(r@[i], r@[j]),
            forall|i: int|
                0 <= i < r@.len() ==> {
                    &&& self.contains(#[trigger] r@[i].0 as int, r@[i].1 as int)
                    &&& self.cells()[r@[i].1 as int][r@[i].0 as int] == c
                },
            forall|x: u32, y: u32|
                self.contains(x as int, y as int) && self.cells()[y as int][x as int] == c
                    ==> #[trigger] r@.contains((x, y)),
    {
        let mut out: Vec<(u32, u32)> = Vec::new();
        let mut x: u32 = 0;
        while x < self.w
            invariant
                self.wf(),
                x <= self.w,
                forall|i: int, j: int| 0 <= i < j < out@.len() ==> before(out@[i], out@[j]),
                forall|i: int|
                    0 <= i < out@.len() ==> {
                        &&& #[trigger] out@[i].0 < x
                        &&& self.contains(out@[i].0 as int, out@[i].1 as int)
                        &&& self.cells()[out@[i].1 as int][out@[i].0 as int] == c
                    },
                forall|xx: u32, yy: u32|
                    xx < x && self.contains(xx as int, yy as int) && self.cells()[yy as int][xx as int] == c
                        ==> #[trigger] out@.contains((xx, yy)),
            decreases self.w - x,
        {
            let mut y: u32 = 0;
            while y < self.h
                invariant
                    self.wf(),
                    x < self.w,
                    y <= self.h,
                    forall|i: int, j: int| 0 <= i < j < out@.len() ==> before(out@[i], out@[j]),
                    forall|i: int|
                        0 <= i < out@.len() ==> {
                            &&& before(#[trigger] out@[i], (x, y))
                            &&& self.contains(out@[i].0 as int, out@[i].1 as int)
                            &&& self.cells()[out@[i].1 as int][out@[i].0 as int] == c
                        },
                    forall|xx: u32, yy: u32|
                        (xx < x || (xx == x && yy < y)) && self.contains(xx as int, yy as int)
                            && self.cells()[yy as int][xx as int] == c
                            ==> #[trigger] out@.contains((xx, yy)),
                decreases self.h - y,
            {
                let ghost prev = out@;
                if self.get_cell((x, y)) == c {
                    out.push((x, y));
                    assert(out@[out@.len() - 1] == (x, y));
                }
                assert forall|xx: u32, yy: u32|
                    (xx < x || (xx == x && yy <= y)) && self.contains(xx as int, yy as int)
                        && self.cells()[yy as int][xx as int] == c
                        implies #[trigger] out@.contains((xx, yy)) by {
                    if xx != x || yy != y {
                        assert(prev.contains((xx, yy)));
                        let k = choose|k: int| 0 <= k < prev.len() && prev[k] == (xx, yy);
                        assert(out@[k] == (xx, yy));
                    }
                }
                y = y + 1;
            }
            x = x + 1;
        }
        out
    }

    /// The colour at `(x, y)`, or `None` when `(x, y)` is off the grid.
    pub fn cell_state(&self, x: u32, y: u32) -> (r: Option<CellColor>)
        requires
            self.wf(),
        ensures
            r is Some <==> self.contains(x as int, y as int),
            r matches Some(c) ==> c == self.cells()[y as int][x as int],
    {
        if x < self.w && y < self.h {
            Some(self.get_cell((x, y)))
        } else {
            None
        }
    }
}

/// Why a step of the ant could not be taken.
#[derive(Copy, Clone, Debug, PartialEq, Eq, Structural)]
pub enum AntError {
    /// The move would take the ant off the grid.
    OffGrid,
}

/// Langton's ant: its grid, its heading and the cell it stands on.
pub struct Ant {
    pub grid: Grid,
    pub direction: Direction,
    pub pos: (u32, u32),
}

impl Ant {
    /// The grid is well formed and the ant stands on it.
    pub open spec fn wf(&self) -> bool {
        self.grid.wf() && self.grid.contains(self.pos.0 as int, self.pos.1 as int)
    }

    /// The colour under the ant.
    pub open spec fn under(&self) -> CellColor {
        self.grid.cells()[self.pos.1 as int][self.pos.0 as int]
    }

    /// The heading after the next step.
    pub open spec fn next_direction(&self) -> Direction {
        turned(self.direction, turn_on(self.under()))
    }

    /// The position after the next step, which may lie off the grid.
    pub open spec fn next_pos(&self) -> (int, int) {
        moved(self.pos.0 as int, self.pos.1 as int, self.next_direction())
    }

    /// An ant on a fresh `_w` by `_h` grid, at its centre (rounded down),
    /// heading north; `None` when either side is zero.
    pub fn with_size(_w: u32, _h: u32) -> (r: Option<Ant>)
        ensures
            r is Some <==> _w > 0 && _h > 0,
            r matches Some(a) ==> {
                &&& a.wf()
                &&& a.grid.width() == _w
                &&& a.grid.height() == _h
                &&& a.grid.cells() == blank(_w as int, _h as int)
                &&& a.grid.running()
                &&& !a.grid.updating()
                &&& a.pos == (_w / 2, _h / 2)
                &&& a.direction == Direction::N
            },
    {
        match Grid::generate(_w, _h) {
            Some(grid) => Some(Ant { pos: (_w / 2, _h / 2), grid, direction: Direction::N }),
            None => None,
        }
    }

    /// An ant at the centre of a fresh `GRID_SIZE` by `GRID_SIZE` grid, heading north.
    pub fn new() -> (r: Ant)
        ensures
            r.wf(),
            r.grid.width() == GRID_SIZE,
            r.grid.height() == GRID_SIZE,
            r.grid.cells() == blank(GRID_SIZE as int, GRID_SIZE as int),
            r.grid.running(),
            !r.grid.updating(),
            r.pos == (GRID_SIZE / 2, GRID_SIZE / 2),
            r.direction == Direction::N,
    {
        Ant {
            pos: (GRID_SIZE / 2, GRID_SIZE / 2),
            grid: Grid::generate(GRID_SIZE, GRID_SIZE).unwrap(),
            direction: Direction::N,
        }
    }

    /// One step: repaint the cell under the ant, turn by the cell's old colour,
    /// and move one cell along the new heading. When that move would leave the
    /// grid nothing changes and `OffGrid` is returned.
    pub fn tick(&mut self) -> (r: Result<(), AntError>)
        requires
            old(self).wf(),
        ensures
            r is Ok <==> old(self).grid.contains(old(self).next_pos().0, old(self).next_pos().1),
            r is Ok ==> {
                &&& final(self).wf()
                &&& final(self).grid.cells() == painted(
                    old(self).grid.cells(),
                    old(self).pos.0 as int,
                    old(self).pos.1 as int,
                    repainted(old(self).under()),
                )
                &&& final(self).direction == old(self).next_direction()
                &&& final(self).pos.0 == old(self).next_pos().0
                &&& final(self).pos.1 == old(self).next_pos().1
                &&& final(self).grid.width() == old(self).grid.width()
                &&& final(self).grid.height() == old(self).grid.height()
                &&& final(self).grid.running() == old(self).grid.running()
                &&& final(self).grid.updating() == old(self).grid.updating()
            },
            r is Err ==> *final(self) == *old(self),
    {
        let c = self.grid.get_cell(self.pos);
        let (paint_with, t) = rule(c);
        let d = apply_dir(self.direction, t);
        let (x, y) = self.pos;
        let target: Option<(u32, u32)> = match d {
            Direction::N => if y > 0 { Some((x, y - 1)) } else { None },
            Direction::E => if x + 1 < self.grid.w { Some((x + 1, y)) } else { None },
            Direction::S => if y + 1 < self.grid.h { Some((x, y + 1)) } else { None },
            Direction::W => if x > 0 { Some((x - 1, y)) } else { None },
        };
        match target {
            Some(p) => {
                self.grid.paint(self.pos, paint_with);
                self.direction = d;
                self.pos = p;
                Ok(())
            },
            None => Err(AntError::OffGrid),
        }
    }
}

} // verus!
