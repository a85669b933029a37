//! Conway's Game of Life on a bounded grid. Cells beyond the edges do not
//! exist: a border cell simply has fewer neighbours (no wraparound).
use vstd::prelude::*;
use crate::{apply_inputs, before, flags_after, rows_of, Input};

verus! {

/// Whether `(x, y)` lies inside `b` and holds a live cell.
pub open spec fn alive(b: Seq<Seq<bool>>, x: int, y: int) -> bool {
    0 <= y < b.len() && 0 <= x < b[y].len() && b[y][x]
}

/// One if `(x, y)` is a live cell of `b`, zero otherwise (also outside `b`).
pub open spec fn weight(b: Seq<Seq<bool>>, x: int, y: int) -> int {
    if alive(b, x, y) {
        1
    } else {
        0
    }
}

/// The number of live cells among the (up to eight) Moore neighbours of `(x, y)`.
pub open spec fn live_count(b: Seq<Seq<bool>>, x: int, y: int) -> int {
    weight(b, x - 1, y - 1) + weight(b, x, y - 1) + weight(b, x + 1, y - 1)
        + weight(b, x - 1, y) + weight(b, x + 1, y)
        + weight(b, x - 1, y + 1) + weight(b, x, y + 1) + weight(b, x + 1, y + 1)
}

/// The state of `(x, y)` in the next generation: a live cell survives with two
/// or three live neighbours, a dead cell is born with exactly three.
pub open spec fn next_cell(b: Seq<Seq<bool>>, x: int, y: int) -> bool {
    if b[y][x] {
        live_count(b, x, y) == 2 || live_count(b, x, y) == 3
    } else {
        live_count(b, x, y) == 3
    }
}

/// The next generation of `b`, computed from `b` alone for every cell at once.
pub open spec fn next_gen(b: Seq<Seq<bool>>) -> Seq<Seq<bool>> {
    Seq::new(b.len(), |y: int| Seq::new(b[y].len(), |x: int| next_cell(b, x, y)))
}

/// Whether `b` has `h` rows of `w` cells each.
pub open spec fn has_shape<T>(b: Seq<Seq<T>>, w: int, h: int) -> bool {
    &&& b.len() == h
    &&& forall|y: int| 0 <= y < h ==> #[trigger] b[y].len() == w
}

/// `b` after `n` generations.
pub open spec fn generations(b: Seq<Seq<bool>>, n: nat) -> Seq<Seq<bool>>
    decreases n,
{
    if n == 0 {
        b
    } else {
        next_gen(generations(b, (n - 1) as nat))
    }
}

/// Whether `(x, y)` is one of the four cells of the 2x2 block whose top-left
/// cell is `(bx, by)`.
pub open spec fn in_block(bx: int, by: int, x: int, y: int) -> bool {
    bx <= x <= bx + 1 && by <= y <= by + 1
}

/// A board on which every live cell has two or three live neighbours and no
/// dead cell has exactly three is its own next generation.
pub proof fn lemma_stable_board_is_fixed(b: Seq<Seq<bool>>)
    requires
        forall|x: int, y: int|
            0 <= y < b.len() && 0 <= x < b[y].len() ==> if #[trigger] b[y][x] {
                live_count(b, x, y) == 2 || live_count(b, x, y) == 3
            } else {
                live_count(b, x, y) != 3
            },
    ensures
        next_gen(b) == b,
{
    let n = next_gen(b);
    assert forall|y: int| 0 <= y < b.len() implies #[trigger] n[y] == b[y] by {
        assert forall|x: int| 0 <= x < b[y].len() implies #[trigger] n[y][x] == b[y][x] by {
            if b[y][x] {
            } else {
            }
        }
        assert(n[y] =~= b[y]);
    }
    assert(n =~= b);
}

/// A board of `w` by `h` cells whose only live cells form a 2x2 block stays
/// the same for any number of generations (the block may touch the edges).
pub proof fn lemma_block_is_still_life(b: Seq<Seq<bool>>, w: int, h: int, bx: int, by: int, n: nat)
    requires
        has_shape(b, w, h),
        0 <= bx && bx + 1 < w,
        0 <= by && by + 1 < h,
        forall|x: int, y: int|
            0 <= y < h && 0 <= x < w ==> (#[trigger] b[y][x] <==> in_block(bx, by, x, y)),
    ensures
        generations(b, n) == b,
    decreases n,
{
    assert forall|x: int, y: int| #[trigger] alive(b, x, y) == in_block(bx, by, x, y) by {
        if 0 <= y < h && 0 <= x < w {
            assert(b[y][x] <==> in_block(bx, by, x, y));
        }
    }
    assert forall|x: int, y: int|
        0 <= y < b.len() && 0 <= x < b[y].len() implies if #[trigger] b[y][x] {
            live_count(b, x, y) == 2 || live_count(b, x, y) == 3
        } else {
            live_count(b, x, y) != 3
        } by {
        assert(b[y][x] <==> in_block(bx, by, x, y));
        assert(alive(b, x - 1, y - 1) == in_block(bx, by, x - 1, y - 1));
        assert(alive(b, x, y - 1) == in_block(bx, by, x, y - 1));
        assert(alive(b, x + 1, y - 1) == in_block(bx, by, x + 1, y - 1));
        assert(alive(b, x - 1, y) == in_block(bx, by, x - 1, y));
        assert(alive(b, x + 1, y) == in_block(bx, by, x + 1, y));
        assert(alive(b, x - 1, y + 1) == in_block(bx, by, x - 1, y + 1));
        assert(alive(b, x, y + 1) == in_block(bx, by, x, y + 1));
        assert(alive(b, x + 1, y + 1) == in_block(bx, by, x + 1, y + 1));
    }
    lemma_stable_board_is_fixed(b);
    if n > 0 {
        lemma_block_is_still_life(b, w, h, bx, by, (n - 1) as nat);
    }
}

/// A drawn byte below this makes a live cell: one cell in four on average.
pub const ALIVE_BELOW: u8 = 64;

/// The board seeded from the bytes `d`: a cell is alive when its byte is below
/// `ALIVE_BELOW`.
pub open spec fn seeded(d: Seq<Seq<u8>>) -> Seq<Seq<bool>> {
    Seq::new(d.len(), |y: int| Seq::new(d[y].len(), |x: int| d[y][x] < ALIVE_BELOW))
}

/// Relies on `rand::random::<u8>`: one byte from the thread-local generator,
/// uniform over all 256 values. Nothing is promised of which byte comes back.
/// (It panics only when the operating system cannot seed that generator.)
#[verifier::external_body]
fn random_byte() -> (r: u8) {
    rand::random::<u8>()
}

/// Two boards reseeded from the same bytes are the same board, whatever each
/// held before.
pub proof fn lemma_reseeding_is_deterministic(a: Grid, b: Grid, draws: Seq<Seq<u8>>)
    requires
        a.cells() == seeded(draws),
        b.cells() == seeded(draws),
    ensures
        a.cells() == b.cells(),
{
}

/// `h` rows of `w` random bytes.
pub fn random_draws(w: u32, h: u32) -> (r: Vec<Vec<u8>>)
    ensures
        r@.len() == h,
        forall|y: int| 0 <= y < h ==> #[trigger] r@[y]@.len() == w,
{
    let mut d: Vec<Vec<u8>> = Vec::new();
    let mut y: u32 = 0;
    while y < h
        invariant
            y <= h,
            d@.len() == y,
            forall|yy: int| 0 <= yy < y ==> #[trigger] d@[yy]@.len() == w,
        decreases h - y,
    {
        let mut row: Vec<u8> = Vec::new();
        let mut x: u32 = 0;
        while x < w
            invariant
                x <= w,
                row@.len() == x,
            decreases w - x,
        {
            row.push(random_byte());
            x = x + 1;
        }
        d.push(row);
        y = y + 1;
    }
    d
}

/// The board seeded from `draws`, cell by cell: alive where the byte is below
/// `ALIVE_BELOW`.
pub fn cells_from_draws(draws: &Vec<Vec<u8>>) -> (r: Vec<Vec<bool>>)
    ensures
        rows_of(r@) == seeded(rows_of(draws@)),
{
    let ghost d = rows_of(draws@);
    let mut body: Vec<Vec<bool>> = Vec::new();
    let mut y: usize = 0;
    while y < draws.len()
        invariant
            d == rows_of(draws@),
            y <= draws@.len(),
            body@.len() == y,
            forall|yy: int| 0 <= yy < y ==> #[trigger] body@[yy]@ == seeded(d)[yy],
        decreases draws@.len() - y,
    {
        let src = &draws[y];
        assert(src@ == d[y as int]);
        let mut row: Vec<bool> = Vec::new();
        let mut x: usize = 0;
        while x < src.len()
            invariant
                x <= src@.len(),
                row@.len() == x,
                forall|xx: int| 0 <= xx < x ==> #[trigger] row@[xx] == (src@[xx] < ALIVE_BELOW),
            decreases src@.len() - x,
        {
            row.push(src[x] < ALIVE_BELOW);
            x = x + 1;
        }
        assert(row@ =~= seeded(d)[y as int]);
        body.push(row);
        y = y + 1;
    }
    assert(rows_of(body@) =~= seeded(d));
    body
}

/// A random board of `h` rows of `w` cells, each alive with probability one
/// in four.
pub fn make_grid(_w: u32, _h: u32) -> (r: Vec<Vec<bool>>)
    ensures
        has_shape(rows_of(r@), _w as int, _h as int),
{
    let draws = random_draws(_w, _h);
    let r = cells_from_draws(&draws);
    assert(forall|y: int| 0 <= y < _h ==> #[trigger] rows_of(draws@)[y].len() == _w);
    r
}

/// A Game of Life board, with the two flags its driver steers it by.
pub struct Grid {
    body: Vec<Vec<bool>>,
    w: u32,
    h: u32,
    is_running: bool,
    is_updating: bool,
}

impl Grid {
    /// The board, row by row: `cells()[y][x]` is the cell at `(x, y)`.
    pub closed spec fn cells(&self) -> Seq<Seq<bool>> {
        rows_of(self.body@)
    }

    /// Whether the driver should keep going.
    pub closed spec fn running(&self) -> bool {
        self.is_running
    }

    /// Whether the board advances on each tick of the driver.
    pub closed spec fn updating(&self) -> bool {
        self.is_updating
    }

    pub closed spec fn width(&self) -> int {
        self.w as int
    }

    pub closed spec fn height(&self) -> int {
        self.h as int
    }

    /// The board is non-empty and has `height()` rows of `width()` cells.
    pub closed spec fn wf(&self) -> bool {
        &&& self.w > 0
        &&& self.h > 0
        &&& has_shape(self.cells(), self.w as int, self.h as int)
    }

    /// Whether `(x, y)` is a cell of this board.
    pub open spec fn contains(&self, x: int, y: int) -> bool {
        0 <= x < self.width() && 0 <= y < self.height()
    }

    /// A random `_w` by `_h` board, running and paused; `None` when either
    /// side is zero.
    pub fn generate(_w: u32, _h: u32) -> (r: Option<Grid>)
        ensures
            r is Some <==> _w > 0 && _h > 0,
            r matches Some(g) ==> {
                &&& g.wf()
                &&& g.width() == _w
                &&& g.height() == _h
                &&& g.running()
                &&& !g.updating()
            },
    {
        if _w == 0 || _h == 0 {
            return None;
        }
        Some(Grid { body: make_grid(_w, _h), w: _w, h: _h, is_running: true, is_updating: false })
    }

    /// The board given row by row, running and paused; `None` unless there is
    /// at least one row, the first row is non-empty, all rows have its length,
    /// and both sides fit in a `u32`.
    pub fn from_cells(cells: Vec<Vec<bool>>) -> (r: Option<Grid>)
        ensures
            r is Some <==> {
                &&& cells@.len() > 0
                &&& cells@.len() <= u32::MAX
                &&& cells@[0]@.len() > 0
                &&& cells@[0]@.len() <= u32::MAX
                &&& has_shape(rows_of(cells@), cells@[0]@.len() as int, cells@.len() as int)
            },
            r matches Some(g) ==> {
                &&& g.wf()
                &&& g.cells() == rows_of(cells@)
                &&& g.width() == cells@[0]@.len()
                &&& g.height() == cells@.len()
                &&& g.running()
                &&& !g.updating()
            },
    {
        if cells.len() == 0 || cells.len() > u32::MAX as usize {
            return None;
        }
        let w = cells[0].len();
        if w == 0 || w > u32::MAX as usize {
            return None;
        }
        let mut y: usize = 0;
        while y < cells.len()
            invariant
                y <= cells@.len(),
                w == cells@[0]@.len(),
                forall|yy: int| 0 <= yy < y ==> #[trigger] cells@[yy]@.len() == w,
            decreases cells@.len() - y,
        {
            if cells[y].len() != w {
                assert(rows_of(cells@)[y as int].len() != w);
                return None;
            }
            y = y + 1;
        }
        let h = cells.len() as u32;
        Some(Grid { body: cells, w: w as u32, h, is_running: true, is_updating: false })
    }

    /// Replaces the board with the one seeded from `draws`, which has the
    /// board's shape.
    pub fn reset_with(&mut self, draws: &Vec<Vec<u8>>)
        requires
            old(self).wf(),
            has_shape(rows_of(draws@), old(self).width(), old(self).height()),
        ensures
            final(self).wf(),
            final(self).cells() == seeded(rows_of(draws@)),
            final(self).width() == old(self).width(),
            final(self).height() == old(self).height(),
            final(self).running() == old(self).running(),
            final(self).updating() == old(self).updating(),
    {
        self.body = cells_from_draws(draws);
        assert(forall|y: int| 0 <= y < self.h ==> #[trigger] self.cells()[y].len() == seeded(rows_of(draws@))[y].len());
    }

    /// Replaces the board with a fresh random one of the same shape.
    pub fn reset(&mut self)
        requires
            old(self).wf(),
        ensures
            final(self).wf(),
            final(self).width() == old(self).width(),
            final(self).height() == old(self).height(),
            final(self).running() == old(self).running(),
            final(self).updating() == old(self).updating(),
    {
        let draws = random_draws(self.w, self.h);
        assert(forall|y: int| 0 <= y < self.h ==> #[trigger] rows_of(draws@)[y].len() == self.w);
        self.reset_with(&draws);
    }

    /// Applies the driver's inputs, in order: `Quit` stops the simulation,
    /// `TogglePause` pauses or resumes it, `Reset` reseeds the board at random.
    /// Without a `Reset` the board is left as it is.
    pub fn collect_events(&mut self, events: &Vec<Input>)
        requires
            old(self).wf(),
        ensures
            final(self).wf(),
            !events@.contains(Input::Reset) ==> final(self).cells() == old(self).cells(),
            final(self).width() == old(self).width(),
            final(self).height() == old(self).height(),
            (final(self).running(), final(self).updating()) == flags_after(
                (old(self).running(), old(self).updating()),
                events@,
            ),
    {
        let mut i: usize = 0;
        while i < events.len()
            invariant
                self.wf(),
                self.width() == old(self).width(),
                self.height() == old(self).height(),
                self.running() == old(self).running(),
                self.updating() == old(self).updating(),
                i <= events@.len(),
                (forall|k: int| 0 <= k < i ==> events@[k] != Input::Reset) ==> self.cells()
                    == old(self).cells(),
            decreases events@.len() - i,
        {
            if events[i] == Input::Reset {
                self.reset();
            }
            i = i + 1;
        }
        let (running, updating) = apply_inputs((self.is_running, self.is_updating), events);
        self.is_running = running;
        self.is_updating = updating;
    }

    pub fn is_running(&self) -> (r: bool)
        ensures
            r == self.running(),
    {
        self.is_running
    }

    pub fn is_updating(&self) -> (r: bool)
        ensures
            r == self.updating(),
    {
        self.is_updating
    }

    pub fn width_of(&self) -> (r: u32)
        ensures
            r == self.width(),
    {
        self.w
    }

    pub fn height_of(&self) -> (r: u32)
        ensures
            r == self.height(),
    {
        self.h
    }

    fn get_cell(&self, coord: (u32, u32)) -> (r: bool)
        requires
            self.wf(),
            self.contains(coord.0 as int, coord.1 as int),
        ensures
            r == self.cells()[coord.1 as int][coord.0 as int],
    {
        assert(self.body@[coord.1 as int]@ == self.cells()[coord.1 as int]);
        self.body[coord.1 as usize][coord.0 as usize]
    }

    /// The live cells, as `(x, y)` pairs ordered by `x` and then by `y`, each once.
    pub fn live_cells(&self) -> (r: Vec<(u32, u32)>)
        requires
            self.wf(),
        ensures
            forall|i: int, j: int| 0 <= i < j < r@.len() ==> before(r@[i], r@[j]),
            forall|i: int|
                0 <= i < r@.len() ==> {
                    &&& self.contains(#[trigger] r@[i].0 as int, r@[i].1 as int)
                    &&& self.cells()[r@[i].1 as int][r@[i].0 as int]
                },
            forall|x: u32, y: u32|
                self.contains(x as int, y as int) && self.cells()[y as int][x as int]
                    ==> #[trigger] r@.contains((x, y)),
    {
        let mut out: Vec<(u32, u32)> = Vec::new();
        let mut x: u32 = 0;
        while x < self.w
            invariant
                self.wf(),
                x <= self.w,
                forall|i: int, j: int| 0 <= i < j < out@.len() ==> before(out@[i], out@[j]),
                forall|i: int|
                    0 <= i < out@.len() ==> {
                        &&& #[trigger] out@[i].0 < x
                        &&& self.contains(out@[i].0 as int, out@[i].1 as int)
                        &&& self.cells()[out@[i].1 as int][out@[i].0 as int]
                    },
                forall|xx: u32, yy: u32|
                    xx < x && self.contains(xx as int, yy as int) && self.cells()[yy as int][xx as int]
                        ==> #[trigger] out@.contains((xx, yy)),
            decreases self.w - x,
        {
            let mut y: u32 = 0;
            while y < self.h
                invariant
                    self.wf(),
                    x < self.w,
                    y <= self.h,
                    forall|i: int, j: int| 0 <= i < j < out@.len() ==> before(out@[i], out@[j]),
                    forall|i: int|
                        0 <= i < out@.len() ==> {
                            &&& before(#[trigger] out@[i], (x, y))
                            &&& self.contains(out@[i].0 as int, out@[i].1 as int)
                            &&& self.cells()[out@[i].1 as int][out@[i].0 as int]
                        },
                    forall|xx: u32, yy: u32|
                        (xx < x || (xx == x && yy < y)) && self.contains(xx as int, yy as int)
                            && self.cells()[yy as int][xx as int] ==> #[trigger] out@.contains((xx, yy)),
                decreases self.h - y,
            {
                let ghost prev = out@;
                if self.get_cell((x, y)) {
                    out.push((x, y));
                    assert(out@[out@.len() - 1] == (x, y));
                }
                assert forall|xx: u32, yy: u32|
                    (xx < x || (xx == x && yy <= y)) && self.contains(xx as int, yy as int)
                        && self.cells()[yy as int][xx as int] implies #[trigger] out@.contains(
                    (xx, yy),
                ) by {
                    if xx != x || yy != y {
                        assert(prev.contains((xx, yy)));
                        let k = choose|k: int| 0 <= k < prev.len() && prev[k] == (xx, yy);
                        assert(out@[k] == (xx, yy));
                    }
                }
                y = y + 1;
            }
            x = x + 1;
        }
        out
    }

    /// Whether `(x, y)` is alive, or `None` when `(x, y)` is off the board.
    pub fn cell_state(&self, x: u32, y: u32) -> (r: Option<bool>)
        requires
            self.wf(),
        ensures
            r is Some <==> self.contains(x as int, y as int),
            r matches Some(c) ==> c == self.cells()[y as int][x as int],
    {
        if x < self.w && y < self.h {
            Some(self.get_cell((x, y)))
        } else {
            None
        }
    }

    /// The number of live neighbours of `(x, y)`.
    fn live_neighbors(&self, x: usize, y: usize) -> (r: u8)
        requires
            self.wf(),
            x < self.width(),
            y < self.height(),
        ensures
            r == live_count(self.cells(), x as int, y as int),
    {
        let b = &self.body;
        let w = self.w as usize;
        let h = self.h as usize;
        let ghost c = self.cells();
        assert(forall|yy: int| 0 <= yy < h ==> #[trigger] b@[yy]@ == c[yy]);
        let mut n: u8 = 0;
        if x > 0 && y > 0 && b[y - 1][x - 1] {
            n = n + 1;
        }
        if y > 0 && b[y - 1][x] {
            n = n + 1;
        }
        if x + 1 < w && y > 0 && b[y - 1][x + 1] {
            n = n + 1;
        }
        if x > 0 && b[y][x - 1] {
            n = n + 1;
        }
        if x + 1 < w && b[y][x + 1] {
            n = n + 1;
        }
        if x > 0 && y + 1 < h && b[y + 1][x - 1] {
            n = n + 1;
        }
        if y + 1 < h && b[y + 1][x] {
            n = n + 1;
        }
        if x + 1 < w && y + 1 < h && b[y + 1][x + 1] {
            n = n + 1;
        }
        n
    }

    /// Advances the board by one generation. Every cell of the new board is
    /// computed from the old board; the old board is read only.
    pub fn update(&mut self)
        requires
            old(self).wf(),
        ensures
            final(self).wf(),
            final(self).cells() == next_gen(old(self).cells()),
            final(self).width() == old(self).width(),
            final(self).height() == old(self).height(),
            final(self).running() == old(self).running(),
            final(self).updating() == old(self).updating(),
    {
        let w = self.w as usize;
        let h = self.h as usize;
        let ghost old_cells = self.cells();
        let mut next: Vec<Vec<bool>> = Vec::new();
        let mut y: usize = 0;
        while y < h
            invariant
                self.wf(),
                self.cells() == old_cells,
                w == self.w,
                h == self.h,
                y <= h,
                next@.len() == y,
                forall|yy: int|
                    0 <= yy < y ==> #[trigger] next@[yy]@ == next_gen(old_cells)[yy],
            decreases h - y,
        {
            let mut row: Vec<bool> = Vec::new();
            let mut x: usize = 0;
            while x < w
                invariant
                    self.wf(),
                    self.cells() == old_cells,
                    w == self.w,
                    h == self.h,
                    y < h,
                    x <= w,
                    row@.len() == x,
                    forall|xx: int|
                        0 <= xx < x ==> #[trigger] row@[xx] == next_cell(old_cells, xx, y as int),
                decreases w - x,
            {
                let n = self.live_neighbors(x, y);
                assert(self.body@[y as int]@ == old_cells[y as int]);
                let live = self.body[y][x];
                let cell = if live {
                    n == 2 || n == 3
                } else {
                    n == 3
                };
                row.push(cell);
                x = x + 1;
            }
            assert(row@ =~= next_gen(old_cells)[y as int]);
            next.push(row);
            y = y + 1;
        }
        self.body = next;
        assert(self.cells() =~= next_gen(old_cells));
    }
}

} // verus!
