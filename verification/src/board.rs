//! The playing-field grid: bounds and collision checks, cell fill,
//! row-full test, and row clearing with gravity compaction.

use vstd::prelude::*;

use crate::tetromino::{lemma_offsets_bounded, shape_offsets, Tetromino};

verus! {

pub const BOARD_WIDTH: usize = 10;

pub const BOARD_HEIGHT: usize = 20;

/// Whether `(x, y)` lies on the board.
pub open spec fn in_bounds(x: int, y: int) -> bool {
    0 <= x < BOARD_WIDTH as int && 0 <= y < BOARD_HEIGHT as int
}

/// A grid is a full-size rectangle of cells.
pub open spec fn grid_wf(g: Seq<Seq<bool>>) -> bool {
    &&& g.len() == BOARD_HEIGHT as int
    &&& forall|y: int| 0 <= y < g.len() ==> (#[trigger] g[y]).len() == BOARD_WIDTH as int
}

/// Whether `(x, y)` is on the board and unoccupied.
pub open spec fn cell_free(g: Seq<Seq<bool>>, x: int, y: int) -> bool {
    in_bounds(x, y) && !g[y][x]
}

/// Whether every cell of a row is occupied.
pub open spec fn row_full(r: Seq<bool>) -> bool {
    forall|x: int| 0 <= x < r.len() ==> r[x]
}

/// A row of empty cells.
pub open spec fn empty_row() -> Seq<bool> {
    Seq::new(BOARD_WIDTH as nat, |x: int| false)
}

/// `n` empty rows.
pub open spec fn empty_rows(n: int) -> Seq<Seq<bool>> {
    Seq::new(n as nat, |y: int| empty_row())
}

/// The grid with every cell empty.
pub open spec fn empty_grid() -> Seq<Seq<bool>> {
    empty_rows(BOARD_HEIGHT as int)
}

/// The Tetris playing field: a `BOARD_WIDTH` x `BOARD_HEIGHT` grid where
/// `true` marks an occupied cell, with `(0, 0)` the top-left corner.
pub struct Board {
    pub grid: Vec<Vec<bool>>,
}

impl View for Board {
    type V = Seq<Seq<bool>>;

    open spec fn view(&self) -> Seq<Seq<bool>> {
        self.grid@.map_values(|row: Vec<bool>| row@)
    }
}

impl Board {
    /// The dimensions never change.
    pub open spec fn wf(&self) -> bool {
        grid_wf(self@)
    }

    /// Creates a board with every cell empty.
    pub fn new() -> (r: Self)
        ensures
            r.wf(),
            r@ == empty_grid(),
    {
        let mut grid: Vec<Vec<bool>> = Vec::new();
        let mut y: usize = 0;
        while y < BOARD_HEIGHT
            invariant
                y <= BOARD_HEIGHT,
                grid@.len() == y as int,
                forall|i: int| 0 <= i < y as int ==> (#[trigger] grid@[i])@ == empty_row(),
            decreases BOARD_HEIGHT - y,
        {
            grid.push(empty_row_vec());
            y = y + 1;
        }
        let r = Board { grid };
        proof {
            assert(r@ =~~= empty_grid());
        }
        r
    }

    /// Whether a position lies on the board; negative or overflowing
    /// coordinates are simply reported out of bounds, never an error.
    pub fn pos_in_bounds(x: i32, y: i32) -> (r: bool)
        ensures
            r == in_bounds(x as int, y as int),
    {
        if x < 0 || y < 0 {
            return false;
        }
        let x_usize = x as usize;
        let y_usize = y as usize;
        x_usize < BOARD_WIDTH && y_usize < BOARD_HEIGHT
    }

    /// Whether a position is on the board and unoccupied; out-of-bounds
    /// positions are never free.
    pub fn pos_free(&self, x: i32, y: i32) -> (r: bool)
        requires
            self.wf(),
        ensures
            r == cell_free(self@, x as int, y as int),
    {
        if !(Self::pos_in_bounds(x, y)) {
            return false;
        }
        proof {
            assert(self@.len() == self.grid@.len());
            assert(self@[y as int] == self.grid@[y as int]@);
        }
        !self.grid[y as usize][x as usize]
    }

    /// Whether every cell of row `y` is occupied; an out-of-range row is
    /// reported not full.
    pub fn is_row_full(&self, y: i32) -> (r: bool)
        requires
            self.wf(),
        ensures
            r == (in_bounds(0, y as int) && row_full(self@[y as int])),
    {
        if !(Self::pos_in_bounds(0, y)) {
            return false;
        }
        let yu = y as usize;
        proof {
            assert(self@[y as int] == self.grid@[y as int]@);
        }
        let mut x: usize = 0;
        while x < BOARD_WIDTH
            invariant
                self.wf(),
                in_bounds(0, y as int),
                yu == y as int,
                x <= BOARD_WIDTH,
                self@[y as int] == self.grid@[y as int]@,
                forall|i: int| 0 <= i < x as int ==> self@[y as int][i],
            decreases BOARD_WIDTH - x,
        {
            if !self.grid[yu][x] {
                return false;
            }
            x = x + 1;
        }
        true
    }

    /// Marks `(x, y)` occupied; reports `false` and changes nothing when
    /// the position is out of bounds. Filling an occupied cell again
    /// changes nothing.
    pub fn fill_pos(&mut self, x: i32, y: i32) -> (r: bool)
        requires
            old(self).wf(),
        ensures
            final (self).wf(),
            r == in_bounds(x as int, y as int),
            final (self)@ == set_cell(old(self)@, x as int, y as int),
    {
        if !Self::pos_in_bounds(x, y) {
            return false;
        }
        let ghost g0 = self@;
        proof {
            assert(self@[y as int] == self.grid@[y as int]@);
        }
        let mut row = self.grid[y as usize].clone();
        proof {
            assert(row@ =~= g0[y as int]);
        }
        row.set(x as usize, true);
        self.grid.set(y as usize, row);
        proof {
            assert(self@ =~~= set_cell(g0, x as int, y as int));
        }
        true
    }

    /// Removes row `y`: every row above it shifts down by one and a new
    /// empty row appears at the top, while rows below `y` are untouched.
    /// An out-of-range row leaves the board as it is.
    pub fn clear_row(&mut self, y: i32)
        requires
            old(self).wf(),
        ensures
            final (self).wf(),
            in_bounds(0, y as int) ==> final (self)@ == cleared_row(old(self)@, y as int),
            !in_bounds(0, y as int) ==> final (self)@ == old(self)@,
    {
        if !(Self::pos_in_bounds(0, y)) {
            return;
        }
        let ghost g0 = self@;
        let yu = y as usize;
        let mut i: usize = yu;
        while i >= 1
            invariant
                self.wf(),
                grid_wf(g0),
                yu < BOARD_HEIGHT,
                i <= yu,
                forall|j: int| 0 <= j <= i as int ==> self@[j] == g0[j],
                forall|j: int| (i as int) < j <= yu as int ==> self@[j] == g0[j - 1],
                forall|j: int| (yu as int) < j < BOARD_HEIGHT as int ==> self@[j] == g0[j],
            decreases i,
        {
            proof {
                assert(self@[i - 1] == self.grid@[i - 1]@);
            }
            let prev = self.grid[i - 1].clone();
            proof {
                assert(prev@ =~= g0[i - 1]);
            }
            let ghost gpre = self@;
            self.grid.set(i, prev);
            proof {
                assert forall|j: int| 0 <= j < BOARD_HEIGHT as int implies self@[j] == (
                if j == i as int {
                    g0[i - 1]
                } else {
                    gpre[j]
                }) by {
                    assert(self@[j] == self.grid@[j]@);
                }
            }
            i = i - 1;
        }
        let e = empty_row_vec();
        let ghost gmid = self@;
        self.grid.set(0, e);
        proof {
            assert forall|j: int| 0 <= j < BOARD_HEIGHT as int implies self@[j] == (
            if j == 0 {
                empty_row()
            } else {
                gmid[j]
            }) by {
                assert(self@[j] == self.grid@[j]@);
            }
            assert(self@ =~~= cleared_row(g0, y as int));
        }
    }

    /// Clears row `y` for as long as it is full, so that a shift which
    /// brings another full row into the same index clears it too; returns
    /// how many rows were cleared. An out-of-range row clears nothing.
    pub fn clear_until_not_full(&mut self, y: i32) -> (r: u32)
        requires
            old(self).wf(),
        ensures
            final (self).wf(),
            !in_bounds(0, y as int) ==> final (self)@ == old(self)@ && r == 0,
            in_bounds(0, y as int) ==> ({
                let g = old(self)@;
                &&& r as int == trailing_full_run(g.subrange(0, y as int + 1))
                &&& final (self)@ == empty_rows(r as int) + g.subrange(0, y as int + 1 - r as int)
                    + g.subrange(y as int + 1, BOARD_HEIGHT as int)
            }),
    {
        if !(Self::pos_in_bounds(0, y)) {
            return 0;
        }
        let ghost g0 = self@;
        let mut cleared_count: u32 = 0;
        while self.is_row_full(y)
            invariant
                self.wf(),
                grid_wf(g0),
                in_bounds(0, y as int),
                cleared_count as int <= y as int + 1,
                forall|i: int|
                    y as int + 1 - cleared_count as int <= i < y as int + 1 ==> row_full(
                        #[trigger] g0[i],
                    ),
                self@ == empty_rows(cleared_count as int) + g0.subrange(
                    0,
                    y as int + 1 - cleared_count as int,
                ) + g0.subrange(y as int + 1, BOARD_HEIGHT as int),
            decreases y as int + 1 - cleared_count as int,
        {
            proof {
                lemma_empty_row_not_full();
                assert((cleared_count as int) < y as int + 1);
            }
            let ghost gpre = self@;
            self.clear_row(y);
            proof {
                assert(gpre.subrange(0, y as int) =~= empty_rows(cleared_count as int)
                    + g0.subrange(0, y as int - cleared_count as int));
                assert(gpre.subrange(y as int + 1, BOARD_HEIGHT as int) =~= g0.subrange(
                    y as int + 1,
                    BOARD_HEIGHT as int,
                ));
                assert(self@ =~= empty_rows(cleared_count as int + 1) + g0.subrange(
                    0,
                    y as int - cleared_count as int,
                ) + g0.subrange(y as int + 1, BOARD_HEIGHT as int));
            }
            cleared_count = cleared_count + 1;
        }
        proof {
            lemma_empty_row_not_full();
            let k = cleared_count as int;
            let s = g0.subrange(0, y as int + 1);
            assert(forall|i: int| s.len() - k <= i < s.len() ==> row_full(#[trigger] s[i]));
            if k < y as int + 1 {
                assert(self@[y as int] == g0[y as int - k]);
                assert(!row_full(s[s.len() - k - 1]));
            }
            lemma_run_characterize(s, k);
        }
        cleared_count
    }

    /// Scans rows from the bottom upward, clearing every full row (and
    /// any full row that a shift brings into the index being scanned);
    /// returns how many rows were cleared. Afterwards the rows that were
    /// not full sit at the bottom, in order, under freshly inserted empty
    /// rows — one per cleared row. The defensive cap of the scan can
    /// never cut the count short, since a grid holds at most
    /// `BOARD_HEIGHT` full rows.
    #[verifier::rlimit(60)]
    pub fn clear_lines(&mut self) -> (r: u32)
        requires
            old(self).wf(),
        ensures
            final (self).wf(),
            r as int == count_full(old(self)@),
            final (self)@ == empty_rows(count_full(old(self)@)) + rows_not_full(old(self)@),
    {
        let ghost g0 = self@;
        proof {
            assert(g0.subrange(0, BOARD_HEIGHT as int) =~= g0);
            assert(count_full(g0.subrange(BOARD_HEIGHT as int, BOARD_HEIGHT as int)) == 0);
            assert(rows_not_full(g0.subrange(BOARD_HEIGHT as int, BOARD_HEIGHT as int))
                =~= Seq::<Seq<bool>>::empty());
            assert(self@ =~= empty_rows(0) + g0.subrange(0, BOARD_HEIGHT as int) + rows_not_full(
                g0.subrange(BOARD_HEIGHT as int, BOARD_HEIGHT as int),
            ));
        }
        let mut cleared_count: u32 = 0;
        let mut i: i32 = BOARD_HEIGHT as i32;
        let ghost mut m: int = BOARD_HEIGHT as int;
        while i > 0
            invariant
                self.wf(),
                grid_wf(g0),
                g0 == old(self)@,
                0 <= m <= BOARD_HEIGHT as int,
                0 <= i as int <= BOARD_HEIGHT as int,
                cleared_count as int == count_full(g0.subrange(m, BOARD_HEIGHT as int)),
                cleared_count as int <= BOARD_HEIGHT as int - m,
                self@ == empty_rows(cleared_count as int) + g0.subrange(0, m) + rows_not_full(
                    g0.subrange(m, BOARD_HEIGHT as int),
                ),
                m > 0 ==> m + cleared_count as int == i as int,
                m == 0 ==> i as int <= cleared_count as int,
            decreases i,
        {
            i = i - 1;
            let ghost gpre = self@;
            let ghost c0 = cleared_count as int;
            let c = self.clear_until_not_full(i);
            proof {
                let idx = i as int;
                lemma_empty_row_not_full();
                if m == 0 {
                    assert(gpre.subrange(0, idx + 1).last() == gpre[idx]);
                    assert(gpre[idx] == empty_row());
                    assert(trailing_full_run(gpre.subrange(0, idx + 1)) == 0);
                    assert(self@ =~= gpre);
                } else {
                    let a = empty_rows(c0);
                    let b = g0.subrange(0, m);
                    assert(gpre.subrange(0, idx + 1) =~= a + b);
                    assert(gpre.subrange(idx + 1, BOARD_HEIGHT as int) =~= rows_not_full(
                        g0.subrange(m, BOARD_HEIGHT as int),
                    ));
                    lemma_run_concat(a, b);
                    if c0 > 0 {
                        assert(a.last() == empty_row());
                        assert(trailing_full_run(a) == 0);
                    }
                    let k = trailing_full_run(b);
                    lemma_run_props(b);
                    assert(0 <= k <= m);
                    assert(c as int == k);
                    assert forall|j: int| m - k <= j < m implies row_full(#[trigger] g0[j]) by {
                        assert(row_full(b[j]));
                    }
                    assert(g0.subrange(m - k, BOARD_HEIGHT as int) =~= g0.subrange(m - k, m)
                        + g0.subrange(m, BOARD_HEIGHT as int));
                    lemma_count_concat(g0.subrange(m - k, m), g0.subrange(m, BOARD_HEIGHT as int));
                    assert forall|j: int|
                        0 <= j < g0.subrange(m - k, m).len() implies row_full(
                        #[trigger] g0.subrange(m - k, m)[j],
                    ) by {
                        assert(g0.subrange(m - k, m)[j] == g0[m - k + j]);
                    }
                    lemma_all_full(g0.subrange(m - k, m));
                    assert(count_full(g0.subrange(m - k, BOARD_HEIGHT as int)) == k + c0);
                    assert(rows_not_full(g0.subrange(m - k, BOARD_HEIGHT as int)) =~= rows_not_full(
                        g0.subrange(m, BOARD_HEIGHT as int),
                    ));
                    assert(gpre.subrange(0, idx + 1 - k) =~= a + g0.subrange(0, m - k));
                    if k < m {
                        assert(!row_full(b[b.len() - k - 1]));
                        assert(!row_full(g0[m - k - 1]));
                        let single = g0.subrange(m - k - 1, m - k);
                        assert(g0.subrange(m - k - 1, BOARD_HEIGHT as int) =~= single + g0.subrange(
                            m - k,
                            BOARD_HEIGHT as int,
                        ));
                        lemma_count_concat(single, g0.subrange(m - k, BOARD_HEIGHT as int));
                        assert(single.last() == g0[m - k - 1]);
                        assert(single.drop_last() =~= Seq::<Seq<bool>>::empty());
                        assert(count_full(Seq::<Seq<bool>>::empty()) == 0);
                        assert(rows_not_full(Seq::<Seq<bool>>::empty())
                            =~= Seq::<Seq<bool>>::empty());
                        assert(count_full(single) == 0);
                        assert(rows_not_full(single) =~= seq![g0[m - k - 1]]);
                        m = m - k - 1;
                    } else {
                        m = 0;
                    }
                    assert(self@ =~= empty_rows(c0 + k) + g0.subrange(0, m) + rows_not_full(
                        g0.subrange(m, BOARD_HEIGHT as int),
                    ));
                }
            }
            cleared_count = cleared_count + c;
            if cleared_count >= (BOARD_HEIGHT as u32) {
                proof {
                    assert(cleared_count as int == count_full(
                        g0.subrange(m, BOARD_HEIGHT as int),
                    ));
                    lemma_count_len(g0.subrange(m, BOARD_HEIGHT as int));
                    assert(m == 0);
                    assert(g0.subrange(0, BOARD_HEIGHT as int) =~= g0);
                    assert(g0.subrange(0, 0) =~= Seq::<Seq<bool>>::empty());
                    assert(self@ =~= empty_rows(count_full(g0)) + rows_not_full(g0));
                }
                return cleared_count;
            }
        }
        proof {
            assert(m == 0);
            assert(g0.subrange(0, BOARD_HEIGHT as int) =~= g0);
            assert(g0.subrange(0, 0) =~= Seq::<Seq<bool>>::empty());
            assert(self@ =~= empty_rows(count_full(g0)) + rows_not_full(g0));
        }
        cleared_count
    }

    /// Whether the piece can sit where it is: all four of its absolute
    /// cells must be free, which includes being on the board.
    pub fn can_place(&self, piece: &Tetromino) -> (r: bool)
        requires
            self.wf(),
            piece.wf(),
            piece.pos_ok(),
        ensures
            r == can_place_spec(self@, *piece),
    {
        let cords = piece.get_cords();
        let mut i: usize = 0;
        while i < 4
            invariant
                self.wf(),
                piece.wf(),
                piece.pos_ok(),
                i <= 4,
                forall|j: int|
                    0 <= j < 4 ==> ((#[trigger] cords@[j]).0 as int, cords@[j].1 as int)
                        == piece.cells()[j],
                forall|j: int|
                    0 <= j < i as int ==> cell_free(
                        self@,
                        (#[trigger] piece.cells()[j]).0,
                        piece.cells()[j].1,
                    ),
            decreases 4 - i,
        {
            if !self.pos_free(cords[i].0, cords[i].1) {
                proof {
                    assert(!cell_free(self@, piece.cells()[i as int].0, piece.cells()[i as int].1));
                }
                return false;
            }
            i = i + 1;
        }
        true
    }

    /// Writes the piece's four cells into the board. Callers are expected
    /// to have checked `can_place` first; cells that fall outside the
    /// board are simply not written.
    pub fn lock_piece(&mut self, piece: &Tetromino)
        requires
            old(self).wf(),
            piece.wf(),
            piece.pos_ok(),
        ensures
            final (self).wf(),
            final (self)@ == lock_spec(old(self)@, *piece),
    {
        proof {
            lemma_offsets_bounded(piece.shape, piece.rotation as int);
        }
        let cords = piece.get_cords();
        let ghost g0 = self@;
        let mut i: usize = 0;
        while i < 4
            invariant
                self.wf(),
                piece.wf(),
                piece.pos_ok(),
                grid_wf(g0),
                piece.cells().len() == 4,
                i <= 4,
                forall|j: int|
                    0 <= j < 4 ==> ((#[trigger] cords@[j]).0 as int, cords@[j].1 as int)
                        == piece.cells()[j],
                self@ == lock_cells(g0, piece.cells().subrange(0, i as int)),
            decreases 4 - i,
        {
            self.fill_pos(cords[i].0, cords[i].1);
            proof {
                let cs = piece.cells();
                assert(cs.subrange(0, i as int + 1).drop_last() =~= cs.subrange(0, i as int));
                assert(cs.subrange(0, i as int + 1).last() == cs[i as int]);
            }
            i = i + 1;
        }
        proof {
            assert(piece.cells().subrange(0, 4) =~= piece.cells());
        }
    }
}

/// Whether all four cells of the piece are simultaneously free on `g`.
pub open spec fn can_place_spec(g: Seq<Seq<bool>>, t: Tetromino) -> bool {
    forall|i: int|
        0 <= i < 4 ==> cell_free(g, (#[trigger] t.cells()[i]).0, t.cells()[i].1)
}

/// The grid after filling each of `cells` in turn.
pub open spec fn lock_cells(g: Seq<Seq<bool>>, cells: Seq<(int, int)>) -> Seq<Seq<bool>>
    decreases cells.len(),
{
    if cells.len() == 0 {
        g
    } else {
        set_cell(lock_cells(g, cells.drop_last()), cells.last().0, cells.last().1)
    }
}

/// The grid after the piece's four cells are written into it.
pub open spec fn lock_spec(g: Seq<Seq<bool>>, t: Tetromino) -> Seq<Seq<bool>> {
    lock_cells(g, t.cells())
}

/// On the board, a coordinate is in bounds exactly when neither
/// component is negative and neither reaches the board's width or
/// height.
pub proof fn lemma_in_bounds_characterization(x: int, y: int)
    ensures
        in_bounds(x, y) <==> !(x < 0 || y < 0 || x >= BOARD_WIDTH as int || y >= BOARD_HEIGHT
            as int),
{
}

/// An out-of-bounds coordinate is never free, whatever the grid holds.
pub proof fn lemma_out_of_bounds_not_free(g: Seq<Seq<bool>>, x: int, y: int)
    requires
        !in_bounds(x, y),
    ensures
        !cell_free(g, x, y),
{
}

/// Setting a cell occupies it, occupies nothing less than before, and
/// keeps the grid well-formed.
pub proof fn lemma_set_cell_not_free(g: Seq<Seq<bool>>, x: int, y: int)
    requires
        grid_wf(g),
    ensures
        grid_wf(set_cell(g, x, y)),
        !cell_free(set_cell(g, x, y), x, y),
        forall|a: int, b: int|
            !cell_free(g, a, b) ==> !(#[trigger] cell_free(set_cell(g, x, y), a, b)),
{
}

/// Locking fills every listed cell that lies on the board, keeps every
/// previously occupied cell occupied, and keeps the grid well-formed; so
/// afterwards none of the listed cells is free.
pub proof fn lemma_lock_cells_not_free(g: Seq<Seq<bool>>, cells: Seq<(int, int)>)
    requires
        grid_wf(g),
    ensures
        grid_wf(lock_cells(g, cells)),
        forall|i: int|
            0 <= i < cells.len() ==> !cell_free(
                lock_cells(g, cells),
                (#[trigger] cells[i]).0,
                cells[i].1,
            ),
        forall|a: int, b: int|
            !cell_free(g, a, b) ==> !(#[trigger] cell_free(lock_cells(g, cells), a, b)),
    decreases cells.len(),
{
    if cells.len() > 0 {
        let rest = cells.drop_last();
        lemma_lock_cells_not_free(g, rest);
        lemma_set_cell_not_free(lock_cells(g, rest), cells.last().0, cells.last().1);
        assert forall|i: int|
            0 <= i < cells.len() implies !cell_free(
            lock_cells(g, cells),
            (#[trigger] cells[i]).0,
            cells[i].1,
        ) by {
            if i < cells.len() - 1 {
                assert(cells[i] == rest[i]);
                assert(!cell_free(lock_cells(g, rest), cells[i].0, cells[i].1));
            } else {
                assert(cells[i] == cells.last());
            }
        }
    }
}

/// A placeable piece's anchor lies on or just off the board, far from
/// the integer limits.
pub proof fn lemma_can_place_pos_bounds(g: Seq<Seq<bool>>, t: Tetromino)
    requires
        t.wf(),
        can_place_spec(g, t),
    ensures
        -3 <= t.pos.0 <= 9,
        -3 <= t.pos.1 <= 19,
        t.pos_ok(),
{
    lemma_offsets_bounded(t.shape, t.rotation as int);
    assert(cell_free(g, t.cells()[0].0, t.cells()[0].1));
    assert(t.cells()[0].0 == shape_offsets(t.shape, t.rotation as int)[0].0 + t.pos.0);
    assert(t.cells()[0].1 == shape_offsets(t.shape, t.rotation as int)[0].1 + t.pos.1);
}

/// Locking a piece leaves no cell of that piece free afterwards.
pub proof fn lemma_lock_leaves_no_cell_free(g: Seq<Seq<bool>>, t: Tetromino)
    requires
        grid_wf(g),
    ensures
        grid_wf(lock_spec(g, t)),
        forall|i: int|
            0 <= i < t.cells().len() ==> !cell_free(
                lock_spec(g, t),
                (#[trigger] t.cells()[i]).0,
                t.cells()[i].1,
            ),
{
    lemma_lock_cells_not_free(g, t.cells());
}

/// The grid with row `y` removed: one new empty row on top, the rows
/// that were above `y` pushed down one, and the rows below unchanged.
pub open spec fn cleared_row(g: Seq<Seq<bool>>, y: int) -> Seq<Seq<bool>> {
    seq![empty_row()] + g.subrange(0, y) + g.subrange(y + 1, g.len() as int)
}

/// The length of the unbroken run of full rows at the bottom of `g`.
pub open spec fn trailing_full_run(g: Seq<Seq<bool>>) -> int
    decreases g.len(),
{
    if g.len() == 0 || !row_full(g.last()) {
        0
    } else {
        1 + trailing_full_run(g.drop_last())
    }
}

/// How many rows of `g` are full.
pub open spec fn count_full(g: Seq<Seq<bool>>) -> int
    decreases g.len(),
{
    if g.len() == 0 {
        0
    } else {
        count_full(g.drop_last()) + if row_full(g.last()) {
            1int
        } else {
            0int
        }
    }
}

/// The rows of `g` that are not full, in their original order.
pub open spec fn rows_not_full(g: Seq<Seq<bool>>) -> Seq<Seq<bool>>
    decreases g.len(),
{
    if g.len() == 0 {
        Seq::empty()
    } else {
        rows_not_full(g.drop_last()) + if row_full(g.last()) {
            Seq::empty()
        } else {
            seq![g.last()]
        }
    }
}

/// A row of empty cells is never full.
pub proof fn lemma_empty_row_not_full()
    ensures
        !row_full(empty_row()),
{
    assert(!empty_row()[0]);
}

/// Full-row counting and filtering distribute over concatenation.
pub proof fn lemma_count_concat(a: Seq<Seq<bool>>, b: Seq<Seq<bool>>)
    ensures
        count_full(a + b) == count_full(a) + count_full(b),
        rows_not_full(a + b) == rows_not_full(a) + rows_not_full(b),
    decreases b.len(),
{
    if b.len() == 0 {
        assert(a + b =~= a);
        assert(rows_not_full(a) + rows_not_full(b) =~= rows_not_full(a));
    } else {
        lemma_count_concat(a, b.drop_last());
        assert((a + b).drop_last() =~= a + b.drop_last());
        assert((a + b).last() == b.last());
        if row_full(b.last()) {
            assert(rows_not_full(a + b) =~= rows_not_full(a) + rows_not_full(b));
        } else {
            assert(rows_not_full(a + b) =~= rows_not_full(a) + rows_not_full(b));
        }
    }
}

/// The full and the not-full rows together account for every row.
pub proof fn lemma_count_len(g: Seq<Seq<bool>>)
    ensures
        rows_not_full(g).len() + count_full(g) == g.len(),
        0 <= count_full(g) <= g.len(),
    decreases g.len(),
{
    if g.len() != 0 {
        lemma_count_len(g.drop_last());
    }
}

/// On a grid whose rows are all full, counting finds every row and
/// filtering keeps none.
pub proof fn lemma_all_full(g: Seq<Seq<bool>>)
    requires
        forall|i: int| 0 <= i < g.len() ==> row_full(#[trigger] g[i]),
    ensures
        count_full(g) == g.len(),
        rows_not_full(g) == Seq::<Seq<bool>>::empty(),
    decreases g.len(),
{
    if g.len() != 0 {
        lemma_all_full(g.drop_last());
        assert(rows_not_full(g) =~= Seq::<Seq<bool>>::empty());
    }
}

/// A bottom run of `k` full rows bounded above by a non-full row (or the
/// top of the grid) is exactly the trailing full run.
pub proof fn lemma_run_characterize(s: Seq<Seq<bool>>, k: int)
    requires
        0 <= k <= s.len(),
        forall|i: int| s.len() - k <= i < s.len() ==> row_full(#[trigger] s[i]),
        k == s.len() || !row_full(s[s.len() - k - 1]),
    ensures
        trailing_full_run(s) == k,
    decreases k,
{
    if k == 0 {
    } else {
        assert(row_full(s[s.len() - 1]));
        lemma_run_characterize(s.drop_last(), k - 1);
    }
}

/// What the trailing full run means: that many bottom rows are full, and
/// the row just above the run (when there is one) is not.
pub proof fn lemma_run_props(s: Seq<Seq<bool>>)
    ensures
        0 <= trailing_full_run(s) <= s.len(),
        forall|i: int| s.len() - trailing_full_run(s) <= i < s.len() ==> row_full(#[trigger] s[i]),
        trailing_full_run(s) < s.len() ==> !row_full(s[s.len() - trailing_full_run(s) - 1]),
    decreases s.len(),
{
    if s.len() > 0 && row_full(s.last()) {
        lemma_run_props(s.drop_last());
        assert forall|i: int|
            s.len() - trailing_full_run(s) <= i < s.len() implies row_full(#[trigger] s[i]) by {
            if i < s.len() - 1 {
                assert(row_full(s.drop_last()[i]));
                assert(s[i] == s.drop_last()[i]);
            } else {
                assert(s[i] == s.last());
            }
        }
    }
}

/// The trailing full run of a concatenation: the run of the lower part,
/// extended into the upper part only when the lower part is full through.
pub proof fn lemma_run_concat(a: Seq<Seq<bool>>, b: Seq<Seq<bool>>)
    ensures
        trailing_full_run(a + b) == if trailing_full_run(b) == b.len() {
            b.len() + trailing_full_run(a)
        } else {
            trailing_full_run(b)
        },
    decreases b.len(),
{
    if b.len() == 0 {
        assert(a + b =~= a);
    } else {
        assert((a + b).last() == b.last());
        if row_full(b.last()) {
            assert((a + b).drop_last() =~= a + b.drop_last());
            lemma_run_concat(a, b.drop_last());
            lemma_run_props(b.drop_last());
        } else {
            lemma_run_props(b);
        }
    }
}

/// The grid with cell `(x, y)` set occupied; an out-of-bounds position
/// leaves the grid as it is.
pub open spec fn set_cell(g: Seq<Seq<bool>>, x: int, y: int) -> Seq<Seq<bool>> {
    if in_bounds(x, y) && 0 <= y < g.len() && 0 <= x < g[y].len() {
        g.update(y, g[y].update(x, true))
    } else {
        g
    }
}

/// A freshly built row of `BOARD_WIDTH` empty cells.
fn empty_row_vec() -> (r: Vec<bool>)
    ensures
        r@ == empty_row(),
{
    let mut row: Vec<bool> = Vec::new();
    let mut x: usize = 0;
    while x < BOARD_WIDTH
        invariant
            x <= BOARD_WIDTH,
            row@.len() == x as int,
            forall|i: int| 0 <= i < x as int ==> !(#[trigger] row@[i]),
        decreases BOARD_WIDTH - x,
    {
        row.push(false);
        x = x + 1;
    }
    proof {
        assert(row@ =~= empty_row());
    }
    row
}

} // verus!
