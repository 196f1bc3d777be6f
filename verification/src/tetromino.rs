//! The active tetromino: its shape catalog, position and orientation.

use vstd::prelude::*;

verus! {

/// One of the seven tetromino shapes.
#[derive(Clone, Copy, Debug, PartialEq, Eq, Structural)]
pub enum Shape {
    I,
    O,
    T,
    S,
    Z,
    J,
    L,
}

/// A movable, rotatable tetromino: shape, anchor position and
/// orientation. The four occupied cells are the shape catalog's offsets
/// translated by the anchor.
#[derive(Clone, Copy, Debug)]
pub struct Tetromino {
    pub pos: (i32, i32),
    pub shape: Shape,
    pub rotation: u8,
}

/// A translation direction. `Up` is not player-facing: it only undoes a
/// rejected downward move.
#[derive(Clone, Copy, Debug, PartialEq, Eq, Structural)]
pub enum Direction {
    Left,
    Down,
    Right,
    Up,
}

/// A rotation sense.
#[derive(Clone, Copy, Debug, PartialEq, Eq, Structural)]
pub enum Rotation {
    Clock,
    Counter,
}

/// The shape catalog: the four cell offsets of `s` in orientation `r`.
/// Offsets are small non-negative integers; orientations 0 and 2 of I,
/// S and Z coincide, and all four orientations of O coincide.
pub open spec fn shape_offsets(s: Shape, r: int) -> Seq<(i32, i32)>
    recommends
        0 <= r < 4,
{
    match s {
        Shape::I => if r == 0 || r == 2 {
            seq![(0, 0), (1, 0), (2, 0), (3, 0)]
        } else {
            seq![(1, 0), (1, 1), (1, 2), (1, 3)]
        },
        Shape::O => seq![(0, 0), (1, 0), (0, 1), (1, 1)],
        Shape::T => if r == 0 {
            seq![(0, 0), (1, 0), (2, 0), (1, 1)]
        } else if r == 1 {
            seq![(1, 0), (0, 1), (1, 1), (1, 2)]
        } else if r == 2 {
            seq![(1, 0), (0, 1), (1, 1), (2, 1)]
        } else {
            seq![(0, 0), (0, 1), (1, 1), (0, 2)]
        },
        Shape::S => if r == 0 || r == 2 {
            seq![(1, 0), (2, 0), (0, 1), (1, 1)]
        } else {
            seq![(0, 0), (0, 1), (1, 1), (1, 2)]
        },
        Shape::Z => if r == 0 || r == 2 {
            seq![(0, 0), (1, 0), (1, 1), (2, 1)]
        } else {
            seq![(1, 0), (0, 1), (1, 1), (0, 2)]
        },
        Shape::J => if r == 0 {
            seq![(0, 0), (1, 0), (2, 0), (2, 1)]
        } else if r == 1 {
            seq![(1, 0), (1, 1), (0, 2), (1, 2)]
        } else if r == 2 {
            seq![(0, 0), (0, 1), (1, 1), (2, 1)]
        } else {
            seq![(0, 0), (1, 0), (0, 1), (0, 2)]
        },
        Shape::L => if r == 0 {
            seq![(0, 0), (1, 0), (2, 0), (0, 1)]
        } else if r == 1 {
            seq![(0, 0), (1, 0), (1, 1), (1, 2)]
        } else if r == 2 {
            seq![(2, 0), (0, 1), (1, 1), (2, 1)]
        } else {
            seq![(0, 0), (0, 1), (0, 2), (1, 2)]
        },
    }
}

/// Every catalog entry has exactly four offsets, each component in 0..=3.
pub proof fn lemma_offsets_bounded(s: Shape, r: int)
    ensures
        shape_offsets(s, r).len() == 4,
        forall|i: int|
            0 <= i < 4 ==> 0 <= (#[trigger] shape_offsets(s, r)[i]).0 <= 3 && 0 <= shape_offsets(
                s,
                r,
            )[i].1 <= 3,
{
}

/// The shape catalog as an executable lookup. An orientation outside
/// 0..=3 is a caller error, ruled out by contract.
pub fn get_shape(piece_shape: &Shape, rot: u8) -> (r: [(i32, i32); 4])
    requires
        rot < 4,
    ensures
        r@ == shape_offsets(*piece_shape, rot as int),
{
    let out: [(i32, i32); 4] = match piece_shape {
        Shape::I => if rot == 0 || rot == 2 {
            [(0, 0), (1, 0), (2, 0), (3, 0)]
        } else {
            [(1, 0), (1, 1), (1, 2), (1, 3)]
        },
        Shape::O => [(0, 0), (1, 0), (0, 1), (1, 1)],
        Shape::T => if rot == 0 {
            [(0, 0), (1, 0), (2, 0), (1, 1)]
        } else if rot == 1 {
            [(1, 0), (0, 1), (1, 1), (1, 2)]
        } else if rot == 2 {
            [(1, 0), (0, 1), (1, 1), (2, 1)]
        } else {
            [(0, 0), (0, 1), (1, 1), (0, 2)]
        },
        Shape::S => if rot == 0 || rot == 2 {
            [(1, 0), (2, 0), (0, 1), (1, 1)]
        } else {
            [(0, 0), (0, 1), (1, 1), (1, 2)]
        },
        Shape::Z => if rot == 0 || rot == 2 {
            [(0, 0), (1, 0), (1, 1), (2, 1)]
        } else {
            [(1, 0), (0, 1), (1, 1), (0, 2)]
        },
        Shape::J => if rot == 0 {
            [(0, 0), (1, 0), (2, 0), (2, 1)]
        } else if rot == 1 {
            [(1, 0), (1, 1), (0, 2), (1, 2)]
        } else if rot == 2 {
            [(0, 0), (0, 1), (1, 1), (2, 1)]
        } else {
            [(0, 0), (1, 0), (0, 1), (0, 2)]
        },
        Shape::L => if rot == 0 {
            [(0, 0), (1, 0), (2, 0), (0, 1)]
        } else if rot == 1 {
            [(0, 0), (1, 0), (1, 1), (1, 2)]
        } else if rot == 2 {
            [(2, 0), (0, 1), (1, 1), (2, 1)]
        } else {
            [(0, 0), (0, 1), (0, 2), (1, 2)]
        },
    };
    proof {
        assert(out@ =~= shape_offsets(*piece_shape, rot as int));
    }
    out
}

/// The piece after one translation step in `direction`.
pub open spec fn moved_piece(p: Tetromino, direction: Direction) -> Tetromino {
    Tetromino { pos: moved_pos(p.pos, direction), ..p }
}

/// The piece after one clockwise rotation.
pub open spec fn rotated_cw(p: Tetromino) -> Tetromino {
    Tetromino { rotation: ((p.rotation + 1) % 4) as u8, ..p }
}

/// The piece after one counter-clockwise rotation.
pub open spec fn rotated_ccw(p: Tetromino) -> Tetromino {
    Tetromino { rotation: ((p.rotation + 3) % 4) as u8, ..p }
}

/// Four clockwise rotations return a piece to its original state —
/// orientation, anchor and cell set alike.
pub proof fn lemma_rotate_four_times(p: Tetromino)
    requires
        p.wf(),
    ensures
        rotated_cw(rotated_cw(rotated_cw(rotated_cw(p)))) == p,
{
}

/// A clockwise rotation followed by a counter-clockwise one is a no-op,
/// and the other way round.
pub proof fn lemma_rotate_inverse(p: Tetromino)
    requires
        p.wf(),
    ensures
        rotated_ccw(rotated_cw(p)) == p,
        rotated_cw(rotated_ccw(p)) == p,
{
}

/// A translation step and its reverse undo one another exactly, as long
/// as the anchor stays clear of the integer limits.
pub proof fn lemma_move_inverse(p: Tetromino)
    requires
        p.pos_ok(),
    ensures
        moved_piece(moved_piece(p, Direction::Left), Direction::Right) == p,
        moved_piece(moved_piece(p, Direction::Right), Direction::Left) == p,
        moved_piece(moved_piece(p, Direction::Down), Direction::Up) == p,
        moved_piece(moved_piece(p, Direction::Up), Direction::Down) == p,
{
}

/// The anchor after one step in `direction`.
pub open spec fn moved_pos(p: (i32, i32), direction: Direction) -> (i32, i32) {
    match direction {
        Direction::Left => ((p.0 - 1) as i32, p.1),
        Direction::Right => ((p.0 + 1) as i32, p.1),
        Direction::Down => (p.0, (p.1 + 1) as i32),
        Direction::Up => (p.0, (p.1 - 1) as i32),
    }
}

impl Tetromino {
    /// The orientation is always kept in 0..=3.
    pub open spec fn wf(self) -> bool {
        self.rotation < 4
    }

    /// The anchor is far enough from the `i32` limits that the four
    /// absolute cells can be computed without overflow.
    pub open spec fn pos_ok(self) -> bool {
        &&& i32::MIN + 3 <= self.pos.0 <= i32::MAX - 3
        &&& i32::MIN + 3 <= self.pos.1 <= i32::MAX - 3
    }

    /// The four absolute cells: catalog offsets translated by the anchor.
    pub open spec fn cells(self) -> Seq<(int, int)> {
        shape_offsets(self.shape, self.rotation as int).map_values(
            |c: (i32, i32)| (c.0 + self.pos.0, c.1 + self.pos.1),
        )
    }

    pub fn new(initial_cords: (i32, i32), piece_shape: Shape) -> (r: Self)
        ensures
            r.pos == initial_cords,
            r.shape == piece_shape,
            r.rotation == 0,
    {
        Self { pos: initial_cords, shape: piece_shape, rotation: 0 }
    }

    pub fn update_pos(&mut self, new_pos: (i32, i32))
        ensures
            final (self).pos == new_pos,
            final (self).shape == old(self).shape,
            final (self).rotation == old(self).rotation,
    {
        self.pos = new_pos;
    }

    /// Translates the anchor one step. `Up` exists only to undo a `Down`.
    pub fn move_piece(&mut self, direction: Direction)
        requires
            old(self).pos_ok(),
        ensures
            final (self).pos == moved_pos(old(self).pos, direction),
            final (self).shape == old(self).shape,
            final (self).rotation == old(self).rotation,
    {
        match direction {
            Direction::Left => {
                self.pos.0 = self.pos.0 - 1;
            },
            Direction::Right => {
                self.pos.0 = self.pos.0 + 1;
            },
            Direction::Down => {
                self.pos.1 = self.pos.1 + 1;
            },
            Direction::Up => {
                self.pos.1 = self.pos.1 - 1;
            },
        }
    }

    /// Advances the orientation clockwise, modulo four.
    pub fn rotate_cw(&mut self)
        requires
            old(self).wf(),
        ensures
            final (self).rotation == (old(self).rotation + 1) % 4,
            final (self).pos == old(self).pos,
            final (self).shape == old(self).shape,
            final (self).wf(),
    {
        self.rotation = (self.rotation + 1) % 4;
    }

    /// Advances the orientation counter-clockwise, modulo four.
    pub fn rotate_ccw(&mut self)
        requires
            old(self).wf(),
        ensures
            final (self).rotation == (old(self).rotation + 3) % 4,
            final (self).pos == old(self).pos,
            final (self).shape == old(self).shape,
            final (self).wf(),
    {
        self.rotation = (self.rotation + 3) % 4;
    }

    /// The four absolute cells occupied by the piece.
    pub fn get_cords(&self) -> (r: [(i32, i32); 4])
        requires
            self.wf(),
            self.pos_ok(),
        ensures
            forall|i: int|
                0 <= i < 4 ==> ((#[trigger] r@[i]).0 as int, r@[i].1 as int) == self.cells()[i],
    {
        proof {
            lemma_offsets_bounded(self.shape, self.rotation as int);
        }
        let offs = get_shape(&self.shape, self.rotation);
        let out: [(i32, i32); 4] = [
            (offs[0].0 + self.pos.0, offs[0].1 + self.pos.1),
            (offs[1].0 + self.pos.0, offs[1].1 + self.pos.1),
            (offs[2].0 + self.pos.0, offs[2].1 + self.pos.1),
            (offs[3].0 + self.pos.0, offs[3].1 + self.pos.1),
        ];
        out
    }
}

} // verus!
