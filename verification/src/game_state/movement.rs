use vstd::prelude::*;

use crate::game_state::Cell;

verus! {

/// One of the four cardinal moves.
#[derive(Clone, Copy, Debug, PartialEq, Eq, Structural)]
pub enum Move {
    Up,
    Down,
    Left,
    Right,
}

/// The x coordinate of `c` shifted by `m`, as an unbounded integer.
pub open spec fn moved_x(c: Cell, m: Move) -> int {
    match m {
        Move::Left => c.0 - 1,
        Move::Right => c.0 + 1,
        _ => c.0 as int,
    }
}

/// The y coordinate of `c` shifted by `m`, as an unbounded integer.
pub open spec fn moved_y(c: Cell, m: Move) -> int {
    match m {
        Move::Up => c.1 + 1,
        Move::Down => c.1 - 1,
        _ => c.1 as int,
    }
}

/// Whether the cell adjacent to `c` in direction `m` is representable.
pub open spec fn can_add(c: Cell, m: Move) -> bool {
    -128 <= moved_x(c, m) <= 127 && -128 <= moved_y(c, m) <= 127
}

/// The cell adjacent to `c` in direction `m`.
pub open spec fn spec_add(c: Cell, m: Move) -> Cell {
    Cell(moved_x(c, m) as i8, moved_y(c, m) as i8)
}

impl core::ops::Add<Move> for Cell {
    type Output = Cell;

    /// Adding a move to a cell yields the adjacent cell in that direction:
    /// up increments y, down decrements y, left decrements x and right
    /// increments x.
    fn add(self, rhs: Move) -> (r: Cell) {
        match rhs {
            Move::Up => Cell(self.0, self.1 + 1),
            Move::Down => Cell(self.0, self.1 - 1),
            Move::Left => Cell(self.0 - 1, self.1),
            Move::Right => Cell(self.0 + 1, self.1),
        }
    }
}

impl vstd::std_specs::ops::AddSpecImpl<Move> for Cell {
    open spec fn obeys_add_spec() -> bool {
        true
    }

    open spec fn add_req(self, rhs: Move) -> bool {
        can_add(self, rhs)
    }

    open spec fn add_spec(self, rhs: Move) -> Cell {
        spec_add(self, rhs)
    }
}

/// For any cell whose coordinates lie strictly inside the representable
/// range, adding a move changes exactly one axis by exactly one, and the
/// four moves yield four distinct cells.
pub proof fn lemma_add_move_to_cell(c: Cell)
    requires
        -128 < c.0 < 127,
        -128 < c.1 < 127,
    ensures
        spec_add(c, Move::Up) == Cell(c.0, (c.1 + 1) as i8),
        spec_add(c, Move::Down) == Cell(c.0, (c.1 - 1) as i8),
        spec_add(c, Move::Left) == Cell((c.0 - 1) as i8, c.1),
        spec_add(c, Move::Right) == Cell((c.0 + 1) as i8, c.1),
        forall|m1: Move, m2: Move| m1 != m2 ==> spec_add(c, m1) != spec_add(c, m2),
{
}

impl Move {
    /// Enumerates the four moves in the fixed order up, down, left, right.
    pub fn enumerate() -> (r: MovesEnumerator)
        ensures
            r@ == seq![Move::Up, Move::Down, Move::Left, Move::Right],
    {
        MovesEnumerator { next: Some(Move::Up) }
    }
}

/// Yields the four moves in their fixed order; the view is the sequence of
/// moves still to come.
pub struct MovesEnumerator {
    next: Option<Move>,
}

impl View for MovesEnumerator {
    type V = Seq<Move>;

    closed spec fn view(&self) -> Seq<Move> {
        match self.next {
            Some(Move::Up) => seq![Move::Up, Move::Down, Move::Left, Move::Right],
            Some(Move::Down) => seq![Move::Down, Move::Left, Move::Right],
            Some(Move::Left) => seq![Move::Left, Move::Right],
            Some(Move::Right) => seq![Move::Right],
            None => Seq::empty(),
        }
    }
}

impl MovesEnumerator {
    /// The next move in the fixed enumeration order, if any remain.
    pub fn next(&mut self) -> (r: Option<Move>)
        ensures
            old(self)@.len() == 0 ==> r is None && final(self)@ == old(self)@,
            old(self)@.len() > 0 ==> r == Some(old(self)@[0]) && final(self)@
                == old(self)@.drop_first(),
    {
        let result = self.next;
        self.next = match self.next {
            None => None,
            Some(Move::Up) => Some(Move::Down),
            Some(Move::Down) => Some(Move::Left),
            Some(Move::Left) => Some(Move::Right),
            Some(Move::Right) => None,
        };
        result
    }
}

} // verus!
