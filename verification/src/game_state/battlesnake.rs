use vstd::prelude::*;

use crate::api_types;
use crate::game_state::movement::{can_add, spec_add};
use crate::game_state::{Cell, Move};

verus! {

/// One agent: an ordered sequence of cells, head first, tail last. An empty
/// sequence means the agent is dead. The view is that cell sequence.
#[derive(Debug)]
pub struct Battlesnake {
    cells: Vec<Cell>,
}

impl View for Battlesnake {
    type V = Seq<Cell>;

    closed spec fn view(&self) -> Seq<Cell> {
        self.cells@
    }
}

/// The move-and-grow transition of one agent: a dead agent stays dead;
/// otherwise the new head is prepended, the whole old body is kept when the
/// new head lands on food, and the old tail segment is dropped when it does
/// not.
pub open spec fn spec_update(a: Seq<Cell>, m: Move, food: Seq<Cell>) -> Seq<Cell> {
    if a.len() == 0 {
        a
    } else {
        let new_head = spec_add(a[0], m);
        if food.contains(new_head) {
            seq![new_head] + a
        } else {
            seq![new_head] + a.take(a.len() - 1)
        }
    }
}

/// Whether the head of a living agent lies outside the `w` by `h` grid.
pub open spec fn spec_gone_oob(a: Seq<Cell>, w: int, h: int) -> bool {
    a.len() > 0 && (a[0].0 >= w || a[0].0 < 0 || a[0].1 >= h || a[0].1 < 0)
}

/// Whether `cells` holds `c`.
fn contains_cell(cells: &[Cell], c: Cell) -> (r: bool)
    ensures
        r == cells@.contains(c),
{
    let mut i: usize = 0;
    while i < cells.len()
        invariant
            i <= cells@.len(),
            forall|j: int| 0 <= j < i ==> cells@[j] != c,
        decreases cells@.len() - i,
    {
        if cells[i] == c {
            assert(cells@[i as int] == c);
            return true;
        }
        i = i + 1;
    }
    false
}

impl Battlesnake {
    /// Builds an agent from unsigned coordinate pairs, head first.
    pub fn new(cells: &[(usize, usize)]) -> (r: Battlesnake)
        requires
            forall|i: int|
                0 <= i < cells@.len() ==> (#[trigger] cells@[i]).0 <= 127 && cells@[i].1 <= 127,
        ensures
            r@.len() == cells@.len(),
            forall|i: int|
                0 <= i < cells@.len() ==> r@[i] == Cell(
                    (#[trigger] cells@[i]).0 as i8,
                    cells@[i].1 as i8,
                ),
    {
        let mut out: Vec<Cell> = Vec::new();
        let mut i: usize = 0;
        while i < cells.len()
            invariant
                i <= cells@.len(),
                out@.len() == i,
                forall|i2: int|
                    0 <= i2 < cells@.len() ==> (#[trigger] cells@[i2]).0 <= 127 && cells@[i2].1
                        <= 127,
                forall|j: int|
                    0 <= j < i ==> out@[j] == Cell(
                        (#[trigger] cells@[j]).0 as i8,
                        cells@[j].1 as i8,
                    ),
            decreases cells@.len() - i,
        {
            let (x, y) = cells[i];
            out.push(Cell(x as i8, y as i8));
            i = i + 1;
        }
        Battlesnake { cells: out }
    }

    /// Builds an agent from its wire description: the ordered body
    /// coordinates, head first, narrowed to cells.
    pub fn from_description(value: &api_types::Battlesnake) -> (r: Battlesnake)
        requires
            forall|i: int|
                0 <= i < value.body@.len() ==> -128 <= (#[trigger] value.body@[i]).x <= 127 && -128
                    <= value.body@[i].y <= 127,
        ensures
            r@.len() == value.body@.len(),
            forall|i: int|
                0 <= i < value.body@.len() ==> r@[i] == Cell(
                    (#[trigger] value.body@[i]).x as i8,
                    value.body@[i].y as i8,
                ),
    {
        let mut out: Vec<Cell> = Vec::new();
        let mut i: usize = 0;
        while i < value.body.len()
            invariant
                i <= value.body@.len(),
                out@.len() == i,
                forall|i2: int|
                    0 <= i2 < value.body@.len() ==> -128 <= (#[trigger] value.body@[i2]).x <= 127
                        && -128 <= value.body@[i2].y <= 127,
                forall|j: int|
                    0 <= j < i ==> out@[j] == Cell(
                        (#[trigger] value.body@[j]).x as i8,
                        value.body@[j].y as i8,
                    ),
            decreases value.body@.len() - i,
        {
            out.push(Cell::from_coordinates(&value.body[i]));
            i = i + 1;
        }
        Battlesnake { cells: out }
    }

    /// A dead agent: the empty body.
    pub fn new_dead() -> (r: Battlesnake)
        ensures
            r@ == Seq::<Cell>::empty(),
    {
        Battlesnake { cells: Vec::new() }
    }

    /// Applies one move to this agent, growing by one segment when the new
    /// head lands on food. Bounds and collisions are separate passes.
    pub fn update(&self, snake_move: Move, food: &[Cell]) -> (r: Battlesnake)
        requires
            self@.len() > 0 ==> can_add(self@[0], snake_move),
        ensures
            r@ == spec_update(self@, snake_move, food@),
    {
        let mut cells: Vec<Cell> = Vec::new();
        if self.cells.len() > 0 {
            let new_head = self.cells[0] + snake_move;
            cells.push(new_head);
            let keep: usize = if contains_cell(food, new_head) {
                self.cells.len()
            } else {
                self.cells.len() - 1
            };
            let mut i: usize = 0;
            while i < keep
                invariant
                    i <= keep <= self.cells@.len(),
                    cells@.len() == i + 1,
                    cells@[0] == new_head,
                    forall|j: int| 1 <= j <= i ==> cells@[j] == self.cells@[j - 1],
                decreases keep - i,
            {
                cells.push(self.cells[i]);
                i = i + 1;
            }
            if keep == self.cells.len() {
                assert(cells@ =~= seq![new_head] + self@);
            } else {
                assert(cells@ =~= seq![new_head] + self@.take(self@.len() - 1));
            }
        }
        Battlesnake { cells }
    }

    /// The number of body segments; zero exactly when the agent is dead.
    pub fn length(&self) -> (r: usize)
        ensures
            r == self@.len(),
    {
        self.cells.len()
    }

    /// The cell at position `i`, counting from the head.
    pub fn cell_at(&self, i: usize) -> (r: Cell)
        requires
            i < self@.len(),
        ensures
            r == self@[i as int],
    {
        self.cells[i]
    }

    /// The head cell, if the agent is alive.
    pub fn head(&self) -> (r: Option<Cell>)
        ensures
            self@.len() == 0 ==> r is None,
            self@.len() > 0 ==> r == Some(self@[0]),
    {
        if self.cells.len() == 0 {
            None
        } else {
            Some(self.cells[0])
        }
    }

    /// The trailing body: every cell but the head.
    pub fn body(&self) -> (r: &[Cell])
        ensures
            self@.len() == 0 ==> r@ == self@,
            self@.len() > 0 ==> r@ == self@.subrange(1, self@.len() as int),
    {
        if self.cells.len() == 0 {
            self.cells.as_slice()
        } else {
            &self.cells.as_slice()[1..self.cells.len()]
        }
    }

    /// Whether the agent still has a body.
    pub fn is_alive(&self) -> (r: bool)
        ensures
            r == (self@.len() > 0),
    {
        self.cells.len() > 0
    }

    /// Whether the agent's head lies outside the given grid bounds. A dead
    /// agent has no head to check.
    pub fn has_gone_oob(&self, board_width: i32, board_height: i32) -> (r: bool)
        ensures
            r == spec_gone_oob(self@, board_width as int, board_height as int),
    {
        if self.cells.len() > 0 {
            let x = self.cells[0].0 as i32;
            let y = self.cells[0].1 as i32;
            x >= board_width || x < 0 || y >= board_height || y < 0
        } else {
            false
        }
    }
}

/// A dead (empty) agent stays dead under the transition, for every move and
/// every food set.
pub proof fn lemma_update_dead_stays_dead(m: Move, food: Seq<Cell>)
    ensures
        spec_update(Seq::<Cell>::empty(), m, food).len() == 0,
{
}

/// A single-segment agent that does not land on food becomes a single
/// segment at the shifted head; landing on food it becomes two segments,
/// keeping the old segment as the new tail.
pub proof fn lemma_update_single_segment(a: Seq<Cell>, m: Move, food: Seq<Cell>)
    requires
        a.len() == 1,
    ensures
        !food.contains(spec_add(a[0], m)) ==> spec_update(a, m, food) == seq![spec_add(a[0], m)],
        food.contains(spec_add(a[0], m)) ==> spec_update(a, m, food) == seq![
            spec_add(a[0], m),
            a[0],
        ],
{
    let new_head = spec_add(a[0], m);
    if food.contains(new_head) {
        assert(seq![new_head] + a =~= seq![new_head, a[0]]);
    } else {
        assert(seq![new_head] + a.take(0) =~= seq![new_head]);
    }
}

} // verus!
