use vstd::prelude::*;
use vstd::string::StringExecFns;

use crate::api_types;
use crate::api_types::Coordinates;
use crate::error::Error;

pub mod battlesnake;
pub mod cell;
pub mod movement;

pub use battlesnake::Battlesnake;
pub use cell::Cell;
pub use movement::Move;
pub use movement::MovesEnumerator;

verus! {

/// The mathematical model of a board snapshot: grid bounds, the controlled
/// agent, the opposing agents in order, and the food cells.
#[verifier::ext_equal]
pub ghost struct StateView {
    pub height: int,
    pub width: int,
    pub player: Seq<Cell>,
    pub enemies: Seq<Seq<Cell>>,
    pub food: Seq<Cell>,
}

/// One board snapshot: grid bounds, the controlled agent, the opposing
/// agents in insertion order, and the food cells (membership only).
#[derive(Debug)]
pub struct GameState {
    pub height: u16,
    pub width: u16,
    pub player: Battlesnake,
    pub enemies: Vec<Battlesnake>,
    pub food: Vec<Cell>,
}

/// The cell sequences of a sequence of agents.
pub open spec fn views_of(es: Seq<Battlesnake>) -> Seq<Seq<Cell>> {
    es.map_values(|b: Battlesnake| b@)
}

impl View for GameState {
    type V = StateView;

    open spec fn view(&self) -> StateView {
        StateView {
            height: self.height as int,
            width: self.width as int,
            player: self.player@,
            enemies: views_of(self.enemies@),
            food: self.food@,
        }
    }
}

/// Whether every cell of the agent lies inside the `w` by `h` grid.
pub open spec fn agent_in_bounds(a: Seq<Cell>, w: int, h: int) -> bool {
    forall|k: int| 0 <= k < a.len() ==> 0 <= (#[trigger] a[k]).0 < w && 0 <= a[k].1 < h
}

/// A legal snapshot: the grid fits the representable cell range and every
/// agent, controlled or opposing, lies entirely inside the grid. Dead
/// (empty) agents satisfy this vacuously.
pub open spec fn wf_state(s: StateView) -> bool {
    &&& 0 <= s.width <= 127
    &&& 0 <= s.height <= 127
    &&& agent_in_bounds(s.player, s.width, s.height)
    &&& forall|j: int|
        0 <= j < s.enemies.len() ==> agent_in_bounds(#[trigger] s.enemies[j], s.width, s.height)
}

/// Whether a wire coordinate pair fits the representable cell range.
pub open spec fn coord_in_cell_range(c: Coordinates) -> bool {
    -128 <= c.x <= 127 && -128 <= c.y <= 127
}

/// The cell a wire coordinate pair narrows to.
pub open spec fn cell_of_coord(c: Coordinates) -> Cell {
    Cell(c.x as i8, c.y as i8)
}

/// The agent described by one wire snake: its body coordinates narrowed to
/// cells, head first.
pub open spec fn agent_of_desc(s: api_types::Battlesnake) -> Seq<Cell> {
    s.body@.map_values(|c: Coordinates| cell_of_coord(c))
}

/// Whether every body coordinate of the wire snake lies inside the grid.
pub open spec fn snake_desc_in_bounds(s: api_types::Battlesnake, w: int, h: int) -> bool {
    forall|k: int|
        0 <= k < s.body@.len() ==> 0 <= (#[trigger] s.body@[k]).x < w && 0 <= s.body@[k].y < h
}

/// Whether some snake on the board carries the given identity.
pub open spec fn has_player(snakes: Seq<api_types::Battlesnake>, id: Seq<char>) -> bool {
    exists|i: int| 0 <= i < snakes.len() && (#[trigger] snakes[i]).id@ == id
}

/// The index of the first snake carrying the given identity.
pub open spec fn player_index(snakes: Seq<api_types::Battlesnake>, id: Seq<char>) -> int
    decreases snakes.len(),
{
    if snakes.len() == 0 {
        0
    } else if snakes[0].id@ == id {
        0
    } else {
        1 + player_index(snakes.drop_first(), id)
    }
}

/// The error text reported when the controlled agent is missing.
pub open spec fn not_found_message(id: Seq<char>) -> Seq<char> {
    "Could not find player snake \""@ + id + "\" on board."@
}

/// The opposing agents of a board: every snake whose identity differs from
/// the controlled one, in board order.
pub open spec fn enemies_of(snakes: Seq<api_types::Battlesnake>, id: Seq<char>) -> Seq<Seq<Cell>>
    decreases snakes.len(),
{
    if snakes.len() == 0 {
        Seq::empty()
    } else {
        let rest = enemies_of(snakes.drop_last(), id);
        if snakes.last().id@ == id {
            rest
        } else {
            rest + seq![agent_of_desc(snakes.last())]
        }
    }
}

/// The snapshot built from a board for a given controlled identity,
/// assuming some snake carries that identity: the first matching snake
/// becomes the controlled agent, every snake with another identity an
/// opponent.
pub open spec fn snapshot_view(board: api_types::Board, id: Seq<char>) -> StateView {
    let pi = player_index(board.snakes@, id);
    StateView {
        height: board.height as int,
        width: board.width as int,
        player: agent_of_desc(board.snakes@[pi]),
        enemies: enemies_of(board.snakes@, id),
        food: board.food@.map_values(|c: Coordinates| cell_of_coord(c)),
    }
}

proof fn lemma_player_index_of_first(snakes: Seq<api_types::Battlesnake>, id: Seq<char>, i: int)
    requires
        0 <= i < snakes.len(),
        snakes[i].id@ == id,
        forall|j: int| 0 <= j < i ==> (#[trigger] snakes[j]).id@ != id,
    ensures
        player_index(snakes, id) == i,
    decreases i,
{
    if i > 0 {
        assert(snakes[0].id@ != id);
        let rest = snakes.drop_first();
        assert(rest[i - 1] == snakes[i]);
        assert(forall|j: int| 0 <= j < i - 1 ==> (#[trigger] rest[j]).id@ != id);
        lemma_player_index_of_first(rest, id, i - 1);
    }
}

/// The first snake whose identity equals `pid`, if any, together with the
/// guarantee that no earlier snake matches.
fn position_of_player(snakes: &Vec<api_types::Battlesnake>, pid: &String) -> (r: Option<usize>)
    ensures
        match r {
            Some(i) => i < snakes@.len() && snakes@[i as int].id@ == pid@ && forall|j: int|
                0 <= j < i ==> (#[trigger] snakes@[j]).id@ != pid@,
            None => forall|j: int| 0 <= j < snakes@.len() ==> (#[trigger] snakes@[j]).id@ != pid@,
        },
{
    let mut i: usize = 0;
    while i < snakes.len()
        invariant
            i <= snakes@.len(),
            forall|j: int| 0 <= j < i ==> (#[trigger] snakes@[j]).id@ != pid@,
        decreases snakes@.len() - i,
    {
        if snakes[i].id == *pid {
            return Some(i);
        }
        i = i + 1;
    }
    None
}

impl GameState {
    /// Builds a snapshot from a wire board description and the identity of
    /// the controlled agent. Fails, with no default substituted, exactly
    /// when no snake on the board carries that identity.
    pub fn from_board(board: &api_types::Board, player_id: &str) -> (r: Result<
        GameState,
        Error,
    >)
        requires
            0 <= board.width <= 127,
            0 <= board.height <= 127,
            forall|j: int|
                0 <= j < board.snakes@.len() ==> snake_desc_in_bounds(
                    #[trigger] board.snakes@[j],
                    board.width as int,
                    board.height as int,
                ),
            forall|k: int|
                0 <= k < board.food@.len() ==> coord_in_cell_range(#[trigger] board.food@[k]),
        ensures
            (r is Ok) <==> has_player(board.snakes@, player_id@),
            r matches Ok(gs) ==> gs@ == snapshot_view(*board, player_id@) && wf_state(gs@),
            r matches Err(e) ==> e@ == not_found_message(player_id@),
    {
        let pid: String = player_id.to_owned();
        match position_of_player(&board.snakes, &pid) {
            None => {
                let msg = String::from_str("Could not find player snake \"").concat(
                    player_id,
                ).concat("\" on board.");
                Err(Error::new(msg))
            },
            Some(pi) => {
                proof {
                    lemma_player_index_of_first(board.snakes@, player_id@, pi as int);
                }
                let player = Battlesnake::from_description(&board.snakes[pi]);
                let mut enemies: Vec<Battlesnake> = Vec::new();
                let mut j: usize = 0;
                while j < board.snakes.len()
                    invariant
                        j <= board.snakes@.len(),
                        pid@ == player_id@,
                        forall|j2: int|
                            0 <= j2 < board.snakes@.len() ==> snake_desc_in_bounds(
                                #[trigger] board.snakes@[j2],
                                board.width as int,
                                board.height as int,
                            ),
                        0 <= board.width <= 127,
                        0 <= board.height <= 127,
                        views_of(enemies@) == enemies_of(
                            board.snakes@.take(j as int),
                            player_id@,
                        ),
                        forall|k: int|
                            0 <= k < enemies@.len() ==> agent_in_bounds(
                                (#[trigger] enemies@[k])@,
                                board.width as int,
                                board.height as int,
                            ),
                    decreases board.snakes@.len() - j,
                {
                    let ghost before = enemies@;
                    if board.snakes[j].id != pid {
                        let b = Battlesnake::from_description(&board.snakes[j]);
                        proof {
                            assert(b@ =~= agent_of_desc(board.snakes@[j as int]));
                        }
                        enemies.push(b);
                    }
                    proof {
                        assert(board.snakes@.take(j + 1).drop_last() =~= board.snakes@.take(
                            j as int,
                        ));
                        assert(board.snakes@.take(j + 1).last() == board.snakes@[j as int]);
                        if board.snakes@[j as int].id@ == player_id@ {
                            assert(enemies@ == before);
                        } else {
                            assert(views_of(enemies@) =~= views_of(before) + seq![
                                agent_of_desc(board.snakes@[j as int]),
                            ]);
                        }
                        assert(views_of(enemies@) =~= enemies_of(
                            board.snakes@.take(j + 1),
                            player_id@,
                        ));
                    }
                    j = j + 1;
                }
                proof {
                    assert(board.snakes@.take(board.snakes@.len() as int) =~= board.snakes@);
                }
                let mut food: Vec<Cell> = Vec::new();
                let mut k: usize = 0;
                while k < board.food.len()
                    invariant
                        k <= board.food@.len(),
                        food@.len() == k,
                        forall|k2: int|
                            0 <= k2 < board.food@.len() ==> coord_in_cell_range(
                                #[trigger] board.food@[k2],
                            ),
                        forall|k2: int|
                            0 <= k2 < k ==> food@[k2] == cell_of_coord(
                                #[trigger] board.food@[k2],
                            ),
                    decreases board.food@.len() - k,
                {
                    food.push(Cell::from_coordinates(&board.food[k]));
                    k = k + 1;
                }
                let gs = GameState {
                    height: board.height as u16,
                    width: board.width as u16,
                    player,
                    enemies,
                    food,
                };
                proof {
                    let target = snapshot_view(*board, player_id@);
                    assert(gs@.player =~= target.player);
                    assert(gs@.enemies == target.enemies);
                    assert(gs@.food =~= target.food);
                    assert(gs@ == target);
                    assert(wf_state(gs@)) by {
                        assert forall|jj: int| 0 <= jj < gs@.enemies.len() implies agent_in_bounds(
                            #[trigger] gs@.enemies[jj],
                            gs@.width,
                            gs@.height,
                        ) by {
                            assert(gs@.enemies[jj] == enemies@[jj]@);
                        }
                    }
                }
                Ok(gs)
            },
        }
    }
}

} // verus!
