use blaze_haskell::api_types::{Board, Coordinates};
use blaze_haskell::game_state::{Battlesnake, Cell, GameState, Move};
use blaze_haskell::planner::check_collisions::check_collisions;
use blaze_haskell::planner::{
    check_out_of_bounds, devise_plan, find_plan, MovePermutations, Score,
};

fn snake(id: &str, body: &[(i32, i32)]) -> blaze_haskell::api_types::Battlesnake {
    blaze_haskell::api_types::Battlesnake {
        id: String::from(id),
        body: body.iter().map(|&(x, y)| Coordinates { x, y }).collect(),
        head: Coordinates { x: body[0].0, y: body[0].1 },
        length: body.len() as u8,
    }
}

#[test]
fn update_on_dead_agent_stays_dead() {
    for m in [Move::Up, Move::Down, Move::Left, Move::Right] {
        let dead = Battlesnake::new_dead();
        let food = vec![Cell(0, 0), Cell(1, 1)];
        let next = dead.update(m, &food);
        assert!(!next.is_alive());
        assert_eq!(next.length(), 0);
    }
}

#[test]
fn update_single_segment_with_food_grows() {
    let target = Battlesnake::new(&[(7, 0)]);
    let food = vec![Cell(6, 0)];
    let next = target.update(Move::Left, &food);
    assert_eq!(next.length(), 2);
    assert_eq!(next.head(), Some(Cell(6, 0)));
    assert_eq!(next.body(), &[Cell(7, 0)][..]);

    let next = target.update(Move::Up, &food);
    assert_eq!(next.length(), 1);
    assert_eq!(next.head(), Some(Cell(7, 1)));
}

#[test]
fn move_permutations_zero_snakes_yields_one_empty_combination() {
    let mut target = MovePermutations::new(0);
    assert_eq!(target.len(), 1);
    assert_eq!(target.next(), Some(vec![]));
    assert_eq!(target.next(), None);
    assert_eq!(target.len(), 0);
}

#[test]
fn move_permutations_count_odometer_order() {
    let mut target = MovePermutations::new(2);
    assert_eq!(target.next(), Some(vec![Move::Up, Move::Up]));
    assert_eq!(target.next(), Some(vec![Move::Down, Move::Up]));
    assert_eq!(target.next(), Some(vec![Move::Left, Move::Up]));
    assert_eq!(target.next(), Some(vec![Move::Right, Move::Up]));
    assert_eq!(target.next(), Some(vec![Move::Up, Move::Down]));
    let mut count = 5;
    while target.next().is_some() {
        count += 1;
    }
    assert_eq!(count, 16);
}

#[test]
fn next_states_cover_every_joint_move() {
    let state = GameState {
        height: 7,
        width: 7,
        player: Battlesnake::new(&[(3, 3)]),
        enemies: vec![Battlesnake::new(&[(1, 1)])],
        food: vec![],
    };
    let children = blaze_haskell::planner::get_possible_next_states(&state, Move::Up);
    assert_eq!(children.len(), 4);
    // the opponent's move runs through up, down, left, right in order
    assert_eq!(children[0].enemies[0].head(), Some(Cell(1, 2)));
    assert_eq!(children[1].enemies[0].head(), Some(Cell(1, 0)));
    assert_eq!(children[2].enemies[0].head(), Some(Cell(0, 1)));
    assert_eq!(children[3].enemies[0].head(), Some(Cell(2, 1)));
    // every branch moves the controlled agent and keeps the parent's food
    for child in &children {
        assert_eq!(child.player.head(), Some(Cell(3, 4)));
        assert_eq!(child.food.len(), 0);
    }
}

#[test]
fn out_of_bounds_pass_evicts_edge_heads() {
    // head exactly at x == width dies; head at the last inside cell lives
    let state = GameState {
        height: 10,
        width: 10,
        player: Battlesnake::new(&[(9, 9)]),
        enemies: vec![
            Battlesnake::new(&[(0, 0)]),
            Battlesnake::new(&[(10, 5), (9, 5)]),
        ],
        food: vec![],
    };
    let next = check_out_of_bounds(state);
    assert!(next.player.is_alive());
    assert!(next.enemies[0].is_alive());
    assert!(!next.enemies[1].is_alive());
}

#[test]
fn head_to_head_equal_lengths_kill_both() {
    let state = GameState {
        height: 11,
        width: 11,
        player: Battlesnake::new(&[(5, 5), (5, 4)]),
        enemies: vec![Battlesnake::new(&[(5, 5), (6, 5)])],
        food: vec![],
    };
    let next = check_collisions(state);
    assert!(!next.player.is_alive());
    assert!(!next.enemies[0].is_alive());
}

#[test]
fn head_to_head_longer_agent_survives() {
    let state = GameState {
        height: 11,
        width: 11,
        player: Battlesnake::new(&[(5, 5), (5, 4), (5, 3)]),
        enemies: vec![Battlesnake::new(&[(5, 5), (6, 5)])],
        food: vec![],
    };
    let next = check_collisions(state);
    assert!(next.player.is_alive());
    assert!(!next.enemies[0].is_alive());

    let state = GameState {
        height: 11,
        width: 11,
        player: Battlesnake::new(&[(5, 5), (5, 4)]),
        enemies: vec![Battlesnake::new(&[(5, 5), (6, 5), (7, 5)])],
        food: vec![],
    };
    let next = check_collisions(state);
    assert!(!next.player.is_alive());
    assert!(next.enemies[0].is_alive());
}

#[test]
fn search_avoids_the_wall() {
    // a lone single-segment agent beside the right wall: every in-bounds
    // move ties, so the later tied move, left, is chosen; never right
    let state = GameState {
        height: 5,
        width: 5,
        player: Battlesnake::new(&[(4, 2)]),
        enemies: vec![],
        food: vec![],
    };
    let chosen = devise_plan(state);
    assert_eq!(chosen, Move::Left);
}

#[test]
fn find_plan_scores_lone_agent_exactly() {
    let state = GameState {
        height: 5,
        width: 5,
        player: Battlesnake::new(&[(4, 2)]),
        enemies: vec![],
        food: vec![],
    };
    // depth one: the three in-bounds moves score the horizon value one
    // half; going right scores the lose sentinel
    let (m, score) = find_plan(&state, 1);
    assert_eq!(m, Move::Left);
    assert_eq!(score, Score { num: 1, den: 2 });
}

#[test]
fn find_plan_averages_over_enemy_moves_exactly() {
    // one opponent in the corner: two of its four moves leave the grid and
    // win the branch (+1), the other two continue to the horizon (1/2),
    // so every controlled move scores (1 + 1/2 + 1/2 + 1) / 4 = 3/4
    let state = GameState {
        height: 5,
        width: 5,
        player: Battlesnake::new(&[(2, 2)]),
        enemies: vec![Battlesnake::new(&[(0, 0)])],
        food: vec![],
    };
    let (m, score) = find_plan(&state, 1);
    // exact ties across all four controlled moves: the last one wins
    assert_eq!(m, Move::Right);
    assert_eq!(score, Score { num: 6, den: 8 });
}

#[test]
fn from_board_locates_the_controlled_agent() {
    let board = Board {
        height: 11,
        width: 12,
        food: vec![
            Coordinates { x: 5, y: 5 },
            Coordinates { x: 9, y: 0 },
            Coordinates { x: 2, y: 6 },
        ],
        hazards: vec![Coordinates { x: 0, y: 0 }],
        snakes: vec![
            snake("snake-one", &[(1, 0), (1, 0), (2, 0)]),
            snake("snake-two", &[(1, 2), (1, 1), (1, 0)]),
            snake("snake-one", &[(3, 4), (3, 4), (2, 4)]),
        ],
    };
    let target = GameState::from_board(&board, "snake-two").unwrap();
    assert_eq!(target.height, 11);
    assert_eq!(target.width, 12);
    assert_eq!(target.player.head(), Some(Cell(1, 2)));
    assert_eq!(target.enemies.len(), 2);
    assert_eq!(target.enemies[0].head(), Some(Cell(1, 0)));
    assert_eq!(target.enemies[1].head(), Some(Cell(3, 4)));
    assert_eq!(target.food.len(), 3);
    assert!(target.food.contains(&Cell(5, 5)));

    // a duplicated identity resolves to the first match, and no snake
    // carrying the controlled identity becomes an opponent
    let target = GameState::from_board(&board, "snake-one").unwrap();
    assert_eq!(target.player.head(), Some(Cell(1, 0)));
    assert_eq!(target.enemies.len(), 1);
    assert_eq!(target.enemies[0].head(), Some(Cell(1, 2)));
}

#[test]
fn from_board_rejects_a_missing_identity() {
    let board = Board {
        height: 11,
        width: 11,
        food: vec![],
        hazards: vec![],
        snakes: vec![snake("snake-one", &[(1, 0), (2, 0)])],
    };
    let err = GameState::from_board(&board, "snake-three").unwrap_err();
    assert_eq!(
        err.message().as_str(),
        "Could not find player snake \"snake-three\" on board."
    );
}
