use blaze_haskell::game_state::{Battlesnake, GameState, Move};
use blaze_haskell::planner::{check_win_lose, combine_scores, GameStatus, MovePermutations, Score};

fn collect_permutations(num_snakes: usize) -> Vec<Vec<Move>> {
    let mut out = Vec::new();
    let mut target = MovePermutations::new(num_snakes);
    while let Some(v) = target.next() {
        out.push(v);
    }
    out
}

#[test]
fn mod_move_permutations() {
    let output = collect_permutations(3);
    assert_eq!(4 * 4 * 4, output.len());
    let directions = [Move::Up, Move::Down, Move::Left, Move::Right];
    for e0 in directions {
        for e1 in directions {
            for e2 in directions {
                assert!(output.contains(&vec![e0, e1, e2]));
            }
        }
    }
}

#[test]
fn mod_move_permutations_size_hint() {
    for size in 0..16 {
        let target = MovePermutations::new(size);
        let v = (4 as usize).pow(size as u32);
        assert_eq!((v, Some(v)), target.size_hint());
    }
}

#[test]
fn mod_move_permutations_size_len() {
    for size in 0..16 {
        let mut target = MovePermutations::new(size);
        let v = (4 as usize).pow(size as u32);
        assert_eq!(v, target.len());
        target.next();
        if size > 0 {
            assert_eq!(v - 1, target.len());
        }
        if size > 1 {
            target.next();
            assert_eq!(v - 2, target.len());
        }
        if size > 2 {
            target.next();
            assert_eq!(v - 3, target.len());
        }
    }
}

#[test]
fn mod_combine_scores_yields_average() {
    // the values 0, 3.5, -3.5 and 10 over the shared denominator 2
    let scores = vec![
        Score { num: 0, den: 2 },
        Score { num: 7, den: 2 },
        Score { num: -7, den: 2 },
        Score { num: 20, den: 2 },
    ];
    let result = combine_scores(&scores);
    // 20 / 8 is exactly 2.5
    assert_eq!(result, Score { num: 20, den: 8 });
    assert_eq!(result.num * 2, result.den * 5);
}

#[test]
fn check_win_lose_detects_win_state() {
    let game_state = GameState {
        height: 11,
        width: 11,
        player: Battlesnake::new(&[(1, 2), (1, 3), (1, 4)]),
        enemies: vec![Battlesnake::new_dead(), Battlesnake::new_dead()],
        food: vec![],
    };
    assert_eq!(check_win_lose(&game_state), GameStatus::Win);
}

#[test]
fn check_win_lose_detects_lose_state() {
    let game_state = GameState {
        height: 11,
        width: 11,
        player: Battlesnake::new_dead(),
        enemies: vec![
            Battlesnake::new(&[(4, 2), (4, 3), (4, 4)]),
            Battlesnake::new(&[(3, 5), (3, 6), (4, 6)]),
        ],
        food: vec![],
    };
    assert_eq!(check_win_lose(&game_state), GameStatus::Lose);

    let game_state = GameState {
        enemies: vec![Battlesnake::new_dead(), Battlesnake::new_dead()],
        ..game_state
    };
    assert_eq!(check_win_lose(&game_state), GameStatus::Lose);
}

#[test]
fn check_win_lose_detects_continue_state() {
    let game_state = GameState {
        height: 11,
        width: 11,
        player: Battlesnake::new(&[(1, 2), (1, 3), (1, 4)]),
        enemies: vec![
            Battlesnake::new(&[(4, 2), (4, 3), (4, 4)]),
            Battlesnake::new(&[(3, 5), (3, 6), (4, 6)]),
        ],
        food: vec![],
    };
    assert_eq!(check_win_lose(&game_state), GameStatus::Continue);

    let game_state = GameState { enemies: vec![], ..game_state };
    assert_eq!(check_win_lose(&game_state), GameStatus::Continue);
}
