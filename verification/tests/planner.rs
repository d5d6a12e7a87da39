use blaze_haskell::game_state::Move;
use blaze_haskell::planner::{combine_scores, MovePermutations, Score};

fn collect_permutations(num_snakes: usize) -> Vec<Vec<Move>> {
    let mut out = Vec::new();
    let mut target = MovePermutations::new(num_snakes);
    while let Some(v) = target.next() {
        out.push(v);
    }
    out
}

#[test]
fn planner_move_permutations() {
    let output = collect_permutations(3);
    assert_eq!(4 * 4 * 4, output.len());
    let directions = [Move::Up, Move::Down, Move::Left, Move::Right];
    for e0 in directions {
        for e1 in directions {
            for e2 in directions {
                assert!(output.contains(&vec![e0, e1, e2]));
            }
        }
    }
}

#[test]
fn planner_move_permutations_size_hint() {
    for size in 0..16 {
        let target = MovePermutations::new(size);
        let v = (4 as usize).pow(size as u32);
        assert_eq!((v, Some(v)), target.size_hint());
    }
}

#[test]
fn planner_move_permutations_size_len() {
    for size in 0..16 {
        let mut target = MovePermutations::new(size);
        let v = (4 as usize).pow(size as u32);
        assert_eq!(v, target.len());
        target.next();
        if size > 0 {
            assert_eq!(v - 1, target.len());
        }
        if size > 1 {
            target.next();
            assert_eq!(v - 2, target.len());
        }
        if size > 2 {
            target.next();
            assert_eq!(v - 3, target.len());
        }
    }
}

#[test]
fn planner_combine_scores_yields_average() {
    // the values 0, 3.5, -3.5 and 10 over the shared denominator 2
    let scores = vec![
        Score { num: 0, den: 2 },
        Score { num: 7, den: 2 },
        Score { num: -7, den: 2 },
        Score { num: 20, den: 2 },
    ];
    let result = combine_scores(&scores);
    assert_eq!(result, Score { num: 20, den: 8 });
    // 20 / 8 is exactly 2.5
    assert_eq!(result.num * 2, result.den * 5);
}
