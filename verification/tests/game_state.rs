use blaze_haskell::game_state::{Battlesnake, Cell, Move};

fn cells_of(b: &Battlesnake) -> Vec<Cell> {
    let mut v = Vec::new();
    if let Some(h) = b.head() {
        v.push(h);
    }
    v.extend_from_slice(b.body());
    v
}

fn collect_moves() -> Vec<Move> {
    let mut out = Vec::new();
    let mut e = Move::enumerate();
    while let Some(m) = e.next() {
        out.push(m);
    }
    out
}

#[test]
fn game_state_add_move_to_cell() {
    assert_eq!(Cell(0, 0) + Move::Up, Cell(0, 1));
    assert_eq!(Cell(0, 0) + Move::Down, Cell(0, -1));
    assert_eq!(Cell(0, 0) + Move::Left, Cell(-1, 0));
    assert_eq!(Cell(0, 0) + Move::Right, Cell(1, 0));
    assert_eq!(Cell(3, 7) + Move::Up, Cell(3, 8));
    assert_eq!(Cell(3, 7) + Move::Down, Cell(3, 6));
    assert_eq!(Cell(3, 7) + Move::Left, Cell(2, 7));
    assert_eq!(Cell(3, 7) + Move::Right, Cell(4, 7));
}

#[test]
fn game_state_moves_enumerator() {
    let result = collect_moves();
    assert_eq!(result.len(), 4);
    assert!(result.contains(&Move::Up));
    assert!(result.contains(&Move::Down));
    assert!(result.contains(&Move::Left));
    assert!(result.contains(&Move::Right));
}

#[test]
fn game_state_update_battlesnake() {
    let target = Battlesnake::new(&[(2, 3), (2, 4), (2, 5), (1, 5), (0, 5)]);
    assert_eq!(
        cells_of(&target.update(Move::Up, &[])),
        vec![Cell(2, 4), Cell(2, 3), Cell(2, 4), Cell(2, 5), Cell(1, 5)]
    );
    assert_eq!(
        cells_of(&target.update(Move::Down, &[])),
        vec![Cell(2, 2), Cell(2, 3), Cell(2, 4), Cell(2, 5), Cell(1, 5)]
    );
    assert_eq!(
        cells_of(&target.update(Move::Left, &[])),
        vec![Cell(1, 3), Cell(2, 3), Cell(2, 4), Cell(2, 5), Cell(1, 5)]
    );
    assert_eq!(
        cells_of(&target.update(Move::Right, &[])),
        vec![Cell(3, 3), Cell(2, 3), Cell(2, 4), Cell(2, 5), Cell(1, 5)]
    );

    let target = Battlesnake::new(&[(5, 5), (4, 5)]);
    assert_eq!(
        cells_of(&target.update(Move::Up, &[])),
        vec![Cell(5, 6), Cell(5, 5)]
    );
    assert_eq!(
        cells_of(&target.update(Move::Left, &[])),
        vec![Cell(4, 5), Cell(5, 5)]
    );

    let target = Battlesnake::new(&[(7, 0)]);
    assert_eq!(cells_of(&target.update(Move::Up, &[])), vec![Cell(7, 1)]);
    assert_eq!(cells_of(&target.update(Move::Left, &[])), vec![Cell(6, 0)]);

    let target = Battlesnake::new(&[]);
    assert_eq!(cells_of(&target.update(Move::Up, &[])), vec![]);
    assert_eq!(cells_of(&target.update(Move::Left, &[])), vec![]);
}

#[test]
fn game_state_battlesnake_has_gone_oob() {
    let target = Battlesnake::new(&[(7, 3), (6, 3), (6, 2)]);
    assert!(!target.has_gone_oob(10, 10));
    assert!(!target.has_gone_oob(8, 4));
    assert!(target.has_gone_oob(7, 4));
    assert!(target.has_gone_oob(8, 3));
    assert!(target.has_gone_oob(8, 1));
    assert!(target.has_gone_oob(5, 1));
}
