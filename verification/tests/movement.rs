use blaze_haskell::game_state::{Cell, Move};

#[test]
fn movement_add_move_to_cell() {
    assert_eq!(Cell(0, 0) + Move::Up, Cell(0, 1));
    assert_eq!(Cell(0, 0) + Move::Down, Cell(0, -1));
    assert_eq!(Cell(0, 0) + Move::Left, Cell(-1, 0));
    assert_eq!(Cell(0, 0) + Move::Right, Cell(1, 0));
    assert_eq!(Cell(3, 7) + Move::Up, Cell(3, 8));
    assert_eq!(Cell(3, 7) + Move::Down, Cell(3, 6));
    assert_eq!(Cell(3, 7) + Move::Left, Cell(2, 7));
    assert_eq!(Cell(3, 7) + Move::Right, Cell(4, 7));
}

#[test]
fn movement_moves_enumerator() {
    let mut result: Vec<Move> = Vec::new();
    let mut e = Move::enumerate();
    while let Some(m) = e.next() {
        result.push(m);
    }
    assert_eq!(result.len(), 4);
    assert!(result.contains(&Move::Up));
    assert!(result.contains(&Move::Down));
    assert!(result.contains(&Move::Left));
    assert!(result.contains(&Move::Right));
}
