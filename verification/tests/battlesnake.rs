use blaze_haskell::api_types;
use blaze_haskell::game_state::{Battlesnake, Cell, Move};

fn cells_of(b: &Battlesnake) -> Vec<Cell> {
    let mut v = Vec::new();
    if let Some(h) = b.head() {
        v.push(h);
    }
    v.extend_from_slice(b.body());
    v
}

#[test]
fn battlesnake_from_api_type() {
    let description = api_types::Battlesnake {
        id: String::from("totally-unique-snake-id"),
        body: vec![
            api_types::Coordinates { x: 0, y: 0 },
            api_types::Coordinates { x: 1, y: 0 },
            api_types::Coordinates { x: 2, y: 0 },
        ],
        head: api_types::Coordinates { x: 0, y: 0 },
        length: 3,
    };
    let battlesnake = Battlesnake::from_description(&description);
    assert_eq!(battlesnake.head(), Some(Cell(0, 0)));
    assert_eq!(battlesnake.length(), 3);
}

#[test]
fn battlesnake_update_battlesnake() {
    let target = Battlesnake::new(&[(2, 3), (2, 4), (2, 5), (1, 5), (0, 5)]);
    assert_eq!(
        cells_of(&target.update(Move::Up, &[])),
        vec![Cell(2, 4), Cell(2, 3), Cell(2, 4), Cell(2, 5), Cell(1, 5)]
    );
    assert_eq!(
        cells_of(&target.update(Move::Down, &[])),
        vec![Cell(2, 2), Cell(2, 3), Cell(2, 4), Cell(2, 5), Cell(1, 5)]
    );
    assert_eq!(
        cells_of(&target.update(Move::Left, &[])),
        vec![Cell(1, 3), Cell(2, 3), Cell(2, 4), Cell(2, 5), Cell(1, 5)]
    );
    assert_eq!(
        cells_of(&target.update(Move::Right, &[])),
        vec![Cell(3, 3), Cell(2, 3), Cell(2, 4), Cell(2, 5), Cell(1, 5)]
    );

    let target = Battlesnake::new(&[(5, 5), (4, 5)]);
    assert_eq!(
        cells_of(&target.update(Move::Up, &[])),
        vec![Cell(5, 6), Cell(5, 5)]
    );
    assert_eq!(
        cells_of(&target.update(Move::Left, &[])),
        vec![Cell(4, 5), Cell(5, 5)]
    );

    let target = Battlesnake::new(&[(7, 0)]);
    assert_eq!(cells_of(&target.update(Move::Up, &[])), vec![Cell(7, 1)]);
    assert_eq!(cells_of(&target.update(Move::Left, &[])), vec![Cell(6, 0)]);

    let target = Battlesnake::new(&[]);
    assert_eq!(cells_of(&target.update(Move::Up, &[])), vec![]);
    assert_eq!(cells_of(&target.update(Move::Left, &[])), vec![]);
}

#[test]
fn battlesnake_battlesnake_has_gone_oob() {
    let target = Battlesnake::new(&[(7, 3), (6, 3), (6, 2)]);
    assert!(!target.has_gone_oob(10, 10));
    assert!(!target.has_gone_oob(8, 4));
    assert!(target.has_gone_oob(7, 4));
    assert!(target.has_gone_oob(8, 3));
    assert!(target.has_gone_oob(8, 1));
    assert!(target.has_gone_oob(5, 1));
}
