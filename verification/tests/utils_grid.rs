use boardgames::utils::{Board, Pos};
use std::ops::{AddAssign, Neg};

#[test]
fn positions_add_component_by_component() {
    assert_eq!(Pos { x: 1, y: 2 } + Pos { x: -3, y: 5 }, Pos { x: -2, y: 7 });
    assert_eq!(Pos { x: 0, y: 0 } + Pos { x: 0, y: 0 }, Pos { x: 0, y: 0 });
    assert_eq!(
        Pos { x: i32::MAX - 1, y: i32::MIN + 1 } + Pos { x: 1, y: -1 },
        Pos { x: i32::MAX, y: i32::MIN }
    );
}

#[test]
fn positions_negate_component_by_component() {
    assert_eq!(-Pos { x: 1, y: -2 }, Pos { x: -1, y: 2 });
    assert_eq!(Pos { x: 0, y: 7 }.neg(), Pos { x: 0, y: -7 });
    assert_eq!(-Pos { x: i32::MAX, y: -i32::MAX }, Pos { x: -i32::MAX, y: i32::MAX });
}

#[test]
fn positions_add_in_place() {
    let mut p = Pos { x: 4, y: 4 };
    p += Pos { x: 1, y: -1 };
    assert_eq!(p, Pos { x: 5, y: 3 });
    p.add_assign(Pos { x: -5, y: -3 });
    assert_eq!(p, Pos { x: 0, y: 0 });
}

#[test]
fn sum_with_the_opposite_is_zero() {
    for (x, y) in [(0, 0), (3, -4), (-7, 2), (100, 100)] {
        let p = Pos { x, y };
        assert_eq!(p + (-p), Pos { x: 0, y: 0 });
    }
}

#[test]
fn new_board_holds_the_initial_value_everywhere() {
    let board = Board::new(7u8, 4);
    assert_eq!(board.size, 4);
    assert_eq!(board.edge(), 4);
    assert_eq!(board.iter().count(), 16);
    assert!(board.iter().all(|t| *t == 7));
    for y in 0..4 {
        for x in 0..4 {
            assert_eq!(board.get(Pos { x, y }), 7);
            assert_eq!(board.try_get(Pos { x, y }), Some(7));
        }
    }
}

#[test]
fn board_without_tiles_is_empty() {
    let board = Board::new(1u8, 0);
    assert_eq!(board.iter().count(), 0);
    assert_eq!(board.try_get(Pos { x: 0, y: 0 }), None);
}

#[test]
fn set_changes_one_tile() {
    let mut board = Board::new(0i32, 3);
    board.set(Pos { x: 2, y: 1 }, 9);
    for y in 0..3 {
        for x in 0..3 {
            let expected = if (x, y) == (2, 1) { 9 } else { 0 };
            assert_eq!(board.get(Pos { x, y }), expected);
        }
    }
    let tiles: Vec<i32> = board.iter().cloned().collect();
    assert_eq!(tiles, vec![0, 0, 0, 0, 0, 9, 0, 0, 0]);
}

#[test]
fn index_is_row_major() {
    let board = Board::new(false, 5);
    assert_eq!(board.index(0, 0), 0);
    assert_eq!(board.index(4, 0), 4);
    assert_eq!(board.index(0, 1), 5);
    assert_eq!(board.index(3, 2), 13);
    assert_eq!(board.index(4, 4), 24);
}

#[test]
fn try_get_tells_off_board_from_empty() {
    let mut board: Board<Option<u8>> = Board::new(None, 2);
    board.set(Pos { x: 1, y: 1 }, Some(3));
    assert_eq!(board.try_get(Pos { x: 0, y: 0 }), Some(None));
    assert_eq!(board.try_get(Pos { x: 1, y: 1 }), Some(Some(3)));
    assert_eq!(board.try_get(Pos { x: 2, y: 0 }), None);
    assert_eq!(board.try_get(Pos { x: 0, y: 2 }), None);
    assert_eq!(board.try_get(Pos { x: -1, y: 0 }), None);
    assert_eq!(board.try_get(Pos { x: 0, y: -1 }), None);
    assert_eq!(board.try_get(Pos { x: i32::MAX, y: i32::MIN }), None);
}

#[test]
fn clone_of_a_board_is_independent() {
    let mut board = Board::new(1u8, 2);
    let copy = board.clone();
    board.set(Pos { x: 0, y: 0 }, 5);
    assert_eq!(copy.get(Pos { x: 0, y: 0 }), 1);
    assert_eq!(board.get(Pos { x: 0, y: 0 }), 5);
    assert_eq!(copy.edge(), 2);
}

#[test]
fn board_is_well_formed_while_its_size_fits_its_tiles() {
    let mut board = Board::new(0u8, 3);
    assert!(board.is_well_formed());
    board.size = 4;
    assert!(!board.is_well_formed());
    board.size = -3;
    assert!(!board.is_well_formed());
    board.size = 50000;
    assert!(!board.is_well_formed());
    board.size = 3;
    assert!(board.is_well_formed());
    assert!(Board::new(0u8, 0).is_well_formed());
}
