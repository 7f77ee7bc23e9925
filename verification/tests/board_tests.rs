use forest::board::{Board, PlaceError, Tile, xy_idx};
use forest::plants::PlantInstance;

fn inst(species: usize) -> PlantInstance {
    PlantInstance { species, age: 0, size: 0 }
}

#[test]
fn xy_idx_is_row_major() {
    assert_eq!(xy_idx(0, 0, 6), 0);
    assert_eq!(xy_idx(2, 1, 6), 8);
    assert_eq!(xy_idx(5, 5, 6), 35);
}

#[test]
fn new_board_is_all_empty() {
    let b = Board::new(6, 6);
    assert_eq!(b.tiles.len(), 36);
    assert!(b.tiles.iter().all(|t| *t == Tile::Empty));
}

#[test]
fn can_place_iff_empty() {
    let mut b = Board::new(4, 4);
    assert!(b.can_place(1, 2));
    assert_eq!(b.place(1, 2, inst(0)), Ok(()));
    assert!(!b.can_place(1, 2));
    assert_eq!(b.tiles[xy_idx(1, 2, 4)], Tile::JustPlaced(inst(0)));
    // Other cells are untouched.
    assert!(b.can_place(2, 1));
}

#[test]
fn can_place_is_false_outside_the_board() {
    let b = Board::new(3, 3);
    assert!(!b.can_place(3, 0));
    assert!(!b.can_place(0, 3));
}

#[test]
fn place_out_of_bounds_is_refused() {
    let mut b = Board::new(3, 3);
    assert_eq!(b.place(3, 0, inst(0)), Err(PlaceError::OutOfBounds));
    assert_eq!(b.place(0, 7, inst(0)), Err(PlaceError::OutOfBounds));
    assert!(b.tiles.iter().all(|t| *t == Tile::Empty));
}

#[test]
fn place_on_occupied_cell_is_refused() {
    let mut b = Board::new(3, 3);
    assert_eq!(b.place(1, 1, inst(0)), Ok(()));
    assert_eq!(b.place(1, 1, inst(1)), Err(PlaceError::CellOccupied));
    assert_eq!(b.tiles[xy_idx(1, 1, 3)], Tile::JustPlaced(inst(0)));
}

#[test]
fn clear_returns_the_previous_instance() {
    let mut b = Board::new(3, 3);
    b.place(2, 0, inst(4)).unwrap();
    assert_eq!(b.clear(2, 0), Some(inst(4)));
    assert_eq!(b.tiles[xy_idx(2, 0, 3)], Tile::Empty);
    assert!(b.can_place(2, 0));
}

#[test]
fn clear_of_empty_or_outside_cells_returns_nothing() {
    let mut b = Board::new(3, 3);
    assert_eq!(b.clear(0, 0), None);
    assert_eq!(b.clear(5, 5), None);
}
