use forest::board::{Tile, xy_idx};
use forest::config::GlobalSetting;
use forest::game::{Game, Mode};
use forest::plants::{ConfigError, DropEntry, PlantInstance, PlantSpecies};

fn grass() -> PlantInstance {
    PlantInstance { species: 0, age: 0, size: 0 }
}

fn center_tile(g: &Game) -> Tile {
    g.board.tiles[xy_idx(3, 3, 6)]
}

/// A session on the default six-by-six board with two grass plants.
fn fresh_game() -> Game {
    Game::empty(&GlobalSetting::global())
}

#[test]
fn global_setting_defaults_to_six() {
    let cfg = GlobalSetting::global();
    assert_eq!(cfg.width, 6);
    assert_eq!(cfg.height, 6);
    let four = GlobalSetting::load(4);
    assert_eq!(four.width, 4);
    assert_eq!(four.height, 4);
}

#[test]
fn new_session_starts_clean() {
    let g = fresh_game();
    assert_eq!(g.state, Mode::Choosing);
    assert_eq!(g.board.tiles.len(), 36);
    assert!(g.board.tiles.iter().all(|t| *t == Tile::Empty));
    assert_eq!(g.hand.plants, vec![grass(), grass()]);
    assert_eq!(g.hand.index, Some(0));
    assert_eq!(g.points, 0);
    assert_eq!(g.round, 0);
    assert_eq!(g.catalog.species.len(), 3);
    // The cursor starts at the middle of the board.
    assert_eq!((g.placing.x, g.placing.y), (3, 3));
}

#[test]
fn session_respects_configured_dimensions() {
    let g = Game::empty(&GlobalSetting::load(4));
    assert_eq!(g.board.width, 4);
    assert_eq!(g.board.height, 4);
    assert_eq!(g.board.tiles.len(), 16);
}

#[test]
fn tab_cycles_the_modes() {
    let mut g = fresh_game();
    g.on_tab();
    assert_eq!(g.state, Mode::NextRound);
    g.on_tab();
    assert_eq!(g.state, Mode::Placing);
    g.on_tab();
    assert_eq!(g.state, Mode::Choosing);
}

#[test]
fn confirm_captures_then_places() {
    let mut g = fresh_game();
    g.on_space();
    assert_eq!(g.state, Mode::Placing);
    assert_eq!(g.choice, Some(grass()));
    // The hand still holds both plants until placement.
    assert_eq!(g.hand.plants.len(), 2);
    g.on_space();
    assert_eq!(g.state, Mode::Choosing);
    assert_eq!(g.choice, None);
    assert_eq!(center_tile(&g), Tile::JustPlaced(grass()));
    assert_eq!(g.hand.plants.len(), 1);
    assert_eq!(g.hand.index, Some(0));
}

#[test]
fn confirm_on_occupied_cell_keeps_the_pending_plant() {
    let mut g = fresh_game();
    g.on_space();
    g.on_space();
    // Capture the second plant; the cursor still points at the
    // occupied center cell.
    g.on_space();
    assert_eq!(g.state, Mode::Placing);
    g.on_space();
    assert_eq!(g.state, Mode::Placing);
    assert_eq!(g.choice, Some(grass()));
    assert_eq!(g.hand.plants.len(), 1);
    assert_eq!(center_tile(&g), Tile::JustPlaced(grass()));
}

#[test]
fn grace_tick_starts_growth_unchanged() {
    let mut g = fresh_game();
    g.on_space();
    g.on_space();
    g.next_round();
    // The same tick that first processes a just-placed cell does not
    // age it.
    assert_eq!(
        center_tile(&g),
        Tile::Growing(PlantInstance { species: 0, age: 0, size: 0 })
    );
    assert_eq!(g.round, 1);
    assert_eq!(g.points, 0);
    // Aging starts the following tick.
    g.next_round();
    assert_eq!(
        center_tile(&g),
        Tile::Growing(PlantInstance { species: 0, age: 1, size: 1 })
    );
}

#[test]
fn grass_matures_in_three_ticks_and_drops() {
    let mut g = fresh_game();
    g.on_space();
    g.on_space();
    g.next_round();
    g.next_round();
    assert_eq!(g.points, 0);
    g.next_round();
    // Age 2 reached the maximum age of grass: the cell empties and
    // scores size times multiplier, 2.
    assert_eq!(center_tile(&g), Tile::Empty);
    assert_eq!(g.points, 2);
    assert_eq!(g.round, 3);
    // A drop list of two landed at the end of the hand: both grass
    // entries produce grass first, then grass or tall grass.
    assert_eq!(g.hand.plants.len(), 3);
    assert_eq!(g.hand.plants[0], grass());
    assert_eq!(g.hand.plants[1].species, 0);
    assert!(g.hand.plants[2].species <= 1);
    assert!(g.hand.plants.iter().all(|p| p.age == 0 && p.size == 0));
}

#[test]
fn maturation_formula_holds_for_larger_species() {
    let fern = PlantSpecies {
        name: "Fern".to_owned(),
        max_age: 3,
        size_per_turn: 2,
        points_per_size: 4,
        class: 's',
        short_display: 'f',
        drops: vec![],
    };
    let mut g = Game::with_catalog(&GlobalSetting::global(), vec![fern]).unwrap();
    g.on_space();
    g.on_space();
    assert_eq!(g.hand.plants.len(), 1);
    for _ in 0..3 {
        g.next_round();
        assert_ne!(center_tile(&g), Tile::Empty);
        assert_eq!(g.points, 0);
    }
    g.next_round();
    // One grace tick plus max_age growth ticks: gone, having scored
    // max_age * size_per_turn * points_per_size = 3 * 2 * 4.
    assert_eq!(center_tile(&g), Tile::Empty);
    assert_eq!(g.points, 24);
    // An empty drop table produces nothing.
    assert_eq!(g.hand.plants.len(), 1);
}

#[test]
fn delete_returns_the_placed_instance() {
    let mut g = fresh_game();
    g.on_space();
    g.on_space();
    assert_eq!(g.hand.plants.len(), 1);
    // Reach placing mode without touching the cursor.
    g.on_tab();
    g.on_tab();
    assert_eq!(g.state, Mode::Placing);
    g.on_delete();
    assert_eq!(center_tile(&g), Tile::Empty);
    assert_eq!(g.hand.plants, vec![grass(), grass()]);
}

#[test]
fn delete_on_empty_cell_is_noop() {
    let mut g = fresh_game();
    g.on_tab();
    g.on_tab();
    assert_eq!(g.state, Mode::Placing);
    g.on_delete();
    assert!(g.board.tiles.iter().all(|t| *t == Tile::Empty));
    assert_eq!(g.hand.plants.len(), 2);
}

#[test]
fn delete_on_growing_cell_is_noop() {
    let mut g = fresh_game();
    g.on_space();
    g.on_space();
    g.next_round();
    assert!(matches!(center_tile(&g), Tile::Growing(_)));
    g.on_tab();
    g.on_tab();
    assert_eq!(g.state, Mode::Placing);
    g.on_delete();
    // A growing plant cannot be reclaimed.
    assert!(matches!(center_tile(&g), Tile::Growing(_)));
    assert_eq!(g.hand.plants.len(), 1);
}

#[test]
fn confirm_with_empty_hand_forces_the_round() {
    let mut g = fresh_game();
    g.on_space();
    g.on_space();
    g.on_space();
    g.on_left();
    g.on_space();
    // Both plants placed: the hand is empty and unselected.
    assert_eq!(g.state, Mode::Choosing);
    assert_eq!(g.hand.plants.len(), 0);
    assert_eq!(g.hand.index, None);
    assert_eq!(g.selected_plant(), None);
    g.on_space();
    // Confirm advanced the round instead of entering placing mode.
    assert_eq!(g.state, Mode::Choosing);
    assert_eq!(g.round, 1);
    assert!(matches!(center_tile(&g), Tile::Growing(_)));
}

#[test]
fn confirm_in_next_round_mode_advances() {
    let mut g = fresh_game();
    g.on_tab();
    assert_eq!(g.state, Mode::NextRound);
    g.on_space();
    assert_eq!(g.round, 1);
    assert_eq!(g.state, Mode::NextRound);
}

#[test]
fn advance_command_works_from_any_mode() {
    let mut g = fresh_game();
    g.next_round();
    assert_eq!(g.round, 1);
    assert_eq!(g.state, Mode::Choosing);
    g.on_tab();
    g.next_round();
    assert_eq!(g.round, 2);
    assert_eq!(g.state, Mode::NextRound);
}

#[test]
fn hand_navigation_wraps_in_choosing_mode() {
    let mut g = fresh_game();
    g.on_down();
    assert_eq!(g.hand.index, Some(1));
    g.on_down();
    assert_eq!(g.hand.index, Some(0));
    g.on_up();
    assert_eq!(g.hand.index, Some(1));
    // Left and right do not move the hand cursor.
    g.on_left();
    g.on_right();
    assert_eq!(g.hand.index, Some(1));
}

#[test]
fn board_cursor_clamps_at_the_edges() {
    let mut g = fresh_game();
    g.on_tab();
    g.on_tab();
    assert_eq!(g.state, Mode::Placing);
    for _ in 0..5 {
        g.on_left();
    }
    assert_eq!((g.placing.x, g.placing.y), (0, 3));
    for _ in 0..7 {
        g.on_right();
    }
    assert_eq!((g.placing.x, g.placing.y), (5, 3));
    for _ in 0..4 {
        g.on_up();
    }
    assert_eq!((g.placing.x, g.placing.y), (5, 5));
    for _ in 0..9 {
        g.on_down();
    }
    assert_eq!((g.placing.x, g.placing.y), (5, 0));
}

#[test]
fn selected_plant_follows_the_cursor() {
    let mut g = fresh_game();
    assert_eq!(g.selected_plant(), Some(grass()));
    g.on_down();
    assert_eq!(g.selected_plant(), Some(grass()));
}

#[test]
fn with_catalog_rejects_an_empty_catalog() {
    let r = Game::with_catalog(&GlobalSetting::global(), vec![]);
    assert_eq!(r.unwrap_err(), ConfigError::EmptyCatalog);
}

#[test]
fn with_catalog_rejects_bad_references() {
    let stray = PlantSpecies {
        name: "Stray".to_owned(),
        max_age: 2,
        size_per_turn: 1,
        points_per_size: 1,
        class: 's',
        short_display: 'q',
        drops: vec![DropEntry { chance: 1, plants: vec![9] }],
    };
    let r = Game::with_catalog(&GlobalSetting::global(), vec![stray]);
    assert_eq!(r.unwrap_err(), ConfigError::UnknownSpecies);
}
