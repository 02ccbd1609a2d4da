use sokoban::game::GameState;
use sokoban::level::Cell;
use sokoban::math::Direction;
use sokoban::math::Position;

const TINY: &str = "####\n@.QX\n####";
const RIGHT: Direction = Direction { x: 1, y: 0 };
const LEFT: Direction = Direction { x: -1, y: 0 };
const DOWN: Direction = Direction { x: 0, y: 1 };
const UP: Direction = Direction { x: 0, y: -1 };

fn try_move(state: &mut GameState, direction: Direction) -> bool {
    let grid = state.render_grid();
    if grid.player_can_move(state.player_position, direction) {
        state.move_player(&grid, direction);
        true
    } else {
        false
    }
}

#[test]
fn two_pushes_solve_the_tiny_level() {
    let mut state = GameState::load_level(TINY).unwrap();
    assert_eq!(state.player_position, Position { x: 0, y: 1 });
    assert_eq!(state.box_positions[0], Position { x: 2, y: 1 });
    assert!(!state.level_is_complete());

    assert!(try_move(&mut state, RIGHT));
    assert_eq!(state.player_position, Position { x: 1, y: 1 });
    assert_eq!(state.box_positions[0], Position { x: 2, y: 1 });
    assert!(!state.level_is_complete());

    assert!(try_move(&mut state, RIGHT));
    assert_eq!(state.player_position, Position { x: 2, y: 1 });
    assert_eq!(state.box_positions[0], Position { x: 3, y: 1 });
    assert!(state.level_is_complete());
}

#[test]
fn moving_into_a_wall_is_rejected() {
    let mut state = GameState::load_level(TINY).unwrap();
    assert!(!try_move(&mut state, LEFT));
    assert!(!try_move(&mut state, DOWN));
    assert_eq!(state.player_position, Position { x: 0, y: 1 });
    assert_eq!(state.box_positions[0], Position { x: 2, y: 1 });
    assert_eq!(state.move_history.len(), 0);
}

#[test]
fn pushing_a_box_into_a_wall_is_rejected() {
    // The box already leans on the right wall.
    let mut state = GameState::load_level("#####\n#@Q.#\n#####").unwrap();
    assert!(try_move(&mut state, RIGHT));
    assert!(!try_move(&mut state, RIGHT));
    assert_eq!(state.player_position, Position { x: 2, y: 1 });
    assert_eq!(state.box_positions[0], Position { x: 3, y: 1 });
}

#[test]
fn pushing_a_box_into_another_box_is_rejected() {
    let mut state = GameState::load_level("#@QQ.#").unwrap();
    assert!(!try_move(&mut state, RIGHT));
    assert_eq!(state.player_position, Position { x: 1, y: 0 });
    assert_eq!(state.box_positions[0], Position { x: 2, y: 0 });
    assert_eq!(state.box_positions[1], Position { x: 3, y: 0 });
    assert_eq!(state.move_history.len(), 0);
}

#[test]
fn undo_reverts_a_plain_move() {
    let mut state = GameState::load_level(TINY).unwrap();
    assert!(try_move(&mut state, RIGHT));
    state.undo();
    assert_eq!(state.player_position, Position { x: 0, y: 1 });
    assert_eq!(state.box_positions[0], Position { x: 2, y: 1 });
    assert_eq!(state.move_history.len(), 0);
}

#[test]
fn undo_reverts_a_push_as_one_unit() {
    let mut state = GameState::load_level(TINY).unwrap();
    assert!(try_move(&mut state, RIGHT));
    assert!(try_move(&mut state, RIGHT));
    state.undo();
    assert_eq!(state.player_position, Position { x: 1, y: 1 });
    assert_eq!(state.box_positions[0], Position { x: 2, y: 1 });
    assert_eq!(state.move_history.len(), 1);
}

#[test]
fn undoing_every_move_restores_the_start() {
    let text = "#######\n#.@...#\n#XX...#\n#..QQ.#\n#.....#\n#######";
    let mut state = GameState::load_level(text).unwrap();
    let start_player = state.player_position;
    let start_boxes = state.box_positions.clone();
    // The third step pushes a box along; the others are plain moves.
    let moves = [RIGHT, DOWN, DOWN, LEFT, DOWN];
    let mut made: usize = 0;
    for direction in moves {
        if try_move(&mut state, direction) {
            made += 1;
        }
    }
    assert_eq!(made, 5);
    for _ in 0..made {
        state.undo();
    }
    assert_eq!(state.player_position, start_player);
    assert_eq!(state.box_positions, start_boxes);
    assert_eq!(state.move_history.len(), 0);
}

#[test]
fn undo_on_an_empty_history_is_a_no_op() {
    let mut state = GameState::load_level(TINY).unwrap();
    state.undo();
    assert_eq!(state.player_position, Position { x: 0, y: 1 });
    assert_eq!(state.box_positions[0], Position { x: 2, y: 1 });
    assert_eq!(state.move_history.len(), 0);
}

#[test]
fn reset_matches_a_fresh_load() {
    let mut state = GameState::load_level(TINY).unwrap();
    assert!(try_move(&mut state, RIGHT));
    assert!(try_move(&mut state, RIGHT));
    state.reset();
    let fresh = GameState::load_level(TINY).unwrap();
    assert_eq!(state.player_position, fresh.player_position);
    assert_eq!(state.box_positions, fresh.box_positions);
    assert_eq!(state.move_history.len(), 0);
}

#[test]
fn completion_requires_every_box_on_a_target() {
    let text = "#####\n#XX.#\n#QQ.#\n#@..#\n#####";
    let mut state = GameState::load_level(text).unwrap();
    assert!(!state.level_is_complete());
    // One box on its target is not enough.
    assert!(try_move(&mut state, UP));
    assert!(!state.level_is_complete());
    // Both boxes on targets solve the level.
    assert!(try_move(&mut state, DOWN));
    assert!(try_move(&mut state, RIGHT));
    assert!(try_move(&mut state, UP));
    assert!(state.level_is_complete());
}

#[test]
fn the_player_never_overlaps_a_wall_or_a_box() {
    let text = "#######\n#.@...#\n#XX...#\n#..QQ.#\n#.....#\n#######";
    let mut state = GameState::load_level(text).unwrap();
    let dirs = [RIGHT, DOWN, LEFT, UP];
    let mut seed: u64 = 12345;
    for round in 0..300 {
        seed = seed
            .wrapping_mul(6364136223846793005)
            .wrapping_add(1442695040888963407);
        let direction = dirs[(seed >> 33) as usize % 4];
        if round % 13 == 0 {
            state.undo();
        } else {
            let _ = try_move(&mut state, direction);
        }
        let under_player = state.level.grid.cell_at(state.player_position);
        assert!(under_player == Cell::Empty || under_player == Cell::Target);
        for (i, b) in state.box_positions.iter().enumerate() {
            assert_ne!(state.player_position, *b);
            let under_box = state.level.grid.cell_at(*b);
            assert!(under_box == Cell::Empty || under_box == Cell::Target);
            for other in state.box_positions.iter().skip(i + 1) {
                assert_ne!(*b, *other);
            }
        }
    }
}

#[test]
fn rendering_overlays_player_and_boxes() {
    let state = GameState::load_level(TINY).unwrap();
    let grid = state.render_grid();
    assert_eq!(grid.cell_at(Position { x: 0, y: 1 }), Cell::Player);
    assert_eq!(grid.cell_at(Position { x: 2, y: 1 }), Cell::Box(0));
    assert_eq!(grid.cell_at(Position { x: 3, y: 1 }), Cell::Target);
    assert_eq!(grid.to_lines(), vec!["####", "@ QX", "####"]);
}
