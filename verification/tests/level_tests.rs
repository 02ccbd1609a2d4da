use sokoban::game::GameState;
use sokoban::level::parse_level;
use sokoban::level::Cell;
use sokoban::math::Position;

#[test]
fn parses_the_smallest_level() {
    let level = parse_level("####\n@.QX\n####").unwrap();
    assert_eq!(level.grid.width, 4);
    assert_eq!(level.grid.height, 3);
    assert_eq!(level.start_position, Position { x: 0, y: 1 });
    assert_eq!(level.box_positions.len(), 1);
    assert_eq!(level.box_positions[0], Position { x: 2, y: 1 });
}

#[test]
fn strips_player_and_boxes_from_the_template() {
    let level = parse_level("####\n@.QX\n####").unwrap();
    assert_eq!(level.grid.cell_at(Position { x: 0, y: 1 }), Cell::Empty);
    assert_eq!(level.grid.cell_at(Position { x: 1, y: 1 }), Cell::Empty);
    assert_eq!(level.grid.cell_at(Position { x: 2, y: 1 }), Cell::Empty);
    assert_eq!(level.grid.cell_at(Position { x: 3, y: 1 }), Cell::Target);
    assert_eq!(level.grid.cell_at(Position { x: 0, y: 0 }), Cell::Wall);
}

#[test]
fn assigns_box_identities_in_scan_order() {
    let text = "#######\n#.@...#\n#XX...#\n#..QQ.#\n#.....#\n#######";
    let level = parse_level(text).unwrap();
    assert_eq!(level.box_positions.len(), 2);
    assert_eq!(level.box_positions[0], Position { x: 3, y: 3 });
    assert_eq!(level.box_positions[1], Position { x: 4, y: 3 });
}

#[test]
fn reparsing_assigns_the_same_identities() {
    let text = "#######\n#.@...#\n#XX...#\n#..QQ.#\n#.....#\n#######";
    let first = parse_level(text).unwrap();
    let second = parse_level(text).unwrap();
    assert_eq!(first.box_positions, second.box_positions);
    assert_eq!(first.start_position, second.start_position);
    assert_eq!(first.box_positions[0], second.box_positions[0]);
}

#[test]
fn rejects_a_level_without_a_player() {
    let err = parse_level("####\n#..#\n####").unwrap_err();
    assert_eq!(err, "Level is missing a player position.");
}

#[test]
fn rejects_a_level_with_two_players() {
    let err = parse_level("####\n@.@#\n####").unwrap_err();
    assert_eq!(err, "Level has more than one player position.");
}

#[test]
fn pads_short_rows_with_empty_ground() {
    let level = parse_level("##\n@\n####X").unwrap();
    assert_eq!(level.grid.width, 5);
    assert_eq!(level.grid.height, 3);
    assert_eq!(level.grid.cell_at(Position { x: 4, y: 0 }), Cell::Empty);
    assert_eq!(level.grid.cell_at(Position { x: 3, y: 1 }), Cell::Empty);
    assert_eq!(level.grid.cell_at(Position { x: 4, y: 2 }), Cell::Target);
}

#[test]
fn reads_unrecognized_characters_as_empty_ground() {
    let level = parse_level("#z!#\n@..X").unwrap();
    assert_eq!(level.grid.cell_at(Position { x: 1, y: 0 }), Cell::Empty);
    assert_eq!(level.grid.cell_at(Position { x: 2, y: 0 }), Cell::Empty);
    assert_eq!(level.grid.cell_at(Position { x: 0, y: 0 }), Cell::Wall);
}

#[test]
fn dots_and_spaces_both_read_as_empty_ground() {
    let level = parse_level("#. #\n@..X").unwrap();
    assert_eq!(level.grid.cell_at(Position { x: 1, y: 0 }), Cell::Empty);
    assert_eq!(level.grid.cell_at(Position { x: 2, y: 0 }), Cell::Empty);
}

#[test]
fn load_level_flattens_the_parse_error() {
    let err = GameState::load_level("####").unwrap_err();
    assert_eq!(err, "Failed parsing level.");
}

#[test]
fn renders_one_line_per_row() {
    let level = parse_level("####\n@.QX\n####").unwrap();
    let lines = level.grid.to_lines();
    assert_eq!(lines, vec!["####", "   X", "####"]);
}
