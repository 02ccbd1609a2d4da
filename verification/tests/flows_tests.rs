use sokoban::flows::levels;
use sokoban::flows::translate_input;
use sokoban::flows::AppFlow;
use sokoban::flows::Command;
use sokoban::flows::Flow;
use sokoban::math::Position;
use sokoban::platform::Key;

const MOVE_RIGHT: Command = Command::Move(1, 0);

#[test]
fn keys_translate_to_commands() {
    assert_eq!(translate_input(Key::W), Command::Move(0, -1));
    assert_eq!(translate_input(Key::A), Command::Move(-1, 0));
    assert_eq!(translate_input(Key::S), Command::Move(0, 1));
    assert_eq!(translate_input(Key::D), Command::Move(1, 0));
    assert_eq!(translate_input(Key::R), Command::RestartLevel);
    assert_eq!(translate_input(Key::Q), Command::Quit);
    assert_eq!(translate_input(Key::U), Command::Undo);
    assert_eq!(translate_input(Key::Z), Command::Unknown);
}

#[test]
fn the_intro_leads_to_the_first_level_banner() {
    let mut app = AppFlow::new(levels()).unwrap();
    assert!(matches!(app.flow, Flow::Intro));
    assert!(!app.should_quit());
    app.update(Command::Unknown);
    assert!(matches!(app.flow, Flow::LevelIntro(0)));
}

#[test]
fn quitting_wins_everywhere() {
    let mut app = AppFlow::new(levels()).unwrap();
    app.update(Command::Quit);
    assert!(app.should_quit());

    let mut app = AppFlow::new(levels()).unwrap();
    app.update(Command::Unknown);
    app.update(Command::Quit);
    assert!(app.should_quit());

    let mut app = AppFlow::new(levels()).unwrap();
    app.update(Command::Unknown);
    app.update(Command::Unknown);
    app.update(Command::Quit);
    assert!(app.should_quit());
}

#[test]
fn the_banner_counts_the_level() {
    let mut app = AppFlow::new(levels()).unwrap();
    app.update(Command::Unknown);
    let lines = app.render();
    assert_eq!(lines.len(), 7);
    assert_eq!(lines[2], "#       Level 0         #");
}

#[test]
fn the_intro_banner_renders() {
    let app = AppFlow::new(levels()).unwrap();
    let lines = app.render();
    assert_eq!(lines.len(), 13);
    assert_eq!(lines[0], "#########################");
    assert_eq!(lines[2], "#     Sokoban Mini      #");
    assert_eq!(lines[10], "#   Any key to start!   #");
}

#[test]
fn the_game_renders_the_grid() {
    let mut app = AppFlow::new(levels()).unwrap();
    app.update(Command::Unknown);
    app.update(Command::Unknown);
    assert!(matches!(app.flow, Flow::Game(_)));
    let lines = app.render();
    assert_eq!(lines, vec!["####", "@ QX", "####"]);
}

#[test]
fn solving_a_level_leads_to_the_next_banner() {
    let mut app = AppFlow::new(levels()).unwrap();
    app.update(Command::Unknown);
    app.update(Command::Unknown);
    app.update(MOVE_RIGHT);
    assert!(matches!(app.flow, Flow::Game(_)));
    app.update(MOVE_RIGHT);
    assert!(matches!(app.flow, Flow::LevelIntro(1)));
    let lines = app.render();
    assert_eq!(lines[2], "#       Level 1         #");
}

#[test]
fn solving_the_last_level_ends_the_game() {
    let texts = vec![String::from("####\n@.QX\n####")];
    let mut app = AppFlow::new(texts).unwrap();
    app.update(Command::Unknown);
    app.update(Command::Unknown);
    app.update(MOVE_RIGHT);
    app.update(MOVE_RIGHT);
    assert!(matches!(app.flow, Flow::End));
    let lines = app.render();
    assert_eq!(lines[2], "#       The End!        #");
    app.update(Command::Unknown);
    assert!(app.should_quit());
    assert_eq!(app.render().len(), 0);
}

#[test]
fn a_rejected_push_changes_nothing() {
    let texts = vec![String::from("#@QQ.#")];
    let mut app = AppFlow::new(texts).unwrap();
    app.update(Command::Unknown);
    app.update(Command::Unknown);
    app.update(MOVE_RIGHT);
    match &app.flow {
        Flow::Game(gf) => {
            assert_eq!(gf.game_state.player_position, Position { x: 1, y: 0 });
            assert_eq!(gf.game_state.box_positions[0], Position { x: 2, y: 0 });
            assert_eq!(gf.game_state.box_positions[1], Position { x: 3, y: 0 });
            assert_eq!(gf.game_state.move_history.len(), 0);
        },
        other => panic!("expected the game to go on, found {:?}", other),
    }
}

#[test]
fn restart_through_the_controller_reloads_the_level() {
    let texts = vec![String::from("#####\n#@Q.#\n#####")];
    let mut app = AppFlow::new(texts).unwrap();
    app.update(Command::Unknown);
    app.update(Command::Unknown);
    app.update(MOVE_RIGHT);
    app.update(Command::RestartLevel);
    match &app.flow {
        Flow::Game(gf) => {
            assert_eq!(gf.game_state.player_position, Position { x: 1, y: 1 });
            assert_eq!(gf.game_state.box_positions[0], Position { x: 2, y: 1 });
            assert_eq!(gf.game_state.move_history.len(), 0);
        },
        other => panic!("expected the game to go on, found {:?}", other),
    }
}

#[test]
fn undo_through_the_controller_reverts_the_move() {
    let texts = vec![String::from("#####\n#@Q.#\n#####")];
    let mut app = AppFlow::new(texts).unwrap();
    app.update(Command::Unknown);
    app.update(Command::Unknown);
    app.update(MOVE_RIGHT);
    app.update(Command::Undo);
    match &app.flow {
        Flow::Game(gf) => {
            assert_eq!(gf.game_state.player_position, Position { x: 1, y: 1 });
            assert_eq!(gf.game_state.box_positions[0], Position { x: 2, y: 1 });
            assert_eq!(gf.game_state.move_history.len(), 0);
        },
        other => panic!("expected the game to go on, found {:?}", other),
    }
}

#[test]
fn an_empty_level_table_is_refused() {
    let err = AppFlow::new(Vec::new()).unwrap_err();
    assert_eq!(err, "There are no levels to play.");
}

#[test]
fn a_bad_level_text_is_refused() {
    let err = AppFlow::new(vec![String::from("####")]).unwrap_err();
    assert_eq!(err, "Failed parsing level.");
}

#[test]
fn the_built_in_levels_parse() {
    let app = AppFlow::new(levels()).unwrap();
    assert_eq!(app.levels.len(), 3);
}
