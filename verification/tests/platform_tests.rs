use sokoban::platform::translate_input;
use sokoban::platform::Key;
use sokoban::platform::NonblockingBufReader;

#[test]
fn letters_translate_case_insensitively() {
    assert_eq!(translate_input('w'), Key::W);
    assert_eq!(translate_input('W'), Key::W);
    assert_eq!(translate_input('a'), Key::A);
    assert_eq!(translate_input('s'), Key::S);
    assert_eq!(translate_input('d'), Key::D);
    assert_eq!(translate_input('q'), Key::Q);
    assert_eq!(translate_input('r'), Key::R);
    assert_eq!(translate_input('u'), Key::U);
    assert_eq!(translate_input('z'), Key::Z);
    assert_eq!(translate_input('Z'), Key::Z);
}

#[test]
fn other_characters_are_unknown() {
    assert_eq!(translate_input(' '), Key::Unknown);
    assert_eq!(translate_input('1'), Key::Unknown);
    assert_eq!(translate_input('\n'), Key::Unknown);
    assert_eq!(translate_input('#'), Key::Unknown);
}

#[test]
fn reading_a_line_from_a_closed_input_yields_a_result() {
    let mut reader = NonblockingBufReader::new(std::io::stdin());
    // The test harness hands the process an empty input: end of file
    // arrives at once and reads as an empty line.
    let line = reader.read_line().unwrap();
    assert_eq!(line, "");
}
