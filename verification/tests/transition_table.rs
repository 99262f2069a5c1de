use hermes::Input;
use hermes::State;
use hermes::TransitionTable;
use hermes::build_transition_table;
use hermes::is_transitional_state;

fn verify_result(table: &TransitionTable, state: State, expected: Vec<(Input, State)>) {
    for (input, expected_state) in expected {
        let result = table.lookup(state, input);
        assert_eq!(
            result, expected_state,
            "Expected state {:?}, received state {:?}",
            expected_state, result
        );
    }
}

#[test]
fn should_determine_right_transitional_state() {
    let test_cases = vec![
        (State::Start, true),
        (State::ReadIdentifier, true),
        (State::EndIdentifier, false),
        (State::ReadSubBlockType, true),
        (State::EndSubBlockType, false),
        (State::ReadString, true),
        (State::EndString, false),
        (State::ReadEscapedCharacter, true),
        (State::ReadSpecialIdentifier, true),
        (State::EndSpecialIdentifier, false),
        (State::EndDelimeter, false),
        (State::EndDigit, false),
        (State::EOF, false),
        (State::Error, false),
    ];
    for case in test_cases {
        let (state, expected) = case;
        let result = is_transitional_state(state);
        assert_eq!(
            expected, result,
            "Failed to determine correct transitional state. Expecting {}, received: {}",
            expected, result
        );
    }
}

#[test]
fn should_insert_start_states() {
    let states = vec![
        (Input::NewLine, State::Start),
        (Input::Whitespace, State::Start),
        (Input::Character, State::ReadIdentifier),
        (Input::Underscore, State::ReadIdentifier),
        (Input::Delimeter, State::EndDelimeter),
        (Input::Dot, State::ReadSubBlockType),
        (Input::Digit, State::EndDigit),
        (Input::DoubleQuote, State::ReadSpecialIdentifier),
        (Input::Phiten, State::Error),
        (Input::Backslash, State::Error),
        (Input::Tilt, State::ReadString),
        (Input::EOF, State::EOF),
        (Input::Other, State::Error),
    ];
    let table = build_transition_table();
    verify_result(&table, State::Start, states);
}

#[test]
fn should_insert_read_identifier_states() {
    let states = vec![
        (Input::NewLine, State::EndIdentifier),
        (Input::Whitespace, State::EndIdentifier),
        (Input::Character, State::ReadIdentifier),
        (Input::Underscore, State::ReadIdentifier),
        (Input::Delimeter, State::EndIdentifier),
        (Input::Dot, State::EndIdentifier),
        (Input::Digit, State::ReadIdentifier),
        (Input::DoubleQuote, State::EndIdentifier),
        (Input::Phiten, State::ReadIdentifier),
        (Input::Backslash, State::EndIdentifier),
        (Input::Tilt, State::EndIdentifier),
        (Input::EOF, State::EndIdentifier),
        (Input::Other, State::EndIdentifier),
    ];
    let table = build_transition_table();
    verify_result(&table, State::ReadIdentifier, states);
}

#[test]
fn should_insert_read_special_identifier_states() {
    // a quoted special identifier tolerates newlines as well as spaces; only
    // a closing quote or the end of the input completes it
    let states = vec![
        (Input::NewLine, State::ReadSpecialIdentifier),
        (Input::Whitespace, State::ReadSpecialIdentifier),
        (Input::Character, State::ReadSpecialIdentifier),
        (Input::Underscore, State::ReadSpecialIdentifier),
        (Input::Delimeter, State::ReadSpecialIdentifier),
        (Input::Dot, State::ReadSpecialIdentifier),
        (Input::Digit, State::ReadSpecialIdentifier),
        (Input::DoubleQuote, State::EndSpecialIdentifier),
        (Input::Phiten, State::ReadSpecialIdentifier),
        (Input::Backslash, State::ReadSpecialIdentifier),
        (Input::Tilt, State::ReadSpecialIdentifier),
        (Input::EOF, State::EndSpecialIdentifier),
        (Input::Other, State::ReadSpecialIdentifier),
    ];
    let table = build_transition_table();
    verify_result(&table, State::ReadSpecialIdentifier, states);
}

#[test]
fn should_insert_read_string_states() {
    let states = vec![
        (Input::NewLine, State::ReadString),
        (Input::Whitespace, State::ReadString),
        (Input::Character, State::ReadString),
        (Input::Underscore, State::ReadString),
        (Input::Delimeter, State::ReadString),
        (Input::Dot, State::ReadString),
        (Input::Digit, State::ReadString),
        (Input::DoubleQuote, State::ReadString),
        (Input::Phiten, State::ReadString),
        (Input::Backslash, State::ReadEscapedCharacter),
        (Input::Tilt, State::EndString),
        (Input::EOF, State::EndString),
        (Input::Other, State::ReadString),
    ];
    let table = build_transition_table();
    verify_result(&table, State::ReadString, states);
}

#[test]
fn should_insert_read_escaped_character_states() {
    let states = vec![
        (Input::NewLine, State::ReadString),
        (Input::Whitespace, State::ReadString),
        (Input::Character, State::ReadString),
        (Input::Underscore, State::ReadString),
        (Input::Delimeter, State::ReadString),
        (Input::Dot, State::ReadString),
        (Input::Digit, State::ReadString),
        (Input::DoubleQuote, State::ReadString),
        (Input::Phiten, State::ReadString),
        (Input::Backslash, State::ReadString),
        (Input::Tilt, State::ReadString),
        (Input::EOF, State::EndString),
        (Input::Other, State::ReadString),
    ];
    let table = build_transition_table();
    verify_result(&table, State::ReadEscapedCharacter, states);
}

#[test]
fn should_insert_read_sub_block_type_states() {
    let states = vec![
        (Input::NewLine, State::EndSubBlockType),
        (Input::Whitespace, State::EndSubBlockType),
        (Input::Character, State::ReadSubBlockType),
        (Input::Underscore, State::ReadSubBlockType),
        (Input::Delimeter, State::EndSubBlockType),
        (Input::Dot, State::EndSubBlockType),
        (Input::Digit, State::ReadSubBlockType),
        (Input::DoubleQuote, State::EndSubBlockType),
        (Input::Phiten, State::ReadSubBlockType),
        (Input::Backslash, State::EndSubBlockType),
        (Input::Tilt, State::EndSubBlockType),
        (Input::EOF, State::EndSubBlockType),
        (Input::Other, State::EndSubBlockType),
    ];
    let table = build_transition_table();
    verify_result(&table, State::ReadSubBlockType, states);
}

#[test]
fn colon_is_skipped_at_start_and_ends_identifiers() {
    let table = build_transition_table();
    assert_eq!(table.lookup(State::Start, Input::Colon), State::Start);
    assert_eq!(table.lookup(State::ReadIdentifier, Input::Colon), State::EndIdentifier);
    assert_eq!(table.lookup(State::ReadSubBlockType, Input::Colon), State::EndSubBlockType);
    assert_eq!(
        table.lookup(State::ReadSpecialIdentifier, Input::Colon),
        State::ReadSpecialIdentifier
    );
    assert_eq!(table.lookup(State::ReadString, Input::Colon), State::ReadString);
    assert_eq!(table.lookup(State::ReadEscapedCharacter, Input::Colon), State::ReadString);
}

#[test]
fn terminal_states_have_no_entries() {
    // a pair whose state is terminal results in the error boundary
    let table = build_transition_table();
    assert_eq!(table.lookup(State::EndIdentifier, Input::Character), State::Error);
    assert_eq!(table.lookup(State::Error, Input::Whitespace), State::Error);
    assert_eq!(table.lookup(State::EOF, Input::EOF), State::Error);
}
