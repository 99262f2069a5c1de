//! The character classifier and the lexer's transition table.
//!
//! The table is a total function from (lexer state, input class) to the next
//! lexer state. States split into transitional ones (the machine is still
//! accumulating a token) and terminal ones (a token boundary, including the
//! error boundary). The table is kept as an explicit associative value, built
//! once, so that its totality can be inspected and tested independently of the
//! driver loop; `spec_transition` is its mathematical model.

use vstd::prelude::*;

verus! {

/// The states of the tokenizer's finite-state machine.
#[derive(Debug, PartialEq, Eq, Structural, Clone, Copy)]
pub enum State {
    /// Start state; decides which kind of token begins here.
    Start,
    /// Reading an unquoted word: an identifier or a block-type keyword.
    ReadIdentifier,
    /// Boundary after an unquoted word.
    EndIdentifier,
    /// Reading a dot-prefixed sub-block-type qualifier.
    ReadSubBlockType,
    /// Boundary after a sub-block-type qualifier.
    EndSubBlockType,
    /// Reading a double-quoted special identifier, which tolerates whitespace
    /// and newlines.
    ReadSpecialIdentifier,
    /// Boundary after a special identifier.
    EndSpecialIdentifier,
    /// Boundary after a single digit; digits are single-character tokens.
    EndDigit,
    /// Reading a backtick-delimited, multi-line string value.
    ReadString,
    /// Boundary after a string value.
    EndString,
    /// A backslash inside a string escapes the next character, whatever it is;
    /// afterwards the read of the string resumes.
    ReadEscapedCharacter,
    /// Boundary after a single-character delimiter (a brace).
    EndDelimeter,
    /// End of the input.
    EOF,
    /// Error boundary: the input matches no transition from the current state.
    Error,
}

/// The closed set of input classes; a character maps to exactly one of them.
#[derive(Debug, PartialEq, Eq, Structural, Clone, Copy)]
pub enum Input {
    NewLine,
    Whitespace,
    /// An ASCII letter.
    Character,
    /// A hyphen.
    Phiten,
    Underscore,
    /// A left or right brace.
    Delimeter,
    Dot,
    /// A backtick, the string-value delimiter.
    Tilt,
    Backslash,
    Digit,
    DoubleQuote,
    /// A colon, the insignificant separator written `::` before a quoted
    /// block identifier.
    Colon,
    /// Any other character.
    Other,
    /// The end of the input, or an embedded NUL.
    EOF,
}

/// Mathematical model of the character classifier: a total function from one
/// character to its input class.
pub open spec fn spec_char_to_input(c: char) -> Input {
    if c == ' ' || c == '\t' {
        Input::Whitespace
    } else if c == '\n' {
        Input::NewLine
    } else if ('a' as u32) <= (c as u32) && (c as u32) <= ('z' as u32) {
        Input::Character
    } else if ('A' as u32) <= (c as u32) && (c as u32) <= ('Z' as u32) {
        Input::Character
    } else if c == '-' {
        Input::Phiten
    } else if c == '_' {
        Input::Underscore
    } else if c == '{' || c == '}' {
        Input::Delimeter
    } else if c == '.' {
        Input::Dot
    } else if c == '`' {
        Input::Tilt
    } else if c == '\\' {
        Input::Backslash
    } else if ('0' as u32) <= (c as u32) && (c as u32) <= ('9' as u32) {
        Input::Digit
    } else if c == '"' {
        Input::DoubleQuote
    } else if c == ':' {
        Input::Colon
    } else if c == '\0' {
        Input::EOF
    } else {
        Input::Other
    }
}

/// Match the given character with an input class to use with the transition
/// table.
pub fn char_to_input(ch: char) -> (r: Input)
    ensures
        r == spec_char_to_input(ch),
{
    let c = ch as u32;
    if ch == ' ' || ch == '\t' {
        Input::Whitespace
    } else if ch == '\n' {
        Input::NewLine
    } else if (97 <= c && c <= 122) || (65 <= c && c <= 90) {
        Input::Character
    } else if ch == '-' {
        Input::Phiten
    } else if ch == '_' {
        Input::Underscore
    } else if ch == '{' || ch == '}' {
        Input::Delimeter
    } else if ch == '.' {
        Input::Dot
    } else if ch == '`' {
        Input::Tilt
    } else if ch == '\\' {
        Input::Backslash
    } else if 48 <= c && c <= 57 {
        Input::Digit
    } else if ch == '"' {
        Input::DoubleQuote
    } else if ch == ':' {
        Input::Colon
    } else if ch == '\0' {
        Input::EOF
    } else {
        Input::Other
    }
}

/// The transitional states: the machine keeps consuming characters while in
/// one of these.
pub open spec fn spec_is_transitional(s: State) -> bool {
    match s {
        State::Start
        | State::ReadIdentifier
        | State::ReadSubBlockType
        | State::ReadSpecialIdentifier
        | State::ReadString
        | State::ReadEscapedCharacter => true,
        _ => false,
    }
}

/// Whether a state is transitional (mid-token) rather than terminal (a token
/// boundary, including the error boundary).
pub fn is_transitional_state(state: State) -> (r: bool)
    ensures
        r == spec_is_transitional(state),
{
    match state {
        State::Start
        | State::ReadIdentifier
        | State::ReadSubBlockType
        | State::ReadSpecialIdentifier
        | State::ReadString
        | State::ReadEscapedCharacter => true,
        _ => false,
    }
}

/// Mathematical model of the transition table: the successor of every
/// (state, input class) pair. Pairs whose state is terminal are never reached
/// by the driver loop; they map to the error boundary.
pub open spec fn spec_transition(s: State, i: Input) -> State {
    match s {
        State::Start => match i {
            Input::NewLine => State::Start,
            Input::Whitespace => State::Start,
            Input::Character => State::ReadIdentifier,
            Input::Phiten => State::Error,
            Input::Underscore => State::ReadIdentifier,
            Input::Delimeter => State::EndDelimeter,
            Input::Dot => State::ReadSubBlockType,
            Input::Tilt => State::ReadString,
            Input::Backslash => State::Error,
            Input::Digit => State::EndDigit,
            Input::DoubleQuote => State::ReadSpecialIdentifier,
            Input::Colon => State::Start,
            Input::Other => State::Error,
            Input::EOF => State::EOF,
        },
        State::ReadIdentifier => match i {
            Input::Character | Input::Phiten | Input::Underscore | Input::Digit => {
                State::ReadIdentifier
            },
            _ => State::EndIdentifier,
        },
        State::ReadSubBlockType => match i {
            Input::Character | Input::Phiten | Input::Underscore | Input::Digit => {
                State::ReadSubBlockType
            },
            _ => State::EndSubBlockType,
        },
        State::ReadSpecialIdentifier => match i {
            Input::DoubleQuote | Input::EOF => State::EndSpecialIdentifier,
            _ => State::ReadSpecialIdentifier,
        },
        State::ReadString => match i {
            Input::Backslash => State::ReadEscapedCharacter,
            Input::Tilt | Input::EOF => State::EndString,
            _ => State::ReadString,
        },
        State::ReadEscapedCharacter => match i {
            Input::EOF => State::EndString,
            _ => State::ReadString,
        },
        _ => State::Error,
    }
}

/// Row index of a transitional state in the table.
pub open spec fn state_row(s: State) -> int {
    match s {
        State::Start => 0,
        State::ReadIdentifier => 1,
        State::ReadSubBlockType => 2,
        State::ReadSpecialIdentifier => 3,
        State::ReadString => 4,
        State::ReadEscapedCharacter => 5,
        _ => 6,
    }
}

/// Column index of an input class in a table row.
pub open spec fn input_index(i: Input) -> int {
    match i {
        Input::NewLine => 0,
        Input::Whitespace => 1,
        Input::Character => 2,
        Input::Phiten => 3,
        Input::Underscore => 4,
        Input::Delimeter => 5,
        Input::Dot => 6,
        Input::Tilt => 7,
        Input::Backslash => 8,
        Input::Digit => 9,
        Input::DoubleQuote => 10,
        Input::Colon => 11,
        Input::Other => 12,
        Input::EOF => 13,
    }
}

/// The transition table as an explicit value: one row per transitional state,
/// one column per input class. Missing pairs — those whose state is terminal —
/// mean that the (state, input) combination results in `State::Error`.
pub struct TransitionTable {
    rows: Vec<Vec<State>>,
}

impl View for TransitionTable {
    type V = Map<(State, Input), State>;

    /// The table as an associative value over the reachable pairs: those whose
    /// state is transitional.
    closed spec fn view(&self) -> Map<(State, Input), State> {
        Map::new(
            |p: (State, Input)| spec_is_transitional(p.0),
            |p: (State, Input)| self.rows@[state_row(p.0)]@[input_index(p.1)],
        )
    }
}

impl TransitionTable {
    /// Well-formed: all six rows present and full, and every entry agrees with
    /// the mathematical table.
    pub closed spec fn wf(&self) -> bool {
        &&& self.rows@.len() == 6
        &&& forall|r: int| 0 <= r < 6 ==> (#[trigger] self.rows@[r])@.len() == 14
        &&& forall|s: State, i: Input|
            spec_is_transitional(s) ==> #[trigger] self.rows@[state_row(s)]@[input_index(i)]
                == spec_transition(s, i)
    }

    /// Look a (state, input) pair up in the table; a pair without an entry —
    /// one whose state is terminal — results in `State::Error`.
    pub fn lookup(&self, s: State, i: Input) -> (r: State)
        requires
            self.wf(),
        ensures
            r == spec_transition(s, i),
    {
        if is_transitional_state(s) {
            let row: usize = match s {
                State::Start => 0,
                State::ReadIdentifier => 1,
                State::ReadSubBlockType => 2,
                State::ReadSpecialIdentifier => 3,
                State::ReadString => 4,
                _ => 5,
            };
            let col: usize = match i {
                Input::NewLine => 0,
                Input::Whitespace => 1,
                Input::Character => 2,
                Input::Phiten => 3,
                Input::Underscore => 4,
                Input::Delimeter => 5,
                Input::Dot => 6,
                Input::Tilt => 7,
                Input::Backslash => 8,
                Input::Digit => 9,
                Input::DoubleQuote => 10,
                Input::Colon => 11,
                Input::Other => 12,
                Input::EOF => 13,
            };
            proof {
                assert(row == state_row(s));
                assert(col == input_index(i));
                assert(self.rows@[row as int]@.len() == 14);
                assert(self.rows@[state_row(s)]@[input_index(i)] == spec_transition(s, i));
            }
            self.rows[row][col]
        } else {
            State::Error
        }
    }
}

/// Totality of the transition table: every (state, input-class) pair that the
/// driver loop can reach — every pair whose state is transitional — is in the
/// table's domain, and its single successor is the one the mathematical table
/// gives.
pub proof fn lemma_table_total(t: &TransitionTable)
    requires
        t.wf(),
    ensures
        forall|s: State, i: Input| spec_is_transitional(s) ==> #[trigger] t@.dom().contains((s, i)),
        forall|s: State, i: Input|
            spec_is_transitional(s) ==> #[trigger] t@[(s, i)] == spec_transition(s, i),
{
}

/// Builds the transition table to use to create lexemes.
pub fn build_transition_table() -> (t: TransitionTable)
    ensures
        t.wf(),
{
    let mut rows: Vec<Vec<State>> = Vec::new();
    rows.push(start_row());
    rows.push(read_identifier_row());
    rows.push(read_sub_block_type_row());
    rows.push(read_special_identifier_row());
    rows.push(read_string_row());
    rows.push(read_escaped_character_row());
    TransitionTable { rows }
}

/// The row of successors of the start state, in input-class column order.
fn start_row() -> (r: Vec<State>)
    ensures
        r@.len() == 14,
        forall|i: Input| #[trigger] r@[input_index(i)] == spec_transition(State::Start, i),
{
    let mut r: Vec<State> = Vec::new();
    r.push(State::Start);  // NewLine
    r.push(State::Start);  // Whitespace
    r.push(State::ReadIdentifier);  // Character
    r.push(State::Error);  // Phiten
    r.push(State::ReadIdentifier);  // Underscore
    r.push(State::EndDelimeter);  // Delimeter
    r.push(State::ReadSubBlockType);  // Dot
    r.push(State::ReadString);  // Tilt
    r.push(State::Error);  // Backslash
    r.push(State::EndDigit);  // Digit
    r.push(State::ReadSpecialIdentifier);  // DoubleQuote
    r.push(State::Start);  // Colon
    r.push(State::Error);  // Other
    r.push(State::EOF);  // EOF
    r
}

/// The row of successors while reading an unquoted identifier.
fn read_identifier_row() -> (r: Vec<State>)
    ensures
        r@.len() == 14,
        forall|i: Input| #[trigger] r@[input_index(i)] == spec_transition(State::ReadIdentifier, i),
{
    let mut r: Vec<State> = Vec::new();
    r.push(State::EndIdentifier);  // NewLine
    r.push(State::EndIdentifier);  // Whitespace
    r.push(State::ReadIdentifier);  // Character
    r.push(State::ReadIdentifier);  // Phiten
    r.push(State::ReadIdentifier);  // Underscore
    r.push(State::EndIdentifier);  // Delimeter
    r.push(State::EndIdentifier);  // Dot
    r.push(State::EndIdentifier);  // Tilt
    r.push(State::EndIdentifier);  // Backslash
    r.push(State::ReadIdentifier);  // Digit
    r.push(State::EndIdentifier);  // DoubleQuote
    r.push(State::EndIdentifier);  // Colon
    r.push(State::EndIdentifier);  // Other
    r.push(State::EndIdentifier);  // EOF
    r
}

/// The row of successors while reading a dot-prefixed sub-block type.
fn read_sub_block_type_row() -> (r: Vec<State>)
    ensures
        r@.len() == 14,
        forall|i: Input| #[trigger] r@[input_index(i)]
            == spec_transition(State::ReadSubBlockType, i),
{
    let mut r: Vec<State> = Vec::new();
    r.push(State::EndSubBlockType);  // NewLine
    r.push(State::EndSubBlockType);  // Whitespace
    r.push(State::ReadSubBlockType);  // Character
    r.push(State::ReadSubBlockType);  // Phiten
    r.push(State::ReadSubBlockType);  // Underscore
    r.push(State::EndSubBlockType);  // Delimeter
    r.push(State::EndSubBlockType);  // Dot
    r.push(State::EndSubBlockType);  // Tilt
    r.push(State::EndSubBlockType);  // Backslash
    r.push(State::ReadSubBlockType);  // Digit
    r.push(State::EndSubBlockType);  // DoubleQuote
    r.push(State::EndSubBlockType);  // Colon
    r.push(State::EndSubBlockType);  // Other
    r.push(State::EndSubBlockType);  // EOF
    r
}

/// The row of successors while reading a double-quoted special identifier; it
/// tolerates whitespace and newlines, and the end of the input completes it
/// gracefully.
fn read_special_identifier_row() -> (r: Vec<State>)
    ensures
        r@.len() == 14,
        forall|i: Input| #[trigger] r@[input_index(i)]
            == spec_transition(State::ReadSpecialIdentifier, i),
{
    let mut r: Vec<State> = Vec::new();
    r.push(State::ReadSpecialIdentifier);  // NewLine
    r.push(State::ReadSpecialIdentifier);  // Whitespace
    r.push(State::ReadSpecialIdentifier);  // Character
    r.push(State::ReadSpecialIdentifier);  // Phiten
    r.push(State::ReadSpecialIdentifier);  // Underscore
    r.push(State::ReadSpecialIdentifier);  // Delimeter
    r.push(State::ReadSpecialIdentifier);  // Dot
    r.push(State::ReadSpecialIdentifier);  // Tilt
    r.push(State::ReadSpecialIdentifier);  // Backslash
    r.push(State::ReadSpecialIdentifier);  // Digit
    r.push(State::EndSpecialIdentifier);  // DoubleQuote
    r.push(State::ReadSpecialIdentifier);  // Colon
    r.push(State::ReadSpecialIdentifier);  // Other
    r.push(State::EndSpecialIdentifier);  // EOF
    r
}

/// The row of successors while reading a backtick-delimited string value; the
/// end of the input is a valid terminator, so an unterminated string still
/// completes.
fn read_string_row() -> (r: Vec<State>)
    ensures
        r@.len() == 14,
        forall|i: Input| #[trigger] r@[input_index(i)] == spec_transition(State::ReadString, i),
{
    let mut r: Vec<State> = Vec::new();
    r.push(State::ReadString);  // NewLine
    r.push(State::ReadString);  // Whitespace
    r.push(State::ReadString);  // Character
    r.push(State::ReadString);  // Phiten
    r.push(State::ReadString);  // Underscore
    r.push(State::ReadString);  // Delimeter
    r.push(State::ReadString);  // Dot
    r.push(State::EndString);  // Tilt
    r.push(State::ReadEscapedCharacter);  // Backslash
    r.push(State::ReadString);  // Digit
    r.push(State::ReadString);  // DoubleQuote
    r.push(State::ReadString);  // Colon
    r.push(State::ReadString);  // Other
    r.push(State::EndString);  // EOF
    r
}

/// The row of successors after a backslash inside a string: any character is
/// accepted and the read of the string resumes.
fn read_escaped_character_row() -> (r: Vec<State>)
    ensures
        r@.len() == 14,
        forall|i: Input| #[trigger] r@[input_index(i)]
            == spec_transition(State::ReadEscapedCharacter, i),
{
    let mut r: Vec<State> = Vec::new();
    r.push(State::ReadString);  // NewLine
    r.push(State::ReadString);  // Whitespace
    r.push(State::ReadString);  // Character
    r.push(State::ReadString);  // Phiten
    r.push(State::ReadString);  // Underscore
    r.push(State::ReadString);  // Delimeter
    r.push(State::ReadString);  // Dot
    r.push(State::ReadString);  // Tilt
    r.push(State::ReadString);  // Backslash
    r.push(State::ReadString);  // Digit
    r.push(State::ReadString);  // DoubleQuote
    r.push(State::ReadString);  // Colon
    r.push(State::ReadString);  // Other
    r.push(State::EndString);  // EOF
    r
}

} // verus!
