use hermes::Lexer;
use hermes::Token;
use hermes::parse;

#[test]
fn tokenizes_a_block_header() {
    let tokens = parse("collection::\"C\" {");
    assert_eq!(
        tokens,
        vec![
            Token::BlockType(String::from("collection")),
            Token::BlockIdentifier(String::from("C")),
            Token::LeftBrace,
            Token::EndOfInput,
        ]
    );
}

#[test]
fn recognizes_every_block_keyword() {
    for kw in [
        "collection",
        "environment",
        "request",
        "folder",
        "headers",
        "queries",
        "body",
        "variables",
    ] {
        let tokens = parse(kw);
        assert_eq!(tokens, vec![Token::BlockType(String::from(kw)), Token::EndOfInput]);
    }
}

#[test]
fn unquoted_words_are_identifiers() {
    let tokens = parse("name base_url x-api-key");
    assert_eq!(
        tokens,
        vec![
            Token::Identifier(String::from("name")),
            Token::Identifier(String::from("base_url")),
            Token::Identifier(String::from("x-api-key")),
            Token::EndOfInput,
        ]
    );
}

#[test]
fn sub_block_type_trims_the_leading_dot() {
    let tokens = parse("body.json");
    assert_eq!(
        tokens,
        vec![
            Token::BlockType(String::from("body")),
            Token::SubBlockType(String::from("json")),
            Token::EndOfInput,
        ]
    );
}

#[test]
fn flags_are_single_digits() {
    assert_eq!(parse("1"), vec![Token::Flag(true), Token::EndOfInput]);
    assert_eq!(parse("0"), vec![Token::Flag(false), Token::EndOfInput]);
    // the lexer accepts any single digit in flag position; only `1` enables
    assert_eq!(parse("7"), vec![Token::Flag(false), Token::EndOfInput]);
}

#[test]
fn string_values_trim_backticks_and_escapes() {
    assert_eq!(
        parse("`hello world`"),
        vec![Token::StringValue(String::from("hello world")), Token::EndOfInput]
    );
    // a backslash escapes the following character, including a backtick
    assert_eq!(
        parse("`a\\`b`"),
        vec![Token::StringValue(String::from("a`b")), Token::EndOfInput]
    );
    assert_eq!(
        parse("`a\\\\b`"),
        vec![Token::StringValue(String::from("a\\b")), Token::EndOfInput]
    );
}

#[test]
fn string_values_may_span_lines() {
    assert_eq!(
        parse("`line one\nline two`"),
        vec![Token::StringValue(String::from("line one\nline two")), Token::EndOfInput]
    );
}

#[test]
fn unterminated_string_spans_to_end_of_input() {
    // an open backtick before the end of the input still yields a string
    // value, not an illegal token
    assert_eq!(
        parse("`abc"),
        vec![Token::StringValue(String::from("abc")), Token::EndOfInput]
    );
}

#[test]
fn unterminated_quoted_identifier_completes_gracefully() {
    assert_eq!(
        parse("\"abc"),
        vec![Token::BlockIdentifier(String::from("abc")), Token::EndOfInput]
    );
}

#[test]
fn quoted_identifiers_tolerate_whitespace() {
    assert_eq!(
        parse("\"my collection\""),
        vec![Token::BlockIdentifier(String::from("my collection")), Token::EndOfInput]
    );
}

#[test]
fn a_stray_hyphen_is_illegal() {
    assert_eq!(parse("-"), vec![Token::Illegal(String::from("-"))]);
}

#[test]
fn lexing_stops_at_the_first_illegal_token() {
    assert_eq!(
        parse("name - name"),
        vec![Token::Identifier(String::from("name")), Token::Illegal(String::from("-"))]
    );
}

#[test]
fn whitespace_between_tokens_changes_nothing() {
    // interspersed whitespace and newlines between tokens do not change the
    // resulting token sequence
    let compact = parse("collection{name\"x\"}");
    let spaced = parse("  collection \n\t {\n name  \"x\" \n }  ");
    assert_eq!(compact, spaced);
}

#[test]
fn round_trip_of_reconstructed_literals() {
    // re-lexing the reconstructed literal of a token, with its structural
    // delimiters restored, yields an equal token
    let cases = vec![
        (String::from("name"), Token::Identifier(String::from("name"))),
        (String::from(".json"), Token::SubBlockType(String::from("json"))),
        (String::from("\"my name\""), Token::BlockIdentifier(String::from("my name"))),
        (String::from("1"), Token::Flag(true)),
        (String::from("0"), Token::Flag(false)),
        (String::from("`a\\`b`"), Token::StringValue(String::from("a`b"))),
        (String::from("collection"), Token::BlockType(String::from("collection"))),
    ];
    for (restored, token) in cases {
        assert_eq!(parse(&restored), vec![token, Token::EndOfInput]);
    }
}

#[test]
fn an_empty_source_is_just_the_end_of_input() {
    assert_eq!(parse(""), vec![Token::EndOfInput]);
    assert_eq!(parse("   \n\t "), vec![Token::EndOfInput]);
}

#[test]
fn the_selector_colons_are_insignificant() {
    assert_eq!(parse("::"), vec![Token::EndOfInput]);
    assert_eq!(
        parse("environment::\"dev\""),
        vec![
            Token::BlockType(String::from("environment")),
            Token::BlockIdentifier(String::from("dev")),
            Token::EndOfInput,
        ]
    );
}

#[test]
fn next_token_keeps_returning_end_of_input() {
    let mut lexer = Lexer::new("name");
    assert_eq!(lexer.next_token(), Token::Identifier(String::from("name")));
    assert_eq!(lexer.next_token(), Token::EndOfInput);
    assert_eq!(lexer.next_token(), Token::EndOfInput);
}
