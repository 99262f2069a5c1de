use hermes::Collection;
use hermes::CollectionParser;
use hermes::Lexer;
use hermes::ParseError;
use hermes::Token;
use hermes::parse;

fn parse_source(source: &str) -> Result<Collection, ParseError> {
    let mut lexer = Lexer::new(source);
    let mut parser = CollectionParser::default();
    parser.parse(&mut lexer)
}

fn env_value(c: &Collection, env: &str, key: &str) -> Option<String> {
    let d = c.get_environment(&String::from(env))?;
    let v = d.get(&String::from(key))?;
    Some(v.clone())
}

#[test]
fn forward_reference_resolution() {
    // a collection referencing environment "prod" with flag 1, declared later
    let c = parse_source(
        "collection { environment 1 prod } environment::\"prod\" { KEY 1 \"value\" }",
    )
    .unwrap();
    assert_eq!(c.active_environment_name(), String::from("prod"));
    assert!(c.environment_enabled());
    assert_eq!(env_value(&c, "prod", "KEY"), Some(String::from("value")));
}

#[test]
fn backward_reference_is_applied_at_once() {
    let c = parse_source("environment::\"dev\" { } collection { environment 1 dev }").unwrap();
    assert_eq!(c.active_environment_name(), String::from("dev"));
    assert!(c.environment_enabled());
}

#[test]
fn a_disabled_reference_selects_without_enabling() {
    let c = parse_source("environment::\"dev\" { } collection { environment 0 dev }").unwrap();
    assert_eq!(c.active_environment_name(), String::from("dev"));
    assert!(!c.environment_enabled());
}

#[test]
fn an_unresolved_reference_leaves_activation_off() {
    let c = parse_source("collection { environment 1 missing }").unwrap();
    assert!(!c.environment_enabled());
}

#[test]
fn anonymous_environment_receives_a_generated_name() {
    // an environment block with no explicit identifier still appears in the
    // environment map, under a twelve-character alphanumeric name
    let c = parse_source("environment { }").unwrap();
    assert_eq!(c.environment_count(), 1);
    let names = c.environment_names();
    assert_eq!(names.len(), 1);
    assert_eq!(names[0].chars().count(), 12);
    assert!(names[0].chars().all(|ch| ch.is_ascii_alphanumeric()));
}

#[test]
fn supplied_names_stand_in_for_anonymous_environments() {
    let tokens = parse("environment { A \"v\" }");
    let names = vec![String::from("testenv")];
    let mut parser = CollectionParser::default();
    let c = parser.parse_with_names(&tokens, &names).unwrap();
    assert_eq!(c.environment_count(), 1);
    assert_eq!(env_value(&c, "testenv", "A"), Some(String::from("v")));
}

#[test]
fn unmatched_right_brace_is_a_structural_error() {
    // a closing brace with no matching open brace yields UnexpectedToken and
    // no document
    let r = parse_source("}");
    assert_eq!(r.unwrap_err(), ParseError::UnexpectedToken(Token::RightBrace));
    let r2 = parse_source("collection }");
    assert_eq!(r2.unwrap_err(), ParseError::UnexpectedToken(Token::RightBrace));
}

#[test]
fn second_open_brace_is_a_structural_error() {
    let r = parse_source("collection { {");
    assert_eq!(r.unwrap_err(), ParseError::UnexpectedToken(Token::LeftBrace));
}

#[test]
fn an_open_block_at_the_end_is_an_error() {
    let r = parse_source("collection { name \"x\"");
    assert_eq!(r.unwrap_err(), ParseError::UnexpectedEndOfTokens);
}

#[test]
fn an_unknown_block_keyword_is_an_error() {
    let r = parse_source("mystery { }");
    assert_eq!(r.unwrap_err(), ParseError::UnexpectedBlockKeyword);
}

#[test]
fn an_unknown_collection_field_is_an_error() {
    let r = parse_source("collection { bogus \"x\" }");
    assert_eq!(r.unwrap_err(), ParseError::UnexpectedFieldKeyword);
}

#[test]
fn end_to_end() {
    let c = parse_source(
        "collection::\"C\" { name \"my collection\" environment 1 dev } environment::\"dev\" { URL \"https://example.com\" }",
    )
    .unwrap();
    assert_eq!(c.name(), String::from("my collection"));
    assert_eq!(c.identifier(), String::from("C"));
    assert_eq!(c.active_environment_name(), String::from("dev"));
    assert!(c.environment_enabled());
    assert_eq!(c.environment_count(), 1);
    assert_eq!(env_value(&c, "dev", "URL"), Some(String::from("https://example.com")));
    let active = c.get_active_environment().unwrap();
    assert_eq!(active.get(&String::from("URL")), Some(&String::from("https://example.com")));
}

#[test]
fn environment_entries_accept_an_optional_flag() {
    let c = parse_source("environment::\"e\" { A 1 \"x\" B \"y\" C 0 `z` }").unwrap();
    assert_eq!(env_value(&c, "e", "A"), Some(String::from("x")));
    assert_eq!(env_value(&c, "e", "B"), Some(String::from("y")));
    assert_eq!(env_value(&c, "e", "C"), Some(String::from("z")));
}

#[test]
fn a_later_entry_overwrites_an_earlier_key() {
    let c = parse_source("environment::\"e\" { A \"x\" A \"y\" }").unwrap();
    assert_eq!(env_value(&c, "e", "A"), Some(String::from("y")));
}

#[test]
fn recognized_blocks_without_a_representation_are_skipped() {
    let c = parse_source(
        "request::\"r\" { url \"https://example.com\" } collection { name \"n\" }",
    )
    .unwrap();
    assert_eq!(c.name(), String::from("n"));
    assert_eq!(c.get_request_count(), 0);
}

#[test]
fn an_include_field_is_recognized_and_discarded() {
    let c = parse_source("collection { include \"other.hermes\" name \"n\" }").unwrap();
    assert_eq!(c.name(), String::from("n"));
}

#[test]
fn an_empty_source_yields_the_default_document() {
    let c = parse_source("").unwrap();
    assert_eq!(c.name(), String::from("Untitled Collection"));
    assert_eq!(c.environment_count(), 0);
    assert!(!c.environment_enabled());
}

#[test]
fn a_later_unresolved_reference_replaces_an_earlier_one() {
    // only one reference can be pending at a time; the later one wins
    let c = parse_source(
        "collection { environment 1 first environment 1 second } environment::\"first\" { } environment::\"second\" { }",
    )
    .unwrap();
    assert_eq!(c.active_environment_name(), String::from("second"));
    assert!(c.environment_enabled());
}

#[test]
fn an_illegal_token_aborts_the_parse() {
    let r = parse_source("collection { name \\ }");
    assert_eq!(r.unwrap_err(), ParseError::UnexpectedToken(Token::Illegal(String::from("\\"))));
    let r2 = parse_source("\\ collection { }");
    assert_eq!(r2.unwrap_err(), ParseError::UnexpectedToken(Token::Illegal(String::from("\\"))));
}
