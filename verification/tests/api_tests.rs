use hermes::Collection;
use hermes::Dict;
use hermes::HttpMethod;
use hermes::Request;
use hermes::collect_blocks;
use hermes::parse;

#[test]
fn a_default_collection_is_untitled_and_empty() {
    let c = Collection::default();
    assert_eq!(c.name(), String::from("Untitled Collection"));
    assert_eq!(c.identifier(), String::from(""));
    assert!(c.is_empty());
    assert_eq!(c.get_request_count(), 0);
    assert_eq!(c.environment_count(), 0);
    assert!(!c.environment_enabled());
    assert!(c.get_active_environment().is_none());
}

#[test]
fn requests_keep_their_parts() {
    let r = Request::new(
        String::from("get user"),
        HttpMethod::Get,
        String::from("https://example.com/user"),
        None,
        None,
        Dict::new(),
    );
    assert_eq!(r.get_name(), String::from("get user"));
    assert_eq!(r.get_method(), HttpMethod::Get);
    assert_eq!(r.get_url(), String::from("https://example.com/user"));
}

#[test]
fn adding_requests_grows_the_collection_in_order() {
    let mut c = Collection::default();
    let r1 = Request::new(
        String::from("one"),
        HttpMethod::Get,
        String::from("https://example.com/1"),
        None,
        None,
        Dict::new(),
    );
    let r2 = Request::new(
        String::from("two"),
        HttpMethod::Post,
        String::from("https://example.com/2"),
        Some(String::from("{}")),
        Some(hermes::HttpBody::Json),
        Dict::new(),
    );
    c.add_request(r1);
    c.add_request(r2);
    assert!(!c.is_empty());
    assert_eq!(c.get_request_count(), 2);
    let rs = c.iter();
    assert_eq!(rs.len(), 2);
    assert_eq!(rs[0].get_name(), String::from("one"));
    assert_eq!(rs[1].get_method(), HttpMethod::Post);
}

#[test]
fn method_names_on_the_wire() {
    assert_eq!(HttpMethod::Get.to_str(), "GET");
    assert_eq!(HttpMethod::Post.to_str(), "POST");
    assert_eq!(HttpMethod::Put.to_str(), "PUT");
    assert_eq!(HttpMethod::Patch.to_str(), "PATCH");
    assert_eq!(HttpMethod::Delete.to_str(), "DELETE");
    assert_eq!(HttpMethod::Options.to_str(), "OPTIONS");
    assert_eq!(HttpMethod::default(), HttpMethod::Get);
}

#[test]
fn names_and_identifiers_are_settable() {
    let mut c = Collection::default();
    c.set_name(String::from("mine"));
    c.set_identifier(String::from("id-1"));
    assert_eq!(c.name(), String::from("mine"));
    assert_eq!(c.identifier(), String::from("id-1"));
}

#[test]
fn environment_entries_go_to_the_active_environment() {
    let mut c = Collection::default();
    c.new_environment(String::from("dev"));
    c.set_active_environment(String::from("dev"));
    c.enable_active_environment();
    c.add_environment_entry(String::from("URL"), String::from("https://example.com"));
    assert!(c.environment_enabled());
    let env = c.get_active_environment().unwrap();
    assert_eq!(env.get(&String::from("URL")), Some(&String::from("https://example.com")));
    c.disable_active_environment();
    assert!(!c.environment_enabled());
}

#[test]
fn entries_without_an_active_environment_are_dropped() {
    let mut c = Collection::default();
    c.new_environment(String::from("dev"));
    c.add_environment_entry(String::from("URL"), String::from("x"));
    let env = c.get_environment(&String::from("dev")).unwrap();
    assert_eq!(env.len(), 0);
}

#[test]
fn named_environment_entries_reach_the_named_environment() {
    let mut c = Collection::default();
    c.new_environment(String::from("dev"));
    c.insert_environment_entry(&String::from("dev"), String::from("A"), String::from("x"));
    c.insert_environment_entry(&String::from("missing"), String::from("B"), String::from("y"));
    let env = c.get_environment(&String::from("dev")).unwrap();
    assert_eq!(env.get(&String::from("A")), Some(&String::from("x")));
    assert!(c.get_environment(&String::from("missing")).is_none());
}

#[test]
fn dictionaries_replace_on_repeated_keys() {
    let mut d: Dict<String> = Dict::new();
    assert_eq!(d.len(), 0);
    assert!(!d.contains_key(&String::from("a")));
    d.insert(String::from("a"), String::from("1"));
    d.insert(String::from("b"), String::from("2"));
    d.insert(String::from("a"), String::from("3"));
    assert_eq!(d.len(), 2);
    assert!(d.contains_key(&String::from("a")));
    assert_eq!(d.get(&String::from("a")), Some(&String::from("3")));
    assert_eq!(d.get(&String::from("b")), Some(&String::from("2")));
    assert_eq!(d.get(&String::from("c")), None);
    let keys = d.keys();
    assert_eq!(keys.len(), 2);
}

#[test]
fn grouping_collects_blocks_and_their_fields() {
    let tokens = parse("request::\"r\" { url 1 \"https://example.com\" note `hi` }");
    let blocks = collect_blocks(&tokens);
    assert_eq!(blocks.len(), 1);
    let b = &blocks[0];
    assert_eq!(b.block_type(), &String::from("request"));
    assert_eq!(b.identifier(), &String::from("r"));
    assert_eq!(b.sub_block_type(), &String::from(""));
    let fields = b.fields();
    assert_eq!(fields.len(), 2);
    assert_eq!(fields[0].identifier(), &String::from("url"));
    assert!(fields[0].enabled());
    assert_eq!(fields[0].value(), &String::from("https://example.com"));
    assert_eq!(fields[1].identifier(), &String::from("note"));
    assert!(!fields[1].enabled());
    assert_eq!(fields[1].value(), &String::from("hi"));
}

#[test]
fn grouping_keeps_the_sub_block_type() {
    let tokens = parse("body.json::\"payload\" { }");
    let blocks = collect_blocks(&tokens);
    assert_eq!(blocks.len(), 1);
    assert_eq!(blocks[0].block_type(), &String::from("body"));
    assert_eq!(blocks[0].sub_block_type(), &String::from("json"));
    assert_eq!(blocks[0].identifier(), &String::from("payload"));
}

#[test]
fn grouping_without_an_open_block_drops_fields() {
    let tokens = parse("name \"x\"");
    let blocks = collect_blocks(&tokens);
    assert_eq!(blocks.len(), 0);
}
