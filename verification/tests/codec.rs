use oslogigguide::codec::{load, parse, save};
use oslogigguide::store::{Document, Subscription, UserSubs};

fn sub(id: &str, name: &str) -> Subscription {
    Subscription { id: id.to_string(), name: name.to_string() }
}

fn doc(users: Vec<(&str, Vec<Subscription>)>) -> Document {
    Document {
        users: users
            .into_iter()
            .map(|(u, subs)| UserSubs { user: u.to_string(), subs })
            .collect(),
    }
}

fn same(a: &Document, b: &Document) -> bool {
    save(a) == save(b)
}

#[test]
fn save_empty_document() {
    assert_eq!(save(&doc(vec![])), "{}");
}

#[test]
fn save_one_user_one_entry() {
    let d = doc(vec![("alice", vec![sub("c1", "Cal One")])]);
    let expected = "{\n  \"alice\": [\n    {\n      \"id\": \"c1\",\n      \"name\": \"Cal One\"\n    }\n  ]\n}";
    assert_eq!(save(&d), expected);
}

#[test]
fn save_two_users_two_entries() {
    let d = doc(vec![
        ("alice", vec![sub("c1", "One"), sub("c2", "Two")]),
        ("bob", vec![sub("c3", "Three")]),
    ]);
    let expected = "{\n  \"alice\": [\n    {\n      \"id\": \"c1\",\n      \"name\": \"One\"\n    },\n    {\n      \"id\": \"c2\",\n      \"name\": \"Two\"\n    }\n  ],\n  \"bob\": [\n    {\n      \"id\": \"c3\",\n      \"name\": \"Three\"\n    }\n  ]\n}";
    assert_eq!(save(&d), expected);
}

#[test]
fn load_missing_file_is_empty_document() {
    let d = load(None).unwrap();
    assert_eq!(d.users.len(), 0);
}

#[test]
fn load_empty_object() {
    let d = load(Some("{}")).unwrap();
    assert_eq!(d.users.len(), 0);
}

#[test]
fn round_trip_preserves_document() {
    let d = doc(vec![
        ("alice", vec![sub("c1", "Cal One"), sub("c2", "Cal Two")]),
        ("bob", vec![sub("x", "Ex")]),
    ]);
    let r = load(Some(save(&d).as_str())).unwrap();
    assert!(same(&d, &r));
    assert_eq!(r.users[0].user, "alice");
    assert_eq!(r.users[0].subs[1].name, "Cal Two");
    assert_eq!(r.users[1].user, "bob");
}

#[test]
fn round_trip_with_escapes() {
    let d = doc(vec![("al\"ice", vec![sub("c\\1", "Cal \"One\"")])]);
    let r = load(Some(save(&d).as_str())).unwrap();
    assert!(same(&d, &r));
    assert_eq!(r.users[0].user, "al\"ice");
    assert_eq!(r.users[0].subs[0].id, "c\\1");
    assert_eq!(r.users[0].subs[0].name, "Cal \"One\"");
}

#[test]
fn parse_minified_json() {
    let d = parse("{\"alice\":[{\"id\":\"c1\",\"name\":\"Cal One\"}]}").unwrap();
    assert_eq!(d.users.len(), 1);
    assert_eq!(d.users[0].user, "alice");
    assert_eq!(d.users[0].subs[0].id, "c1");
    assert_eq!(d.users[0].subs[0].name, "Cal One");
}

#[test]
fn parse_entry_keys_in_either_order() {
    let d = parse("{ \"alice\": [ { \"name\": \"Cal One\", \"id\": \"c1\" } ] }").unwrap();
    assert_eq!(d.users[0].subs[0].id, "c1");
    assert_eq!(d.users[0].subs[0].name, "Cal One");
}

#[test]
fn parse_known_escapes() {
    let d = parse("{\"a\":[{\"id\":\"c\\n1\",\"name\":\"tab\\there \\\"q\\\" and \\\\ and \\/\"}]}")
        .unwrap();
    assert_eq!(d.users[0].subs[0].id, "c\n1");
    assert_eq!(d.users[0].subs[0].name, "tab\there \"q\" and \\ and /");
}

#[test]
fn save_escapes_control_characters() {
    let d = doc(vec![("alice", vec![sub("c1", "a\nb\u{1}c")])]);
    let text = save(&d);
    assert!(text.contains("\"name\": \"a\\nb\\u0001c\""));
    let r = load(Some(text.as_str())).unwrap();
    assert_eq!(r.users[0].subs[0].name, "a\nb\u{1}c");
}

#[test]
fn round_trip_with_control_characters() {
    let d = doc(vec![("a\tb", vec![sub("c\r1", "x\u{1f}y\u{8}z\u{c}")])]);
    let r = load(Some(save(&d).as_str())).unwrap();
    assert!(same(&d, &r));
    assert_eq!(r.users[0].user, "a\tb");
    assert_eq!(r.users[0].subs[0].id, "c\r1");
    assert_eq!(r.users[0].subs[0].name, "x\u{1f}y\u{8}z\u{c}");
}

#[test]
fn parse_unicode_and_short_escapes() {
    let d = parse("{\"a\":[{\"id\":\"\\u0041\\b\\f\",\"name\":\"\\u000a\\u0152\"}]}").unwrap();
    assert_eq!(d.users[0].subs[0].id, "A\u{8}\u{c}");
    assert_eq!(d.users[0].subs[0].name, "\n\u{152}");
}

#[test]
fn parse_rejects_bad_unicode_escape() {
    assert!(parse("{\"a\":[{\"id\":\"\\ud800\",\"name\":\"n\"}]}").is_none());
    assert!(parse("{\"a\":[{\"id\":\"\\u01\",\"name\":\"n\"}]}").is_none());
    assert!(parse("{\"a\":[{\"id\":\"\\u00gq\",\"name\":\"n\"}]}").is_none());
}

#[test]
fn parse_rejects_non_json() {
    assert!(parse("hello").is_none());
    assert!(parse("").is_none());
    assert!(parse("[]").is_none());
}

#[test]
fn parse_rejects_trailing_garbage() {
    assert!(parse("{} x").is_none());
}

#[test]
fn parse_rejects_empty_subscription_list() {
    assert!(parse("{\"alice\":[]}").is_none());
}

#[test]
fn parse_rejects_duplicate_users() {
    let text = "{\"a\":[{\"id\":\"1\",\"name\":\"n\"}],\"a\":[{\"id\":\"2\",\"name\":\"m\"}]}";
    assert!(parse(text).is_none());
}

#[test]
fn parse_rejects_duplicate_ids() {
    let text = "{\"a\":[{\"id\":\"1\",\"name\":\"n\"},{\"id\":\"1\",\"name\":\"m\"}]}";
    assert!(parse(text).is_none());
}

#[test]
fn parse_rejects_wrong_entry_keys() {
    assert!(parse("{\"a\":[{\"id\":\"1\",\"label\":\"n\"}]}").is_none());
    assert!(parse("{\"a\":[{\"id\":\"1\"}]}").is_none());
    assert!(parse("{\"a\":[3]}").is_none());
    assert!(parse("{\"a\":\"b\"}").is_none());
}

#[test]
fn parse_rejects_unknown_escape() {
    assert!(parse("{\"a\":[{\"id\":\"\\q\",\"name\":\"n\"}]}").is_none());
}
