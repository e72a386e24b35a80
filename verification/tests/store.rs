use oslogigguide::codec::save;
use oslogigguide::store::{Action, Document, Intent, Subscription, UserSubs, apply};

fn sub(id: &str, name: &str) -> Subscription {
    Subscription { id: id.to_string(), name: name.to_string() }
}

fn doc(users: Vec<(&str, Vec<Subscription>)>) -> Document {
    Document {
        users: users
            .into_iter()
            .map(|(u, subs)| UserSubs { user: u.to_string(), subs })
            .collect(),
    }
}

fn add(user: &str, id: &str, name: &str) -> Intent {
    Intent { user: user.to_string(), id: id.to_string(), action: Action::Add(name.to_string()) }
}

fn remove(user: &str, id: &str) -> Intent {
    Intent { user: user.to_string(), id: id.to_string(), action: Action::Remove }
}

#[test]
fn add_to_empty_creates_user() {
    let d = doc(vec![]);
    let r = apply(&d, &add("alice", "c1", "Cal One"));
    assert_eq!(r.users.len(), 1);
    assert_eq!(r.users[0].user, "alice");
    assert_eq!(r.users[0].subs.len(), 1);
    assert_eq!(r.users[0].subs[0].id, "c1");
    assert_eq!(r.users[0].subs[0].name, "Cal One");
}

#[test]
fn add_twice_is_same_as_once() {
    let d = doc(vec![]);
    let once = apply(&d, &add("alice", "c1", "Cal One"));
    let twice = apply(&once, &add("alice", "c1", "Cal One"));
    assert_eq!(save(&once), save(&twice));
    assert_eq!(twice.users[0].subs.len(), 1);
}

#[test]
fn add_duplicate_id_keeps_old_name() {
    let d = doc(vec![("alice", vec![sub("c1", "Cal One")])]);
    let r = apply(&d, &add("alice", "c1", "Another Name"));
    assert_eq!(r.users[0].subs.len(), 1);
    assert_eq!(r.users[0].subs[0].name, "Cal One");
}

#[test]
fn add_appends_at_end() {
    let d = doc(vec![("alice", vec![sub("c1", "Cal One")])]);
    let r = apply(&d, &add("alice", "c2", "Cal Two"));
    assert_eq!(r.users[0].subs.len(), 2);
    assert_eq!(r.users[0].subs[0].id, "c1");
    assert_eq!(r.users[0].subs[1].id, "c2");
}

#[test]
fn remove_missing_id_is_noop() {
    let d = doc(vec![("alice", vec![sub("c1", "Cal One")])]);
    let r = apply(&d, &remove("alice", "zzz"));
    assert_eq!(save(&d), save(&r));
}

#[test]
fn remove_from_missing_user_is_noop() {
    let d = doc(vec![("alice", vec![sub("c1", "Cal One")])]);
    let r = apply(&d, &remove("bob", "c1"));
    assert_eq!(save(&d), save(&r));
}

#[test]
fn remove_last_entry_drops_user_key() {
    let d = doc(vec![("alice", vec![sub("c1", "Cal One")]), ("bob", vec![sub("c9", "Nine")])]);
    let r = apply(&d, &remove("alice", "c1"));
    assert_eq!(r.users.len(), 1);
    assert_eq!(r.users[0].user, "bob");
}

#[test]
fn remove_keeps_other_entries_in_order() {
    let d = doc(vec![("alice", vec![sub("c1", "One"), sub("c2", "Two"), sub("c3", "Three")])]);
    let r = apply(&d, &remove("alice", "c2"));
    assert_eq!(r.users[0].subs.len(), 2);
    assert_eq!(r.users[0].subs[0].id, "c1");
    assert_eq!(r.users[0].subs[1].id, "c3");
}

#[test]
fn remove_twice_is_same_as_once() {
    let d = doc(vec![("alice", vec![sub("c1", "One"), sub("c2", "Two")])]);
    let once = apply(&d, &remove("alice", "c1"));
    let twice = apply(&once, &remove("alice", "c1"));
    assert_eq!(save(&once), save(&twice));
}
