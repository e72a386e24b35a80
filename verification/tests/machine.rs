use oslogigguide::machine::{
    Category, Command, Config, Event, Machine, Phase, PostRequest, PublishOutcome, Response,
    action_message, intent_of,
};
use oslogigguide::store::Action;

fn req(user: &str, token: &str, id: &str, name: &str) -> PostRequest {
    PostRequest {
        user: user.to_string(),
        token: token.to_string(),
        id: id.to_string(),
        name: name.to_string(),
    }
}

fn config(secret: &str, credential: Option<&str>) -> Config {
    Config { secret: secret.to_string(), credential: credential.map(|c| c.to_string()) }
}

/// A stub synchronizer and store: it records every fetch, read, write and
/// publish the machine asks for, and answers from canned state.
struct Stub {
    fetches: usize,
    reads: usize,
    writes: usize,
    publishes: usize,
    file: Option<String>,
    written: Option<String>,
    fetch_ok: bool,
    write_ok: bool,
    publish: u8,
}

impl Stub {
    fn new(file: Option<&str>) -> Stub {
        Stub {
            fetches: 0,
            reads: 0,
            writes: 0,
            publishes: 0,
            file: file.map(|s| s.to_string()),
            written: None,
            fetch_ok: true,
            write_ok: true,
            publish: 0,
        }
    }

    fn outcome(&self) -> PublishOutcome {
        match self.publish {
            0 => PublishOutcome::Pushed,
            1 => PublishOutcome::NothingToCommit,
            2 => PublishOutcome::Conflict,
            _ => PublishOutcome::Unavailable,
        }
    }

    fn run(&mut self, request: PostRequest, cfg: Config) -> Response {
        let mut m = Machine::new(request, cfg);
        let mut e = Event::Start;
        loop {
            let (m2, cmd) = m.step(e);
            m = m2;
            e = match cmd {
                Command::Fetch { .. } => {
                    self.fetches += 1;
                    Event::FetchDone { ok: self.fetch_ok }
                }
                Command::ReadDoc => {
                    self.reads += 1;
                    Event::DocRead { content: self.file.clone() }
                }
                Command::WriteDoc { content } => {
                    self.writes += 1;
                    self.written = Some(content);
                    Event::WriteDone { ok: self.write_ok }
                }
                Command::Publish { .. } => {
                    self.publishes += 1;
                    Event::PublishDone { outcome: self.outcome() }
                }
                Command::Respond { response } => return response,
            };
        }
    }
}

#[test]
fn scenario_subscribe_to_empty_store() {
    let mut stub = Stub::new(None);
    let r = stub.run(req("alice", "s3cret", "c1", "Cal One"), config("s3cret", Some("ghp")));
    match r {
        Response::Success { message } => assert_eq!(message, "Subscribe alice to Cal One"),
        Response::Failure { .. } => panic!("expected success"),
    }
    let written = stub.written.unwrap();
    let expected = "{\n  \"alice\": [\n    {\n      \"id\": \"c1\",\n      \"name\": \"Cal One\"\n    }\n  ]\n}";
    assert_eq!(written, expected);
    assert_eq!(stub.fetches, 1);
    assert_eq!(stub.publishes, 1);
}

#[test]
fn scenario_unsubscribe_empties_store() {
    let stored = "{\n  \"alice\": [\n    {\n      \"id\": \"c1\",\n      \"name\": \"Cal One\"\n    }\n  ]\n}";
    let mut stub = Stub::new(Some(stored));
    let r = stub.run(req("alice", "s3cret", "c1", ""), config("s3cret", Some("ghp")));
    match r {
        Response::Success { message } => assert_eq!(message, "Unsubscribe alice from c1"),
        Response::Failure { .. } => panic!("expected success"),
    }
    assert_eq!(stub.written.unwrap(), "{}");
}

#[test]
fn scenario_wrong_token_never_touches_remote() {
    let stored = "{\n  \"alice\": [\n    {\n      \"id\": \"c1\",\n      \"name\": \"Cal One\"\n    }\n  ]\n}";
    let mut stub = Stub::new(Some(stored));
    let r = stub.run(req("alice", "wrong", "c1", "Cal One"), config("s3cret", Some("ghp")));
    match r {
        Response::Failure { category, message } => {
            assert!(matches!(category, Category::Unauthorized));
            assert_eq!(message, "Unauthorized");
        }
        Response::Success { .. } => panic!("expected failure"),
    }
    assert_eq!(stub.fetches, 0);
    assert_eq!(stub.reads, 0);
    assert_eq!(stub.writes, 0);
    assert_eq!(stub.publishes, 0);
    assert!(stub.written.is_none());
}

#[test]
fn empty_token_is_unauthorized_even_with_empty_secret() {
    let mut stub = Stub::new(None);
    let r = stub.run(req("alice", "", "c1", "Cal One"), config("", Some("ghp")));
    assert!(matches!(r, Response::Failure { category: Category::Unauthorized, .. }));
    assert_eq!(stub.fetches, 0);
}

#[test]
fn missing_credential_is_a_server_error() {
    let mut stub = Stub::new(None);
    let r = stub.run(req("alice", "s3cret", "c1", "Cal One"), config("s3cret", None));
    match r {
        Response::Failure { category, message } => {
            assert!(matches!(category, Category::ServerError));
            assert_eq!(message, "GITHUB_TOKEN not set");
        }
        Response::Success { .. } => panic!("expected failure"),
    }
    assert_eq!(stub.fetches, 0);
}

#[test]
fn fetch_failure_maps_to_server_error() {
    let mut stub = Stub::new(None);
    stub.fetch_ok = false;
    let r = stub.run(req("alice", "s", "c1", "Cal One"), config("s", Some("ghp")));
    match r {
        Response::Failure { category, message } => {
            assert!(matches!(category, Category::ServerError));
            assert_eq!(message, "Failed to clone repository");
        }
        Response::Success { .. } => panic!("expected failure"),
    }
    assert_eq!(stub.reads, 0);
}

#[test]
fn corrupt_document_maps_to_server_error() {
    let mut stub = Stub::new(Some("not json at all"));
    let r = stub.run(req("alice", "s", "c1", "Cal One"), config("s", Some("ghp")));
    match r {
        Response::Failure { category, message } => {
            assert!(matches!(category, Category::ServerError));
            assert_eq!(message, "corrupt subscription document");
        }
        Response::Success { .. } => panic!("expected failure"),
    }
    assert_eq!(stub.writes, 0);
}

#[test]
fn write_failure_maps_to_server_error() {
    let mut stub = Stub::new(None);
    stub.write_ok = false;
    let r = stub.run(req("alice", "s", "c1", "Cal One"), config("s", Some("ghp")));
    match r {
        Response::Failure { category, message } => {
            assert!(matches!(category, Category::ServerError));
            assert_eq!(message, "failed to write the subscription document");
        }
        Response::Success { .. } => panic!("expected failure"),
    }
    assert_eq!(stub.publishes, 0);
}

#[test]
fn publish_conflict_is_reported() {
    let mut stub = Stub::new(None);
    stub.publish = 2;
    let r = stub.run(req("alice", "s", "c1", "Cal One"), config("s", Some("ghp")));
    match r {
        Response::Failure { category, message } => {
            assert!(matches!(category, Category::ServerError));
            assert_eq!(message, "push rejected: the remote has advanced");
        }
        Response::Success { .. } => panic!("expected failure"),
    }
}

#[test]
fn publish_unavailable_is_reported() {
    let mut stub = Stub::new(None);
    stub.publish = 3;
    let r = stub.run(req("alice", "s", "c1", "Cal One"), config("s", Some("ghp")));
    match r {
        Response::Failure { message, .. } => assert_eq!(message, "Failed to commit and push"),
        Response::Success { .. } => panic!("expected failure"),
    }
}

#[test]
fn nothing_to_commit_is_still_success() {
    let mut stub = Stub::new(None);
    stub.publish = 1;
    let r = stub.run(req("alice", "s", "c1", "Cal One"), config("s", Some("ghp")));
    assert!(matches!(r, Response::Success { .. }));
}

#[test]
fn resubmitting_the_same_add_succeeds_and_rewrites_same_text() {
    let first = "{\n  \"alice\": [\n    {\n      \"id\": \"c1\",\n      \"name\": \"Cal One\"\n    }\n  ]\n}";
    let mut stub = Stub::new(Some(first));
    let r = stub.run(req("alice", "s", "c1", "Cal One"), config("s", Some("ghp")));
    assert!(matches!(r, Response::Success { .. }));
    assert_eq!(stub.written.unwrap(), first);
}

#[test]
fn action_message_formats() {
    assert_eq!(action_message(&req("alice", "t", "c1", "Cal One")), "Subscribe alice to Cal One");
    assert_eq!(action_message(&req("bob", "t", "c9", "")), "Unsubscribe bob from c9");
}

#[test]
fn intent_of_derives_action_from_name() {
    let i = intent_of(&req("alice", "t", "c1", "Cal One"));
    assert_eq!(i.user, "alice");
    assert_eq!(i.id, "c1");
    assert!(matches!(i.action, Action::Add(ref n) if n == "Cal One"));
    let i = intent_of(&req("alice", "t", "c1", ""));
    assert!(matches!(i.action, Action::Remove));
}

#[test]
fn machine_starts_in_received_phase() {
    let m = Machine::new(req("a", "t", "c", "n"), config("t", Some("x")));
    assert!(matches!(m.phase, Phase::Received));
}
