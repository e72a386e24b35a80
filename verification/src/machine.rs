//! The per-request workflow as an explicit state machine: the transport
//! layer feeds it events (the request arrived, the fetch finished, the
//! file was read, the write finished, the push finished) and performs the
//! commands it returns (fetch, read, write, publish, respond). Every
//! decision — authentication, intent derivation, mutation, serialization,
//! error mapping — is made here and verified; the remote and filesystem
//! work stays outside.
use crate::codec::{lemma_save_load_round_trip, load, load_spec, save, ser_doc};
use crate::store::{
    add_sub, apply, lemma_add_wf, lemma_remove_wf, remove_sub, wf_doc, Action, Intent, UserV,
};
use vstd::prelude::*;
use vstd::string::StringExecFns;

verus! {

/// The parsed request body: who subscribes, the shared-secret token,
/// the calendar id, and the display name (empty means unsubscribe).
pub struct PostRequest {
    pub user: String,
    pub token: String,
    pub id: String,
    pub name: String,
}

/// Process configuration, handed in at construction: the shared
/// authentication secret and the remote-access credential, if set.
pub struct Config {
    pub secret: String,
    pub credential: Option<String>,
}

/// The closed error taxonomy.
pub enum ErrorKind {
    Unauthorized,
    ConfigurationError,
    RemoteUnavailable,
    CorruptDocument,
    PublishConflict,
    WriteFailed,
}

/// The outbound failure categories the transport maps to status codes.
pub enum Category {
    BadInput,
    Unauthorized,
    ServerError,
}

/// The structured response handed back to the transport.
pub enum Response {
    Success { message: String },
    Failure { category: Category, message: String },
}

/// How a publish attempt ended, as reported by the synchronizer.
pub enum PublishOutcome {
    Pushed,
    NothingToCommit,
    Conflict,
    Unavailable,
}

/// What the outside world reports to the machine.
pub enum Event {
    Start,
    FetchDone { ok: bool },
    DocRead { content: Option<String> },
    WriteDone { ok: bool },
    PublishDone { outcome: PublishOutcome },
}

/// What the machine asks the outside world to do next.
pub enum Command {
    Fetch { credential: String },
    ReadDoc,
    WriteDoc { content: String },
    Publish { credential: String, message: String },
    Respond { response: Response },
}

/// Where a request stands: received, authenticated, working copy
/// fetched, document mutated and serialized, saved, published — or
/// failed with a reason.
pub enum Phase {
    Received,
    AuthChecked,
    Synced,
    Mutated { message: String },
    Saved { message: String },
    Published,
    Failed { kind: ErrorKind },
}

/// The machine: one per request.
pub struct Machine {
    pub req: PostRequest,
    pub config: Config,
    pub phase: Phase,
}

/// A request is authenticated exactly when its token is non-empty and
/// matches the shared secret.
pub open spec fn token_ok(req: PostRequest, config: Config) -> bool {
    req.token@.len() > 0 && req.token@ == config.secret@
}

/// A non-empty name means subscribe; an empty one means unsubscribe.
pub open spec fn is_add(req: PostRequest) -> bool {
    req.name@.len() > 0
}

/// The document after the request's mutation.
pub open spec fn apply_req(d: Seq<UserV>, req: PostRequest) -> Seq<UserV> {
    if is_add(req) {
        add_sub(d, req.user@, req.id@, req.name@)
    } else {
        remove_sub(d, req.user@, req.id@)
    }
}

/// The human-readable action summary, also used as the commit subject.
pub open spec fn message_of(req: PostRequest) -> Seq<char> {
    if is_add(req) {
        "Subscribe "@ + req.user@ + " to "@ + req.name@
    } else {
        "Unsubscribe "@ + req.user@ + " from "@ + req.id@
    }
}

/// The text a request's mutation writes is never lost: it loads back to
/// exactly the mutated document, so the next request starts from the
/// state this one published.
pub proof fn lemma_written_text_loads_back(d: Seq<UserV>, req: PostRequest)
    requires
        wf_doc(d),
    ensures
        wf_doc(apply_req(d, req)),
        load_spec(Some(ser_doc(apply_req(d, req)))) == Some(apply_req(d, req)),
{
    if is_add(req) {
        lemma_add_wf(d, req.user@, req.id@, req.name@);
    } else {
        lemma_remove_wf(d, req.user@, req.id@);
    }
    lemma_save_load_round_trip(apply_req(d, req));
}

/// Derive the mutation intent from a request.
pub fn intent_of(req: &PostRequest) -> (r: Intent)
    ensures
        r.user@ == req.user@,
        r.id@ == req.id@,
        match r.action {
            Action::Add(n) => is_add(*req) && n@ == req.name@,
            Action::Remove => !is_add(*req),
        },
{
    let action = if req.name.as_str().is_empty() {
        Action::Remove
    } else {
        Action::Add(req.name.clone())
    };
    Intent { user: req.user.clone(), id: req.id.clone(), action }
}

/// Build the action summary for a request.
pub fn action_message(req: &PostRequest) -> (r: String)
    ensures
        r@ == message_of(*req),
{
    let mut m = String::new();
    if !req.name.as_str().is_empty() {
        m.append("Subscribe ");
        m.append(req.user.as_str());
        m.append(" to ");
        m.append(req.name.as_str());
        proof {
            assert(m@ =~= message_of(*req));
        }
    } else {
        m.append("Unsubscribe ");
        m.append(req.user.as_str());
        m.append(" from ");
        m.append(req.id.as_str());
        proof {
            assert(m@ =~= message_of(*req));
        }
    }
    m
}

/// A failing step: the machine enters `Failed { kind }` and responds
/// with the given category and message.
pub open spec fn failed_with(
    m: Machine,
    cmd: Command,
    kind: ErrorKind,
    cat: Category,
    msg: Seq<char>,
) -> bool {
    &&& m.phase matches Phase::Failed { kind: k } && k == kind
    &&& cmd matches Command::Respond { response: Response::Failure { category, message } }
        && category == cat && message@ == msg
}

impl Machine {
    /// Every working phase implies the request authenticated: no remote
    /// or filesystem work ever happens for a bad token.
    pub open spec fn wf(self) -> bool {
        match self.phase {
            Phase::Received => true,
            Phase::Failed { .. } => true,
            _ => token_ok(self.req, self.config),
        }
    }

    /// Which event each phase is waiting for. `Published` and `Failed`
    /// are terminal.
    pub open spec fn expects(self, e: Event) -> bool {
        match self.phase {
            Phase::Received => e is Start,
            Phase::AuthChecked => e is FetchDone,
            Phase::Synced => e is DocRead,
            Phase::Mutated { .. } => e is WriteDone,
            Phase::Saved { .. } => e is PublishDone,
            Phase::Published => false,
            Phase::Failed { .. } => false,
        }
    }

    /// A fresh machine for one request.
    pub fn new(req: PostRequest, config: Config) -> (m: Machine)
        ensures
            m.req == req,
            m.config == config,
            m.phase is Received,
            m.wf(),
    {
        Machine { req, config, phase: Phase::Received }
    }

    /// One transition. The contract pins every case down: which phase
    /// comes next, which command goes out, and — on the mutation step —
    /// exactly which text is written, namely the serialization of the
    /// loaded document with the request's mutation applied.
    pub fn step(self, e: Event) -> (r: (Machine, Command))
        requires
            self.expects(e),
        ensures
            r.0.req == self.req,
            r.0.config == self.config,
            self.wf() ==> r.0.wf(),
            self.wf() ==> ((r.1 is Fetch || r.1 is ReadDoc || r.1 is WriteDoc
                || r.1 is Publish) ==> token_ok(self.req, self.config)),
            match (self.phase, e) {
                (Phase::Received, Event::Start) => {
                    if !token_ok(self.req, self.config) {
                        failed_with(
                            r.0,
                            r.1,
                            ErrorKind::Unauthorized,
                            Category::Unauthorized,
                            "Unauthorized"@,
                        )
                    } else if self.config.credential is None {
                        failed_with(
                            r.0,
                            r.1,
                            ErrorKind::ConfigurationError,
                            Category::ServerError,
                            "GITHUB_TOKEN not set"@,
                        )
                    } else {
                        &&& r.0.phase is AuthChecked
                        &&& r.1 matches Command::Fetch { credential }
                            && credential@ == self.config.credential->0@
                    }
                },
                (Phase::AuthChecked, Event::FetchDone { ok }) => {
                    if ok {
                        r.0.phase is Synced && r.1 is ReadDoc
                    } else {
                        failed_with(
                            r.0,
                            r.1,
                            ErrorKind::RemoteUnavailable,
                            Category::ServerError,
                            "Failed to clone repository"@,
                        )
                    }
                },
                (Phase::Synced, Event::DocRead { content }) => {
                    match load_spec(
                        match content {
                            None => None,
                            Some(s) => Some(s@),
                        },
                    ) {
                        None => failed_with(
                            r.0,
                            r.1,
                            ErrorKind::CorruptDocument,
                            Category::ServerError,
                            "corrupt subscription document"@,
                        ),
                        Some(d0) => {
                            &&& r.0.phase matches Phase::Mutated { message }
                                && message@ == message_of(self.req)
                            &&& r.1 matches Command::WriteDoc { content: text }
                                && text@ == ser_doc(apply_req(d0, self.req))
                        },
                    }
                },
                (Phase::Mutated { message }, Event::WriteDone { ok }) => {
                    if ok {
                        &&& r.0.phase matches Phase::Saved { message: m2 } && m2@ == message@
                        &&& r.1 matches Command::Publish { credential, message: m3 }
                            && m3@ == message@ && (self.config.credential matches Some(c)
                            ==> credential@ == c@)
                    } else {
                        failed_with(
                            r.0,
                            r.1,
                            ErrorKind::WriteFailed,
                            Category::ServerError,
                            "failed to write the subscription document"@,
                        )
                    }
                },
                (Phase::Saved { message }, Event::PublishDone { outcome }) => {
                    match outcome {
                        PublishOutcome::Pushed | PublishOutcome::NothingToCommit => {
                            &&& r.0.phase is Published
                            &&& r.1 matches Command::Respond {
                                response: Response::Success { message: m2 },
                            } && m2@ == message@
                        },
                        PublishOutcome::Conflict => failed_with(
                            r.0,
                            r.1,
                            ErrorKind::PublishConflict,
                            Category::ServerError,
                            "push rejected: the remote has advanced"@,
                        ),
                        PublishOutcome::Unavailable => failed_with(
                            r.0,
                            r.1,
                            ErrorKind::RemoteUnavailable,
                            Category::ServerError,
                            "Failed to commit and push"@,
                        ),
                    }
                },
                _ => true,
            },
    {
        let Machine { req, config, phase } = self;
        match (phase, e) {
            (Phase::Received, Event::Start) => {
                let authed = !req.token.as_str().is_empty() && req.token == config.secret;
                if !authed {
                    let m = Machine { req, config, phase: Phase::Failed { kind: ErrorKind::Unauthorized } };
                    let response = Response::Failure {
                        category: Category::Unauthorized,
                        message: String::from_str("Unauthorized"),
                    };
                    (m, Command::Respond { response })
                } else {
                    match &config.credential {
                        None => {
                            let m = Machine {
                                req,
                                config,
                                phase: Phase::Failed { kind: ErrorKind::ConfigurationError },
                            };
                            let response = Response::Failure {
                                category: Category::ServerError,
                                message: String::from_str("GITHUB_TOKEN not set"),
                            };
                            (m, Command::Respond { response })
                        },
                        Some(c) => {
                            let credential = c.clone();
                            let m = Machine { req, config, phase: Phase::AuthChecked };
                            (m, Command::Fetch { credential })
                        },
                    }
                }
            },
            (Phase::AuthChecked, Event::FetchDone { ok }) => {
                if ok {
                    (Machine { req, config, phase: Phase::Synced }, Command::ReadDoc)
                } else {
                    let m = Machine {
                        req,
                        config,
                        phase: Phase::Failed { kind: ErrorKind::RemoteUnavailable },
                    };
                    let response = Response::Failure {
                        category: Category::ServerError,
                        message: String::from_str("Failed to clone repository"),
                    };
                    (m, Command::Respond { response })
                }
            },
            (Phase::Synced, Event::DocRead { content }) => {
                let loaded = match &content {
                    None => load(None),
                    Some(s) => load(Some(s.as_str())),
                };
                match loaded {
                    None => {
                        let m = Machine {
                            req,
                            config,
                            phase: Phase::Failed { kind: ErrorKind::CorruptDocument },
                        };
                        let response = Response::Failure {
                            category: Category::ServerError,
                            message: String::from_str("corrupt subscription document"),
                        };
                        (m, Command::Respond { response })
                    },
                    Some(doc) => {
                        let intent = intent_of(&req);
                        let newdoc = apply(&doc, &intent);
                        let text = save(&newdoc);
                        let message = action_message(&req);
                        let m = Machine { req, config, phase: Phase::Mutated { message } };
                        (m, Command::WriteDoc { content: text })
                    },
                }
            },
            (Phase::Mutated { message }, Event::WriteDone { ok }) => {
                if ok {
                    let credential = match &config.credential {
                        Some(c) => c.clone(),
                        None => String::new(),
                    };
                    let m2 = message.clone();
                    let m = Machine { req, config, phase: Phase::Saved { message } };
                    (m, Command::Publish { credential, message: m2 })
                } else {
                    let m = Machine {
                        req,
                        config,
                        phase: Phase::Failed { kind: ErrorKind::WriteFailed },
                    };
                    let response = Response::Failure {
                        category: Category::ServerError,
                        message: String::from_str("failed to write the subscription document"),
                    };
                    (m, Command::Respond { response })
                }
            },
            (Phase::Saved { message }, Event::PublishDone { outcome }) => {
                match outcome {
                    PublishOutcome::Pushed | PublishOutcome::NothingToCommit => {
                        let m = Machine { req, config, phase: Phase::Published };
                        let response = Response::Success { message };
                        (m, Command::Respond { response })
                    },
                    PublishOutcome::Conflict => {
                        let m = Machine {
                            req,
                            config,
                            phase: Phase::Failed { kind: ErrorKind::PublishConflict },
                        };
                        let response = Response::Failure {
                            category: Category::ServerError,
                            message: String::from_str("push rejected: the remote has advanced"),
                        };
                        (m, Command::Respond { response })
                    },
                    PublishOutcome::Unavailable => {
                        let m = Machine {
                            req,
                            config,
                            phase: Phase::Failed { kind: ErrorKind::RemoteUnavailable },
                        };
                        let response = Response::Failure {
                            category: Category::ServerError,
                            message: String::from_str("Failed to commit and push"),
                        };
                        (m, Command::Respond { response })
                    },
                }
            },
            _ => {
                proof {
                    assert(false);
                }
                let m = Machine { req, config, phase: Phase::Received };
                (m, Command::ReadDoc)
            },
        }
    }
}

} // verus!