//! What is written to the audit trail.
use crate::ids::{PolicyId, SpaceId, TaskId};
use crate::json;
use crate::number;
use crate::time::Timestamp;
use vstd::prelude::*;
use vstd::string::*;

verus! {

/// What happened.
#[derive(Debug)]
pub enum EventKind {
    SpaceCreated { backend: String, label: Option<String> },
    SpaceDestroyed { reason: String },
    PolicyBound { label: Option<String> },
    FsAccess {
        path: String,
        operation: String,
        allowed: bool,
        /// SHA-256 of what was read or written.
        content_sha256: Option<String>,
    },
    NetDial { host: String, port: Option<u16>, allowed: bool },
    Exec {
        program: String,
        /// Empty if the arguments were left out on purpose.
        args: Vec<String>,
        allowed: bool,
        args_redacted: bool,
    },
    /// A process came to its end.
    ExecFinished {
        program: String,
        exit_code: Option<i32>,
        duration_ms: u64,
        /// `exited`, `timed_out`, `cancelled`, `killed`, `signal` or `unknown`.
        termination_reason: String,
        signal: Option<i32>,
    },
    CredentialIssued { name: String },
    CredentialRevoked { name: String },
    Violation { operation: String, target: String, detail: Option<String> },
    Note { message: String },
}

#[verifier::ext_equal]
pub enum EventKindView {
    SpaceCreated { backend: Seq<char>, label: Option<Seq<char>> },
    SpaceDestroyed { reason: Seq<char> },
    PolicyBound { label: Option<Seq<char>> },
    FsAccess {
        path: Seq<char>,
        operation: Seq<char>,
        allowed: bool,
        content_sha256: Option<Seq<char>>,
    },
    NetDial { host: Seq<char>, port: Option<u16>, allowed: bool },
    Exec { program: Seq<char>, args: Seq<Seq<char>>, allowed: bool, args_redacted: bool },
    ExecFinished {
        program: Seq<char>,
        exit_code: Option<i32>,
        duration_ms: u64,
        termination_reason: Seq<char>,
        signal: Option<i32>,
    },
    CredentialIssued { name: Seq<char> },
    CredentialRevoked { name: Seq<char> },
    Violation { operation: Seq<char>, target: Seq<char>, detail: Option<Seq<char>> },
    Note { message: Seq<char> },
}

impl View for EventKind {
    type V = EventKindView;

    open spec fn view(&self) -> EventKindView {
        match self {
            EventKind::SpaceCreated { backend, label } => EventKindView::SpaceCreated {
                backend: backend@,
                label: label.deep_view(),
            },
            EventKind::SpaceDestroyed { reason } => EventKindView::SpaceDestroyed {
                reason: reason@,
            },
            EventKind::PolicyBound { label } => EventKindView::PolicyBound {
                label: label.deep_view(),
            },
            EventKind::FsAccess { path, operation, allowed, content_sha256 } => {
                EventKindView::FsAccess {
                    path: path@,
                    operation: operation@,
                    allowed: *allowed,
                    content_sha256: content_sha256.deep_view(),
                }
            },
            EventKind::NetDial { host, port, allowed } => EventKindView::NetDial {
                host: host@,
                port: *port,
                allowed: *allowed,
            },
            EventKind::Exec { program, args, allowed, args_redacted } => EventKindView::Exec {
                program: program@,
                args: args.deep_view(),
                allowed: *allowed,
                args_redacted: *args_redacted,
            },
            EventKind::ExecFinished {
                program,
                exit_code,
                duration_ms,
                termination_reason,
                signal,
            } => EventKindView::ExecFinished {
                program: program@,
                exit_code: *exit_code,
                duration_ms: *duration_ms,
                termination_reason: termination_reason@,
                signal: *signal,
            },
            EventKind::CredentialIssued { name } => EventKindView::CredentialIssued {
                name: name@,
            },
            EventKind::CredentialRevoked { name } => EventKindView::CredentialRevoked {
                name: name@,
            },
            EventKind::Violation { operation, target, detail } => EventKindView::Violation {
                operation: operation@,
                target: target@,
                detail: detail.deep_view(),
            },
            EventKind::Note { message } => EventKindView::Note { message: message@ },
        }
    }
}

impl DeepView for EventKind {
    type V = EventKindView;

    open spec fn deep_view(&self) -> EventKindView {
        self@
    }
}

fn clone_strings(v: &Vec<String>) -> (r: Vec<String>)
    ensures
        r.deep_view() == v.deep_view(),
{
    let r = v.clone();
    assert(r.deep_view() =~= v.deep_view());
    r
}

impl Clone for EventKind {
    fn clone(&self) -> (r: Self)
        ensures
            r@ == self@,
    {
        match self {
            EventKind::SpaceCreated { backend, label } => EventKind::SpaceCreated {
                backend: backend.clone(),
                label: label.clone(),
            },
            EventKind::SpaceDestroyed { reason } => EventKind::SpaceDestroyed {
                reason: reason.clone(),
            },
            EventKind::PolicyBound { label } => EventKind::PolicyBound { label: label.clone() },
            EventKind::FsAccess { path, operation, allowed, content_sha256 } => {
                EventKind::FsAccess {
                    path: path.clone(),
                    operation: operation.clone(),
                    allowed: *allowed,
                    content_sha256: content_sha256.clone(),
                }
            },
            EventKind::NetDial { host, port, allowed } => EventKind::NetDial {
                host: host.clone(),
                port: *port,
                allowed: *allowed,
            },
            EventKind::Exec { program, args, allowed, args_redacted } => EventKind::Exec {
                program: program.clone(),
                args: clone_strings(args),
                allowed: *allowed,
                args_redacted: *args_redacted,
            },
            EventKind::ExecFinished {
                program,
                exit_code,
                duration_ms,
                termination_reason,
                signal,
            } => EventKind::ExecFinished {
                program: program.clone(),
                exit_code: *exit_code,
                duration_ms: *duration_ms,
                termination_reason: termination_reason.clone(),
                signal: *signal,
            },
            EventKind::CredentialIssued { name } => EventKind::CredentialIssued {
                name: name.clone(),
            },
            EventKind::CredentialRevoked { name } => EventKind::CredentialRevoked {
                name: name.clone(),
            },
            EventKind::Violation { operation, target, detail } => EventKind::Violation {
                operation: operation.clone(),
                target: target.clone(),
                detail: detail.clone(),
            },
            EventKind::Note { message } => EventKind::Note { message: message.clone() },
        }
    }
}

/// One entry of the audit trail.
#[derive(Debug)]
pub struct RecordEvent {
    pub timestamp: Timestamp,
    pub space_id: SpaceId,
    pub policy_id: PolicyId,
    pub task_id: Option<TaskId>,
    pub event: EventKind,
    /// The `event_hash` of the entry before, or the genesis marker.
    pub prev_hash: Option<String>,
    /// SHA-256 over everything above.
    pub event_hash: Option<String>,
}

#[verifier::ext_equal]
pub struct RecordEventView {
    pub timestamp: Timestamp,
    pub space_id: Seq<char>,
    pub policy_id: Seq<char>,
    pub task_id: Option<Seq<char>>,
    pub event: EventKindView,
    pub prev_hash: Option<Seq<char>>,
    pub event_hash: Option<Seq<char>>,
}

impl View for RecordEvent {
    type V = RecordEventView;

    open spec fn view(&self) -> RecordEventView {
        RecordEventView {
            timestamp: self.timestamp,
            space_id: self.space_id@,
            policy_id: self.policy_id@,
            task_id: self.task_id.deep_view(),
            event: self.event@,
            prev_hash: self.prev_hash.deep_view(),
            event_hash: self.event_hash.deep_view(),
        }
    }
}

impl DeepView for RecordEvent {
    type V = RecordEventView;

    open spec fn deep_view(&self) -> RecordEventView {
        self@
    }
}

impl Clone for RecordEvent {
    fn clone(&self) -> (r: Self)
        ensures
            r@ == self@,
    {
        RecordEvent {
            timestamp: self.timestamp,
            space_id: self.space_id.clone(),
            policy_id: self.policy_id.clone(),
            task_id: self.task_id.clone(),
            event: self.event.clone(),
            prev_hash: self.prev_hash.clone(),
            event_hash: self.event_hash.clone(),
        }
    }
}

impl RecordEventView {
    /// An entry that is in no chain yet.
    pub open spec fn unsealed(
        space_id: Seq<char>,
        policy_id: Seq<char>,
        task_id: Option<Seq<char>>,
        event: EventKindView,
        now: Timestamp,
    ) -> Self {
        RecordEventView {
            timestamp: now,
            space_id,
            policy_id,
            task_id,
            event,
            prev_hash: None,
            event_hash: None,
        }
    }
}

impl RecordEvent {
    /// An entry for what happened at `now`.
    pub fn new(
        space_id: SpaceId,
        policy_id: PolicyId,
        task_id: Option<TaskId>,
        event: EventKind,
        now: Timestamp,
    ) -> (r: Self)
        ensures
            r@ == RecordEventView::unsealed(
                space_id@,
                policy_id@,
                task_id.deep_view(),
                event@,
                now,
            ),
    {
        RecordEvent {
            timestamp: now,
            space_id,
            policy_id,
            task_id,
            event,
            prev_hash: None,
            event_hash: None,
        }
    }
}

/// A member of a JSON object that is only there if it has a value.
pub open spec fn member_if(name: Seq<char>, value: Option<Seq<char>>) -> Seq<char> {
    match value {
        Some(v) => name + v,
        None => Seq::empty(),
    }
}

impl EventKindView {
    /// The JSON object of what happened, tagged with its kind.
    pub open spec fn json(self) -> Seq<char> {
        match self {
            EventKindView::SpaceCreated { backend, label } => {
                "{\"kind\":\"space_created\",\"backend\":"@ + json::json_string(backend)
                    + ",\"label\":"@ + json::json_optional(label) + "}"@
            },
            EventKindView::SpaceDestroyed { reason } => {
                "{\"kind\":\"space_destroyed\",\"reason\":"@ + json::json_string(reason) + "}"@
            },
            EventKindView::PolicyBound { label } => {
                "{\"kind\":\"policy_bound\",\"label\":"@ + json::json_optional(label) + "}"@
            },
            EventKindView::FsAccess { path, operation, allowed, content_sha256 } => {
                "{\"kind\":\"fs_access\",\"path\":"@ + json::json_string(path)
                    + ",\"operation\":"@ + json::json_string(operation) + ",\"allowed\":"@
                    + json::json_bool(allowed) + member_if(
                    ",\"content_sha256\":"@,
                    match content_sha256 {
                        Some(h) => Some(json::json_string(h)),
                        None => None,
                    },
                ) + "}"@
            },
            EventKindView::NetDial { host, port, allowed } => {
                "{\"kind\":\"net_dial\",\"host\":"@ + json::json_string(host) + ",\"port\":"@ + (
                match port {
                    Some(p) => number::decimal(p as nat),
                    None => "null"@,
                }) + ",\"allowed\":"@ + json::json_bool(allowed) + "}"@
            },
            EventKindView::Exec { program, args, allowed, args_redacted } => {
                "{\"kind\":\"exec\",\"program\":"@ + json::json_string(program) + ",\"args\":"@
                    + json::json_array(args) + ",\"allowed\":"@ + json::json_bool(allowed)
                    + ",\"args_redacted\":"@ + json::json_bool(args_redacted) + "}"@
            },
            EventKindView::ExecFinished {
                program,
                exit_code,
                duration_ms,
                termination_reason,
                signal,
            } => {
                "{\"kind\":\"exec_finished\",\"program\":"@ + json::json_string(program)
                    + member_if(
                    ",\"exit_code\":"@,
                    match exit_code {
                        Some(n) => Some(json::json_int(n as int)),
                        None => None,
                    },
                ) + ",\"duration_ms\":"@ + number::decimal(duration_ms as nat)
                    + ",\"termination_reason\":"@ + json::json_string(termination_reason)
                    + member_if(
                    ",\"signal\":"@,
                    match signal {
                        Some(n) => Some(json::json_int(n as int)),
                        None => None,
                    },
                ) + "}"@
            },
            EventKindView::CredentialIssued { name } => {
                "{\"kind\":\"credential_issued\",\"name\":"@ + json::json_string(name) + "}"@
            },
            EventKindView::CredentialRevoked { name } => {
                "{\"kind\":\"credential_revoked\",\"name\":"@ + json::json_string(name) + "}"@
            },
            EventKindView::Violation { operation, target, detail } => {
                "{\"kind\":\"violation\",\"operation\":"@ + json::json_string(operation)
                    + ",\"target\":"@ + json::json_string(target) + ",\"detail\":"@
                    + json::json_optional(detail) + "}"@
            },
            EventKindView::Note { message } => {
                "{\"kind\":\"note\",\"message\":"@ + json::json_string(message) + "}"@
            },
        }
    }
}

fn append_member(s: &mut String, name: &str, value: Option<String>)
    ensures
        final(s)@ == old(s)@ + member_if(name@, value.deep_view()),
{
    let ghost before = s@;
    match value {
        Some(v) => {
            s.append(name);
            s.append(v.as_str());
            assert(s@ =~= before + (name@ + v@));
        },
        None => {
            assert(s@ =~= before + Seq::<char>::empty());
        },
    }
}

impl EventKind {
    /// The JSON object of what happened.
    pub fn to_json(&self) -> (r: String)
        ensures
            r@ == self@.json(),
    {
        match self {
            EventKind::SpaceCreated { backend, label } => {
                "{\"kind\":\"space_created\",\"backend\":".to_owned().concat(
                    json::string_json(backend.as_str()).as_str(),
                ).concat(",\"label\":").concat(json::optional_json(label).as_str()).concat("}")
            },
            EventKind::SpaceDestroyed { reason } => {
                "{\"kind\":\"space_destroyed\",\"reason\":".to_owned().concat(
                    json::string_json(reason.as_str()).as_str(),
                ).concat("}")
            },
            EventKind::PolicyBound { label } => {
                "{\"kind\":\"policy_bound\",\"label\":".to_owned().concat(
                    json::optional_json(label).as_str(),
                ).concat("}")
            },
            EventKind::FsAccess { path, operation, allowed, content_sha256 } => {
                let mut s = "{\"kind\":\"fs_access\",\"path\":".to_owned().concat(
                    json::string_json(path.as_str()).as_str(),
                ).concat(",\"operation\":").concat(
                    json::string_json(operation.as_str()).as_str(),
                ).concat(",\"allowed\":").concat(json::bool_json(*allowed).as_str());
                let hash = match content_sha256 {
                    Some(h) => Some(json::string_json(h.as_str())),
                    None => None,
                };
                append_member(&mut s, ",\"content_sha256\":", hash);
                s.concat("}")
            },
            EventKind::NetDial { host, port, allowed } => {
                let p = match port {
                    Some(p) => number::to_decimal(*p as u64),
                    None => "null".to_owned(),
                };
                "{\"kind\":\"net_dial\",\"host\":".to_owned().concat(
                    json::string_json(host.as_str()).as_str(),
                ).concat(",\"port\":").concat(p.as_str()).concat(",\"allowed\":").concat(
                    json::bool_json(*allowed).as_str(),
                ).concat("}")
            },
            EventKind::Exec { program, args, allowed, args_redacted } => {
                "{\"kind\":\"exec\",\"program\":".to_owned().concat(
                    json::string_json(program.as_str()).as_str(),
                ).concat(",\"args\":").concat(json::array_json(args).as_str()).concat(
                    ",\"allowed\":",
                ).concat(json::bool_json(*allowed).as_str()).concat(",\"args_redacted\":").concat(
                    json::bool_json(*args_redacted).as_str(),
                ).concat("}")
            },
            EventKind::ExecFinished {
                program,
                exit_code,
                duration_ms,
                termination_reason,
                signal,
            } => {
                let mut s = "{\"kind\":\"exec_finished\",\"program\":".to_owned().concat(
                    json::string_json(program.as_str()).as_str(),
                );
                let code = match exit_code {
                    Some(n) => Some(json::int_json(*n)),
                    None => None,
                };
                append_member(&mut s, ",\"exit_code\":", code);
                let mut s = s.concat(",\"duration_ms\":").concat(
                    number::to_decimal(*duration_ms).as_str(),
                ).concat(",\"termination_reason\":").concat(
                    json::string_json(termination_reason.as_str()).as_str(),
                );
                let sig = match signal {
                    Some(n) => Some(json::int_json(*n)),
                    None => None,
                };
                append_member(&mut s, ",\"signal\":", sig);
                s.concat("}")
            },
            EventKind::CredentialIssued { name } => {
                "{\"kind\":\"credential_issued\",\"name\":".to_owned().concat(
                    json::string_json(name.as_str()).as_str(),
                ).concat("}")
            },
            EventKind::CredentialRevoked { name } => {
                "{\"kind\":\"credential_revoked\",\"name\":".to_owned().concat(
                    json::string_json(name.as_str()).as_str(),
                ).concat("}")
            },
            EventKind::Violation { operation, target, detail } => {
                "{\"kind\":\"violation\",\"operation\":".to_owned().concat(
                    json::string_json(operation.as_str()).as_str(),
                ).concat(",\"target\":").concat(json::string_json(target.as_str()).as_str()).concat(
                    ",\"detail\":",
                ).concat(json::optional_json(detail).as_str()).concat("}")
            },
            EventKind::Note { message } => {
                "{\"kind\":\"note\",\"message\":".to_owned().concat(
                    json::string_json(message.as_str()).as_str(),
                ).concat("}")
            },
        }
    }
}

// ---------------------------------------------------------------------------
// Laws
// ---------------------------------------------------------------------------
/// What the JSON object of an entry begins with.
spec fn beginning(e: EventKindView) -> Seq<char> {
    match e {
        EventKindView::SpaceCreated { .. } => "{\"kind\":\"space_created\",\"backend\":"@,
        EventKindView::SpaceDestroyed { .. } => "{\"kind\":\"space_destroyed\",\"reason\":"@,
        EventKindView::PolicyBound { .. } => "{\"kind\":\"policy_bound\",\"label\":"@,
        EventKindView::FsAccess { .. } => "{\"kind\":\"fs_access\",\"path\":"@,
        EventKindView::NetDial { .. } => "{\"kind\":\"net_dial\",\"host\":"@,
        EventKindView::Exec { .. } => "{\"kind\":\"exec\",\"program\":"@,
        EventKindView::ExecFinished { .. } => "{\"kind\":\"exec_finished\",\"program\":"@,
        EventKindView::CredentialIssued { .. } => "{\"kind\":\"credential_issued\",\"name\":"@,
        EventKindView::CredentialRevoked { .. } => "{\"kind\":\"credential_revoked\",\"name\":"@,
        EventKindView::Violation { .. } => "{\"kind\":\"violation\",\"operation\":"@,
        EventKindView::Note { .. } => "{\"kind\":\"note\",\"message\":"@,
    }
}

/// The variants are told apart by a few characters of what their objects begin
/// with.
proof fn beginnings_differ(e: EventKindView)
    ensures
        beginning(e).len() > 20,
        beginning(e).is_prefix_of(e.json()),
        match e {
            EventKindView::SpaceCreated { .. } => beginning(e)[9] == 's' && beginning(e)[15] == 'c',
            EventKindView::SpaceDestroyed { .. } => beginning(e)[9] == 's' && beginning(e)[15] == 'd',
            EventKindView::PolicyBound { .. } => beginning(e)[9] == 'p',
            EventKindView::FsAccess { .. } => beginning(e)[9] == 'f',
            EventKindView::NetDial { .. } => beginning(e)[9] == 'n' && beginning(e)[10] == 'e',
            EventKindView::Exec { .. } => beginning(e)[9] == 'e' && beginning(e)[13] == '"',
            EventKindView::ExecFinished { .. } => beginning(e)[9] == 'e' && beginning(e)[13] == '_',
            EventKindView::CredentialIssued { .. } => beginning(e)[9] == 'c' && beginning(e)[20] == 'i',
            EventKindView::CredentialRevoked { .. } => beginning(e)[9] == 'c' && beginning(e)[20] == 'r',
            EventKindView::Violation { .. } => beginning(e)[9] == 'v',
            EventKindView::Note { .. } => beginning(e)[9] == 'n' && beginning(e)[10] == 'o',
        },
{
    reveal_strlit("{\"kind\":\"space_created\",\"backend\":");
    reveal_strlit("{\"kind\":\"space_destroyed\",\"reason\":");
    reveal_strlit("{\"kind\":\"policy_bound\",\"label\":");
    reveal_strlit("{\"kind\":\"fs_access\",\"path\":");
    reveal_strlit("{\"kind\":\"net_dial\",\"host\":");
    reveal_strlit("{\"kind\":\"exec\",\"program\":");
    reveal_strlit("{\"kind\":\"exec_finished\",\"program\":");
    reveal_strlit("{\"kind\":\"credential_issued\",\"name\":");
    reveal_strlit("{\"kind\":\"credential_revoked\",\"name\":");
    reveal_strlit("{\"kind\":\"violation\",\"operation\":");
    reveal_strlit("{\"kind\":\"note\",\"message\":");
    assert(beginning(e) =~= e.json().subrange(0, beginning(e).len() as int));
}

/// The same kind of thing happened.
spec fn same_variant(e: EventKindView, f: EventKindView) -> bool {
    match (e, f) {
        (EventKindView::SpaceCreated { .. }, EventKindView::SpaceCreated { .. }) => true,
        (EventKindView::SpaceDestroyed { .. }, EventKindView::SpaceDestroyed { .. }) => true,
        (EventKindView::PolicyBound { .. }, EventKindView::PolicyBound { .. }) => true,
        (EventKindView::FsAccess { .. }, EventKindView::FsAccess { .. }) => true,
        (EventKindView::NetDial { .. }, EventKindView::NetDial { .. }) => true,
        (EventKindView::Exec { .. }, EventKindView::Exec { .. }) => true,
        (EventKindView::ExecFinished { .. }, EventKindView::ExecFinished { .. }) => true,
        (EventKindView::CredentialIssued { .. }, EventKindView::CredentialIssued { .. }) => true,
        (EventKindView::CredentialRevoked { .. }, EventKindView::CredentialRevoked { .. }) => true,
        (EventKindView::Violation { .. }, EventKindView::Violation { .. }) => true,
        (EventKindView::Note { .. }, EventKindView::Note { .. }) => true,
        _ => false,
    }
}

proof fn variants_are_unambiguous(e: EventKindView, f: EventKindView, x: Seq<char>, y: Seq<char>)
    requires
        e.json() + x == f.json() + y,
    ensures
        same_variant(e, f),
{
    beginnings_differ(e);
    beginnings_differ(f);
    let t = e.json() + x;
    assert forall|i: int| 0 <= i <= 20 implies #[trigger] beginning(e)[i] == beginning(f)[i] by {
        assert(t[i] == e.json()[i]);
        assert((f.json() + y)[i] == f.json()[i]);
    }
    assert(beginning(e)[9] == beginning(f)[9]);
    assert(beginning(e)[10] == beginning(f)[10]);
    assert(beginning(e)[13] == beginning(f)[13]);
    assert(beginning(e)[15] == beginning(f)[15]);
    assert(beginning(e)[20] == beginning(f)[20]);
}

/// A string that may be missing, as the last member of an object.
proof fn last_strings_are_unambiguous(
    name: Seq<char>,
    a: Option<Seq<char>>,
    b: Option<Seq<char>>,
    x: Seq<char>,
    y: Seq<char>,
)
    requires
        name.len() > 0,
        name[0] == ',',
        member_if(name, json_of(a)) + ("}"@ + x) == member_if(name, json_of(b)) + ("}"@ + y),
    ensures
        a == b,
        x == y,
{
    reveal_strlit("}");
    let ex = "}"@ + x;
    let ey = "}"@ + y;
    let ta = member_if(name, json_of(a)) + ex;
    let tb = member_if(name, json_of(b)) + ey;
    match (a, b) {
        (Some(s), Some(t)) => {
            assert(ta =~= name + (json::json_string(s) + ex));
            assert(tb =~= name + (json::json_string(t) + ey));
            json::same_rest(name, json::json_string(s) + ex, json::json_string(t) + ey);
            json::strings_are_unambiguous(s, t, ex, ey);
        },
        (None, None) => {
            assert(ta =~= ex);
            assert(tb =~= ey);
        },
        (Some(_), None) => {
            assert(ta[0] == ',');
            assert(tb =~= ey);
            assert(tb[0] == '}');
        },
        (None, Some(_)) => {
            assert(tb[0] == ',');
            assert(ta =~= ex);
            assert(ta[0] == '}');
        },
    }
    json::same_rest("}"@, x, y);
}

/// The JSON string of a text that may be missing.
spec fn json_of(s: Option<Seq<char>>) -> Option<Seq<char>> {
    match s {
        Some(t) => Some(json::json_string(t)),
        None => None,
    }
}

/// The numeral of a number that may be missing.
spec fn numeral_of(n: Option<i32>) -> Option<Seq<char>> {
    match n {
        Some(k) => Some(json::json_int(k as int)),
        None => None,
    }
}

/// A number that may be missing, as a member of an object in front of `x`, which
/// goes on otherwise than the member.
proof fn numbers_are_unambiguous(
    name: Seq<char>,
    a: Option<i32>,
    b: Option<i32>,
    x: Seq<char>,
    y: Seq<char>,
    at: int,
)
    requires
        0 <= at < name.len(),
        at < x.len(),
        at < y.len(),
        x[at] != name[at],
        y[at] != name[at],
        !number::is_digit(x[0]),
        !number::is_digit(y[0]),
        member_if(name, numeral_of(a)) + x == member_if(name, numeral_of(b)) + y,
    ensures
        a == b,
        x == y,
{
    let ta = member_if(name, numeral_of(a)) + x;
    let tb = member_if(name, numeral_of(b)) + y;
    match (a, b) {
        (Some(n), Some(m)) => {
            let ra = json::json_int(n as int) + x;
            let rb = json::json_int(m as int) + y;
            assert(ta =~= name + ra);
            assert(tb =~= name + rb);
            json::same_rest(name, ra, rb);
            json::ints_are_unambiguous(n as int, m as int, x, y);
        },
        (None, None) => {
            assert(ta =~= x);
            assert(tb =~= y);
        },
        (Some(_), None) => {
            assert(ta[at] == name[at]);
            assert(tb =~= y);
        },
        (None, Some(_)) => {
            assert(tb[at] == name[at]);
            assert(ta =~= x);
        },
    }
}

proof fn accesses_are_unambiguous(e: EventKindView, f: EventKindView, x: Seq<char>, y: Seq<char>)
    requires
        e is FsAccess,
        f is FsAccess,
        e.json() + x == f.json() + y,
    ensures
        e == f,
        x == y,
{
    reveal_strlit(",\"content_sha256\":");
    let e_end = member_if(",\"content_sha256\":"@, json_of(e->content_sha256)) + ("}"@ + x);
    let f_end = member_if(",\"content_sha256\":"@, json_of(f->content_sha256)) + ("}"@ + y);
    let e_2 = json::json_bool(e->FsAccess_allowed) + e_end;
    let f_2 = json::json_bool(f->FsAccess_allowed) + f_end;
    let e_1 = json::json_string(e->FsAccess_operation) + (",\"allowed\":"@ + e_2);
    let f_1 = json::json_string(f->FsAccess_operation) + (",\"allowed\":"@ + f_2);
    let e_0 = json::json_string(e->path) + (",\"operation\":"@ + e_1);
    let f_0 = json::json_string(f->path) + (",\"operation\":"@ + f_1);
    json::regroup_8(
        "{\"kind\":\"fs_access\",\"path\":"@,
        json::json_string(e->path),
        ",\"operation\":"@,
        json::json_string(e->FsAccess_operation),
        ",\"allowed\":"@,
        json::json_bool(e->FsAccess_allowed),
        member_if(",\"content_sha256\":"@, json_of(e->content_sha256)),
        "}"@,
        x,
    );
    json::regroup_8(
        "{\"kind\":\"fs_access\",\"path\":"@,
        json::json_string(f->path),
        ",\"operation\":"@,
        json::json_string(f->FsAccess_operation),
        ",\"allowed\":"@,
        json::json_bool(f->FsAccess_allowed),
        member_if(",\"content_sha256\":"@, json_of(f->content_sha256)),
        "}"@,
        y,
    );
    json::same_rest("{\"kind\":\"fs_access\",\"path\":"@, e_0, f_0);
    json::strings_are_unambiguous(
        e->path,
        f->path,
        ",\"operation\":"@ + e_1,
        ",\"operation\":"@ + f_1,
    );
    json::same_rest(",\"operation\":"@, e_1, f_1);
    json::strings_are_unambiguous(
        e->FsAccess_operation,
        f->FsAccess_operation,
        ",\"allowed\":"@ + e_2,
        ",\"allowed\":"@ + f_2,
    );
    json::same_rest(",\"allowed\":"@, e_2, f_2);
    json::bools_are_unambiguous(e->FsAccess_allowed, f->FsAccess_allowed, e_end, f_end);
    last_strings_are_unambiguous(
        ",\"content_sha256\":"@,
        e->content_sha256,
        f->content_sha256,
        x,
        y,
    );
}

proof fn ports_are_unambiguous(a: Option<u16>, b: Option<u16>, x: Seq<char>, y: Seq<char>)
    requires
        x.len() > 0,
        y.len() > 0,
        !number::is_digit(x[0]),
        !number::is_digit(y[0]),
        port_json(a) + x == port_json(b) + y,
    ensures
        a == b,
        x == y,
{
    reveal_strlit("null");
    if let Some(p) = a {
        number::decimal_reads_back(p as nat);
        assert(number::is_digit(port_json(a)[0]));
    }
    if let Some(p) = b {
        number::decimal_reads_back(p as nat);
        assert(number::is_digit(port_json(b)[0]));
    }
    assert((port_json(a) + x)[0] == port_json(a)[0]);
    assert((port_json(b) + y)[0] == port_json(b)[0]);
    match (a, b) {
        (Some(p), Some(q)) => number::decimals_are_unambiguous(p as nat, q as nat, x, y),
        (None, None) => json::same_rest("null"@, x, y),
        _ => {},
    }
}

/// A port that may be missing, in JSON.
spec fn port_json(port: Option<u16>) -> Seq<char> {
    match port {
        Some(p) => number::decimal(p as nat),
        None => "null"@,
    }
}

proof fn dials_are_unambiguous(e: EventKindView, f: EventKindView, x: Seq<char>, y: Seq<char>)
    requires
        e is NetDial,
        f is NetDial,
        e.json() + x == f.json() + y,
    ensures
        e == f,
        x == y,
{
    reveal_strlit(",\"allowed\":");
    let e_end = "}"@ + x;
    let f_end = "}"@ + y;
    let e_2 = ",\"allowed\":"@ + (json::json_bool(e->NetDial_allowed) + e_end);
    let f_2 = ",\"allowed\":"@ + (json::json_bool(f->NetDial_allowed) + f_end);
    let e_1 = port_json(e->port) + e_2;
    let f_1 = port_json(f->port) + f_2;
    let e_0 = json::json_string(e->host) + (",\"port\":"@ + e_1);
    let f_0 = json::json_string(f->host) + (",\"port\":"@ + f_1);
    json::regroup_7(
        "{\"kind\":\"net_dial\",\"host\":"@,
        json::json_string(e->host),
        ",\"port\":"@,
        port_json(e->port),
        ",\"allowed\":"@,
        json::json_bool(e->NetDial_allowed),
        "}"@,
        x,
    );
    json::regroup_7(
        "{\"kind\":\"net_dial\",\"host\":"@,
        json::json_string(f->host),
        ",\"port\":"@,
        port_json(f->port),
        ",\"allowed\":"@,
        json::json_bool(f->NetDial_allowed),
        "}"@,
        y,
    );
    json::same_rest("{\"kind\":\"net_dial\",\"host\":"@, e_0, f_0);
    json::strings_are_unambiguous(e->host, f->host, ",\"port\":"@ + e_1, ",\"port\":"@ + f_1);
    json::same_rest(",\"port\":"@, e_1, f_1);
    ports_are_unambiguous(e->port, f->port, e_2, f_2);
    json::same_rest(
        ",\"allowed\":"@,
        json::json_bool(e->NetDial_allowed) + e_end,
        json::json_bool(f->NetDial_allowed) + f_end,
    );
    json::bools_are_unambiguous(e->NetDial_allowed, f->NetDial_allowed, e_end, f_end);
    json::same_rest("}"@, x, y);
}

proof fn ends_are_unambiguous(e: EventKindView, f: EventKindView, x: Seq<char>, y: Seq<char>)
    requires
        e is ExecFinished,
        f is ExecFinished,
        e.json() + x == f.json() + y,
    ensures
        e == f,
        x == y,
{
    reveal_strlit("}");
    reveal_strlit(",\"signal\":");
    reveal_strlit(",\"exit_code\":");
    reveal_strlit(",\"duration_ms\":");
    reveal_strlit(",\"termination_reason\":");
    let e_end = "}"@ + x;
    let f_end = "}"@ + y;
    let e_4 = member_if(",\"signal\":"@, numeral_of(e->signal)) + e_end;
    let f_4 = member_if(",\"signal\":"@, numeral_of(f->signal)) + f_end;
    let e_3 = ",\"termination_reason\":"@ + (json::json_string(e->termination_reason) + e_4);
    let f_3 = ",\"termination_reason\":"@ + (json::json_string(f->termination_reason) + f_4);
    let e_2 = ",\"duration_ms\":"@ + (number::decimal(e->duration_ms as nat) + e_3);
    let f_2 = ",\"duration_ms\":"@ + (number::decimal(f->duration_ms as nat) + f_3);
    let e_1 = member_if(",\"exit_code\":"@, numeral_of(e->exit_code)) + e_2;
    let f_1 = member_if(",\"exit_code\":"@, numeral_of(f->exit_code)) + f_2;
    let e_0 = json::json_string(e->ExecFinished_program) + e_1;
    let f_0 = json::json_string(f->ExecFinished_program) + f_1;
    json::regroup_9(
        "{\"kind\":\"exec_finished\",\"program\":"@,
        json::json_string(e->ExecFinished_program),
        member_if(",\"exit_code\":"@, numeral_of(e->exit_code)),
        ",\"duration_ms\":"@,
        number::decimal(e->duration_ms as nat),
        ",\"termination_reason\":"@,
        json::json_string(e->termination_reason),
        member_if(",\"signal\":"@, numeral_of(e->signal)),
        "}"@,
        x,
    );
    json::regroup_9(
        "{\"kind\":\"exec_finished\",\"program\":"@,
        json::json_string(f->ExecFinished_program),
        member_if(",\"exit_code\":"@, numeral_of(f->exit_code)),
        ",\"duration_ms\":"@,
        number::decimal(f->duration_ms as nat),
        ",\"termination_reason\":"@,
        json::json_string(f->termination_reason),
        member_if(",\"signal\":"@, numeral_of(f->signal)),
        "}"@,
        y,
    );
    json::same_rest("{\"kind\":\"exec_finished\",\"program\":"@, e_0, f_0);
    json::strings_are_unambiguous(e->ExecFinished_program, f->ExecFinished_program, e_1, f_1);
    numbers_are_unambiguous(",\"exit_code\":"@, e->exit_code, f->exit_code, e_2, f_2, 2);
    json::same_rest(
        ",\"duration_ms\":"@,
        number::decimal(e->duration_ms as nat) + e_3,
        number::decimal(f->duration_ms as nat) + f_3,
    );
    number::decimals_are_unambiguous(e->duration_ms as nat, f->duration_ms as nat, e_3, f_3);
    json::same_rest(
        ",\"termination_reason\":"@,
        json::json_string(e->termination_reason) + e_4,
        json::json_string(f->termination_reason) + f_4,
    );
    json::strings_are_unambiguous(e->termination_reason, f->termination_reason, e_4, f_4);
    numbers_are_unambiguous(",\"signal\":"@, e->signal, f->signal, e_end, f_end, 0);
    json::same_rest("}"@, x, y);
}

proof fn creations_are_unambiguous(e: EventKindView, f: EventKindView, x: Seq<char>, y: Seq<char>)
    requires
        e is SpaceCreated,
        f is SpaceCreated,
        e.json() + x == f.json() + y,
    ensures
        e == f,
        x == y,
{
    let e0 = e->backend;
    let f0 = f->backend;
    let e1 = e->SpaceCreated_label;
    let f1 = f->SpaceCreated_label;
    json::regroup_5("{\"kind\":\"space_created\",\"backend\":"@, json::json_string(e0), ",\"label\":"@, json::json_optional(e1), "}"@, x);
    json::regroup_5("{\"kind\":\"space_created\",\"backend\":"@, json::json_string(f0), ",\"label\":"@, json::json_optional(f1), "}"@, y);
    json::same_rest("{\"kind\":\"space_created\",\"backend\":"@, json::json_string(e0) + (",\"label\":"@ + (json::json_optional(e1) + ("}"@ + x))), json::json_string(f0) + (",\"label\":"@ + (json::json_optional(f1) + ("}"@ + y))));
    json::strings_are_unambiguous(e0, f0, ",\"label\":"@ + (json::json_optional(e1) + ("}"@ + x)), ",\"label\":"@ + (json::json_optional(f1) + ("}"@ + y)));
    json::same_rest(",\"label\":"@, json::json_optional(e1) + ("}"@ + x), json::json_optional(f1) + ("}"@ + y));
    json::optionals_are_unambiguous(e1, f1, "}"@ + x, "}"@ + y);
    json::same_rest("}"@, x, y);
}

proof fn destructions_are_unambiguous(e: EventKindView, f: EventKindView, x: Seq<char>, y: Seq<char>)
    requires
        e is SpaceDestroyed,
        f is SpaceDestroyed,
        e.json() + x == f.json() + y,
    ensures
        e == f,
        x == y,
{
    let e0 = e->reason;
    let f0 = f->reason;
    json::regroup_3("{\"kind\":\"space_destroyed\",\"reason\":"@, json::json_string(e0), "}"@, x);
    json::regroup_3("{\"kind\":\"space_destroyed\",\"reason\":"@, json::json_string(f0), "}"@, y);
    json::same_rest("{\"kind\":\"space_destroyed\",\"reason\":"@, json::json_string(e0) + ("}"@ + x), json::json_string(f0) + ("}"@ + y));
    json::strings_are_unambiguous(e0, f0, "}"@ + x, "}"@ + y);
    json::same_rest("}"@, x, y);
}

proof fn bindings_are_unambiguous(e: EventKindView, f: EventKindView, x: Seq<char>, y: Seq<char>)
    requires
        e is PolicyBound,
        f is PolicyBound,
        e.json() + x == f.json() + y,
    ensures
        e == f,
        x == y,
{
    let e0 = e->PolicyBound_label;
    let f0 = f->PolicyBound_label;
    json::regroup_3("{\"kind\":\"policy_bound\",\"label\":"@, json::json_optional(e0), "}"@, x);
    json::regroup_3("{\"kind\":\"policy_bound\",\"label\":"@, json::json_optional(f0), "}"@, y);
    json::same_rest("{\"kind\":\"policy_bound\",\"label\":"@, json::json_optional(e0) + ("}"@ + x), json::json_optional(f0) + ("}"@ + y));
    json::optionals_are_unambiguous(e0, f0, "}"@ + x, "}"@ + y);
    json::same_rest("}"@, x, y);
}

proof fn starts_are_unambiguous(e: EventKindView, f: EventKindView, x: Seq<char>, y: Seq<char>)
    requires
        e is Exec,
        f is Exec,
        e.json() + x == f.json() + y,
    ensures
        e == f,
        x == y,
{
    let e0 = e->Exec_program;
    let f0 = f->Exec_program;
    let e1 = e->args;
    let f1 = f->args;
    let e2 = e->Exec_allowed;
    let f2 = f->Exec_allowed;
    let e3 = e->args_redacted;
    let f3 = f->args_redacted;
    json::regroup_9("{\"kind\":\"exec\",\"program\":"@, json::json_string(e0), ",\"args\":"@, json::json_array(e1), ",\"allowed\":"@, json::json_bool(e2), ",\"args_redacted\":"@, json::json_bool(e3), "}"@, x);
    json::regroup_9("{\"kind\":\"exec\",\"program\":"@, json::json_string(f0), ",\"args\":"@, json::json_array(f1), ",\"allowed\":"@, json::json_bool(f2), ",\"args_redacted\":"@, json::json_bool(f3), "}"@, y);
    json::same_rest("{\"kind\":\"exec\",\"program\":"@, json::json_string(e0) + (",\"args\":"@ + (json::json_array(e1) + (",\"allowed\":"@ + (json::json_bool(e2) + (",\"args_redacted\":"@ + (json::json_bool(e3) + ("}"@ + x))))))), json::json_string(f0) + (",\"args\":"@ + (json::json_array(f1) + (",\"allowed\":"@ + (json::json_bool(f2) + (",\"args_redacted\":"@ + (json::json_bool(f3) + ("}"@ + y))))))));
    json::strings_are_unambiguous(e0, f0, ",\"args\":"@ + (json::json_array(e1) + (",\"allowed\":"@ + (json::json_bool(e2) + (",\"args_redacted\":"@ + (json::json_bool(e3) + ("}"@ + x)))))), ",\"args\":"@ + (json::json_array(f1) + (",\"allowed\":"@ + (json::json_bool(f2) + (",\"args_redacted\":"@ + (json::json_bool(f3) + ("}"@ + y)))))));
    json::same_rest(",\"args\":"@, json::json_array(e1) + (",\"allowed\":"@ + (json::json_bool(e2) + (",\"args_redacted\":"@ + (json::json_bool(e3) + ("}"@ + x))))), json::json_array(f1) + (",\"allowed\":"@ + (json::json_bool(f2) + (",\"args_redacted\":"@ + (json::json_bool(f3) + ("}"@ + y))))));
    json::arrays_are_unambiguous(e1, f1, ",\"allowed\":"@ + (json::json_bool(e2) + (",\"args_redacted\":"@ + (json::json_bool(e3) + ("}"@ + x)))), ",\"allowed\":"@ + (json::json_bool(f2) + (",\"args_redacted\":"@ + (json::json_bool(f3) + ("}"@ + y)))));
    json::same_rest(",\"allowed\":"@, json::json_bool(e2) + (",\"args_redacted\":"@ + (json::json_bool(e3) + ("}"@ + x))), json::json_bool(f2) + (",\"args_redacted\":"@ + (json::json_bool(f3) + ("}"@ + y))));
    json::bools_are_unambiguous(e2, f2, ",\"args_redacted\":"@ + (json::json_bool(e3) + ("}"@ + x)), ",\"args_redacted\":"@ + (json::json_bool(f3) + ("}"@ + y)));
    json::same_rest(",\"args_redacted\":"@, json::json_bool(e3) + ("}"@ + x), json::json_bool(f3) + ("}"@ + y));
    json::bools_are_unambiguous(e3, f3, "}"@ + x, "}"@ + y);
    json::same_rest("}"@, x, y);
}

proof fn issues_are_unambiguous(e: EventKindView, f: EventKindView, x: Seq<char>, y: Seq<char>)
    requires
        e is CredentialIssued,
        f is CredentialIssued,
        e.json() + x == f.json() + y,
    ensures
        e == f,
        x == y,
{
    let e0 = e->CredentialIssued_name;
    let f0 = f->CredentialIssued_name;
    json::regroup_3("{\"kind\":\"credential_issued\",\"name\":"@, json::json_string(e0), "}"@, x);
    json::regroup_3("{\"kind\":\"credential_issued\",\"name\":"@, json::json_string(f0), "}"@, y);
    json::same_rest("{\"kind\":\"credential_issued\",\"name\":"@, json::json_string(e0) + ("}"@ + x), json::json_string(f0) + ("}"@ + y));
    json::strings_are_unambiguous(e0, f0, "}"@ + x, "}"@ + y);
    json::same_rest("}"@, x, y);
}

proof fn revocations_are_unambiguous(e: EventKindView, f: EventKindView, x: Seq<char>, y: Seq<char>)
    requires
        e is CredentialRevoked,
        f is CredentialRevoked,
        e.json() + x == f.json() + y,
    ensures
        e == f,
        x == y,
{
    let e0 = e->CredentialRevoked_name;
    let f0 = f->CredentialRevoked_name;
    json::regroup_3("{\"kind\":\"credential_revoked\",\"name\":"@, json::json_string(e0), "}"@, x);
    json::regroup_3("{\"kind\":\"credential_revoked\",\"name\":"@, json::json_string(f0), "}"@, y);
    json::same_rest("{\"kind\":\"credential_revoked\",\"name\":"@, json::json_string(e0) + ("}"@ + x), json::json_string(f0) + ("}"@ + y));
    json::strings_are_unambiguous(e0, f0, "}"@ + x, "}"@ + y);
    json::same_rest("}"@, x, y);
}

proof fn violations_are_unambiguous(e: EventKindView, f: EventKindView, x: Seq<char>, y: Seq<char>)
    requires
        e is Violation,
        f is Violation,
        e.json() + x == f.json() + y,
    ensures
        e == f,
        x == y,
{
    let e0 = e->Violation_operation;
    let f0 = f->Violation_operation;
    let e1 = e->target;
    let f1 = f->target;
    let e2 = e->detail;
    let f2 = f->detail;
    json::regroup_7("{\"kind\":\"violation\",\"operation\":"@, json::json_string(e0), ",\"target\":"@, json::json_string(e1), ",\"detail\":"@, json::json_optional(e2), "}"@, x);
    json::regroup_7("{\"kind\":\"violation\",\"operation\":"@, json::json_string(f0), ",\"target\":"@, json::json_string(f1), ",\"detail\":"@, json::json_optional(f2), "}"@, y);
    json::same_rest("{\"kind\":\"violation\",\"operation\":"@, json::json_string(e0) + (",\"target\":"@ + (json::json_string(e1) + (",\"detail\":"@ + (json::json_optional(e2) + ("}"@ + x))))), json::json_string(f0) + (",\"target\":"@ + (json::json_string(f1) + (",\"detail\":"@ + (json::json_optional(f2) + ("}"@ + y))))));
    json::strings_are_unambiguous(e0, f0, ",\"target\":"@ + (json::json_string(e1) + (",\"detail\":"@ + (json::json_optional(e2) + ("}"@ + x)))), ",\"target\":"@ + (json::json_string(f1) + (",\"detail\":"@ + (json::json_optional(f2) + ("}"@ + y)))));
    json::same_rest(",\"target\":"@, json::json_string(e1) + (",\"detail\":"@ + (json::json_optional(e2) + ("}"@ + x))), json::json_string(f1) + (",\"detail\":"@ + (json::json_optional(f2) + ("}"@ + y))));
    json::strings_are_unambiguous(e1, f1, ",\"detail\":"@ + (json::json_optional(e2) + ("}"@ + x)), ",\"detail\":"@ + (json::json_optional(f2) + ("}"@ + y)));
    json::same_rest(",\"detail\":"@, json::json_optional(e2) + ("}"@ + x), json::json_optional(f2) + ("}"@ + y));
    json::optionals_are_unambiguous(e2, f2, "}"@ + x, "}"@ + y);
    json::same_rest("}"@, x, y);
}

proof fn notes_are_unambiguous(e: EventKindView, f: EventKindView, x: Seq<char>, y: Seq<char>)
    requires
        e is Note,
        f is Note,
        e.json() + x == f.json() + y,
    ensures
        e == f,
        x == y,
{
    let e0 = e->message;
    let f0 = f->message;
    json::regroup_3("{\"kind\":\"note\",\"message\":"@, json::json_string(e0), "}"@, x);
    json::regroup_3("{\"kind\":\"note\",\"message\":"@, json::json_string(f0), "}"@, y);
    json::same_rest("{\"kind\":\"note\",\"message\":"@, json::json_string(e0) + ("}"@ + x), json::json_string(f0) + ("}"@ + y));
    json::strings_are_unambiguous(e0, f0, "}"@ + x, "}"@ + y);
    json::same_rest("}"@, x, y);
}

/// Different things that happened have different JSON objects, and an object
/// ends where it ends.
pub proof fn objects_are_unambiguous(e: EventKindView, f: EventKindView, x: Seq<char>, y: Seq<char>)
    requires
        e.json() + x == f.json() + y,
    ensures
        e == f,
        x == y,
{
    variants_are_unambiguous(e, f, x, y);
    match e {
        EventKindView::SpaceCreated { .. } => creations_are_unambiguous(e, f, x, y),
        EventKindView::SpaceDestroyed { .. } => destructions_are_unambiguous(e, f, x, y),
        EventKindView::PolicyBound { .. } => bindings_are_unambiguous(e, f, x, y),
        EventKindView::FsAccess { .. } => accesses_are_unambiguous(e, f, x, y),
        EventKindView::NetDial { .. } => dials_are_unambiguous(e, f, x, y),
        EventKindView::Exec { .. } => starts_are_unambiguous(e, f, x, y),
        EventKindView::ExecFinished { .. } => ends_are_unambiguous(e, f, x, y),
        EventKindView::CredentialIssued { .. } => issues_are_unambiguous(e, f, x, y),
        EventKindView::CredentialRevoked { .. } => revocations_are_unambiguous(e, f, x, y),
        EventKindView::Violation { .. } => violations_are_unambiguous(e, f, x, y),
        EventKindView::Note { .. } => notes_are_unambiguous(e, f, x, y),
    }
}

/// An entry that is not sealed says what it was told and has no hashes.
pub proof fn entries_say_what_they_were_told(
    space_id: Seq<char>,
    policy_id: Seq<char>,
    task_id: Option<Seq<char>>,
    event: EventKindView,
    now: Timestamp,
)
    ensures
        ({
            let e = RecordEventView::unsealed(space_id, policy_id, task_id, event, now);
            &&& e.space_id == space_id && e.policy_id == policy_id && e.task_id == task_id
            &&& e.event == event && e.timestamp == now
            &&& e.prev_hash is None && e.event_hash is None
        }),
{
}

/// How what happened is written: as an object that names its kind first and then what
/// belongs to it.
pub proof fn how_events_are_written(e: EventKindView)
    ensures
        match e {
            EventKindView::SpaceCreated { backend, label } => e.json()
                == "{\"kind\":\"space_created\",\"backend\":"@ + json::json_string(backend)
                + ",\"label\":"@ + json::json_optional(label) + "}"@,
            EventKindView::SpaceDestroyed { reason } => e.json()
                == "{\"kind\":\"space_destroyed\",\"reason\":"@ + json::json_string(reason) + "}"@,
            EventKindView::PolicyBound { label } => e.json()
                == "{\"kind\":\"policy_bound\",\"label\":"@ + json::json_optional(label) + "}"@,
            EventKindView::FsAccess { path, operation, allowed, content_sha256 } => e.json()
                == "{\"kind\":\"fs_access\",\"path\":"@ + json::json_string(path)
                + ",\"operation\":"@ + json::json_string(operation) + ",\"allowed\":"@ + (
            if allowed {
                "true"@
            } else {
                "false"@
            }) + (match content_sha256 {
                Some(h) => ",\"content_sha256\":"@ + json::json_string(h),
                None => Seq::empty(),
            }) + "}"@,
            EventKindView::NetDial { host, port, allowed } => e.json()
                == "{\"kind\":\"net_dial\",\"host\":"@ + json::json_string(host) + ",\"port\":"@ + (
            match port {
                Some(p) => number::decimal(p as nat),
                None => "null"@,
            }) + ",\"allowed\":"@ + (if allowed {
                "true"@
            } else {
                "false"@
            }) + "}"@,
            EventKindView::Exec { program, args, allowed, args_redacted } => e.json()
                == "{\"kind\":\"exec\",\"program\":"@ + json::json_string(program)
                + ",\"args\":"@ + json::json_array(args) + ",\"allowed\":"@ + (if allowed {
                "true"@
            } else {
                "false"@
            }) + ",\"args_redacted\":"@ + (if args_redacted {
                "true"@
            } else {
                "false"@
            }) + "}"@,
            EventKindView::ExecFinished {
                program,
                exit_code,
                duration_ms,
                termination_reason,
                signal,
            } => e.json() == "{\"kind\":\"exec_finished\",\"program\":"@ + json::json_string(
                program,
            ) + (match exit_code {
                Some(n) => ",\"exit_code\":"@ + json::json_int(n as int),
                None => Seq::empty(),
            }) + ",\"duration_ms\":"@ + number::decimal(duration_ms as nat)
                + ",\"termination_reason\":"@ + json::json_string(termination_reason) + (
            match signal {
                Some(n) => ",\"signal\":"@ + json::json_int(n as int),
                None => Seq::empty(),
            }) + "}"@,
            EventKindView::CredentialIssued { name } => e.json()
                == "{\"kind\":\"credential_issued\",\"name\":"@ + json::json_string(name) + "}"@,
            EventKindView::CredentialRevoked { name } => e.json()
                == "{\"kind\":\"credential_revoked\",\"name\":"@ + json::json_string(name) + "}"@,
            EventKindView::Violation { operation, target, detail } => e.json()
                == "{\"kind\":\"violation\",\"operation\":"@ + json::json_string(operation)
                + ",\"target\":"@ + json::json_string(target) + ",\"detail\":"@
                + json::json_optional(detail) + "}"@,
            EventKindView::Note { message } => e.json() == "{\"kind\":\"note\",\"message\":"@
                + json::json_string(message) + "}"@,
        },
{
}

} // verus!
