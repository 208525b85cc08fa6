//! A space: one policy, one backend, one audit trail, from creation to
//! destruction.
use crate::backend::{ProcessExit, SpawnRequest, SpawnRequestView};
use crate::chain;
use crate::chain::content_sha256;
use crate::credentials;
use crate::credentials::{
    grant_names, inject_into_env, resolve_credentials, revoke_resolved, SourceValue,
};
use crate::egress;
use crate::egress::{EgressDecision, EgressDecisionView};
use crate::error::{
    EnforceError, EnforceErrorView, KeelError, KeelErrorView, KeelResult, PolicyErrorView,
};
use crate::event::{EventKind, EventKindView, RecordEvent, RecordEventView};
use crate::ids::{PolicyId, SpaceId};
use crate::layout;
use crate::local_process::LocalProcessOptions;
use crate::narrow;
use crate::narrow::{narrow_policy, TaskSpec};
use crate::net::NetworkPolicy;
use crate::number;
use crate::native;
use crate::native::Style;
use crate::path;
use crate::paths::FsAccess;
use crate::policy::{CredentialGrantView, Policy, PolicyView};
use crate::process_guard;
use crate::process_guard::{soft_fs_allowed, soft_fs_resolve, Probe, ProbeView};
use crate::time::Timestamp;
use vstd::prelude::*;
use vstd::string::*;

verus! {

#[derive(Clone, Copy, Debug, PartialEq, Eq, Structural)]
pub enum SpaceState {
    Creating,
    Open,
    Destroying,
    Destroyed,
}

impl SpaceState {
    pub open spec fn text(self) -> Seq<char> {
        match self {
            SpaceState::Creating => "creating"@,
            SpaceState::Open => "open"@,
            SpaceState::Destroying => "destroying"@,
            SpaceState::Destroyed => "destroyed"@,
        }
    }
}

/// Options for opening a space.
#[derive(Clone, Copy, Debug, PartialEq, Eq, Structural)]
pub struct SpaceOptions {
    /// Keep the audit trail on disk.
    pub persist_events: bool,
    /// Keep a copy of the audit trail in memory.
    pub memory_events: bool,
    /// Keep the policy beside the audit trail.
    pub persist_policy: bool,
    /// Refuse to start programs whose credentials are missing.
    pub strict_credentials: bool,
    /// Record denials as violations.
    pub record_violations: bool,
    /// Chain the entries of the audit trail.
    pub integrity_chain: bool,
}

impl Default for SpaceOptions {
    fn default() -> (r: Self)
        ensures
            r == (SpaceOptions {
                persist_events: true,
                memory_events: false,
                persist_policy: true,
                strict_credentials: false,
                record_violations: true,
                integrity_chain: true,
            }),
    {
        SpaceOptions {
            persist_events: true,
            memory_events: false,
            persist_policy: true,
            strict_credentials: false,
            record_violations: true,
            integrity_chain: true,
        }
    }
}

/// Where the audit trail of a space goes and what else is written.
#[derive(Debug)]
pub struct StoragePlan {
    /// A sink in memory.
    pub memory: bool,
    /// A sink in this file.
    pub events_path: Option<String>,
    /// Whether the entries are chained before they go there.
    pub chained: bool,
    /// The policy goes into this file.
    pub policy_path: Option<String>,
}

#[verifier::ext_equal]
pub struct StoragePlanView {
    pub memory: bool,
    pub events_path: Option<Seq<char>>,
    pub chained: bool,
    pub policy_path: Option<Seq<char>>,
}

impl View for StoragePlan {
    type V = StoragePlanView;

    open spec fn view(&self) -> StoragePlanView {
        StoragePlanView {
            memory: self.memory,
            events_path: self.events_path.deep_view(),
            chained: self.chained,
            policy_path: self.policy_path.deep_view(),
        }
    }
}

/// Where the audit trail goes. With a sink of the host's own it goes only there;
/// otherwise there is at least one sink.
pub open spec fn storage(
    style: Style,
    opts: SpaceOptions,
    own_sink: bool,
    state_dir: Seq<char>,
    id: Seq<char>,
) -> StoragePlanView {
    let dir = layout::space_dir_path(style, state_dir, id);
    StoragePlanView {
        memory: !own_sink && (opts.memory_events || !opts.persist_events),
        events_path: if !own_sink && opts.persist_events {
            Some(native::joined(style, dir, "events.jsonl"@))
        } else {
            None
        },
        chained: opts.integrity_chain,
        policy_path: if opts.persist_policy && opts.persist_events {
            Some(native::joined(style, dir, "policy.json"@))
        } else {
            None
        },
    }
}

/// A space.
#[derive(Debug)]
pub struct Space {
    id: SpaceId,
    policy: Policy,
    events_path: Option<String>,
    opts: SpaceOptions,
    state: SpaceState,
}

#[verifier::ext_equal]
pub struct SpaceView {
    pub id: Seq<char>,
    pub policy: PolicyView,
    pub events_path: Option<Seq<char>>,
    pub opts: SpaceOptions,
    pub state: SpaceState,
}

impl View for Space {
    type V = SpaceView;

    closed spec fn view(&self) -> SpaceView {
        SpaceView {
            id: self.id@,
            policy: self.policy@,
            events_path: self.events_path.deep_view(),
            opts: self.opts,
            state: self.state,
        }
    }
}

impl SpaceView {
    /// An entry of the space's audit trail.
    pub open spec fn entry(self, event: EventKindView, now: Timestamp) -> RecordEventView {
        RecordEventView::unsealed(self.id, self.policy.id, self.policy.task_id, event, now)
    }

    /// Why the space does not take on work, if it does not.
    pub open spec fn closed_reason(self) -> Option<KeelErrorView> {
        if self.state == SpaceState::Open {
            None
        } else {
            Some(KeelErrorView::NotOpen(self.state.text()))
        }
    }

    /// Why the space does not answer a request, if it does not.
    pub open spec fn refusal(self, now: Timestamp) -> Option<KeelErrorView> {
        if self.closed_reason() is Some {
            self.closed_reason()
        } else if self.policy.expired(now) {
            Some(KeelErrorView::Enforce(EnforceErrorView::PolicyExpired))
        } else {
            None
        }
    }
}

/// What a check is called in the audit trail.
pub open spec fn check_name(write: bool) -> Seq<char> {
    if write {
        "check_write"@
    } else {
        "check_read"@
    }
}

/// The entries for a file check: the check, and the violation if it was denied
/// and violations are recorded.
pub open spec fn fs_entries(s: SpaceView, p: Seq<char>, write: bool, allowed: bool, now: Timestamp)
    -> Seq<RecordEventView> {
    let check = s.entry(
        EventKindView::FsAccess {
            path: p,
            operation: check_name(write),
            allowed,
            content_sha256: None,
        },
        now,
    );
    if !allowed && s.opts.record_violations {
        seq![
            check,
            s.entry(
                EventKindView::Violation {
                    operation: check_name(write),
                    target: p,
                    detail: Some("advisory soft deny (use SpaceFs for real I/O)"@),
                },
                now,
            ),
        ]
    } else {
        seq![check]
    }
}

/// The entries for a check of a connection.
pub open spec fn dial_entries(
    s: SpaceView,
    host: Seq<char>,
    port: u16,
    decision: EgressDecisionView,
    now: Timestamp,
) -> Seq<RecordEventView> {
    let dial = s.entry(
        EventKindView::NetDial { host, port: Some(port), allowed: decision is Allow },
        now,
    );
    match decision {
        EgressDecisionView::Deny { reason } => if s.opts.record_violations {
            seq![
                dial,
                s.entry(
                    EventKindView::Violation {
                        operation: "connect"@,
                        target: host + ":"@ + number::decimal(port as nat),
                        detail: Some(reason),
                    },
                    now,
                ),
            ]
        } else {
            seq![dial]
        },
        EgressDecisionView::Allow => seq![dial],
    }
}

/// The entries for credentials that were handed out.
pub open spec fn issue_entries(s: SpaceView, names: Seq<Seq<char>>, now: Timestamp) -> Seq<
    RecordEventView,
> {
    names.map_values(
        |n: Seq<char>| s.entry(EventKindView::CredentialIssued { name: n }, now),
    )
}

/// The entries for credentials that were taken back.
pub open spec fn revoke_entries(s: SpaceView, now: Timestamp) -> Seq<RecordEventView> {
    s.policy.credentials.map_values(
        |c: CredentialGrantView|
            s.entry(EventKindView::CredentialRevoked { name: c.name }, now),
    )
}

/// Why no space is created, if none is.
pub open spec fn creation_refusal(policy: PolicyView, now: Timestamp) -> Option<KeelErrorView> {
    match policy.problem() {
        Some(m) => Some(KeelErrorView::Policy(PolicyErrorView::Invalid(m))),
        None => if policy.expired(now) {
            Some(KeelErrorView::Enforce(EnforceErrorView::PolicyExpired))
        } else {
            None
        },
    }
}

/// A space that is being created, with what has to be done for it.
#[derive(Debug)]
pub struct NewSpace {
    pub space: Space,
    pub storage: StoragePlan,
    /// The first entries of its audit trail.
    pub events: Vec<RecordEvent>,
}

/// A program that may be handed to the backend, with the entries for it.
#[derive(Debug)]
pub struct PreparedSpawn {
    pub req: SpawnRequest,
    pub events: Vec<RecordEvent>,
}

impl Space {
    /// Creates a space for the policy. It is open once its backend has taken the
    /// policy on.
    pub fn create_with_sink(
        policy: Policy,
        id: SpaceId,
        opts: SpaceOptions,
        own_sink: bool,
        state_dir: &str,
        backend: &str,
        now: Timestamp,
    ) -> (r: KeelResult<NewSpace>)
        ensures
            match r {
                Err(e) => creation_refusal(policy@, now) == Some(e@),
                Ok(n) => {
                    &&& creation_refusal(policy@, now) is None
                    &&& n.storage@ == storage(policy@.style, opts, own_sink, state_dir@, id@)
                    &&& n.space@ == (SpaceView {
                        id: id@,
                        policy: policy@,
                        events_path: n.storage@.events_path,
                        opts,
                        state: SpaceState::Creating,
                    })
                    &&& n.events.deep_view() == seq![
                        n.space@.entry(
                            EventKindView::SpaceCreated {
                                backend: backend@,
                                label: policy@.label,
                            },
                            now,
                        ),
                        n.space@.entry(EventKindView::PolicyBound { label: policy@.label }, now),
                    ]
                },
            },
    {
        match policy.validate() {
            Ok(_) => {},
            Err(e) => return Err(KeelError::Policy(e)),
        }
        if policy.is_expired(now) {
            return Err(KeelError::Enforce(EnforceError::PolicyExpired));
        }
        let events_path = if !own_sink && opts.persist_events {
            Some(layout::space_events_path(policy.style, state_dir, &id))
        } else {
            None
        };
        let policy_path = if opts.persist_policy && opts.persist_events {
            Some(layout::space_policy_path(policy.style, state_dir, &id))
        } else {
            None
        };
        let storage = StoragePlan {
            memory: !own_sink && (opts.memory_events || !opts.persist_events),
            events_path: events_path.clone(),
            chained: opts.integrity_chain,
            policy_path,
        };
        let label = policy.label.clone();
        let space = Space { id, policy, events_path, opts, state: SpaceState::Creating };
        let mut events: Vec<RecordEvent> = Vec::new();
        events.push(
            space.event(
                EventKind::SpaceCreated { backend: backend.to_owned(), label: label.clone() },
                now,
            ),
        );
        events.push(space.event(EventKind::PolicyBound { label }, now));
        assert(events.deep_view() =~= seq![
            space@.entry(
                EventKindView::SpaceCreated { backend: backend@, label: policy@.label },
                now,
            ),
            space@.entry(EventKindView::PolicyBound { label: policy@.label }, now),
        ]);
        Ok(NewSpace { space, storage, events })
    }

    /// The backend has taken the policy on: the space is open.
    pub fn opened(&mut self)
        requires
            old(self)@.state == SpaceState::Creating,
        ensures
            final(self)@ == (SpaceView { state: SpaceState::Open, ..old(self)@ }),
    {
        self.state = SpaceState::Open;
    }

    pub fn id(&self) -> (r: &SpaceId)
        ensures
            r@ == self@.id,
    {
        &self.id
    }

    pub fn policy(&self) -> (r: &Policy)
        ensures
            r@ == self@.policy,
    {
        &self.policy
    }

    /// The file that the audit trail goes to.
    pub fn events_path(&self) -> (r: &Option<String>)
        ensures
            r.deep_view() == self@.events_path,
    {
        &self.events_path
    }

    pub fn options(&self) -> (r: SpaceOptions)
        ensures
            r == self@.opts,
    {
        self.opts
    }

    pub fn state(&self) -> (r: SpaceState)
        ensures
            r == self@.state,
    {
        self.state
    }

    /// An entry of the space's audit trail.
    pub fn event(&self, event: EventKind, now: Timestamp) -> (r: RecordEvent)
        ensures
            r@ == self@.entry(event@, now),
    {
        RecordEvent::new(
            self.id.clone(),
            self.policy.id.clone(),
            self.policy.task_id.clone(),
            event,
            now,
        )
    }

    /// Whether the space is open.
    pub fn ensure_open(&self) -> (r: KeelResult<()>)
        ensures
            match r {
                Ok(_) => self@.closed_reason() is None,
                Err(e) => self@.closed_reason() == Some(e@),
            },
    {
        match self.state {
            SpaceState::Open => Ok(()),
            SpaceState::Creating => Err(KeelError::NotOpen("creating".to_owned())),
            SpaceState::Destroying => Err(KeelError::NotOpen("destroying".to_owned())),
            SpaceState::Destroyed => Err(KeelError::NotOpen("destroyed".to_owned())),
        }
    }

    /// Whether the space answers requests.
    pub fn ensure_ready(&self, now: Timestamp) -> (r: KeelResult<()>)
        ensures
            match r {
                Ok(_) => self@.refusal(now) is None,
                Err(e) => self@.refusal(now) == Some(e@),
            },
    {
        match self.ensure_open() {
            Ok(_) => {},
            Err(e) => return Err(e),
        }
        if self.policy.is_expired(now) {
            return Err(KeelError::Enforce(EnforceError::PolicyExpired));
        }
        Ok(())
    }

    /// The entries for a file check that the backend answered with `allowed`.
    pub fn check_fs(&self, p: &str, write: bool, allowed: bool, now: Timestamp) -> (r: KeelResult<
        Vec<RecordEvent>,
    >)
        ensures
            match r {
                Err(e) => self@.refusal(now) == Some(e@),
                Ok(events) => self@.refusal(now) is None && events.deep_view() == fs_entries(
                    self@,
                    p@,
                    write,
                    allowed,
                    now,
                ),
            },
    {
        match self.ensure_ready(now) {
            Ok(_) => {},
            Err(e) => return Err(e),
        }
        let op = if write {
            "check_write"
        } else {
            "check_read"
        };
        let mut events: Vec<RecordEvent> = Vec::new();
        events.push(
            self.event(
                EventKind::FsAccess {
                    path: p.to_owned(),
                    operation: op.to_owned(),
                    allowed,
                    content_sha256: None,
                },
                now,
            ),
        );
        if !allowed && self.opts.record_violations {
            events.push(
                self.event(
                    EventKind::Violation {
                        operation: op.to_owned(),
                        target: p.to_owned(),
                        detail: Some("advisory soft deny (use SpaceFs for real I/O)".to_owned()),
                    },
                    now,
                ),
            );
        }
        assert(events.deep_view() =~= fs_entries(self@, p@, write, allowed, now));
        Ok(events)
    }

    /// Whether a connection is permitted, with the entries for it.
    pub fn check_egress(&self, host: &str, port: u16, now: Timestamp) -> (r: KeelResult<
        (bool, Vec<RecordEvent>),
    >)
        ensures
            match r {
                Err(e) => self@.refusal(now) == Some(e@),
                Ok((allowed, events)) => {
                    let decision = egress::decision(self@.policy.network, host@, port);
                    &&& self@.refusal(now) is None
                    &&& allowed == (decision is Allow)
                    &&& events.deep_view() == dial_entries(self@, host@, port, decision, now)
                },
            },
    {
        match self.ensure_ready(now) {
            Ok(_) => {},
            Err(e) => return Err(e),
        }
        let decision = egress::check_egress(&self.policy.network, host, port);
        let allowed = decision.is_allowed();
        let ghost d = decision@;
        let mut events: Vec<RecordEvent> = Vec::new();
        events.push(
            self.event(
                EventKind::NetDial { host: host.to_owned(), port: Some(port), allowed },
                now,
            ),
        );
        if let EgressDecision::Deny { reason } = decision {
            if self.opts.record_violations {
                let target = host.to_owned().concat(":").concat(
                    number::to_decimal(port as u64).as_str(),
                );
                events.push(
                    self.event(
                        EventKind::Violation {
                            operation: "connect".to_owned(),
                            target,
                            detail: Some(reason),
                        },
                        now,
                    ),
                );
            }
        }
        assert(events.deep_view() =~= dial_entries(self@, host@, port, d, now));
        Ok((allowed, events))
    }

    /// Prepares a program for the backend: its credentials are put into its
    /// environment, and handing them out is recorded by name. `found` holds what
    /// was found at the sources of the credentials.
    pub fn spawn(&self, req: SpawnRequest, found: &Vec<SourceValue>, now: Timestamp) -> (r:
        KeelResult<PreparedSpawn>)
        requires
            found@.len() == self@.policy.credentials.len(),
            forall|i: int|
                0 <= i < found@.len() ==> credentials::fits(
                    self@.policy.credentials[i],
                    (#[trigger] found@[i])@,
                ),
        ensures
            ({
                let grants = self@.policy.credentials;
                let strict = self@.opts.strict_credentials;
                let (env, names) = credentials::injected(
                    req@.env,
                    credentials::all_resolved(grants, found.deep_view()),
                );
                match r {
                    Err(e) => if self@.refusal(now) is Some {
                        self@.refusal(now) == Some(e@)
                    } else {
                        &&& strict
                        &&& credentials::strict_refusal(grants, found.deep_view()) is Some
                        &&& e@ == KeelErrorView::Enforce(
                            credentials::strict_refusal(grants, found.deep_view())->0,
                        )
                    },
                    Ok(p) => {
                        &&& self@.refusal(now) is None
                        &&& strict ==> credentials::strict_refusal(
                            grants,
                            found.deep_view(),
                        ) is None
                        &&& p.req@ == (SpawnRequestView { env, ..req@ })
                        &&& p.events.deep_view() == issue_entries(self@, names, now)
                    },
                }
            }),
    {
        match self.ensure_ready(now) {
            Ok(_) => {},
            Err(e) => return Err(e),
        }
        let mut resolved = match resolve_credentials(
            &self.policy,
            found,
            self.opts.strict_credentials,
        ) {
            Ok(c) => c,
            Err(e) => return Err(KeelError::Enforce(e)),
        };
        let ghost start = req@;
        let mut req = req;
        let given = resolved.as_slice();
        assert(given.deep_view() =~= resolved.deep_view());
        let issued = inject_into_env(&mut req.env, given);
        assert(req@ =~= (SpawnRequestView { env: req@.env, ..start }));
        let ghost names = issued.deep_view();
        let ghost goal = issue_entries(self@, names, now);
        let mut events: Vec<RecordEvent> = Vec::new();
        let mut i: usize = 0;
        while i < issued.len()
            invariant
                names == issued.deep_view(),
                goal == issue_entries(self@, names, now),
                i <= issued.len(),
                events.deep_view() == goal.take(i as int),
            decreases issued.len() - i,
        {
            assert(names[i as int] == issued@[i as int]@);
            let ghost before = events.deep_view();
            events.push(
                self.event(EventKind::CredentialIssued { name: issued[i].clone() }, now),
            );
            i += 1;
            assert(events.deep_view() =~= before.push(goal[i - 1]));
            assert(events.deep_view() =~= goal.take(i as int));
        }
        assert(goal.take(goal.len() as int) =~= goal);
        revoke_resolved(&mut resolved);
        Ok(PreparedSpawn { req, events })
    }

    /// The entry for a program that came to its end.
    pub fn finished(&self, program: &str, exit: &ProcessExit, now: Timestamp) -> (r: RecordEvent)
        ensures
            r@ == self@.entry(
                EventKindView::ExecFinished {
                    program: program@,
                    exit_code: exit.exit_code,
                    duration_ms: exit.duration_ms,
                    termination_reason: exit.termination_reason.text(),
                    signal: exit.signal,
                },
                now,
            ),
    {
        self.event(
            EventKind::ExecFinished {
                program: program.to_owned(),
                exit_code: exit.exit_code,
                duration_ms: exit.duration_ms,
                termination_reason: exit.termination_reason.as_str().to_owned(),
                signal: exit.signal,
            },
            now,
        )
    }

    /// The policy of a subtask, which can only reach less than this space.
    pub fn open_task(&self, task: TaskSpec, id: PolicyId, now: Timestamp) -> (r: KeelResult<Policy>)
        requires
            narrow::reach_refusal(self@.policy, task@) is None && task.ttl is Some
                ==> now.ordinary() && task.ttl->0.well_formed() && now.reaches(task.ttl->0),
        ensures
            match r {
                Ok(child) => {
                    &&& self@.closed_reason() is None
                    &&& narrow::refusal(self@.policy, task@, id@, now) is None
                    &&& child@ == narrow::narrowed(self@.policy, task@, id@, now)
                },
                Err(e) => if self@.closed_reason() is Some {
                    self@.closed_reason() == Some(e@)
                } else {
                    &&& narrow::refusal(self@.policy, task@, id@, now) is Some
                    &&& e@ == KeelErrorView::Policy(
                        PolicyErrorView::Invalid(
                            narrow::refusal(self@.policy, task@, id@, now)->0,
                        ),
                    )
                },
            },
    {
        match self.ensure_open() {
            Ok(_) => {},
            Err(e) => return Err(e),
        }
        match narrow_policy(&self.policy, task, id, now) {
            Ok(p) => Ok(p),
            Err(e) => Err(KeelError::Policy(e)),
        }
    }

    /// Begins to destroy the space: the entries for its credentials, or `None`
    /// if that was done before.
    pub fn begin_destroy(&mut self, now: Timestamp) -> (r: Option<Vec<RecordEvent>>)
        ensures
            match r {
                None => {
                    &&& old(self)@.state == SpaceState::Destroying || old(self)@.state
                        == SpaceState::Destroyed
                    &&& final(self)@ == old(self)@
                },
                Some(events) => {
                    &&& old(self)@.state == SpaceState::Creating || old(self)@.state
                        == SpaceState::Open
                    &&& final(self)@ == (SpaceView { state: SpaceState::Destroying, ..old(self)@ })
                    &&& events.deep_view() == revoke_entries(old(self)@, now)
                },
            },
    {
        if self.state == SpaceState::Destroyed || self.state == SpaceState::Destroying {
            return None;
        }
        let ghost s = self@;
        self.state = SpaceState::Destroying;
        let names = grant_names(&self.policy);
        let ghost nm = names.deep_view();
        let ghost goal = revoke_entries(s, now);
        let mut events: Vec<RecordEvent> = Vec::new();
        let mut i: usize = 0;
        while i < names.len()
            invariant
                nm == names.deep_view(),
                nm == s.policy.credentials.map_values(|c: CredentialGrantView| c.name),
                goal == revoke_entries(s, now),
                nm.len() == goal.len(),
                names@.len() == nm.len(),
                self@ == (SpaceView { state: SpaceState::Destroying, ..s }),
                i <= names.len(),
                events.deep_view() == goal.take(i as int),
            decreases names.len() - i,
        {
            assert(nm[i as int] == names@[i as int]@);
            let ghost before = events.deep_view();
            events.push(self.event(EventKind::CredentialRevoked { name: names[i].clone() }, now));
            i += 1;
            assert(events.deep_view() =~= before.push(goal[i - 1]));
            assert(events.deep_view() =~= goal.take(i as int));
        }
        assert(goal.take(goal.len() as int) =~= goal);
        Some(events)
    }

    /// The last entry of the space.
    pub fn destroyed_event(&self, now: Timestamp) -> (r: RecordEvent)
        ensures
            r@ == self@.entry(EventKindView::SpaceDestroyed { reason: "explicit"@ }, now),
    {
        self.event(EventKind::SpaceDestroyed { reason: "explicit".to_owned() }, now)
    }

    /// The last entry has been written: the space is gone.
    pub fn destroyed(&mut self)
        requires
            old(self)@.state == SpaceState::Destroying,
        ensures
            final(self)@ == (SpaceView { state: SpaceState::Destroyed, ..old(self)@ }),
    {
        self.state = SpaceState::Destroyed;
    }
}

/// Options of the backend for a space that confines this process: only a policy
/// without network blocks the network of the process itself.
pub fn confined_options(policy: &Policy) -> (r: LocalProcessOptions)
    ensures
        r == (LocalProcessOptions {
            isolate_apply: false,
            require_kernel: true,
            block_process_network: policy@.network is DenyAll,
            ..LocalProcessOptions::usual()
        }),
{
    let mut opts = LocalProcessOptions::confine_host();
    opts.block_process_network = matches!(policy.network, NetworkPolicy::DenyAll);
    opts
}

// ---------------------------------------------------------------------------
// Files
// ---------------------------------------------------------------------------
/// What is known of a path in a space.
#[derive(Debug)]
pub struct SpacePathMeta {
    pub path: String,
    pub len: u64,
    pub is_file: bool,
    pub is_dir: bool,
    pub is_symlink: bool,
    pub modified: Option<Timestamp>,
}

/// Where a file operation would go, and whether the policy permits it both where
/// it was asked for and where it would go.
#[derive(Debug)]
pub struct FsTarget {
    pub resolved: String,
    pub permitted: bool,
}

/// What is said of a file operation that is not permitted.
pub open spec fn fs_denial(p: Seq<char>, write: bool) -> KeelErrorView {
    KeelErrorView::Other(
        (if write {
            "fs write denied by policy: "@
        } else {
            "fs read denied by policy: "@
        }) + p,
    )
}

/// Where a file operation goes, or why it does not go ahead, in an open space.
/// `backend_allows` is what the backend answers for the place where it would go.
pub open spec fn fs_verdict(
    policy: PolicyView,
    p: Seq<char>,
    write: bool,
    probes: Seq<ProbeView>,
    backend_allows: bool,
) -> Result<Seq<char>, KeelErrorView> {
    match process_guard::resolution(
        policy.style,
        native::resolved(policy.style, policy.workspace, p),
        probes,
    ) {
        Err(m) => Err(KeelErrorView::Other(m)),
        Ok(t) => if process_guard::allowed(policy, p, write) && process_guard::allowed(
            policy,
            t,
            write,
        ) && backend_allows {
            Ok(t)
        } else {
            Err(fs_denial(p, write))
        },
    }
}

/// Where a file operation would go, from what was found on disk.
pub fn fs_target(policy: &Policy, p: &str, write: bool, probes: &Vec<Probe>) -> (r: KeelResult<
    FsTarget,
>)
    ensures
        ({
            let want = process_guard::resolution(
                policy@.style,
                native::resolved(policy@.style, policy@.workspace, p@),
                probes.deep_view(),
            );
            match r {
                Ok(t) => {
                    &&& want == Ok::<Seq<char>, Seq<char>>(t.resolved@)
                    &&& t.permitted == (process_guard::allowed(policy@, p@, write)
                        && process_guard::allowed(policy@, t.resolved@, write))
                },
                Err(e) => want is Err && e@ == KeelErrorView::Other(want->Err_0),
            }
        }),
{
    match soft_fs_resolve(policy, p, probes) {
        Ok(resolved) => {
            let permitted = soft_fs_allowed(policy, p, write) && soft_fs_allowed(
                policy,
                resolved.as_str(),
                write,
            );
            Ok(FsTarget { resolved, permitted })
        },
        Err(m) => Err(KeelError::Other(m)),
    }
}

/// What becomes of a file operation: what is recorded, and whether it goes ahead.
#[derive(Debug)]
pub struct FsOutcome {
    pub events: Vec<RecordEvent>,
    pub verdict: KeelResult<()>,
}

impl Space {
    /// Decides on a file operation that would go to `target`, for which the
    /// backend answers `backend_allows`. The check is recorded for the place
    /// where the operation would go.
    pub fn authorize(
        &self,
        p: &str,
        write: bool,
        target: &FsTarget,
        backend_allows: bool,
        now: Timestamp,
    ) -> (r: KeelResult<FsOutcome>)
        ensures
            match r {
                Err(e) => self@.refusal(now) == Some(e@),
                Ok(o) => {
                    &&& self@.refusal(now) is None
                    &&& o.events.deep_view() == fs_entries(
                        self@,
                        target.resolved@,
                        write,
                        backend_allows,
                        now,
                    )
                    &&& match o.verdict {
                        Ok(_) => target.permitted && backend_allows,
                        Err(e) => !(target.permitted && backend_allows) && e@ == fs_denial(
                            p@,
                            write,
                        ),
                    }
                },
            },
    {
        let events = match self.check_fs(target.resolved.as_str(), write, backend_allows, now) {
            Ok(events) => events,
            Err(e) => return Err(e),
        };
        let verdict = if target.permitted && backend_allows {
            Ok(())
        } else {
            let what = if write {
                "fs write denied by policy: "
            } else {
                "fs read denied by policy: "
            };
            Err(KeelError::Other(what.to_owned().concat(p)))
        };
        Ok(FsOutcome { events, verdict })
    }

    /// Decides on a file operation under a backend that judges paths by the
    /// policy alone, from what was found on disk.
    pub fn authorize_by_policy(
        &self,
        p: &str,
        write: bool,
        probes: &Vec<Probe>,
        now: Timestamp,
    ) -> (r: KeelResult<(FsTarget, FsOutcome)>)
        ensures
            ({
                let policy = self@.policy;
                let want = process_guard::resolution(
                    policy.style,
                    native::resolved(policy.style, policy.workspace, p@),
                    probes.deep_view(),
                );
                match r {
                    Err(e) => if want is Err {
                        e@ == KeelErrorView::Other(want->Err_0)
                    } else {
                        self@.refusal(now) == Some(e@)
                    },
                    Ok((t, o)) => {
                        let answer = process_guard::allowed(policy, t.resolved@, write);
                        let verdict = fs_verdict(policy, p@, write, probes.deep_view(), answer);
                        &&& self@.refusal(now) is None
                        &&& want == Ok::<Seq<char>, Seq<char>>(t.resolved@)
                        &&& o.events.deep_view() == fs_entries(
                            self@,
                            t.resolved@,
                            write,
                            answer,
                            now,
                        )
                        &&& match o.verdict {
                            Ok(_) => verdict == Ok::<Seq<char>, KeelErrorView>(t.resolved@),
                            Err(e) => verdict == Err::<Seq<char>, KeelErrorView>(e@),
                        }
                    },
                }
            }),
    {
        let target = match fs_target(&self.policy, p, write, probes) {
            Ok(t) => t,
            Err(e) => return Err(e),
        };
        let answer = soft_fs_allowed(&self.policy, target.resolved.as_str(), write);
        match self.authorize(p, write, &target, answer, now) {
            Ok(outcome) => Ok((target, outcome)),
            Err(e) => Err(e),
        }
    }

    /// The entry for what was written to a file, or read from it: the digest of
    /// it, and not the content.
    pub fn content_event(&self, p: &str, write: bool, data: &[u8], now: Timestamp) -> (r:
        RecordEvent)
        ensures
            r@ == self@.entry(
                EventKindView::FsAccess {
                    path: p@,
                    operation: if write {
                        "write"@
                    } else {
                        "read"@
                    },
                    allowed: true,
                    content_sha256: Some(chain::hash_text(data@)),
                },
                now,
            ),
    {
        let op = if write {
            "write"
        } else {
            "read"
        };
        self.event(
            EventKind::FsAccess {
                path: p.to_owned(),
                operation: op.to_owned(),
                allowed: true,
                content_sha256: Some(content_sha256(data)),
            },
            now,
        )
    }
}

// ---------------------------------------------------------------------------
// Laws
// ---------------------------------------------------------------------------
/// A space that is not open answers nothing, whatever the time.
pub proof fn closed_spaces_answer_nothing(s: SpaceView, now: Timestamp)
    requires
        s.state != SpaceState::Open,
    ensures
        s.refusal(now) == Some(KeelErrorView::NotOpen(s.state.text())),
{
}

/// From its deadline on, a space answers nothing.
pub proof fn expired_spaces_answer_nothing(s: SpaceView, now: Timestamp)
    requires
        s.policy.expired(now),
    ensures
        s.refusal(now) is Some,
{
}

/// Every check is on the audit trail with its answer, and every denial also as a
/// violation, where violations are recorded.
pub proof fn checks_are_recorded(
    s: SpaceView,
    p: Seq<char>,
    write: bool,
    allowed: bool,
    now: Timestamp,
)
    ensures
        ({
            let e = fs_entries(s, p, write, allowed, now);
            &&& e.len() > 0
            &&& e[0].event == (EventKindView::FsAccess {
                path: p,
                operation: check_name(write),
                allowed,
                content_sha256: None,
            })
            &&& e.len() == 2 <==> !allowed && s.opts.record_violations
            &&& e.len() == 2 ==> e[1].event is Violation
        }),
{
}

/// Handing out credentials records their names, and nothing of the secrets: the
/// entries are the same whatever the secrets are.
pub proof fn secrets_are_not_recorded(
    s: SpaceView,
    env: Seq<(Seq<char>, Seq<char>)>,
    creds: Seq<credentials::ResolvedCredentialView>,
    other: Seq<credentials::ResolvedCredentialView>,
    now: Timestamp,
)
    requires
        creds.len() == other.len(),
        forall|i: int|
            0 <= i < creds.len() ==> (#[trigger] creds[i]).name == other[i].name && creds[i].env_key
                == other[i].env_key,
    ensures
        issue_entries(s, credentials::injected(env, creds).1, now) == issue_entries(
            s,
            credentials::injected(env, other).1,
            now,
        ),
{
    names_do_not_depend_on_values(env, creds, other);
}

proof fn names_do_not_depend_on_values(
    env: Seq<(Seq<char>, Seq<char>)>,
    creds: Seq<credentials::ResolvedCredentialView>,
    other: Seq<credentials::ResolvedCredentialView>,
)
    requires
        creds.len() == other.len(),
        forall|i: int|
            0 <= i < creds.len() ==> (#[trigger] creds[i]).name == other[i].name && creds[i].env_key
                == other[i].env_key,
    ensures
        credentials::injected(env, creds).1 == credentials::injected(env, other).1,
        credentials::injected(env, creds).0.len() == credentials::injected(env, other).0.len(),
        forall|i: int|
            0 <= i < credentials::injected(env, creds).0.len() ==> (
            #[trigger] credentials::injected(env, creds).0[i]).0 == credentials::injected(
                env,
                other,
            ).0[i].0,
    decreases creds.len(),
{
    if creds.len() > 0 {
        let a = creds.drop_last();
        let b = other.drop_last();
        assert forall|i: int| 0 <= i < a.len() implies (#[trigger] a[i]).name == b[i].name
            && a[i].env_key == b[i].env_key by {
            assert(a[i] == creds[i]);
        }
        names_do_not_depend_on_values(env, a, b);
        let ea = credentials::injected(env, a).0;
        let eb = credentials::injected(env, b).0;
        let k = creds.last().env_key;
        assert(creds[creds.len() - 1].env_key == other[creds.len() - 1].env_key);
        assert(credentials::has_key(ea, k) == credentials::has_key(eb, k)) by {
            if credentials::has_key(ea, k) {
                let i = choose|i: int| 0 <= i < ea.len() && (#[trigger] ea[i]).0 == k;
                assert(eb[i].0 == k);
            }
            if credentials::has_key(eb, k) {
                let i = choose|i: int| 0 <= i < eb.len() && (#[trigger] eb[i]).0 == k;
                assert(ea[i].0 == k);
            }
        }
    }
}

/// A symbolic link does not lead to a denied path: whatever the path that was
/// asked for, an operation that goes ahead ends outside every denied path.
pub proof fn links_do_not_lead_to_denied_paths(
    policy: PolicyView,
    p: Seq<char>,
    probes: Seq<ProbeView>,
    write: bool,
    backend_allows: bool,
    rule: int,
)
    requires
        0 <= rule < policy.fs.len(),
        policy.fs[rule].access == FsAccess::Deny,
        !policy.fs[rule].glob,
        fs_verdict(policy, p, write, probes, backend_allows) is Ok,
    ensures
        ({
            let target = fs_verdict(policy, p, write, probes, backend_allows)->Ok_0;
            let denied = native::resolved(policy.style, policy.workspace, policy.fs[rule].path);
            &&& !native::under(policy.style, native::resolved(policy.style, policy.workspace, target), denied)
            &&& !native::under(policy.style, native::resolved(policy.style, policy.workspace, p), denied)
        }),
{
    let target = fs_verdict(policy, p, write, probes, backend_allows)->Ok_0;
    let denied = native::resolved(policy.style, policy.workspace, policy.fs[rule].path);
    if native::under(policy.style, native::resolved(policy.style, policy.workspace, target), denied) {
        process_guard::deny_wins(policy, rule, target, write);
    }
    if native::under(policy.style, native::resolved(policy.style, policy.workspace, p), denied) {
        process_guard::deny_wins(policy, rule, p, write);
    }
}

/// A symbolic link does not lead out of what may be written: an operation that
/// writes ends at or below a path with a read-write rule.
pub proof fn writes_end_where_a_rule_permits(
    policy: PolicyView,
    p: Seq<char>,
    probes: Seq<ProbeView>,
    backend_allows: bool,
)
    requires
        fs_verdict(policy, p, true, probes, backend_allows) is Ok,
    ensures
        exists|i: int|
            0 <= i < policy.fs.len() && (#[trigger] policy.fs[i]).access == FsAccess::ReadWrite
                && native::under(
                policy.style,
                native::resolved(
                    policy.style,
                    policy.workspace,
                    fs_verdict(policy, p, true, probes, backend_allows)->Ok_0,
                ),
                native::resolved(policy.style, policy.workspace, policy.fs[i].path),
            ),
{
    let target = fs_verdict(policy, p, true, probes, backend_allows)->Ok_0;
    process_guard::write_needs_a_rule(policy, target);
}

/// The audit trail of a space always goes somewhere.
pub proof fn events_are_never_dropped(
    style: Style,
    opts: SpaceOptions,
    own_sink: bool,
    state_dir: Seq<char>,
    id: Seq<char>,
)
    ensures
        ({
            let plan = storage(style, opts, own_sink, state_dir, id);
            own_sink || plan.memory || plan.events_path is Some
        }),
{
}

/// A space answers if and only if it is open and its policy has not expired.
pub proof fn when_spaces_answer(s: SpaceView, now: Timestamp)
    ensures
        s.refusal(now) is None <==> s.state == SpaceState::Open && !s.policy.expired(now),
        s.state != SpaceState::Open ==> s.refusal(now) == Some(
            KeelErrorView::NotOpen(
                match s.state {
                    SpaceState::Creating => "creating"@,
                    SpaceState::Open => "open"@,
                    SpaceState::Destroying => "destroying"@,
                    SpaceState::Destroyed => "destroyed"@,
                },
            ),
        ),
        s.state == SpaceState::Open && s.policy.expired(now) ==> s.refusal(now) == Some(
            KeelErrorView::Enforce(EnforceErrorView::PolicyExpired),
        ),
{
}

/// A space is made for a policy if and only if the policy can be used and has not
/// expired.
pub proof fn which_policies_get_a_space(policy: PolicyView, now: Timestamp)
    ensures
        creation_refusal(policy, now) is None <==> policy.problem() is None && !policy.expired(now),
        policy.problem() is Some ==> creation_refusal(policy, now) == Some(
            KeelErrorView::Policy(PolicyErrorView::Invalid(policy.problem()->0)),
        ),
        policy.problem() is None && policy.expired(now) ==> creation_refusal(policy, now) == Some(
            KeelErrorView::Enforce(EnforceErrorView::PolicyExpired),
        ),
{
}

/// What is written of a check of a path: the path, whether it was to be read or
/// written, and the answer; and of a denial a violation, if these are to be written.
pub proof fn what_is_written_of_a_check(
    s: SpaceView,
    p: Seq<char>,
    write: bool,
    allowed: bool,
    now: Timestamp,
)
    ensures
        ({
            let all = fs_entries(s, p, write, allowed, now);
            let op = if write {
                "check_write"@
            } else {
                "check_read"@
            };
            &&& all.len() == if !allowed && s.opts.record_violations {
                2int
            } else {
                1int
            }
            &&& all[0].event == (EventKindView::FsAccess {
                path: p,
                operation: op,
                allowed,
                content_sha256: None,
            })
            &&& all.len() == 2 ==> all[1].event is Violation && all[1].event->Violation_operation
                == op && all[1].event->target == p
            &&& forall|i: int|
                0 <= i < all.len() ==> (#[trigger] all[i]).space_id == s.id && all[i].policy_id
                    == s.policy.id && all[i].task_id == s.policy.task_id && all[i].timestamp == now
        }),
{
}

/// What is written of a check of a connection: the host, the port and the answer; and
/// of a denial a violation with the reason, if these are to be written.
pub proof fn what_is_written_of_a_dial(
    s: SpaceView,
    host: Seq<char>,
    port: u16,
    decision: EgressDecisionView,
    now: Timestamp,
)
    ensures
        ({
            let all = dial_entries(s, host, port, decision, now);
            &&& all.len() == if decision is Deny && s.opts.record_violations {
                2int
            } else {
                1int
            }
            &&& all[0].event == (EventKindView::NetDial {
                host,
                port: Some(port),
                allowed: decision is Allow,
            })
            &&& all.len() == 2 ==> all[1].event == (EventKindView::Violation {
                operation: "connect"@,
                target: host + ":"@ + number::decimal(port as nat),
                detail: Some(decision->reason),
            })
            &&& forall|i: int|
                0 <= i < all.len() ==> (#[trigger] all[i]).space_id == s.id && all[i].policy_id
                    == s.policy.id && all[i].task_id == s.policy.task_id && all[i].timestamp == now
        }),
{
}

/// Every credential that is handed out, and every credential of the policy when it is
/// taken back, is written down by name, one entry each and in order.
pub proof fn credentials_are_written_down(
    s: SpaceView,
    names: Seq<Seq<char>>,
    now: Timestamp,
    i: int,
)
    ensures
        issue_entries(s, names, now).len() == names.len(),
        revoke_entries(s, now).len() == s.policy.credentials.len(),
        0 <= i < names.len() ==> issue_entries(s, names, now)[i].event == (
        EventKindView::CredentialIssued { name: names[i] }) && issue_entries(s, names, now)[i].space_id
            == s.id,
        0 <= i < s.policy.credentials.len() ==> revoke_entries(s, now)[i].event == (
        EventKindView::CredentialRevoked { name: s.policy.credentials[i].name }) && revoke_entries(
            s,
            now,
        )[i].space_id == s.id,
{
}

/// A file operation goes ahead if and only if there is a place where it goes, and the
/// policy permits the path that was asked for, the policy permits that place, and the
/// backend permits it; it goes to that place. Else it is told which path was denied,
/// and whether reading or writing was.
pub proof fn when_file_operations_go_ahead(
    policy: PolicyView,
    p: Seq<char>,
    write: bool,
    probes: Seq<ProbeView>,
    backend_allows: bool,
)
    ensures
        ({
            let place = process_guard::resolution(
                policy.style,
                native::resolved(policy.style, policy.workspace, p),
                probes,
            );
            match fs_verdict(policy, p, write, probes, backend_allows) {
                Ok(t) => place == Ok::<Seq<char>, Seq<char>>(t) && process_guard::allowed(
                    policy,
                    p,
                    write,
                ) && process_guard::allowed(policy, t, write) && backend_allows,
                Err(e) => match place {
                    Err(m) => e == KeelErrorView::Other(m),
                    Ok(t) => !(process_guard::allowed(policy, p, write) && process_guard::allowed(
                        policy,
                        t,
                        write,
                    ) && backend_allows) && e == KeelErrorView::Other(
                        (if write {
                            "fs write denied by policy: "@
                        } else {
                            "fs read denied by policy: "@
                        }) + p,
                    ),
                },
            }
        }),
{
}

/// Where the audit trail and the policy of a space are kept.
pub proof fn where_spaces_are_kept(
    style: Style,
    opts: SpaceOptions,
    own_sink: bool,
    state_dir: Seq<char>,
    id: Seq<char>,
)
    ensures
        ({
            let plan = storage(style, opts, own_sink, state_dir, id);
            let dir = native::joined(style, native::joined(style, state_dir, "spaces"@), id);
            &&& plan.memory <==> !own_sink && (opts.memory_events || !opts.persist_events)
            &&& plan.events_path is Some <==> !own_sink && opts.persist_events
            &&& plan.events_path is Some ==> plan.events_path->0 == native::joined(
                style,
                dir,
                "events.jsonl"@,
            )
            &&& plan.policy_path is Some <==> opts.persist_policy && opts.persist_events
            &&& plan.policy_path is Some ==> plan.policy_path->0 == native::joined(
                style,
                dir,
                "policy.json"@,
            )
            &&& plan.chained == opts.integrity_chain
        }),
{
}

/// Every state of a space has a name of its own.
pub proof fn states_have_names()
    ensures
        SpaceState::Creating.text() == "creating"@,
        SpaceState::Open.text() == "open"@,
        SpaceState::Destroying.text() == "destroying"@,
        SpaceState::Destroyed.text() == "destroyed"@,
{
}

} // verus!
