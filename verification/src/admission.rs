//! Whether a policy is taken on and whether a program may start.
use crate::backend::{BackendInfo, SpawnRequest, SpawnRequestView};
use crate::error::{EnforceError, EnforceErrorView, EnforceResult, PolicyErrorView};
use crate::event::{EventKind, EventKindView, RecordEvent, RecordEventView};
use crate::ids::SpaceId;
use crate::native;
use crate::net::NetworkPolicy;
use crate::policy::{ExecPolicy, Policy, PolicyView};
use crate::process_guard;
use crate::process_guard::soft_fs_allowed;
use crate::time::Timestamp;
use vstd::prelude::*;
use vstd::string::*;

verus! {

/// Why a policy is not taken on, if it is not.
pub open spec fn apply_refusal(policy: PolicyView, now: Timestamp) -> Option<EnforceErrorView> {
    if policy.expired(now) {
        Some(EnforceErrorView::PolicyExpired)
    } else {
        match policy.problem() {
            Some(m) => Some(EnforceErrorView::Policy(PolicyErrorView::Invalid(m))),
            None => None,
        }
    }
}

/// Checks a policy before it is taken on.
pub fn check_policy(policy: &Policy, now: Timestamp) -> (r: EnforceResult<()>)
    ensures
        match r {
            Ok(_) => apply_refusal(policy@, now) is None,
            Err(e) => apply_refusal(policy@, now) == Some(e@),
        },
{
    if policy.is_expired(now) {
        return Err(EnforceError::PolicyExpired);
    }
    match policy.validate() {
        Ok(_) => Ok(()),
        Err(e) => Err(EnforceError::Policy(e)),
    }
}

/// Which backend is asked to start a program.
#[derive(Clone, Copy, Debug, PartialEq, Eq, Structural)]
pub enum Gate {
    Null,
    /// Starts nothing under a denied network if it is not able to deny it.
    ProcessGuard { refuse_denied_network: bool },
    LocalProcess,
}

impl Gate {
    /// What is said of a working directory that may not be read.
    pub open spec fn cwd_refusal(self) -> Seq<char> {
        match self {
            Gate::Null => "cwd not readable under policy: "@,
            Gate::ProcessGuard { .. } => "cwd not allowed: "@,
            Gate::LocalProcess => "cwd not allowed: "@,
        }
    }

    /// Whether an absolute program path has to be readable.
    pub open spec fn checks_program(self) -> bool {
        self is ProcessGuard
    }

    /// Whether nothing starts under the policy because its network could not be
    /// denied to the program.
    pub open spec fn refuses_network(self, policy: PolicyView) -> bool {
        self == (Gate::ProcessGuard { refuse_denied_network: true }) && policy.network is DenyAll
    }
}

/// What is written to the audit trail of a program that was asked for, and
/// whether it may start.
#[derive(Debug)]
pub struct Admission {
    pub event: Option<RecordEvent>,
    pub verdict: EnforceResult<()>,
}

#[verifier::ext_equal]
pub struct AdmissionView {
    pub event: Option<RecordEventView>,
    pub refusal: Option<EnforceErrorView>,
}

impl View for Admission {
    type V = AdmissionView;

    open spec fn view(&self) -> AdmissionView {
        AdmissionView {
            event: self.event.deep_view(),
            refusal: match self.verdict {
                Ok(_) => None,
                Err(e) => Some(e@),
            },
        }
    }
}

/// The entry for a program that was asked for.
pub open spec fn exec_entry(
    space_id: Seq<char>,
    policy: PolicyView,
    req: SpawnRequestView,
    allowed: bool,
    now: Timestamp,
) -> RecordEventView {
    RecordEventView::unsealed(
        space_id,
        policy.id,
        policy.task_id,
        EventKindView::Exec {
            program: req.program,
            args: req.audited().0,
            allowed,
            args_redacted: req.audited().1,
        },
        now,
    )
}

/// The admission of a program, given whether the policy lets its working
/// directory and its program path be read.
///
/// An expired policy admits nothing and leaves no trace. A policy that denies
/// execution is recorded as having done so; a program that starts is recorded.
/// The other refusals are not.
pub open spec fn admitted(
    gate: Gate,
    space_id: Seq<char>,
    policy: PolicyView,
    req: SpawnRequestView,
    now: Timestamp,
    cwd_readable: bool,
    program_readable: bool,
) -> AdmissionView {
    if policy.expired(now) {
        AdmissionView { event: None, refusal: Some(EnforceErrorView::PolicyExpired) }
    } else if policy.exec_policy == ExecPolicy::Deny {
        AdmissionView {
            event: Some(exec_entry(space_id, policy, req, false, now)),
            refusal: Some(EnforceErrorView::Denied("exec denied by policy"@)),
        }
    } else if gate.refuses_network(policy) {
        AdmissionView {
            event: None,
            refusal: Some(
                EnforceErrorView::Denied(
                    "process-guard: DenyAll network is advisory without kernel backend"@,
                ),
            ),
        }
    } else if req.cwd is Some && !cwd_readable {
        AdmissionView {
            event: None,
            refusal: Some(EnforceErrorView::Denied(gate.cwd_refusal() + req.cwd->0)),
        }
    } else if gate.checks_program() && native::absolute(policy.style, req.program)
        && !program_readable {
        AdmissionView {
            event: None,
            refusal: Some(
                EnforceErrorView::Denied(
                    "program path not readable under policy: "@ + req.program,
                ),
            ),
        }
    } else {
        AdmissionView {
            event: Some(exec_entry(space_id, policy, req, true, now)),
            refusal: None,
        }
    }
}

fn exec_event(
    space_id: &SpaceId,
    policy: &Policy,
    req: &SpawnRequest,
    allowed: bool,
    now: Timestamp,
) -> (r: RecordEvent)
    ensures
        r@ == exec_entry(space_id@, policy@, req@, allowed, now),
{
    let (args, args_redacted) = req.audit_args_for_event();
    RecordEvent::new(
        space_id.clone(),
        policy.id.clone(),
        policy.task_id.clone(),
        EventKind::Exec { program: req.program.clone(), args, allowed, args_redacted },
        now,
    )
}

/// Whether the program may start, given whether its working directory and its
/// program path may be read.
pub fn admit_given(
    gate: Gate,
    space_id: &SpaceId,
    policy: &Policy,
    req: &SpawnRequest,
    now: Timestamp,
    cwd_readable: bool,
    program_readable: bool,
) -> (r: Admission)
    ensures
        r@ == admitted(gate, space_id@, policy@, req@, now, cwd_readable, program_readable),
{
    if policy.is_expired(now) {
        return Admission { event: None, verdict: Err(EnforceError::PolicyExpired) };
    }
    if policy.exec_policy == ExecPolicy::Deny {
        return Admission {
            event: Some(exec_event(space_id, policy, req, false, now)),
            verdict: Err(EnforceError::Denied("exec denied by policy".to_owned())),
        };
    }
    let (checks_program, refuse_denied_network) = match gate {
        Gate::ProcessGuard { refuse_denied_network } => (true, refuse_denied_network),
        _ => (false, false),
    };
    if refuse_denied_network && matches!(policy.network, NetworkPolicy::DenyAll) {
        return Admission {
            event: None,
            verdict: Err(
                EnforceError::Denied(
                    "process-guard: DenyAll network is advisory without kernel backend".to_owned(),
                ),
            ),
        };
    }
    if let Some(cwd) = &req.cwd {
        if !cwd_readable {
            let what = match gate {
                Gate::Null => "cwd not readable under policy: ",
                Gate::ProcessGuard { .. } => "cwd not allowed: ",
                Gate::LocalProcess => "cwd not allowed: ",
            };
            return Admission {
                event: None,
                verdict: Err(EnforceError::denied(what, cwd.as_str())),
            };
        }
    }
    if checks_program && native::is_absolute(policy.style, req.program.as_str())
        && !program_readable {
        return Admission {
            event: None,
            verdict: Err(
                EnforceError::denied(
                    "program path not readable under policy: ",
                    req.program.as_str(),
                ),
            ),
        };
    }
    Admission { event: Some(exec_event(space_id, policy, req, true, now)), verdict: Ok(()) }
}

/// The policy lets the working directory of the request be read.
pub open spec fn cwd_readable(policy: PolicyView, req: SpawnRequestView) -> bool {
    req.cwd is Some ==> process_guard::allowed(policy, req.cwd->0, false)
}

/// Whether the program may start.
pub fn admit_program(
    gate: Gate,
    space_id: &SpaceId,
    policy: &Policy,
    req: &SpawnRequest,
    now: Timestamp,
) -> (r: Admission)
    ensures
        r@ == admitted(
            gate,
            space_id@,
            policy@,
            req@,
            now,
            cwd_readable(policy@, req@),
            process_guard::allowed(policy@, req@.program, false),
        ),
{
    let cwd_ok = match &req.cwd {
        Some(cwd) => soft_fs_allowed(policy, cwd.as_str(), false),
        None => true,
    };
    let program_ok = soft_fs_allowed(policy, req.program.as_str(), false);
    admit_given(gate, space_id, policy, req, now, cwd_ok, program_ok)
}

/// Records and checks; isolates nothing.
#[derive(Clone, Copy, Debug)]
pub struct NullBackend;

impl NullBackend {
    pub fn new() -> (r: Self)
        ensures
            r == NullBackend,
    {
        NullBackend
    }

    pub fn info(&self) -> (r: BackendInfo)
        ensures
            r.name@ == "null"@,
            !r.kernel_fs,
            !r.child_network,
    {
        BackendInfo { name: "null", kernel_fs: false, child_network: false }
    }

    /// Takes the policy on.
    pub fn apply(&self, policy: &Policy, now: Timestamp) -> (r: EnforceResult<()>)
        ensures
            match r {
                Ok(_) => apply_refusal(policy@, now) is None,
                Err(e) => apply_refusal(policy@, now) == Some(e@),
            },
    {
        check_policy(policy, now)
    }

    /// Whether the access is permitted.
    pub fn check_fs(&self, policy: &Policy, p: &str, write: bool) -> (r: bool)
        ensures
            r == process_guard::allowed(policy@, p@, write),
    {
        soft_fs_allowed(policy, p, write)
    }

    /// Whether the program may start.
    pub fn admit_spawn(
        &self,
        space_id: &SpaceId,
        policy: &Policy,
        req: &SpawnRequest,
        now: Timestamp,
    ) -> (r: Admission)
        ensures
            r@ == admitted(
                Gate::Null,
                space_id@,
                policy@,
                req@,
                now,
                cwd_readable(policy@, req@),
                process_guard::allowed(policy@, req@.program, false),
            ),
    {
        admit_program(Gate::Null, space_id, policy, req, now)
    }
}

/// Checks file access and programs without help from the kernel.
#[derive(Clone, Copy, Debug)]
pub struct ProcessGuardBackend {
    /// Whether nothing is started under a denied network, which cannot be blocked
    /// without the kernel.
    pub soft_block_on_deny_all_net: bool,
}

impl ProcessGuardBackend {
    pub fn new() -> (r: Self)
        ensures
            !r.soft_block_on_deny_all_net,
    {
        ProcessGuardBackend { soft_block_on_deny_all_net: false }
    }

    pub fn info(&self) -> (r: BackendInfo)
        ensures
            r.name@ == "process-guard"@,
            !r.kernel_fs,
            !r.child_network,
    {
        BackendInfo { name: "process-guard", kernel_fs: false, child_network: false }
    }

    /// Takes the policy on.
    pub fn apply(&self, policy: &Policy, now: Timestamp) -> (r: EnforceResult<()>)
        ensures
            match r {
                Ok(_) => apply_refusal(policy@, now) is None,
                Err(e) => apply_refusal(policy@, now) == Some(e@),
            },
    {
        check_policy(policy, now)
    }

    /// Whether the access is permitted.
    pub fn check_fs(&self, policy: &Policy, p: &str, write: bool) -> (r: bool)
        ensures
            r == process_guard::allowed(policy@, p@, write),
    {
        soft_fs_allowed(policy, p, write)
    }

    /// Whether the program may start.
    pub fn admit_spawn(
        &self,
        space_id: &SpaceId,
        policy: &Policy,
        req: &SpawnRequest,
        now: Timestamp,
    ) -> (r: Admission)
        ensures
            r@ == admitted(
                Gate::ProcessGuard { refuse_denied_network: self.soft_block_on_deny_all_net },
                space_id@,
                policy@,
                req@,
                now,
                cwd_readable(policy@, req@),
                process_guard::allowed(policy@, req@.program, false),
            ),
    {
        admit_program(
            Gate::ProcessGuard { refuse_denied_network: self.soft_block_on_deny_all_net },
            space_id,
            policy,
            req,
            now,
        )
    }
}

impl Default for NullBackend {
    fn default() -> (r: Self)
        ensures
            r == NullBackend,
    {
        NullBackend::new()
    }
}

impl Default for ProcessGuardBackend {
    fn default() -> (r: Self)
        ensures
            !r.soft_block_on_deny_all_net,
    {
        ProcessGuardBackend::new()
    }
}

// ---------------------------------------------------------------------------
// Laws
// ---------------------------------------------------------------------------
/// No backend starts a program under a policy that has expired or that denies
/// execution.
pub proof fn no_start_without_leave(
    gate: Gate,
    space_id: Seq<char>,
    policy: PolicyView,
    req: SpawnRequestView,
    now: Timestamp,
    cwd_readable: bool,
    program_readable: bool,
)
    requires
        policy.expired(now) || policy.exec_policy == ExecPolicy::Deny,
    ensures
        admitted(
            gate,
            space_id,
            policy,
            req,
            now,
            cwd_readable,
            program_readable,
        ).refusal is Some,
{
}

/// Every program that starts is on the audit trail as allowed, and no other is.
pub proof fn starts_are_recorded(
    gate: Gate,
    space_id: Seq<char>,
    policy: PolicyView,
    req: SpawnRequestView,
    now: Timestamp,
    cwd_readable: bool,
    program_readable: bool,
)
    ensures
        ({
            let a = admitted(gate, space_id, policy, req, now, cwd_readable, program_readable);
            a.refusal is None <==> a.event == Some(exec_entry(space_id, policy, req, true, now))
        }),
{
}

/// A program starts if and only if the policy has not expired, permits subprocesses,
/// lets the working directory be read, and, where the backend asks for it, lets an
/// absolute program path be read and leaves a network or is not required to.
pub proof fn who_may_start(
    gate: Gate,
    space_id: Seq<char>,
    policy: PolicyView,
    req: SpawnRequestView,
    now: Timestamp,
    cwd_readable: bool,
    program_readable: bool,
)
    ensures
        admitted(gate, space_id, policy, req, now, cwd_readable, program_readable).refusal is None
            <==> {
            &&& match policy.expires_at {
                Some(t) => t.seconds > now.seconds || (t.seconds == now.seconds && t.nanos
                    > now.nanos),
                None => true,
            }
            &&& policy.exec_policy == ExecPolicy::Allow
            &&& req.cwd is None || cwd_readable
            &&& match gate {
                Gate::ProcessGuard { refuse_denied_network } => {
                    &&& !(refuse_denied_network && policy.network is DenyAll)
                    &&& !native::absolute(policy.style, req.program) || program_readable
                },
                _ => true,
            }
        },
{
}

/// What is written down of a program that was asked for: its path, its arguments
/// unless they are to be left out, and whether it may start. It is written down if it
/// starts, or if a policy that has not expired permits no subprocesses; else nothing
/// is.
pub proof fn what_is_written_of_a_start(
    gate: Gate,
    space_id: Seq<char>,
    policy: PolicyView,
    req: SpawnRequestView,
    now: Timestamp,
    cwd_readable: bool,
    program_readable: bool,
)
    ensures
        ({
            let a = admitted(gate, space_id, policy, req, now, cwd_readable, program_readable);
            &&& a.event is Some <==> a.refusal is None || (!policy.expired(now)
                && policy.exec_policy == ExecPolicy::Deny)
            &&& a.event is Some ==> {
                let e = a.event->0;
                &&& e.space_id == space_id && e.policy_id == policy.id && e.task_id
                    == policy.task_id && e.timestamp == now
                &&& e.prev_hash is None && e.event_hash is None
                &&& e.event == (EventKindView::Exec {
                    program: req.program,
                    args: if req.audit_args {
                        req.args
                    } else {
                        Seq::empty()
                    },
                    allowed: a.refusal is None,
                    args_redacted: !req.audit_args,
                })
            }
        }),
{
}

/// Why a program does not start: the policy has expired; or it permits no
/// subprocesses; or it has a network that the backend cannot deny; or it does not let
/// the working directory, or the program, be read, which is then named.
pub proof fn refusals_say_why(
    gate: Gate,
    space_id: Seq<char>,
    policy: PolicyView,
    req: SpawnRequestView,
    now: Timestamp,
    cwd_readable: bool,
    program_readable: bool,
)
    ensures
        ({
            let r = admitted(
                gate,
                space_id,
                policy,
                req,
                now,
                cwd_readable,
                program_readable,
            ).refusal;
            &&& policy.expired(now) ==> r == Some(EnforceErrorView::PolicyExpired)
            &&& !policy.expired(now) && policy.exec_policy == ExecPolicy::Deny ==> r == Some(
                EnforceErrorView::Denied("exec denied by policy"@),
            )
            &&& !policy.expired(now) && r is Some ==> r->0 is Denied
            &&& !policy.expired(now) && policy.exec_policy == ExecPolicy::Allow
                && !gate.refuses_network(policy) && req.cwd is Some && !cwd_readable ==> req.cwd->0
                .is_suffix_of(r->0->Denied_0)
            &&& !policy.expired(now) && policy.exec_policy == ExecPolicy::Allow
                && !gate.refuses_network(policy) && (req.cwd is None || cwd_readable) && r is Some
                ==> req.program.is_suffix_of(r->0->Denied_0)
        }),
{
    let m = gate.cwd_refusal();
    if req.cwd is Some {
        let c = req.cwd->0;
        let t = m + c;
        assert(t.subrange(t.len() - c.len(), t.len() as int) =~= c);
    }
    let t = "program path not readable under policy: "@ + req.program;
    assert(t.subrange(t.len() - req.program.len(), t.len() as int) =~= req.program);
}

/// A policy is taken on if and only if it has not expired and can be used.
pub proof fn which_policies_are_taken_on(policy: PolicyView, now: Timestamp)
    ensures
        apply_refusal(policy, now) is None <==> !policy.expired(now) && policy.problem() is None,
        policy.expired(now) ==> apply_refusal(policy, now) == Some(EnforceErrorView::PolicyExpired),
{
}

/// Without a working directory there is nothing to read; with one the policy is asked.
pub proof fn the_working_directory_is_asked_for(policy: PolicyView, req: SpawnRequestView)
    ensures
        cwd_readable(policy, req) <==> match req.cwd {
            Some(d) => process_guard::allowed(policy, d, false),
            None => true,
        },
{
}

/// What is said of a working directory and of a program that may not be read, and of a
/// network that could not be denied.
pub proof fn what_is_said_of_a_refusal(
    gate: Gate,
    space_id: Seq<char>,
    policy: PolicyView,
    req: SpawnRequestView,
    now: Timestamp,
    cwd_readable: bool,
    program_readable: bool,
)
    requires
        !policy.expired(now),
        policy.exec_policy == ExecPolicy::Allow,
    ensures
        ({
            let r = admitted(
                gate,
                space_id,
                policy,
                req,
                now,
                cwd_readable,
                program_readable,
            ).refusal;
            let open_net = gate == (Gate::ProcessGuard { refuse_denied_network: true })
                && policy.network is DenyAll;
            &&& open_net ==> r == Some(
                EnforceErrorView::Denied(
                    "process-guard: DenyAll network is advisory without kernel backend"@,
                ),
            )
            &&& !open_net && req.cwd is Some && !cwd_readable ==> r == Some(
                EnforceErrorView::Denied(
                    (if gate is Null {
                        "cwd not readable under policy: "@
                    } else {
                        "cwd not allowed: "@
                    }) + req.cwd->0,
                ),
            )
            &&& !open_net && (req.cwd is None || cwd_readable) && r is Some ==> r == Some(
                EnforceErrorView::Denied(
                    "program path not readable under policy: "@ + req.program,
                ),
            )
        }),
{
}

} // verus!
