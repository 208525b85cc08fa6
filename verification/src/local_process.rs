//! The backend that has the kernel isolate child processes: what it decides
//! before and after the system is asked.
use crate::admission;
use crate::admission::{check_policy, Admission, Gate};
use crate::backend::{BackendInfo, SpawnRequest, SpawnRequestView};
use crate::bwrap;
use crate::child_net;
use crate::child_net::{ChildFilter, NetSyscall};
use crate::credentials;
use crate::credentials::env_has_key;
use crate::egress_proxy;
use crate::error::{EnforceError, EnforceErrorView, EnforceResult};
use crate::event::{EventKind, EventKindView, RecordEvent, RecordEventView};
use crate::ids::SpaceId;
use crate::native;
use crate::native::Style;
use crate::net::{NetworkPolicy, NetworkPolicyView};
use crate::order;
use crate::path;
use crate::paths::FsAccess;
use crate::policy::{Policy, PolicyView};
use crate::process_guard;
use crate::process_guard::soft_fs_allowed;
use crate::text;
use crate::time::Timestamp;
use crate::windows;
use crate::windows::{capability_summary, WindowsSandboxOptions};
use vstd::prelude::*;
use vstd::string::*;

verus! {

/// The systems that isolation differs on.
#[derive(Clone, Copy, Debug, PartialEq, Eq, Structural)]
pub enum Platform {
    Linux,
    MacOs,
    Windows,
    Other,
}

/// Options of the backend.
#[derive(Clone, Copy, Debug, PartialEq, Eq, Structural)]
pub struct LocalProcessOptions {
    /// Fail where the system cannot isolate.
    pub require_kernel: bool,
    /// Block the network of sandboxed processes.
    pub block_process_network: bool,
    /// Isolate child processes only, and not this one.
    pub isolate_apply: bool,
    /// Hide denied paths with bubblewrap on Linux, if it is there.
    pub auto_bwrap: bool,
    /// Put each child into a job on Windows.
    pub windows_job: bool,
    /// Probe restricted tokens on Windows.
    pub windows_restricted_token: bool,
}

impl LocalProcessOptions {
    pub open spec fn usual() -> Self {
        LocalProcessOptions {
            require_kernel: true,
            block_process_network: false,
            isolate_apply: true,
            auto_bwrap: true,
            windows_job: true,
            windows_restricted_token: true,
        }
    }

    /// Options that sandbox this process, irreversibly.
    pub fn confine_host() -> (r: Self)
        ensures
            r == (LocalProcessOptions {
                isolate_apply: false,
                require_kernel: true,
                ..LocalProcessOptions::usual()
            }),
    {
        LocalProcessOptions {
            require_kernel: true,
            block_process_network: false,
            isolate_apply: false,
            auto_bwrap: true,
            windows_job: true,
            windows_restricted_token: true,
        }
    }
}

impl Default for LocalProcessOptions {
    fn default() -> (r: Self)
        ensures
            r == LocalProcessOptions::usual(),
    {
        LocalProcessOptions {
            require_kernel: true,
            block_process_network: false,
            isolate_apply: true,
            auto_bwrap: true,
            windows_job: true,
            windows_restricted_token: true,
        }
    }
}

/// The backend: its options and what it has done so far.
#[derive(Clone, Copy, Debug)]
pub struct LocalProcessBackend {
    opts: LocalProcessOptions,
    applied: bool,
    restrict_child_net: bool,
}

#[verifier::ext_equal]
pub struct LocalProcessView {
    pub opts: LocalProcessOptions,
    /// A policy has been taken on.
    pub applied: bool,
    /// The network of children is blocked.
    pub restrict_child_net: bool,
}

impl View for LocalProcessBackend {
    type V = LocalProcessView;

    closed spec fn view(&self) -> LocalProcessView {
        LocalProcessView {
            opts: self.opts,
            applied: self.applied,
            restrict_child_net: self.restrict_child_net,
        }
    }
}

/// The policy, or the options, block the network of children.
pub open spec fn blocks_network(network: NetworkPolicyView, opts: LocalProcessOptions) -> bool {
    network is DenyAll || opts.block_process_network
}

impl LocalProcessView {
    /// The backend after a policy has been taken on.
    pub open spec fn ready(self, network: NetworkPolicyView) -> Self {
        LocalProcessView {
            applied: true,
            restrict_child_net: self.restrict_child_net || blocks_network(network, self.opts),
            ..self
        }
    }
}

/// An entry that belongs to no space yet.
pub open spec fn pending_note(policy: PolicyView, message: Seq<char>, now: Timestamp)
    -> RecordEventView {
    RecordEventView::unsealed(
        "pending"@,
        policy.id,
        policy.task_id,
        EventKindView::Note { message },
        now,
    )
}

/// An entry that belongs to no space yet.
pub fn note_event(policy: &Policy, message: String, now: Timestamp) -> (r: RecordEvent)
    ensures
        r@ == pending_note(policy@, message@, now),
{
    RecordEvent::new(
        SpaceId::from_string("pending"),
        policy.id.clone(),
        policy.task_id.clone(),
        EventKind::Note { message },
        now,
    )
}

/// What was found out before children are isolated.
#[derive(Debug)]
pub struct IsolationFacts {
    pub platform: Platform,
    /// Where the proxy for an allowlist listens.
    pub proxy_url: Option<String>,
    /// Whether the policy can be mapped to the kernel.
    pub prepared: EnforceResult<()>,
    /// How many paths have to be hidden from children.
    pub denied_paths: usize,
    pub bwrap_available: bool,
}

#[verifier::ext_equal]
pub struct IsolationFactsView {
    pub platform: Platform,
    pub proxy_url: Option<Seq<char>>,
    pub failure: Option<EnforceErrorView>,
    pub denied_paths: nat,
    pub bwrap_available: bool,
}

impl View for IsolationFacts {
    type V = IsolationFactsView;

    open spec fn view(&self) -> IsolationFactsView {
        IsolationFactsView {
            platform: self.platform,
            proxy_url: self.proxy_url.deep_view(),
            failure: match self.prepared {
                Ok(_) => None,
                Err(e) => Some(e@),
            },
            denied_paths: self.denied_paths as nat,
            bwrap_available: self.bwrap_available,
        }
    }
}

/// What is said where paths cannot be hidden.
pub open spec fn bwrap_needed() -> Seq<char> {
    "Linux read-deny requires bubblewrap (bwrap) when deny paths/globs are present (baseline credential denies included); install bwrap or set require_kernel=false / clear denies"@
}

/// Why a policy is not taken on for isolating children, if it is not.
pub open spec fn isolation_refusal(opts: LocalProcessOptions, f: IsolationFactsView) -> Option<
    EnforceErrorView,
> {
    if !opts.require_kernel {
        None
    } else if f.failure is Some {
        f.failure
    } else if f.platform == Platform::Linux && f.denied_paths > 0 && !f.bwrap_available {
        Some(EnforceErrorView::ApplyFailed(bwrap_needed()))
    } else {
        None
    }
}

/// What is written to the audit trail once children will be isolated.
pub open spec fn isolation_message(network: NetworkPolicyView, proxy_url: Option<Seq<char>>) -> Seq<
    char,
> {
    let base = "local-process isolate_apply: host unsandboxed; children apply kernel FS"@;
    if network is Allowlist {
        base + "; "@ + (match proxy_url {
            Some(u) => "egress proxy on "@ + u
                + "; allowlist enforces ProxyOnly on sandboxed children"@,
            None => "allowlist: CONNECT proxy + child ProxyOnly (install proxy-aware tools)"@,
        })
    } else {
        base
    }
}

/// What the kernel of this system offers.
#[derive(Debug)]
pub struct KernelSupport {
    pub is_supported: bool,
    pub platform: String,
    pub details: String,
}

/// What is done to sandbox this process.
#[derive(Clone, Copy, Debug, PartialEq, Eq, Structural)]
pub enum HostStep {
    /// Nothing; the system cannot, and that was accepted.
    SoftOnly,
    /// Nothing; it is sandboxed with this policy already.
    AlreadyBound,
    /// Sandbox it now.
    ApplyNow,
}

/// What is done to sandbox this process, or why it cannot be. `bound` is the
/// policy that it is sandboxed with already.
pub open spec fn host_step(
    opts: LocalProcessOptions,
    policy_id: Seq<char>,
    supported: bool,
    details: Seq<char>,
    bound: Option<Seq<char>>,
) -> Result<HostStep, EnforceErrorView> {
    if !supported {
        if opts.require_kernel {
            Err(EnforceErrorView::Unsupported(details))
        } else {
            Ok(HostStep::SoftOnly)
        }
    } else {
        match bound {
            Some(b) => if b == policy_id {
                Ok(HostStep::AlreadyBound)
            } else {
                Err(EnforceErrorView::AlreadyApplied { applied: b, requested: policy_id })
            },
            None => Ok(HostStep::ApplyNow),
        }
    }
}

/// The environment with the variables added that it does not have.
pub open spec fn merged(
    env: Seq<(Seq<char>, Seq<char>)>,
    extra: Seq<(Seq<char>, Seq<char>)>,
) -> Seq<(Seq<char>, Seq<char>)>
    decreases extra.len(),
{
    if extra.len() == 0 {
        env
    } else {
        let before = merged(env, extra.drop_last());
        if credentials::has_key(before, extra.last().0) {
            before
        } else {
            before.push(extra.last())
        }
    }
}

fn merge_env(env: &mut Vec<(String, String)>, extra: Vec<(String, String)>)
    ensures
        final(env).deep_view() == merged(old(env).deep_view(), extra.deep_view()),
{
    let ghost start = env.deep_view();
    let ghost m = extra.deep_view();
    let mut i: usize = 0;
    assert(m.take(0) =~= Seq::<(Seq<char>, Seq<char>)>::empty());
    while i < extra.len()
        invariant
            m == extra.deep_view(),
            i <= extra.len(),
            env.deep_view() == merged(start, m.take(i as int)),
        decreases extra.len() - i,
    {
        assert(m[i as int] == extra@[i as int].deep_view());
        assert(m.take(i + 1).drop_last() =~= m.take(i as int));
        let ghost before = env.deep_view();
        if !env_has_key(env, extra[i].0.as_str()) {
            env.push((extra[i].0.clone(), extra[i].1.clone()));
            assert(env.deep_view() =~= before.push(m[i as int]));
        }
        i += 1;
    }
    assert(m.take(m.len() as int) =~= m);
}

/// What a child does before its program starts.
#[derive(Clone, Copy, Debug, PartialEq, Eq, Structural)]
pub struct ChildHooks {
    /// It applies the kernel sandbox to itself.
    pub sandbox: bool,
    /// The sandbox blocks its network.
    pub block_net: bool,
    /// The sandbox lets it reach this port of the local host.
    pub proxy_port: Option<u16>,
    /// It installs this network filter.
    pub filter: Option<ChildFilter>,
}

/// What a child does before its program starts, given whether the kernel can
/// carry out the policy.
pub open spec fn hooks(
    b: LocalProcessView,
    network: NetworkPolicyView,
    platform: Platform,
    proxy_port: Option<u16>,
    prepared: bool,
) -> ChildHooks {
    let restrict = b.restrict_child_net || network is DenyAll;
    if b.opts.isolate_apply {
        ChildHooks {
            sandbox: prepared,
            block_net: b.opts.block_process_network,
            proxy_port,
            filter: if restrict {
                Some(ChildFilter::All)
            } else if proxy_port is Some {
                Some(ChildFilter::Server)
            } else {
                None
            },
        }
    } else {
        ChildHooks {
            sandbox: false,
            block_net: b.opts.block_process_network,
            proxy_port,
            filter: if restrict && platform == Platform::Linux {
                Some(ChildFilter::All)
            } else {
                None
            },
        }
    }
}

/// What was found out before a child starts.
#[derive(Debug)]
pub struct SpawnFacts {
    pub platform: Platform,
    /// The port of the proxy, if there is one.
    pub proxy_port: Option<u16>,
    /// Whether the policy can be mapped to the kernel.
    pub prepared: EnforceResult<()>,
    /// What the deny globs of the policy stand for.
    pub globs: EnforceResult<Vec<String>>,
    pub bwrap_available: bool,
}

#[verifier::ext_equal]
pub struct SpawnFactsView {
    pub platform: Platform,
    pub proxy_port: Option<u16>,
    pub prepare_failure: Option<EnforceErrorView>,
    pub glob_failure: Option<EnforceErrorView>,
    pub globs: Seq<Seq<char>>,
    pub bwrap_available: bool,
}

impl View for SpawnFacts {
    type V = SpawnFactsView;

    open spec fn view(&self) -> SpawnFactsView {
        SpawnFactsView {
            platform: self.platform,
            proxy_port: self.proxy_port,
            prepare_failure: match self.prepared {
                Ok(_) => None,
                Err(e) => Some(e@),
            },
            glob_failure: match self.globs {
                Ok(_) => None,
                Err(e) => Some(e@),
            },
            globs: match self.globs {
                Ok(g) => g.deep_view(),
                Err(_) => Seq::empty(),
            },
            bwrap_available: self.bwrap_available,
        }
    }
}

/// Why a child is not started in a sandbox, if it is not.
pub open spec fn spawn_refusal(opts: LocalProcessOptions, f: SpawnFactsView) -> Option<
    EnforceErrorView,
> {
    if !opts.require_kernel {
        None
    } else if opts.isolate_apply && f.prepare_failure is Some {
        f.prepare_failure
    } else if f.platform == Platform::Linux && f.glob_failure is Some {
        f.glob_failure
    } else {
        None
    }
}

/// The paths that have to be hidden from a child: the denied ones and what the
/// deny globs stand for. Without bubblewrap nothing can be hidden, which is put up
/// with only where isolation is not required.
pub open spec fn hidden_paths(
    opts: LocalProcessOptions,
    policy: PolicyView,
    f: SpawnFactsView,
) -> Seq<Seq<char>> {
    if f.platform == Platform::Linux && opts.auto_bwrap && (f.bwrap_available
        || opts.require_kernel) {
        bwrap::plain_denials(policy.fs, policy.workspace) + f.globs
    } else {
        Seq::empty()
    }
}

/// How a child is started.
#[derive(Debug)]
pub struct SpawnPlan {
    pub req: SpawnRequest,
    /// The paths to hide from it, in order.
    pub deny_paths: Vec<String>,
    pub hooks: ChildHooks,
}

impl LocalProcessBackend {
    pub fn new() -> (r: Self)
        ensures
            r@ == (LocalProcessView {
                opts: LocalProcessOptions::usual(),
                applied: false,
                restrict_child_net: false,
            }),
    {
        LocalProcessBackend::with_options(LocalProcessOptions::default())
    }

    pub fn with_options(opts: LocalProcessOptions) -> (r: Self)
        ensures
            r@ == (LocalProcessView { opts, applied: false, restrict_child_net: false }),
    {
        LocalProcessBackend { opts, applied: false, restrict_child_net: false }
    }

    pub fn is_applied(&self) -> (r: bool)
        ensures
            r == self@.applied,
    {
        self.applied
    }

    pub fn restricts_child_network(&self) -> (r: bool)
        ensures
            r == self@.restrict_child_net,
    {
        self.restrict_child_net
    }

    pub fn options(&self) -> (r: &LocalProcessOptions)
        ensures
            *r == self@.opts,
    {
        &self.opts
    }

    pub fn info(&self, platform: Platform) -> (r: BackendInfo)
        ensures
            r.name@ == "local-process"@,
            r.kernel_fs == (platform == Platform::Linux || platform == Platform::MacOs),
            r.child_network == (platform == Platform::Linux),
    {
        BackendInfo {
            name: "local-process",
            kernel_fs: platform == Platform::Linux || platform == Platform::MacOs,
            child_network: platform == Platform::Linux,
        }
    }

    /// Whether a proxy has to run for the policy.
    pub fn needs_proxy(&self, policy: &Policy) -> (r: bool)
        ensures
            r == (policy@.network is Allowlist),
    {
        matches!(policy.network, NetworkPolicy::Allowlist(_))
    }

    /// Checks a policy before anything is done for it.
    pub fn check_apply(&self, policy: &Policy, now: Timestamp) -> (r: EnforceResult<()>)
        ensures
            match r {
                Ok(_) => admission::apply_refusal(policy@, now) is None,
                Err(e) => admission::apply_refusal(policy@, now) == Some(e@),
            },
    {
        check_policy(policy, now)
    }

    fn restrict_network_for(&mut self, policy: &Policy)
        ensures
            final(self)@ == old(self)@.ready(policy@.network),
    {
        if matches!(policy.network, NetworkPolicy::DenyAll) || self.opts.block_process_network {
            self.restrict_child_net = true;
        }
        self.applied = true;
    }

    /// Takes a policy on for isolating children, and says what to write to the
    /// audit trail. Where isolation is not required and the kernel cannot do it,
    /// the policy is taken on without it.
    pub fn apply_isolated_prepare(
        &mut self,
        policy: &Policy,
        facts: IsolationFacts,
        now: Timestamp,
    ) -> (r: EnforceResult<Option<RecordEvent>>)
        ensures
            match r {
                Err(e) => {
                    &&& isolation_refusal(old(self)@.opts, facts@) == Some(e@)
                    &&& final(self)@ == old(self)@
                },
                Ok(note) => {
                    &&& isolation_refusal(old(self)@.opts, facts@) is None
                    &&& if facts@.failure is Some {
                        &&& note is None
                        &&& final(self)@ == (LocalProcessView { applied: true, ..old(self)@ })
                    } else {
                        &&& note.deep_view() == Some(
                            pending_note(
                                policy@,
                                isolation_message(policy@.network, facts@.proxy_url),
                                now,
                            ),
                        )
                        &&& final(self)@ == old(self)@.ready(policy@.network)
                    }
                },
            },
    {
        if let Err(e) = facts.prepared {
            if self.opts.require_kernel {
                return Err(e);
            }
            self.applied = true;
            return Ok(None);
        }
        if facts.platform == Platform::Linux && facts.denied_paths > 0 && !facts.bwrap_available
            && self.opts.require_kernel {
            return Err(
                EnforceError::ApplyFailed(
                    "Linux read-deny requires bubblewrap (bwrap) when deny paths/globs are present (baseline credential denies included); install bwrap or set require_kernel=false / clear denies".to_owned(),
                ),
            );
        }
        self.restrict_network_for(policy);
        let mut message =
            "local-process isolate_apply: host unsandboxed; children apply kernel FS".to_owned();
        if let NetworkPolicy::Allowlist(_) = &policy.network {
            let note = match &facts.proxy_url {
                Some(u) => "egress proxy on ".to_owned().concat(u.as_str()).concat(
                    "; allowlist enforces ProxyOnly on sandboxed children",
                ),
                None => {
                    "allowlist: CONNECT proxy + child ProxyOnly (install proxy-aware tools)".to_owned()
                },
            };
            message = message.concat("; ").concat(note.as_str());
        }
        Ok(Some(note_event(policy, message, now)))
    }

    /// What is done to sandbox this process, or why it cannot be.
    pub fn host_apply_step(&self, policy: &Policy, support: &KernelSupport, bound: Option<&str>)
        -> (r: EnforceResult<HostStep>)
        ensures
            ({
                let want = host_step(
                    self@.opts,
                    policy@.id,
                    support.is_supported,
                    support.details@,
                    match bound {
                        Some(b) => Some(b@),
                        None => None,
                    },
                );
                match r {
                    Ok(s) => want == Ok::<HostStep, EnforceErrorView>(s),
                    Err(e) => want == Err::<HostStep, EnforceErrorView>(e@),
                }
            }),
    {
        if !support.is_supported {
            if self.opts.require_kernel {
                return Err(EnforceError::Unsupported(support.details.clone()));
            }
            return Ok(HostStep::SoftOnly);
        }
        match bound {
            Some(b) => {
                if text::same(b, policy.id.as_str()) {
                    Ok(HostStep::AlreadyBound)
                } else {
                    Err(
                        EnforceError::AlreadyApplied {
                            applied: b.to_owned(),
                            requested: policy.id.as_str().to_owned(),
                        },
                    )
                }
            },
            None => Ok(HostStep::ApplyNow),
        }
    }

    /// Takes note of a step that was done, and says what to write to the audit
    /// trail.
    pub fn host_step_done(
        &mut self,
        step: HostStep,
        policy: &Policy,
        support: &KernelSupport,
        now: Timestamp,
    ) -> (r: Option<RecordEvent>)
        ensures
            if step == HostStep::ApplyNow {
                &&& final(self)@ == old(self)@.ready(policy@.network)
                &&& r.deep_view() == Some(
                    pending_note(
                        policy@,
                        "kernel sandbox applied on host via nono ("@ + support.platform@ + ")"@,
                        now,
                    ),
                )
            } else {
                &&& final(self)@ == (LocalProcessView { applied: true, ..old(self)@ })
                &&& r is None
            },
    {
        if step != HostStep::ApplyNow {
            self.applied = true;
            return None;
        }
        self.restrict_network_for(policy);
        let message = "kernel sandbox applied on host via nono (".to_owned().concat(
            support.platform.as_str(),
        ).concat(")");
        Some(note_event(policy, message, now))
    }

    /// Takes a policy on under Windows, given whether jobs can be made, and says
    /// what to write to the audit trail.
    pub fn apply_windows(
        &mut self,
        policy: &Policy,
        job: Result<(), String>,
        proxy_url: Option<&str>,
        now: Timestamp,
    ) -> (r: EnforceResult<RecordEvent>)
        ensures
            match r {
                Err(e) => {
                    &&& old(self)@.opts.windows_job && old(self)@.opts.require_kernel
                    &&& job is Err
                    &&& e@ == EnforceErrorView::Unsupported(
                        "Windows Job Object unavailable: "@ + job->Err_0@,
                    )
                    &&& final(self)@ == old(self)@
                },
                Ok(note) => {
                    &&& !(old(self)@.opts.windows_job && old(self)@.opts.require_kernel && job is Err)
                    &&& final(self)@ == old(self)@.ready(policy@.network)
                    &&& note@ == pending_note(
                        policy@,
                        "local-process Windows: "@ + windows::summary(
                            WindowsSandboxOptions {
                                use_job: old(self)@.opts.windows_job,
                                use_restricted_token: old(self)@.opts.windows_restricted_token,
                            },
                        ) + (if policy@.network is Allowlist && proxy_url is Some {
                            "; egress proxy on "@ + proxy_url->0@
                        } else {
                            Seq::empty()
                        }),
                        now,
                    )
                },
            },
    {
        if self.opts.windows_job && self.opts.require_kernel {
            if let Err(m) = &job {
                return Err(
                    EnforceError::Unsupported(
                        "Windows Job Object unavailable: ".to_owned().concat(m.as_str()),
                    ),
                );
            }
        }
        self.restrict_network_for(policy);
        let opts = WindowsSandboxOptions {
            use_job: self.opts.windows_job,
            use_restricted_token: self.opts.windows_restricted_token,
        };
        let mut message = "local-process Windows: ".to_owned().concat(
            capability_summary(&opts).as_str(),
        );
        let mut tail = String::new();
        if let NetworkPolicy::Allowlist(_) = &policy.network {
            if let Some(u) = proxy_url {
                tail = "; egress proxy on ".to_owned().concat(u);
            }
        }
        message.append(tail.as_str());
        Ok(note_event(policy, message, now))
    }

    /// Takes a policy on where there is nothing to isolate with.
    pub fn apply_unsupported(&mut self) -> (r: EnforceResult<()>)
        ensures
            match r {
                Err(e) => {
                    &&& old(self)@.opts.require_kernel
                    &&& e@ == EnforceErrorView::Unsupported(
                        "local-process kernel backend requires unix/windows + feature `kernel`"@,
                    )
                    &&& final(self)@ == old(self)@
                },
                Ok(_) => {
                    &&& !old(self)@.opts.require_kernel
                    &&& final(self)@ == (LocalProcessView { applied: true, ..old(self)@ })
                },
            },
    {
        if self.opts.require_kernel {
            return Err(
                EnforceError::Unsupported(
                    "local-process kernel backend requires unix/windows + feature `kernel`".to_owned(),
                ),
            );
        }
        self.applied = true;
        Ok(())
    }

    /// Whether a program may start.
    pub fn admit_spawn(
        &self,
        space_id: &SpaceId,
        policy: &Policy,
        req: &SpawnRequest,
        now: Timestamp,
    ) -> (r: Admission)
        ensures
            r@ == admission::admitted(
                Gate::LocalProcess,
                space_id@,
                policy@,
                req@,
                now,
                admission::cwd_readable(policy@, req@),
                process_guard::allowed(policy@, req@.program, false),
            ),
    {
        admission::admit_program(Gate::LocalProcess, space_id, policy, req, now)
    }

    /// How a child is started in a sandbox. Where isolation is not required, it is
    /// started without what the system cannot do.
    pub fn spawn_sandboxed(&self, policy: &Policy, req: SpawnRequest, facts: SpawnFacts) -> (r:
        EnforceResult<SpawnPlan>)
        ensures
            match r {
                Err(e) => spawn_refusal(self@.opts, facts@) == Some(e@),
                Ok(plan) => {
                    &&& spawn_refusal(self@.opts, facts@) is None
                    &&& plan.req@ == (SpawnRequestView {
                        env: match facts.proxy_port {
                            Some(port) => merged(req@.env, egress_proxy::variables(port)),
                            None => req@.env,
                        },
                        ..req@
                    })
                    &&& order::sorted_once(
                        policy@.style,
                        plan.deny_paths.deep_view(),
                        hidden_paths(self@.opts, policy@, facts@),
                    )
                    &&& plan.hooks == hooks(
                        self@,
                        policy@.network,
                        facts.platform,
                        facts.proxy_port,
                        facts.prepared is Ok,
                    )
                },
            },
    {
        let ghost fv = facts@;
        let ghost start = req@;
        let prepared = facts.prepared.is_ok();
        if self.opts.isolate_apply && self.opts.require_kernel {
            if let Err(e) = facts.prepared {
                return Err(e);
            }
        }
        let mut hidden: Vec<String> = Vec::new();
        assert(hidden.deep_view() =~= Seq::<Seq<char>>::empty());
        if facts.platform == Platform::Linux {
            let mut found: Vec<String> = Vec::new();
            match facts.globs {
                Ok(g) => {
                    found = g;
                },
                Err(e) => {
                    if self.opts.require_kernel {
                        return Err(e);
                    }
                    assert(found.deep_view() =~= Seq::<Seq<char>>::empty());
                },
            }
            assert(found.deep_view() == fv.globs);
            if self.opts.auto_bwrap && (facts.bwrap_available || self.opts.require_kernel) {
                hidden = bwrap::deny_paths_for_bwrap(policy);
                let ghost plain = hidden.deep_view();
                hidden.append(&mut found);
                assert(hidden.deep_view() =~= plain + fv.globs);
            }
        }
        assert(hidden.deep_view() == hidden_paths(self@.opts, policy@, fv));
        let mut req = req;
        if let Some(port) = facts.proxy_port {
            merge_env(&mut req.env, egress_proxy::env_vars(port));
        }
        assert(req@ =~= (SpawnRequestView { env: req@.env, ..start }));
        let restrict = self.restrict_child_net || matches!(policy.network, NetworkPolicy::DenyAll);
        let filter = if self.opts.isolate_apply {
            if restrict {
                Some(ChildFilter::All)
            } else if facts.proxy_port.is_some() {
                Some(ChildFilter::Server)
            } else {
                None
            }
        } else if restrict && facts.platform == Platform::Linux {
            Some(ChildFilter::All)
        } else {
            None
        };
        let hooks = ChildHooks {
            sandbox: self.opts.isolate_apply && prepared,
            block_net: self.opts.block_process_network,
            proxy_port: facts.proxy_port,
            filter,
        };
        Ok(SpawnPlan { req, deny_paths: order::sort_once(policy.style, &hidden), hooks })
    }

    /// How a child is started under Windows, given whether the policy lets its
    /// program path be read.
    pub fn spawn_windows_given(
        &self,
        req: SpawnRequest,
        proxy_port: Option<u16>,
        program_readable: bool,
    ) -> (r: EnforceResult<SpawnRequest>)
        ensures
            match r {
                Err(e) => {
                    &&& native::absolute(Style::Windows, req@.program) && !program_readable
                    &&& e@ == EnforceErrorView::Denied(
                        "program path not readable under policy: "@ + req@.program,
                    )
                },
                Ok(q) => {
                    &&& !native::absolute(Style::Windows, req@.program) || program_readable
                    &&& q@ == (SpawnRequestView {
                        env: match proxy_port {
                            Some(port) => merged(req@.env, egress_proxy::variables(port)),
                            None => req@.env,
                        },
                        ..req@
                    })
                },
            },
    {
        if native::is_absolute(Style::Windows, req.program.as_str()) && !program_readable {
            return Err(
                EnforceError::denied(
                    "program path not readable under policy: ",
                    req.program.as_str(),
                ),
            );
        }
        let ghost start = req@;
        let mut req = req;
        if let Some(port) = proxy_port {
            merge_env(&mut req.env, egress_proxy::env_vars(port));
        }
        assert(req@ =~= (SpawnRequestView { env: req@.env, ..start }));
        Ok(req)
    }

    /// How a child is started under Windows; paths are read as Windows paths.
    pub fn spawn_windows(&self, policy: &Policy, req: SpawnRequest, proxy_port: Option<u16>) -> (r:
        EnforceResult<SpawnRequest>)
        ensures
            ({
                let judge = PolicyView { style: Style::Windows, ..policy@ };
                let readable = process_guard::allowed(judge, req@.program, false);
                match r {
                    Err(e) => {
                        &&& native::absolute(Style::Windows, req@.program) && !readable
                        &&& e@ == EnforceErrorView::Denied(
                            "program path not readable under policy: "@ + req@.program,
                        )
                    },
                    Ok(q) => {
                        &&& !native::absolute(Style::Windows, req@.program) || readable
                        &&& q@ == (SpawnRequestView {
                            env: match proxy_port {
                                Some(port) => merged(req@.env, egress_proxy::variables(port)),
                                None => req@.env,
                            },
                            ..req@
                        })
                    },
                }
            }),
    {
        let mut judge = policy.clone();
        judge.style = Style::Windows;
        let readable = soft_fs_allowed(&judge, req.program.as_str(), false);
        self.spawn_windows_given(req, proxy_port, readable)
    }
}

impl Default for LocalProcessBackend {
    fn default() -> (r: Self)
        ensures
            r@ == (LocalProcessView {
                opts: LocalProcessOptions::usual(),
                applied: false,
                restrict_child_net: false,
            }),
    {
        LocalProcessBackend::new()
    }
}

// ---------------------------------------------------------------------------
// Laws
// ---------------------------------------------------------------------------
/// Under a policy without network, no child on Linux reaches the network: it
/// installs the full filter.
pub proof fn denied_network_is_filtered(
    b: LocalProcessView,
    proxy_port: Option<u16>,
    prepared: bool,
)
    ensures
        hooks(b, NetworkPolicyView::DenyAll, Platform::Linux, proxy_port, prepared).filter == Some(
            ChildFilter::All,
        ),
{
}

/// A child that goes through the proxy opens no ports of its own.
pub proof fn proxied_children_cannot_listen(
    b: LocalProcessView,
    network: NetworkPolicyView,
    platform: Platform,
    port: u16,
    prepared: bool,
)
    requires
        b.opts.isolate_apply,
    ensures
        ({
            let filter = hooks(b, network, platform, Some(port), prepared).filter;
            &&& filter is Some
            &&& child_net::blocked_calls(filter->0).contains(NetSyscall::Bind)
            &&& child_net::blocked_calls(filter->0).contains(NetSyscall::Listen)
        }),
{
    let all = child_net::blocked_calls(ChildFilter::All);
    let server = child_net::blocked_calls(ChildFilter::Server);
    assert(all[1] == NetSyscall::Bind && all[4] == NetSyscall::Listen);
    assert(server[0] == NetSyscall::Bind && server[1] == NetSyscall::Listen);
}

/// Where isolation is required, a policy that the kernel cannot carry out is not
/// taken on, and under it nothing starts.
pub proof fn required_isolation_fails_closed(
    opts: LocalProcessOptions,
    facts: IsolationFactsView,
    spawn: SpawnFactsView,
)
    requires
        opts.require_kernel,
        opts.isolate_apply,
    ensures
        facts.failure is Some ==> isolation_refusal(opts, facts) is Some,
        facts.platform == Platform::Linux && facts.denied_paths > 0 && !facts.bwrap_available
            ==> isolation_refusal(opts, facts) is Some,
        spawn.prepare_failure is Some ==> spawn_refusal(opts, spawn) is Some,
{
}

/// Where isolation is required, every child that starts is sandboxed, and on
/// Linux all that the policy denies is hidden from it.
pub proof fn required_isolation_is_carried_out(
    b: LocalProcessView,
    policy: PolicyView,
    f: SpawnFactsView,
)
    requires
        b.opts.require_kernel,
        b.opts.isolate_apply,
        b.opts.auto_bwrap,
        spawn_refusal(b.opts, f) is None,
    ensures
        hooks(
            b,
            policy.network,
            f.platform,
            f.proxy_port,
            f.prepare_failure is None,
        ).sandbox,
        f.platform == Platform::Linux ==> hidden_paths(b.opts, policy, f) == bwrap::plain_denials(
            policy.fs,
            policy.workspace,
        ) + f.globs,
{
}

/// One process is never sandboxed with two different policies.
pub proof fn host_is_bound_once(
    opts: LocalProcessOptions,
    policy_id: Seq<char>,
    details: Seq<char>,
    bound: Seq<char>,
)
    ensures
        host_step(opts, policy_id, true, details, Some(bound)) is Ok <==> bound == policy_id,
        host_step(opts, policy_id, true, details, Some(bound)) != Ok::<HostStep, EnforceErrorView>(
            HostStep::ApplyNow,
        ),
{
}

/// Variables that the request sets are kept when the proxy's are added.
pub proof fn merging_keeps_the_environment(
    env: Seq<(Seq<char>, Seq<char>)>,
    extra: Seq<(Seq<char>, Seq<char>)>,
)
    ensures
        env.is_prefix_of(merged(env, extra)),
    decreases extra.len(),
{
    if extra.len() > 0 {
        merging_keeps_the_environment(env, extra.drop_last());
        let before = merged(env, extra.drop_last());
        let after = merged(env, extra);
        assert(after.subrange(0, env.len() as int) =~= before.subrange(0, env.len() as int));
    } else {
        assert(env.subrange(0, env.len() as int) =~= env);
    }
}

/// What a child is started with. It is sandboxed if and only if children apply the
/// kernel sandbox and it was prepared. It may not use the network at all if the policy
/// has none or the backend restricts it, where children apply the sandbox or the
/// system is Linux; else it may open no port if it goes through the proxy and children
/// apply the sandbox; else nothing is filtered.
pub proof fn what_children_are_started_with(
    b: LocalProcessView,
    network: NetworkPolicyView,
    platform: Platform,
    proxy_port: Option<u16>,
    prepared: bool,
)
    ensures
        ({
            let h = hooks(b, network, platform, proxy_port, prepared);
            let none = b.restrict_child_net || network is DenyAll;
            &&& h.sandbox <==> b.opts.isolate_apply && prepared
            &&& h.block_net == b.opts.block_process_network
            &&& h.proxy_port == proxy_port
            &&& h.filter == Some(ChildFilter::All) <==> none && (b.opts.isolate_apply || platform
                == Platform::Linux)
            &&& h.filter == Some(ChildFilter::Server) <==> !none && b.opts.isolate_apply
                && proxy_port is Some
        }),
{
}

/// Taking a policy on restricts the network of children if the policy has none or the
/// options block it, and never lifts a restriction.
pub proof fn taking_on_restricts_the_network(b: LocalProcessView, network: NetworkPolicyView)
    ensures
        b.ready(network).applied,
        b.ready(network).opts == b.opts,
        b.ready(network).restrict_child_net <==> b.restrict_child_net || network is DenyAll
            || b.opts.block_process_network,
{
}

/// A start is refused if and only if isolation is required and what it needs failed: the
/// preparation, where children apply the sandbox, or on Linux the expansion of deny
/// globs. The reason is what failed first.
pub proof fn when_isolation_refuses(
    opts: LocalProcessOptions,
    f: SpawnFactsView,
    i: IsolationFactsView,
)
    ensures
        spawn_refusal(opts, f) is Some <==> opts.require_kernel && ((opts.isolate_apply
            && f.prepare_failure is Some) || (f.platform == Platform::Linux && f.glob_failure
            is Some)),
        spawn_refusal(opts, f) is Some ==> spawn_refusal(opts, f) == f.prepare_failure
            || spawn_refusal(opts, f) == f.glob_failure,
        isolation_refusal(opts, i) is Some <==> opts.require_kernel && (i.failure is Some || (
        i.platform == Platform::Linux && i.denied_paths > 0 && !i.bwrap_available)),
        opts.require_kernel && i.failure is Some ==> isolation_refusal(opts, i) == i.failure,
{
}

/// On Linux every path that a plain rule denies and every path that a deny glob stands
/// for is hidden from a child, where hiding is on and can or has to be done; elsewhere
/// nothing is.
pub proof fn what_is_hidden(
    opts: LocalProcessOptions,
    policy: PolicyView,
    f: SpawnFactsView,
    path: Seq<char>,
)
    ensures
        hidden_paths(opts, policy, f).contains(path) <==> f.platform == Platform::Linux
            && opts.auto_bwrap && (f.bwrap_available || opts.require_kernel) && (f.globs.contains(
            path,
        ) || exists|k: int|
            0 <= k < policy.fs.len() && (#[trigger] policy.fs[k]).access == FsAccess::Deny
                && !policy.fs[k].glob && path == path::joined(policy.workspace, policy.fs[k].path)),
{
    bwrap::denials_are_of_plain_rules(policy.fs, policy.workspace, path);
    let a = bwrap::plain_denials(policy.fs, policy.workspace);
    let all = a + f.globs;
    if all.contains(path) {
        let i = choose|i: int| 0 <= i < all.len() && all[i] == path;
        if i < a.len() {
            assert(a[i] == path);
        } else {
            assert(f.globs[i - a.len()] == path);
        }
    }
    if a.contains(path) {
        let i = choose|i: int| 0 <= i < a.len() && a[i] == path;
        assert(all[i] == path);
    }
    if f.globs.contains(path) {
        let i = choose|i: int| 0 <= i < f.globs.len() && f.globs[i] == path;
        assert(all[a.len() + i] == path);
    }
}

/// What becomes of the host process: without support nothing, which is refused where
/// isolation is required; with it the sandbox is applied once, and only for one policy.
pub proof fn what_becomes_of_the_host(
    opts: LocalProcessOptions,
    policy_id: Seq<char>,
    supported: bool,
    details: Seq<char>,
    bound: Option<Seq<char>>,
)
    ensures
        ({
            let r = host_step(opts, policy_id, supported, details, bound);
            &&& r == Ok::<HostStep, EnforceErrorView>(HostStep::ApplyNow) <==> supported && bound
                is None
            &&& r == Ok::<HostStep, EnforceErrorView>(HostStep::AlreadyBound) <==> supported
                && bound == Some(policy_id)
            &&& r == Ok::<HostStep, EnforceErrorView>(HostStep::SoftOnly) <==> !supported
                && !opts.require_kernel
            &&& !supported && opts.require_kernel ==> r == Err::<HostStep, EnforceErrorView>(
                EnforceErrorView::Unsupported(details),
            )
            &&& supported && bound is Some && bound->0 != policy_id ==> r == Err::<
                HostStep,
                EnforceErrorView,
            >(EnforceErrorView::AlreadyApplied { applied: bound->0, requested: policy_id })
        }),
{
}

/// Every variable that is added is there afterwards; with its own value, unless it was
/// set before.
pub proof fn merging_adds_what_is_missing(
    env: Seq<(Seq<char>, Seq<char>)>,
    extra: Seq<(Seq<char>, Seq<char>)>,
    i: int,
)
    requires
        0 <= i < extra.len(),
    ensures
        ({
            let m = merged(env, extra);
            &&& exists|k: int| 0 <= k < m.len() && (#[trigger] m[k]).0 == extra[i].0
            &&& (forall|k: int| 0 <= k < env.len() ==> (#[trigger] env[k]).0 != extra[i].0) && (
            forall|j: int| 0 <= j < i ==> (#[trigger] extra[j]).0 != extra[i].0) ==> m.contains(
                extra[i],
            )
        }),
    decreases extra.len(),
{
    let front = extra.drop_last();
    let b = merged(env, front);
    let m = merged(env, extra);
    let x = extra[i];
    if i < extra.len() - 1 {
        merging_adds_what_is_missing(env, front, i);
        assert(front[i] == x);
        let k = choose|k: int| 0 <= k < b.len() && (#[trigger] b[k]).0 == x.0;
        assert(m[k].0 == x.0);
        if (forall|k: int| 0 <= k < env.len() ==> (#[trigger] env[k]).0 != x.0) && (forall|j: int|
            0 <= j < i ==> (#[trigger] extra[j]).0 != x.0) {
            assert forall|j: int| 0 <= j < i implies (#[trigger] front[j]).0 != x.0 by {
                assert(front[j] == extra[j]);
            }
            let y = choose|y: int| 0 <= y < b.len() && b[y] == x;
            assert(m[y] == x);
        }
    } else if credentials::has_key(b, x.0) {
        let k = choose|k: int| 0 <= k < b.len() && (#[trigger] b[k]).0 == x.0;
        assert(m[k].0 == x.0);
        merging_adds_nothing_else(env, front, k);
        if forall|j: int| 0 <= j < i ==> (#[trigger] extra[j]).0 != x.0 {
            if exists|j: int| 0 <= j < front.len() && b[k] == #[trigger] front[j] {
                let j = choose|j: int| 0 <= j < front.len() && b[k] == #[trigger] front[j];
                assert(extra[j] == front[j]);
            }
        }
    } else {
        assert(m[m.len() - 1] == x);
    }
}

/// Every variable was set before or is one of those that were to be added.
pub proof fn merging_adds_nothing_else(
    env: Seq<(Seq<char>, Seq<char>)>,
    extra: Seq<(Seq<char>, Seq<char>)>,
    k: int,
)
    requires
        0 <= k < merged(env, extra).len(),
    ensures
        k < env.len() ==> merged(env, extra)[k] == env[k],
        k >= env.len() ==> exists|j: int|
            0 <= j < extra.len() && merged(env, extra)[k] == #[trigger] extra[j],
    decreases extra.len(),
{
    if extra.len() > 0 {
        let front = extra.drop_last();
        let b = merged(env, front);
        merging_keeps_the_environment(env, front);
        assert(b.subrange(0, env.len() as int) == env);
        if k < b.len() {
            merging_adds_nothing_else(env, front, k);
            if k >= env.len() {
                let j = choose|j: int| 0 <= j < front.len() && b[k] == #[trigger] front[j];
                assert(extra[j] == front[j]);
            }
        } else {
            assert(merged(env, extra)[k] == extra[extra.len() - 1]);
        }
    }
}

/// Isolation is what the backend does unless it is told otherwise.
pub proof fn isolation_is_the_usual()
    ensures
        ({
            let o = LocalProcessOptions::usual();
            &&& o.require_kernel && o.isolate_apply && o.auto_bwrap
            &&& o.windows_job && o.windows_restricted_token
            &&& !o.block_process_network
        }),
{
}

/// What is written to the audit trail of a policy before there is a space: a note, under
/// the policy and its task.
pub proof fn what_is_written_before_there_is_a_space(
    policy: PolicyView,
    message: Seq<char>,
    now: Timestamp,
)
    ensures
        ({
            let e = pending_note(policy, message, now);
            &&& e.space_id == "pending"@ && e.policy_id == policy.id && e.task_id == policy.task_id
            &&& e.event == (EventKindView::Note { message }) && e.timestamp == now
        }),
{
}

/// What is said once children will be isolated, and where paths cannot be hidden.
pub proof fn what_is_said_of_isolation(
    network: NetworkPolicyView,
    url: Seq<char>,
    opts: LocalProcessOptions,
    f: IsolationFactsView,
)
    ensures
        !(network is Allowlist) ==> isolation_message(network, Some(url))
            == "local-process isolate_apply: host unsandboxed; children apply kernel FS"@
            && isolation_message(network, None) == isolation_message(network, Some(url)),
        network is Allowlist ==> isolation_message(network, Some(url))
            == "local-process isolate_apply: host unsandboxed; children apply kernel FS"@ + "; "@
            + ("egress proxy on "@ + url
            + "; allowlist enforces ProxyOnly on sandboxed children"@),
        network is Allowlist ==> isolation_message(network, None)
            == "local-process isolate_apply: host unsandboxed; children apply kernel FS"@ + "; "@
            + "allowlist: CONNECT proxy + child ProxyOnly (install proxy-aware tools)"@,
        opts.require_kernel && f.failure is None && isolation_refusal(opts, f) is Some
            ==> isolation_refusal(opts, f) == Some(
            EnforceErrorView::ApplyFailed(
                "Linux read-deny requires bubblewrap (bwrap) when deny paths/globs are present (baseline credential denies included); install bwrap or set require_kernel=false / clear denies"@,
            ),
        ),
{
}

} // verus!
