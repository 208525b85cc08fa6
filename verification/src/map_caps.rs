//! A policy as capabilities of a kernel sandbox.
use crate::bwrap;
use crate::net::{NetworkPolicy, NetworkPolicyView};
use crate::path;
use crate::paths::FsAccess;
use crate::policy;
use crate::policy::{Policy, PolicyView};
use vstd::prelude::*;

verus! {

/// What a capability lets a process do with a path.
#[derive(Clone, Copy, Debug, PartialEq, Eq, Structural)]
pub enum AccessMode {
    Read,
    ReadWrite,
}

/// How a path is granted, depending on what is there.
#[derive(Clone, Copy, Debug, PartialEq, Eq, Structural)]
pub enum GrantRule {
    /// As a tree, if it is a directory.
    Tree,
    /// As a tree if it is a directory, as a file if it is something else.
    Existing,
    /// As a file, if anything is there.
    Device,
}

/// A path that is to be granted.
#[derive(Debug)]
pub struct GrantRequest {
    pub path: String,
    pub mode: AccessMode,
    pub rule: GrantRule,
    /// Whether a directory is made if nothing is there.
    pub create: bool,
}

#[verifier::ext_equal]
pub struct GrantRequestView {
    pub path: Seq<char>,
    pub mode: AccessMode,
    pub rule: GrantRule,
    pub create: bool,
}

impl View for GrantRequest {
    type V = GrantRequestView;

    open spec fn view(&self) -> GrantRequestView {
        GrantRequestView {
            path: self.path@,
            mode: self.mode,
            rule: self.rule,
            create: self.create,
        }
    }
}

impl DeepView for GrantRequest {
    type V = GrantRequestView;

    open spec fn deep_view(&self) -> GrantRequestView {
        self@
    }
}

/// The device files that common tools need.
pub open spec fn device_files() -> Seq<Seq<char>> {
    seq![
        "/dev/null"@,
        "/dev/zero"@,
        "/dev/random"@,
        "/dev/urandom"@,
        "/dev/tty"@,
        "/dev/ptmx"@,
        "/dev/fd"@,
    ]
}

/// Requests for existing paths, seen from the workspace.
pub open spec fn path_requests(
    paths: Seq<Seq<char>>,
    workspace: Seq<char>,
    mode: AccessMode,
    create: bool,
) -> Seq<GrantRequestView> {
    paths.map_values(
        |p: Seq<char>|
            GrantRequestView {
                path: path::joined(workspace, p),
                mode,
                rule: GrantRule::Existing,
                create,
            },
    )
}

pub open spec fn device_requests() -> Seq<GrantRequestView> {
    device_files().map_values(
        |p: Seq<char>|
            GrantRequestView {
                path: p,
                mode: AccessMode::ReadWrite,
                rule: GrantRule::Device,
                create: false,
            },
    ).push(
        GrantRequestView {
            path: "/dev/pts"@,
            mode: AccessMode::ReadWrite,
            rule: GrantRule::Tree,
            create: false,
        },
    )
}

/// The paths that a policy grants, in order: everything for reading if paths are
/// readable by default, the readable and the writable paths, and devices.
pub open spec fn requests(p: PolicyView) -> Seq<GrantRequestView> {
    (if p.default_read {
        seq![
            GrantRequestView {
                path: "/"@,
                mode: AccessMode::Read,
                rule: GrantRule::Tree,
                create: false,
            },
        ]
    } else {
        Seq::empty()
    }) + path_requests(
        policy::plain_paths(p.fs, FsAccess::Read),
        p.workspace,
        AccessMode::Read,
        false,
    ) + path_requests(
        policy::plain_paths(p.fs, FsAccess::ReadWrite),
        p.workspace,
        AccessMode::ReadWrite,
        true,
    ) + device_requests()
}

fn add_requests(
    out: &mut Vec<GrantRequest>,
    paths: &Vec<&String>,
    workspace: &str,
    mode: AccessMode,
    create: bool,
)
    ensures
        final(out).deep_view() == old(out).deep_view() + path_requests(
            paths.deep_view(),
            workspace@,
            mode,
            create,
        ),
{
    let ghost start = out.deep_view();
    let ghost m = path_requests(paths.deep_view(), workspace@, mode, create);
    let mut i: usize = 0;
    assert(out.deep_view() =~= start + m.take(0));
    while i < paths.len()
        invariant
            m == path_requests(paths.deep_view(), workspace@, mode, create),
            i <= paths.len(),
            out.deep_view() == start + m.take(i as int),
        decreases paths.len() - i,
    {
        let ghost now = out.deep_view();
        assert(paths.deep_view()[i as int] == paths@[i as int]@);
        out.push(
            GrantRequest {
                path: path::join(workspace, paths[i].as_str()),
                mode,
                rule: GrantRule::Existing,
                create,
            },
        );
        i += 1;
        assert(out.deep_view() =~= now.push(m[i - 1]));
        assert(out.deep_view() =~= start + m.take(i as int));
    }
    assert(m.take(m.len() as int) =~= m);
}

fn device(p: &str) -> (r: GrantRequest)
    ensures
        r@ == (GrantRequestView {
            path: p@,
            mode: AccessMode::ReadWrite,
            rule: GrantRule::Device,
            create: false,
        }),
{
    GrantRequest {
        path: p.to_owned(),
        mode: AccessMode::ReadWrite,
        rule: GrantRule::Device,
        create: false,
    }
}

/// The paths that the policy grants.
pub fn grant_requests(policy: &Policy) -> (r: Vec<GrantRequest>)
    ensures
        r.deep_view() == requests(policy@),
{
    let mut r: Vec<GrantRequest> = Vec::new();
    if policy.default_read {
        r.push(
            GrantRequest {
                path: "/".to_owned(),
                mode: AccessMode::Read,
                rule: GrantRule::Tree,
                create: false,
            },
        );
    }
    let ws = policy.workspace.as_str();
    let ghost first = r.deep_view();
    add_requests(&mut r, &policy.read_only_paths(), ws, AccessMode::Read, false);
    add_requests(&mut r, &policy.read_write_paths(), ws, AccessMode::ReadWrite, true);
    let ghost front = r.deep_view();
    assert(first =~= requests(policy@).take(first.len() as int));
    r.push(device("/dev/null"));
    r.push(device("/dev/zero"));
    r.push(device("/dev/random"));
    r.push(device("/dev/urandom"));
    r.push(device("/dev/tty"));
    r.push(device("/dev/ptmx"));
    r.push(device("/dev/fd"));
    r.push(
        GrantRequest {
            path: "/dev/pts".to_owned(),
            mode: AccessMode::ReadWrite,
            rule: GrantRule::Tree,
            create: false,
        },
    );
    assert(r.deep_view() =~= front + device_requests());
    r
}

/// What was found at a path.
#[derive(Clone, Copy, Debug, PartialEq, Eq, Structural)]
pub enum PathKind {
    Missing,
    Directory,
    Other,
}

/// One capability.
#[derive(Debug)]
pub enum CapStep {
    /// The directory and everything below it. If this fails, the sandbox fails.
    AllowTree { path: String, mode: AccessMode },
    /// The file. If this fails, the file is left out.
    AllowFile { path: String, mode: AccessMode },
}

#[verifier::ext_equal]
pub enum CapStepView {
    AllowTree { path: Seq<char>, mode: AccessMode },
    AllowFile { path: Seq<char>, mode: AccessMode },
}

impl View for CapStep {
    type V = CapStepView;

    open spec fn view(&self) -> CapStepView {
        match self {
            CapStep::AllowTree { path, mode } => CapStepView::AllowTree {
                path: path@,
                mode: *mode,
            },
            CapStep::AllowFile { path, mode } => CapStepView::AllowFile {
                path: path@,
                mode: *mode,
            },
        }
    }
}

impl DeepView for CapStep {
    type V = CapStepView;

    open spec fn deep_view(&self) -> CapStepView {
        self@
    }
}

/// The capability for a request, given what is at its path.
pub open spec fn step(q: GrantRequestView, kind: PathKind) -> Option<CapStepView> {
    let tree = CapStepView::AllowTree { path: q.path, mode: q.mode };
    let file = CapStepView::AllowFile { path: q.path, mode: q.mode };
    match (q.rule, kind) {
        (GrantRule::Tree, PathKind::Directory) => Some(tree),
        (GrantRule::Existing, PathKind::Directory) => Some(tree),
        (GrantRule::Existing, PathKind::Other) => Some(file),
        (GrantRule::Device, PathKind::Directory) => Some(file),
        (GrantRule::Device, PathKind::Other) => Some(file),
        _ => None,
    }
}

/// The capabilities for all requests, in order.
pub open spec fn steps(qs: Seq<GrantRequestView>, kinds: Seq<PathKind>) -> Seq<CapStepView>
    decreases qs.len(),
{
    if qs.len() == 0 {
        Seq::empty()
    } else {
        let before = steps(qs.drop_last(), kinds);
        match step(qs.last(), kinds[qs.len() - 1]) {
            Some(s) => before.push(s),
            None => before,
        }
    }
}

/// The network of a sandboxed process.
#[derive(Clone, Copy, Debug, PartialEq, Eq, Structural)]
pub enum ProcessNetwork {
    AllowAll,
    Blocked,
    /// Only this port of the local host.
    ProxyOnly(u16),
}

/// Options for mapping a policy to capabilities.
#[derive(Clone, Copy, Debug, PartialEq, Eq, Structural)]
pub struct MapOptions {
    /// Block the network whatever the policy says.
    pub block_process_network: bool,
    /// The port of the proxy that an allowlist goes through.
    pub egress_proxy_port: Option<u16>,
}

impl Default for MapOptions {
    fn default() -> (r: Self)
        ensures
            r == (MapOptions { block_process_network: false, egress_proxy_port: None }),
    {
        MapOptions { block_process_network: false, egress_proxy_port: None }
    }
}

/// The network of a sandboxed process. An allowlist without a proxy blocks it.
pub open spec fn process_network(network: NetworkPolicyView, opts: MapOptions) -> ProcessNetwork {
    if opts.block_process_network {
        ProcessNetwork::Blocked
    } else {
        match network {
            NetworkPolicyView::Unrestricted => ProcessNetwork::AllowAll,
            NetworkPolicyView::DenyAll => ProcessNetwork::Blocked,
            NetworkPolicyView::Allowlist(_) => match opts.egress_proxy_port {
                Some(port) => ProcessNetwork::ProxyOnly(port),
                None => ProcessNetwork::Blocked,
            },
        }
    }
}

/// What a kernel sandbox is set up with.
#[derive(Debug)]
pub struct CapabilitySet {
    pub steps: Vec<CapStep>,
    pub network: ProcessNetwork,
    /// The denied paths that are no globs, for platforms that can deny below a
    /// granted tree.
    pub denied: Vec<String>,
}

#[verifier::ext_equal]
pub struct CapabilitySetView {
    pub steps: Seq<CapStepView>,
    pub network: ProcessNetwork,
    pub denied: Seq<Seq<char>>,
}

impl View for CapabilitySet {
    type V = CapabilitySetView;

    open spec fn view(&self) -> CapabilitySetView {
        CapabilitySetView {
            steps: self.steps.deep_view(),
            network: self.network,
            denied: self.denied.deep_view(),
        }
    }
}

/// The capabilities of a policy, given what was found at the requested paths.
pub open spec fn capabilities(p: PolicyView, opts: MapOptions, kinds: Seq<PathKind>)
    -> CapabilitySetView {
    CapabilitySetView {
        steps: steps(requests(p), kinds),
        network: process_network(p.network, opts),
        denied: bwrap::plain_denials(p.fs, p.workspace),
    }
}

fn grant_step(q: &GrantRequest, kind: PathKind) -> (r: Option<CapStep>)
    ensures
        r.deep_view() == step(q@, kind),
{
    let path = q.path.clone();
    match (q.rule, kind) {
        (GrantRule::Tree, PathKind::Directory) => Some(CapStep::AllowTree { path, mode: q.mode }),
        (GrantRule::Existing, PathKind::Directory) => Some(
            CapStep::AllowTree { path, mode: q.mode },
        ),
        (GrantRule::Existing, PathKind::Other) => Some(CapStep::AllowFile { path, mode: q.mode }),
        (GrantRule::Device, PathKind::Directory) => Some(
            CapStep::AllowFile { path, mode: q.mode },
        ),
        (GrantRule::Device, PathKind::Other) => Some(CapStep::AllowFile { path, mode: q.mode }),
        _ => None,
    }
}

/// The network of a sandboxed process.
pub fn network_mode(network: &NetworkPolicy, opts: MapOptions) -> (r: ProcessNetwork)
    ensures
        r == process_network(network@, opts),
{
    if opts.block_process_network {
        return ProcessNetwork::Blocked;
    }
    match network {
        NetworkPolicy::Unrestricted => ProcessNetwork::AllowAll,
        NetworkPolicy::DenyAll => ProcessNetwork::Blocked,
        NetworkPolicy::Allowlist(_) => match opts.egress_proxy_port {
            Some(port) => ProcessNetwork::ProxyOnly(port),
            None => ProcessNetwork::Blocked,
        },
    }
}

/// The capabilities of the policy. `kinds` says what was found at the paths of
/// [`grant_requests`].
pub fn policy_to_capability_set(policy: &Policy, opts: MapOptions, kinds: &Vec<PathKind>) -> (r:
    CapabilitySet)
    requires
        kinds@.len() == requests(policy@).len(),
    ensures
        r@ == capabilities(policy@, opts, kinds@),
{
    let qs = grant_requests(policy);
    let ghost m = requests(policy@);
    let mut out: Vec<CapStep> = Vec::new();
    let mut i: usize = 0;
    assert(m.take(0) =~= Seq::<GrantRequestView>::empty());
    assert(out.deep_view() =~= steps(m.take(0), kinds@));
    while i < qs.len()
        invariant
            m == qs.deep_view(),
            kinds@.len() == m.len(),
            i <= qs.len(),
            out.deep_view() == steps(m.take(i as int), kinds@),
        decreases qs.len() - i,
    {
        assert(m[i as int] == qs@[i as int]@);
        assert(m.take(i + 1).drop_last() =~= m.take(i as int));
        let ghost before = out.deep_view();
        if let Some(s) = grant_step(&qs[i], kinds[i]) {
            out.push(s);
            assert(out.deep_view() =~= before.push(s@));
        }
        i += 1;
    }
    assert(m.take(m.len() as int) =~= m);
    CapabilitySet {
        steps: out,
        network: network_mode(&policy.network, opts),
        denied: bwrap::deny_paths_for_bwrap(policy),
    }
}

// ---------------------------------------------------------------------------
// Laws
// ---------------------------------------------------------------------------
proof fn steps_come_from_requests(qs: Seq<GrantRequestView>, kinds: Seq<PathKind>, i: int)
    requires
        0 <= i < steps(qs, kinds).len(),
    ensures
        exists|k: int|
            0 <= k < qs.len() && step(#[trigger] qs[k], kinds[k]) == Some(steps(qs, kinds)[i]),
    decreases qs.len(),
{
    let before = steps(qs.drop_last(), kinds);
    let all = steps(qs, kinds);
    if i < before.len() {
        steps_come_from_requests(qs.drop_last(), kinds, i);
        let k = choose|k: int|
            0 <= k < qs.drop_last().len() && step(#[trigger] qs.drop_last()[k], kinds[k]) == Some(
                before[i],
            );
        assert(qs[k] == qs.drop_last()[k]);
        assert(all[i] == before[i]);
    } else {
        assert(step(qs[qs.len() - 1], kinds[qs.len() - 1]) == Some(all[i]));
    }
}

/// The path is a device that every sandboxed process may use.
pub open spec fn is_device(p: Seq<char>) -> bool {
    device_files().contains(p) || p == "/dev/pts"@
}

pub open spec fn step_path(s: CapStepView) -> Seq<char> {
    match s {
        CapStepView::AllowTree { path, .. } => path,
        CapStepView::AllowFile { path, .. } => path,
    }
}

pub open spec fn step_mode(s: CapStepView) -> AccessMode {
    match s {
        CapStepView::AllowTree { mode, .. } => mode,
        CapStepView::AllowFile { mode, .. } => mode,
    }
}

/// The kernel lets a process write nothing but the writable paths of the policy
/// and devices.
pub proof fn only_writable_paths_are_writable(
    p: PolicyView,
    opts: MapOptions,
    kinds: Seq<PathKind>,
    i: int,
)
    requires
        0 <= i < capabilities(p, opts, kinds).steps.len(),
        step_mode(capabilities(p, opts, kinds).steps[i]) == AccessMode::ReadWrite,
    ensures
        is_device(step_path(capabilities(p, opts, kinds).steps[i])) || exists|k: int|
            0 <= k < policy::plain_paths(p.fs, FsAccess::ReadWrite).len() && path::joined(
                p.workspace,
                #[trigger] policy::plain_paths(p.fs, FsAccess::ReadWrite)[k],
            ) == step_path(capabilities(p, opts, kinds).steps[i]),
{
    let qs = requests(p);
    let s = steps(qs, kinds)[i];
    steps_come_from_requests(qs, kinds, i);
    let k = choose|k: int| 0 <= k < qs.len() && step(#[trigger] qs[k], kinds[k]) == Some(s);
    let ro = policy::plain_paths(p.fs, FsAccess::Read);
    let rw = policy::plain_paths(p.fs, FsAccess::ReadWrite);
    let a: int = if p.default_read {
        1
    } else {
        0
    };
    assert(qs[k].path == step_path(s) && qs[k].mode == AccessMode::ReadWrite);
    if k < a {
    } else if k < a + ro.len() {
        assert(qs[k] == path_requests(ro, p.workspace, AccessMode::Read, false)[k - a]);
    } else if k < a + ro.len() + rw.len() {
        let j = k - a - ro.len();
        assert(qs[k] == path_requests(rw, p.workspace, AccessMode::ReadWrite, true)[j]);
        assert(path::joined(p.workspace, rw[j]) == step_path(s));
    } else {
        let j = k - a - ro.len() - rw.len();
        assert(qs[k] == device_requests()[j]);
        if j < 7 {
            assert(device_files()[j] == step_path(s));
        }
    }
}

/// No sandboxed process reaches the network freely unless the policy leaves it
/// unrestricted.
pub proof fn restricted_network_is_never_open(network: NetworkPolicyView, opts: MapOptions)
    requires
        network !is Unrestricted,
    ensures
        process_network(network, opts) != ProcessNetwork::AllowAll,
{
}

/// Every capability is one that the policy gives: the path is a device; or a plain
/// rule of the policy names it and grants what the capability permits; or it is the
/// root, for reading, under a policy that makes paths readable by default.
pub proof fn every_capability_is_granted(
    p: PolicyView,
    opts: MapOptions,
    kinds: Seq<PathKind>,
    i: int,
)
    requires
        0 <= i < capabilities(p, opts, kinds).steps.len(),
    ensures
        ({
            let s = capabilities(p, opts, kinds).steps[i];
            let (path, mode) = match s {
                CapStepView::AllowTree { path, mode } => (path, mode),
                CapStepView::AllowFile { path, mode } => (path, mode),
            };
            ||| path == "/"@ && mode == AccessMode::Read && p.default_read
            ||| path == "/dev/null"@ || path == "/dev/zero"@ || path == "/dev/random"@ || path
                == "/dev/urandom"@ || path == "/dev/tty"@ || path == "/dev/ptmx"@ || path
                == "/dev/fd"@ || path == "/dev/pts"@
            ||| exists|k: int|
                0 <= k < p.fs.len() && !(#[trigger] p.fs[k]).glob && path == path::joined(
                    p.workspace,
                    p.fs[k].path,
                ) && (match mode {
                    AccessMode::ReadWrite => p.fs[k].access == FsAccess::ReadWrite,
                    AccessMode::Read => p.fs[k].access == FsAccess::Read,
                })
        }),
{
    let qs = requests(p);
    let s = steps(qs, kinds)[i];
    steps_come_from_requests(qs, kinds, i);
    let k = choose|k: int| 0 <= k < qs.len() && step(#[trigger] qs[k], kinds[k]) == Some(s);
    let ro = policy::plain_paths(p.fs, FsAccess::Read);
    let rw = policy::plain_paths(p.fs, FsAccess::ReadWrite);
    let a: int = if p.default_read {
        1
    } else {
        0
    };
    assert(qs[k].path == step_path(s) && qs[k].mode == step_mode(s));
    if k < a {
    } else if k < a + ro.len() {
        assert(qs[k] == path_requests(ro, p.workspace, AccessMode::Read, false)[k - a]);
        policy::plain_paths_are_of_plain_rules(p.fs, FsAccess::Read, ro[k - a]);
        assert(ro.contains(ro[k - a]));
    } else if k < a + ro.len() + rw.len() {
        let j = k - a - ro.len();
        assert(qs[k] == path_requests(rw, p.workspace, AccessMode::ReadWrite, true)[j]);
        policy::plain_paths_are_of_plain_rules(p.fs, FsAccess::ReadWrite, rw[j]);
        assert(rw.contains(rw[j]));
    } else {
        let j = k - a - ro.len() - rw.len();
        assert(qs[k] == device_requests()[j]);
        if j < 7 {
            assert(device_files()[j] == step_path(s));
        }
    }
}

/// Every plain rule that grants something is asked for, once, with its access; a
/// directory that may be written is made if it is missing. The root is asked for if
/// and only if paths are readable by default.
pub proof fn every_grant_is_asked_for(p: PolicyView, rule: int)
    requires
        0 <= rule < p.fs.len(),
        !p.fs[rule].glob,
        p.fs[rule].access != FsAccess::Deny,
    ensures
        ({
            let write = p.fs[rule].access == FsAccess::ReadWrite;
            requests(p).contains(
                GrantRequestView {
                    path: path::joined(p.workspace, p.fs[rule].path),
                    mode: if write {
                        AccessMode::ReadWrite
                    } else {
                        AccessMode::Read
                    },
                    rule: GrantRule::Existing,
                    create: write,
                },
            )
        }),
{
    let access = p.fs[rule].access;
    let write = access == FsAccess::ReadWrite;
    let ro = policy::plain_paths(p.fs, FsAccess::Read);
    let rw = policy::plain_paths(p.fs, FsAccess::ReadWrite);
    let a: int = if p.default_read {
        1
    } else {
        0
    };
    policy::plain_paths_are_of_plain_rules(p.fs, access, p.fs[rule].path);
    if write {
        let j = choose|j: int| 0 <= j < rw.len() && rw[j] == p.fs[rule].path;
        let q = path_requests(rw, p.workspace, AccessMode::ReadWrite, true)[j];
        assert(requests(p)[a + ro.len() + j] == q);
    } else {
        let j = choose|j: int| 0 <= j < ro.len() && ro[j] == p.fs[rule].path;
        let q = path_requests(ro, p.workspace, AccessMode::Read, false)[j];
        assert(requests(p)[a + j] == q);
    }
}

/// The devices that common tools need, and the root for reading where paths are
/// readable by default, are asked for.
pub proof fn devices_and_the_root_are_asked_for(p: PolicyView, device: Seq<char>)
    requires
        device == "/dev/null"@ || device == "/dev/zero"@ || device == "/dev/random"@ || device
            == "/dev/urandom"@ || device == "/dev/tty"@ || device == "/dev/ptmx"@ || device
            == "/dev/fd"@,
    ensures
        requests(p).contains(
            GrantRequestView {
                path: device,
                mode: AccessMode::ReadWrite,
                rule: GrantRule::Device,
                create: false,
            },
        ),
        requests(p).contains(
            GrantRequestView {
                path: "/dev/pts"@,
                mode: AccessMode::ReadWrite,
                rule: GrantRule::Tree,
                create: false,
            },
        ),
        p.default_read ==> requests(p).contains(
            GrantRequestView {
                path: "/"@,
                mode: AccessMode::Read,
                rule: GrantRule::Tree,
                create: false,
            },
        ),
{
    let qs = requests(p);
    let n = qs.len() - 8;
    let f = device_files();
    assert(f[0] == "/dev/null"@ && f[1] == "/dev/zero"@ && f[2] == "/dev/random"@ && f[3]
        == "/dev/urandom"@ && f[4] == "/dev/tty"@ && f[5] == "/dev/ptmx"@ && f[6] == "/dev/fd"@);
    let d = choose|d: int| 0 <= d < 7 && #[trigger] f[d] == device;
    assert(qs[n + d] == device_requests()[d]);
    assert(qs[n + 7] == device_requests()[7]);
    if p.default_read {
        assert(qs[0].path == "/"@);
    }
}

/// What is asked for and found is granted: a directory as a tree, anything else as a
/// file if files will do. What is missing is not.
pub proof fn what_is_found_is_granted(
    p: PolicyView,
    opts: MapOptions,
    kinds: Seq<PathKind>,
    k: int,
)
    requires
        0 <= k < requests(p).len(),
    ensures
        ({
            let q = requests(p)[k];
            let got = capabilities(p, opts, kinds).steps;
            &&& kinds[k] == PathKind::Directory && q.rule != GrantRule::Device ==> got.contains(
                CapStepView::AllowTree { path: q.path, mode: q.mode },
            )
            &&& kinds[k] == PathKind::Other && q.rule != GrantRule::Tree ==> got.contains(
                CapStepView::AllowFile { path: q.path, mode: q.mode },
            )
            &&& kinds[k] == PathKind::Directory && q.rule == GrantRule::Device ==> got.contains(
                CapStepView::AllowFile { path: q.path, mode: q.mode },
            )
        }),
{
    found_steps(requests(p), kinds, k);
}

proof fn found_steps(qs: Seq<GrantRequestView>, kinds: Seq<PathKind>, k: int)
    requires
        0 <= k < qs.len(),
    ensures
        step(qs[k], kinds[k]) is Some ==> steps(qs, kinds).contains(step(qs[k], kinds[k])->0),
    decreases qs.len(),
{
    let all = steps(qs, kinds);
    let before = steps(qs.drop_last(), kinds);
    if k < qs.len() - 1 {
        found_steps(qs.drop_last(), kinds, k);
        if step(qs[k], kinds[k]) is Some {
            let s = step(qs[k], kinds[k])->0;
            let j = choose|j: int| 0 <= j < before.len() && before[j] == s;
            assert(all[j] == s);
        }
    } else if step(qs[k], kinds[k]) is Some {
        assert(all[all.len() - 1] == step(qs[k], kinds[k])->0);
    }
}

/// Every capability comes from something that was asked for and found there: a tree
/// from a directory, nothing from what is missing.
pub proof fn nothing_is_granted_that_was_not_found(
    p: PolicyView,
    opts: MapOptions,
    kinds: Seq<PathKind>,
    i: int,
)
    requires
        0 <= i < capabilities(p, opts, kinds).steps.len(),
    ensures
        exists|k: int|
            0 <= k < requests(p).len() && kinds[k] != PathKind::Missing && (match capabilities(
                p,
                opts,
                kinds,
            ).steps[i] {
                CapStepView::AllowTree { path, mode } => path == (
                #[trigger] requests(p)[k]).path && mode == requests(p)[k].mode && kinds[k]
                    == PathKind::Directory,
                CapStepView::AllowFile { path, mode } => path == requests(p)[k].path && mode
                    == requests(p)[k].mode,
            }),
{
    let qs = requests(p);
    let s = steps(qs, kinds)[i];
    steps_come_from_requests(qs, kinds, i);
    let k = choose|k: int| 0 <= k < qs.len() && step(#[trigger] qs[k], kinds[k]) == Some(s);
    assert(kinds[k] != PathKind::Missing);
}

/// The network of a sandboxed process is blocked if the options say so or the policy
/// has none; free if the policy does not limit it; and for an allowlist the proxy
/// alone, if there is one, else blocked.
pub proof fn the_network_follows_the_policy(
    p: PolicyView,
    opts: MapOptions,
    kinds: Seq<PathKind>,
    port: u16,
)
    ensures
        ({
            let n = capabilities(p, opts, kinds).network;
            &&& n == ProcessNetwork::AllowAll <==> !opts.block_process_network
                && p.network is Unrestricted
            &&& n == ProcessNetwork::ProxyOnly(port) <==> !opts.block_process_network
                && p.network is Allowlist && opts.egress_proxy_port == Some(port)
            &&& n == ProcessNetwork::Blocked <==> opts.block_process_network
                || p.network is DenyAll || (p.network is Allowlist && opts.egress_proxy_port
                is None)
        }),
{
}

/// The denied paths of the sandbox are those of the plain denials, in order.
pub proof fn plain_denials_are_denied(
    p: PolicyView,
    opts: MapOptions,
    kinds: Seq<PathKind>,
    path: Seq<char>,
)
    ensures
        capabilities(p, opts, kinds).denied.contains(path) <==> exists|k: int|
            0 <= k < p.fs.len() && (#[trigger] p.fs[k]).access == FsAccess::Deny && !p.fs[k].glob
                && path == path::joined(p.workspace, p.fs[k].path),
{
    bwrap::denials_are_of_plain_rules(p.fs, p.workspace, path);
}

} // verus!
