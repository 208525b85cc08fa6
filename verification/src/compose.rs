//! Backends put together: what isolates, and whether in a working tree of its
//! own.
use crate::admission::{NullBackend, ProcessGuardBackend};
use crate::backend::BackendInfo;
use crate::local_process::{LocalProcessBackend, LocalProcessOptions, Platform};
use crate::worktree::WorktreeOptions;
use vstd::prelude::*;

verus! {

/// What isolates.
#[derive(Clone, Copy, Debug)]
pub enum Enforcer {
    Null(NullBackend),
    ProcessGuard(ProcessGuardBackend),
    LocalProcess(LocalProcessOptions),
}

/// What a backend is called, whether it isolates files in the kernel, and
/// whether it can take the network from child processes.
pub open spec fn enforcer_info(e: Enforcer, platform: Platform) -> (Seq<char>, bool, bool) {
    match e {
        Enforcer::Null(_) => ("null"@, false, false),
        Enforcer::ProcessGuard(_) => ("process-guard"@, false, false),
        Enforcer::LocalProcess(_) => (
            "local-process"@,
            platform == Platform::Linux || platform == Platform::MacOs,
            platform == Platform::Linux,
        ),
    }
}

impl Enforcer {
    pub fn info(&self, platform: Platform) -> (r: BackendInfo)
        ensures
            (r.name@, r.kernel_fs, r.child_network) == enforcer_info(*self, platform),
    {
        match self {
            Enforcer::Null(b) => b.info(),
            Enforcer::ProcessGuard(b) => b.info(),
            Enforcer::LocalProcess(opts) => LocalProcessBackend::with_options(*opts).info(platform),
        }
    }
}

/// A backend: what isolates, and in a working tree of its own if `worktree` says
/// how.
#[derive(Debug)]
pub struct Composition {
    pub worktree: Option<WorktreeOptions>,
    pub inner: Enforcer,
}

impl Composition {
    /// A working tree takes its own name and what it can do from inside.
    pub fn info(&self, platform: Platform) -> (r: BackendInfo)
        ensures
            ({
                let (name, kernel_fs, child_network) = enforcer_info(self.inner, platform);
                &&& r.name@ == if self.worktree is Some {
                    "local-worktree"@
                } else {
                    name
                }
                &&& r.kernel_fs == kernel_fs
                &&& r.child_network == child_network
            }),
    {
        let inner = self.inner.info(platform);
        match self.worktree {
            Some(_) => BackendInfo {
                name: "local-worktree",
                kernel_fs: inner.kernel_fs,
                child_network: inner.child_network,
            },
            None => inner,
        }
    }
}

/// A working tree, with checks and no isolation inside.
pub fn worktree_soft(opts: WorktreeOptions) -> (r: Composition)
    ensures
        r.worktree == Some(opts),
        r.inner == Enforcer::ProcessGuard(
            ProcessGuardBackend { soft_block_on_deny_all_net: false },
        ),
{
    Composition {
        worktree: Some(opts),
        inner: Enforcer::ProcessGuard(ProcessGuardBackend::new()),
    }
}

/// A working tree, with child processes isolated inside.
pub fn worktree_sandboxed(worktree: WorktreeOptions, local: LocalProcessOptions) -> (r: Composition)
    ensures
        r.worktree == Some(worktree),
        r.inner == Enforcer::LocalProcess(local),
{
    Composition { worktree: Some(worktree), inner: Enforcer::LocalProcess(local) }
}

/// Isolation without a working tree.
pub fn local_process(opts: LocalProcessOptions) -> (r: Composition)
    ensures
        r.worktree is None,
        r.inner == Enforcer::LocalProcess(opts),
{
    Composition { worktree: None, inner: Enforcer::LocalProcess(opts) }
}

/// Isolation of this process too.
pub fn local_process_confined() -> (r: Composition)
    ensures
        r.worktree is None,
        r.inner == Enforcer::LocalProcess(
            (LocalProcessOptions {
                isolate_apply: false,
                require_kernel: true,
                ..LocalProcessOptions::usual()
            }),
        ),
{
    Composition { worktree: None, inner: Enforcer::LocalProcess(LocalProcessOptions::confine_host()) }
}

/// Checks only.
pub fn process_guard() -> (r: Composition)
    ensures
        r.worktree is None,
        r.inner == Enforcer::ProcessGuard(
            ProcessGuardBackend { soft_block_on_deny_all_net: false },
        ),
{
    Composition { worktree: None, inner: Enforcer::ProcessGuard(ProcessGuardBackend::new()) }
}

/// What a backend says of itself: only the one that isolates processes has the help of
/// the kernel, for files on Linux and macOS and for the network on Linux.
pub proof fn what_backends_say_of_themselves(e: Enforcer, platform: Platform)
    ensures
        ({
            let (name, files, network) = enforcer_info(e, platform);
            &&& files <==> e is LocalProcess && (platform == Platform::Linux || platform
                == Platform::MacOs)
            &&& network <==> e is LocalProcess && platform == Platform::Linux
            &&& e is Null ==> name == "null"@
            &&& e is ProcessGuard ==> name == "process-guard"@
            &&& e is LocalProcess ==> name == "local-process"@
        }),
{
}

} // verus!
