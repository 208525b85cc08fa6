//! Built-in profiles: policy templates for everyday agents.
use crate::baseline;
use crate::error::{PolicyErrorView, PolicyResult};
use crate::ids::PolicyId;
use crate::native;
use crate::native::Style;
use crate::net::{NetworkPolicy, NetworkPolicyView};
use crate::paths::{FsAccess, FsRule, FsRuleView};
use crate::policy::{ExecPolicy, Policy, PolicyBuilder, PolicyBuilderView};
use crate::process_guard;
use crate::time::Timestamp;
use vstd::prelude::*;

verus! {

/// What profiles depend on: environment variables, and how paths are written.
#[derive(Debug)]
pub struct Environment {
    /// `KEEL_HOME`
    pub keel_home: Option<String>,
    /// `HOME`
    pub home: Option<String>,
    /// `USERPROFILE`
    pub user_profile: Option<String>,
    /// `TMPDIR`
    pub tmpdir: Option<String>,
    pub style: Style,
}

#[verifier::ext_equal]
pub struct EnvironmentView {
    pub keel_home: Option<Seq<char>>,
    pub home: Option<Seq<char>>,
    pub user_profile: Option<Seq<char>>,
    pub tmpdir: Option<Seq<char>>,
    pub style: Style,
}

impl View for Environment {
    type V = EnvironmentView;

    open spec fn view(&self) -> EnvironmentView {
        EnvironmentView {
            keel_home: self.keel_home.deep_view(),
            home: self.home.deep_view(),
            user_profile: self.user_profile.deep_view(),
            tmpdir: self.tmpdir.deep_view(),
            style: self.style,
        }
    }
}

impl EnvironmentView {
    /// The state directory that profiles make writable.
    pub open spec fn state_dir(self) -> Seq<char> {
        match self.keel_home {
            Some(h) => h,
            None => native::joined(
                self.style,
                match self.home {
                    Some(h) => h,
                    None => "/tmp"@,
                },
                ".keel"@,
            ),
        }
    }

    /// The home directory whose credentials are denied.
    pub open spec fn secrets_home(self) -> Seq<char> {
        match self.home {
            Some(h) => h,
            None => match self.user_profile {
                Some(h) => h,
                None => "/tmp"@,
            },
        }
    }

    /// The directories for temporary files.
    pub open spec fn temp_dirs(self) -> Seq<Seq<char>> {
        let fixed = seq!["/tmp"@, "/var/tmp"@];
        let own = match self.tmpdir {
            Some(t) => if native::same_path(self.style, t, "/tmp"@) || native::same_path(
                self.style,
                t,
                "/var/tmp"@,
            ) {
                fixed
            } else {
                fixed.push(t)
            },
            None => fixed,
        };
        own + seq!["/private/tmp"@, "/private/var/tmp"@, "/private/var/folders"@]
    }
}

impl Environment {
    /// The state directory that profiles make writable.
    pub fn state_dir(&self) -> (r: String)
        ensures
            r@ == self@.state_dir(),
    {
        match &self.keel_home {
            Some(h) => h.clone(),
            None => {
                let home = match &self.home {
                    Some(h) => h.as_str(),
                    None => "/tmp",
                };
                native::join(self.style, home, ".keel")
            },
        }
    }

    /// The home directory whose credentials are denied.
    pub fn secrets_home(&self) -> (r: String)
        ensures
            r@ == self@.secrets_home(),
    {
        match &self.home {
            Some(h) => h.clone(),
            None => match &self.user_profile {
                Some(h) => h.clone(),
                None => "/tmp".to_owned(),
            },
        }
    }

    /// The directories for temporary files.
    pub fn temp_dirs(&self) -> (r: Vec<String>)
        ensures
            r.deep_view() == self@.temp_dirs(),
    {
        let mut v: Vec<String> = Vec::new();
        v.push("/tmp".to_owned());
        v.push("/var/tmp".to_owned());
        if let Some(t) = &self.tmpdir {
            if !native::same(self.style, t.as_str(), "/tmp") && !native::same(
                self.style,
                t.as_str(),
                "/var/tmp",
            ) {
                v.push(t.clone());
            }
        }
        v.push("/private/tmp".to_owned());
        v.push("/private/var/tmp".to_owned());
        v.push("/private/var/folders".to_owned());
        assert(v.deep_view() =~= self@.temp_dirs());
        v
    }
}

/// Plain rules with one access for the given paths.
pub open spec fn rules_for(paths: Seq<Seq<char>>, access: FsAccess) -> Seq<FsRuleView> {
    paths.map_values(|p: Seq<char>| FsRuleView { path: p, access, glob: false })
}

/// The system directories that the strict profile can read.
pub open spec fn system_dirs() -> Seq<Seq<char>> {
    seq![
        "/usr"@,
        "/lib"@,
        "/lib64"@,
        "/bin"@,
        "/sbin"@,
        "/etc"@,
        "/dev"@,
        "/proc"@,
        "/sys"@,
        "/tmp"@,
        "/run"@,
        "/var"@,
        "/System"@,
        "/Library"@,
        "/private"@,
    ]
}

/// Reads anything; writes the workspace, the state directory and temporary
/// files; no network limit.
pub open spec fn workspace_profile(workspace: Seq<char>, env: EnvironmentView, id: Seq<char>)
    -> PolicyBuilderView {
    PolicyBuilderView {
        label: Some("workspace"@),
        default_read: true,
        fs: rules_for(seq![workspace, env.state_dir()] + env.temp_dirs(), FsAccess::ReadWrite),
        style: env.style,
        ..PolicyBuilderView::fresh(workspace, id)
    }
}

/// Reads anything; writes the state directory and temporary files; no network.
pub open spec fn read_only_profile(workspace: Seq<char>, env: EnvironmentView, id: Seq<char>)
    -> PolicyBuilderView {
    PolicyBuilderView {
        label: Some("read-only"@),
        default_read: true,
        network: NetworkPolicyView::DenyAll,
        fs: rules_for(seq![env.state_dir()] + env.temp_dirs(), FsAccess::ReadWrite),
        style: env.style,
        ..PolicyBuilderView::fresh(workspace, id)
    }
}

/// Reads system directories; writes the workspace, the state directory and
/// temporary files; no network.
pub open spec fn strict_profile(workspace: Seq<char>, env: EnvironmentView, id: Seq<char>)
    -> PolicyBuilderView {
    PolicyBuilderView {
        label: Some("strict"@),
        default_read: false,
        network: NetworkPolicyView::DenyAll,
        fs: rules_for(seq![workspace, env.state_dir()], FsAccess::ReadWrite) + rules_for(
            system_dirs(),
            FsAccess::Read,
        ) + rules_for(env.temp_dirs(), FsAccess::ReadWrite),
        style: env.style,
        ..PolicyBuilderView::fresh(workspace, id)
    }
}

/// `r` is what building the profile at `now` gives.
pub open spec fn built(
    r: PolicyResult<Policy>,
    profile: PolicyBuilderView,
    env: EnvironmentView,
    now: Timestamp,
) -> bool {
    let policy = profile.policy(now, env.secrets_home());
    match r {
        Ok(p) => p@ == policy && policy.problem() is None,
        Err(e) => policy.problem() is Some && e@ == PolicyErrorView::Invalid(policy.problem()->0),
    }
}

fn add_rules(b: PolicyBuilder, paths: &Vec<String>, access: FsAccess) -> (r: PolicyBuilder)
    ensures
        r@ == (PolicyBuilderView {
            fs: b@.fs + rules_for(paths.deep_view(), access),
            ..b@
        }),
{
    let ghost start = b@;
    let ghost m = rules_for(paths.deep_view(), access);
    let mut b = b;
    let mut i: usize = 0;
    assert(b@.fs =~= start.fs + m.take(0));
    while i < paths.len()
        invariant
            m == rules_for(paths.deep_view(), access),
            i <= paths.len(),
            b@ == (PolicyBuilderView { fs: start.fs + m.take(i as int), ..start }),
        decreases paths.len() - i,
    {
        assert(paths.deep_view()[i as int] == paths@[i as int]@);
        b = b.fs_rule(FsRule { path: paths[i].clone(), access, glob: false });
        i += 1;
        assert(b@.fs =~= start.fs + m.take(i as int));
    }
    assert(m.take(m.len() as int) =~= m);
    b
}

/// Everyday coding.
pub fn profile_workspace(workspace: &str, env: &Environment, id: PolicyId, now: Timestamp) -> (r:
    PolicyResult<Policy>)
    ensures
        built(r, workspace_profile(workspace@, env@, id@), env@, now),
{
    let b = Policy::builder(workspace, id).style(env.style);
    let b = b.label("workspace").default_read(true).read_write(
        workspace,
    ).read_write(env.state_dir().as_str()).exec_policy(ExecPolicy::Allow).network(
        NetworkPolicy::Unrestricted,
    );
    let b = add_rules(b, &env.temp_dirs(), FsAccess::ReadWrite);
    assert(b@ =~= workspace_profile(workspace@, env@, id@));
    b.build(now, env.secrets_home().as_str())
}

/// Exploring without changing the project.
pub fn profile_read_only(workspace: &str, env: &Environment, id: PolicyId, now: Timestamp) -> (r:
    PolicyResult<Policy>)
    ensures
        built(r, read_only_profile(workspace@, env@, id@), env@, now),
{
    let b = Policy::builder(workspace, id).style(env.style);
    let b = b.label("read-only").default_read(true).read_write(
        env.state_dir().as_str(),
    ).exec_policy(ExecPolicy::Allow).network(NetworkPolicy::DenyAll);
    let b = add_rules(b, &env.temp_dirs(), FsAccess::ReadWrite);
    assert(b@ =~= read_only_profile(workspace@, env@, id@));
    b.build(now, env.secrets_home().as_str())
}

/// The workspace and system paths only.
pub fn profile_strict(workspace: &str, env: &Environment, id: PolicyId, now: Timestamp) -> (r:
    PolicyResult<Policy>)
    ensures
        built(r, strict_profile(workspace@, env@, id@), env@, now),
{
    let b = Policy::builder(workspace, id).style(env.style);
    let b = b.label("strict").default_read(false).read_write(
        workspace,
    ).read_write(env.state_dir().as_str()).exec_policy(ExecPolicy::Allow).network(
        NetworkPolicy::DenyAll,
    );
    let b = b.read_only("/usr").read_only("/lib").read_only("/lib64").read_only("/bin").read_only(
        "/sbin",
    ).read_only("/etc").read_only("/dev").read_only("/proc").read_only("/sys").read_only(
        "/tmp",
    ).read_only("/run").read_only("/var").read_only("/System").read_only("/Library").read_only(
        "/private",
    );
    let b = add_rules(b, &env.temp_dirs(), FsAccess::ReadWrite);
    assert(b@ =~= strict_profile(workspace@, env@, id@));
    b.build(now, env.secrets_home().as_str())
}

// ---------------------------------------------------------------------------
// Laws
// ---------------------------------------------------------------------------
/// The path lies at or below one of the directories, as seen from the workspace.
pub open spec fn in_any(
    style: Style,
    workspace: Seq<char>,
    p: Seq<char>,
    dirs: Seq<Seq<char>>,
) -> bool {
    exists|i: int|
        0 <= i < dirs.len() && native::under(
            style,
            native::resolved(style, workspace, p),
            native::resolved(style, workspace, #[trigger] dirs[i]),
        )
}

/// The directories that a profile with a writable workspace writes.
pub open spec fn work_dirs(workspace: Seq<char>, env: EnvironmentView) -> Seq<Seq<char>> {
    seq![workspace, env.state_dir()] + env.temp_dirs()
}

/// The `workspace` profile writes nothing outside the workspace, the state
/// directory and the directories for temporary files.
pub proof fn workspace_profile_stays_inside(
    workspace: Seq<char>,
    env: EnvironmentView,
    id: Seq<char>,
    now: Timestamp,
    p: Seq<char>,
)
    ensures
        ({
            let policy = workspace_profile(workspace, env, id).policy(now, env.secrets_home());
            process_guard::allowed(policy, p, true) ==> in_any(
                env.style,
                workspace,
                p,
                work_dirs(workspace, env),
            )
        }),
{
    let profile = workspace_profile(workspace, env, id);
    let policy = profile.policy(now, env.secrets_home());
    if process_guard::allowed(policy, p, true) {
        let i = writing_rule(profile, env, now, p);
        assert(work_dirs(workspace, env)[i] == policy.fs[i].path);
    }
}

/// The `read-only` profile writes nothing outside the state directory and the
/// directories for temporary files; it has no network.
pub proof fn read_only_profile_keeps_the_project(
    workspace: Seq<char>,
    env: EnvironmentView,
    id: Seq<char>,
    now: Timestamp,
    p: Seq<char>,
)
    ensures
        ({
            let policy = read_only_profile(workspace, env, id).policy(now, env.secrets_home());
            &&& process_guard::allowed(policy, p, true) ==> in_any(
                env.style,
                workspace,
                p,
                seq![env.state_dir()] + env.temp_dirs(),
            )
            &&& policy.network is DenyAll
        }),
{
    let profile = read_only_profile(workspace, env, id);
    let policy = profile.policy(now, env.secrets_home());
    if process_guard::allowed(policy, p, true) {
        let i = writing_rule(profile, env, now, p);
        assert((seq![env.state_dir()] + env.temp_dirs())[i] == policy.fs[i].path);
    }
}

/// The `strict` profile writes what the `workspace` profile writes, reads nothing
/// else but the system directories, and has no network.
#[verifier::spinoff_prover]
#[verifier::rlimit(60)]
pub proof fn strict_profile_stays_inside(
    workspace: Seq<char>,
    env: EnvironmentView,
    id: Seq<char>,
    now: Timestamp,
    p: Seq<char>,
)
    ensures
        ({
            let policy = strict_profile(workspace, env, id).policy(now, env.secrets_home());
            &&& process_guard::allowed(policy, p, true) ==> in_any(
                env.style,
                workspace,
                p,
                work_dirs(workspace, env),
            )
            &&& process_guard::allowed(policy, p, false) ==> in_any(
                env.style,
                workspace,
                p,
                work_dirs(workspace, env) + system_dirs(),
            )
            &&& policy.network is DenyAll
        }),
{
    let profile = strict_profile(workspace, env, id);
    let policy = profile.policy(now, env.secrets_home());
    let dirs = work_dirs(workspace, env);
    let all = dirs + system_dirs();
    let np = native::resolved(env.style, workspace, p);
    let n = system_dirs().len() as int;
    if process_guard::allowed(policy, p, true) {
        let i = writing_rule(profile, env, now, p);
        let k = if i < 2 {
            i
        } else {
            i - n
        };
        assert(dirs[k] == policy.fs[i].path);
    }
    if process_guard::allowed(policy, p, false) {
        let i = choose|i: int|
            0 <= i < policy.fs.len() && process_guard::rule_grants(
                env.style,
                #[trigger] policy.fs[i],
                workspace,
                np,
                false,
            );
        baseline_denies(env.style, env.secrets_home());
        if i >= profile.fs.len() {
            assert(policy.fs[i] == baseline::deny_rules(env.style, env.secrets_home())[i
                - profile.fs.len()]);
        }
        let k = if i < 2 {
            i
        } else if i < 2 + n {
            dirs.len() + (i - 2)
        } else {
            i - n
        };
        assert(all[k] == policy.fs[i].path);
    }
}

proof fn baseline_denies(style: Style, home: Seq<char>)
    ensures
        forall|k: int|
            0 <= k < baseline::deny_rules(style, home).len() ==> (#[trigger] baseline::deny_rules(
                style,
                home,
            )[k]).access == FsAccess::Deny,
{
    assert forall|k: int| 0 <= k < baseline::deny_rules(style, home).len() implies (
    #[trigger] baseline::deny_rules(style, home)[k]).access == FsAccess::Deny by {
        let c = baseline::credential_rules(style, home);
        let n = baseline::credential_suffixes().len() as int;
        if k < n {
            assert(c[k] == baseline::denial(
                native::joined(style, home, baseline::credential_suffixes()[k]),
                false,
            ));
        } else if k < c.len() {
            assert(c[k] == baseline::denial(baseline::system_secrets()[k - n], false));
        } else {
            let j = k - c.len();
            assert(baseline::secret_rules()[j] == baseline::denial(
                baseline::secret_patterns()[j],
                true,
            ));
        }
    }
}

/// The rule of the profile that lets the path be written.
proof fn writing_rule(
    profile: PolicyBuilderView,
    env: EnvironmentView,
    now: Timestamp,
    p: Seq<char>,
) -> (i: int)
    requires
        profile.style == env.style,
        process_guard::allowed(profile.policy(now, env.secrets_home()), p, true),
    ensures
        0 <= i < profile.fs.len(),
        profile.policy(now, env.secrets_home()).fs[i] == profile.fs[i],
        profile.fs[i].access == FsAccess::ReadWrite,
        native::under(
            profile.style,
            native::resolved(profile.style, profile.workspace, p),
            native::resolved(profile.style, profile.workspace, profile.fs[i].path),
        ),
{
    let policy = profile.policy(now, env.secrets_home());
    process_guard::write_needs_a_rule(policy, p);
    let i = choose|i: int|
        0 <= i < policy.fs.len() && (#[trigger] policy.fs[i]).access == FsAccess::ReadWrite
            && native::under(
            policy.style,
            native::resolved(policy.style, policy.workspace, p),
            native::resolved(policy.style, policy.workspace, policy.fs[i].path),
        );
    baseline_denies(env.style, env.secrets_home());
    if i >= profile.fs.len() {
        assert(policy.fs[i] == baseline::deny_rules(env.style, env.secrets_home())[i
            - profile.fs.len()]);
    }
    i
}

/// The built-in profiles are policies that can be used wherever there is a workspace.
pub proof fn profiles_can_be_used(
    workspace: Seq<char>,
    env: EnvironmentView,
    id: Seq<char>,
    now: Timestamp,
)
    requires
        workspace.len() > 0,
    ensures
        workspace_profile(workspace, env, id).policy(now, env.secrets_home()).problem() is None,
        read_only_profile(workspace, env, id).policy(now, env.secrets_home()).problem() is None,
        strict_profile(workspace, env, id).policy(now, env.secrets_home()).problem() is None,
{
}

/// What the built-in profiles are: `workspace` and `read-only` read anything, `strict`
/// does not; only `workspace` has a network; all may start subprocesses; all deny the
/// usual places of secrets; and all have a name.
pub proof fn profiles_are_what_their_names_say(
    workspace: Seq<char>,
    env: EnvironmentView,
    id: Seq<char>,
)
    ensures
        ({
            let w = workspace_profile(workspace, env, id);
            let r = read_only_profile(workspace, env, id);
            let s = strict_profile(workspace, env, id);
            &&& w.default_read && r.default_read && !s.default_read
            &&& w.network is Unrestricted && r.network is DenyAll && s.network is DenyAll
            &&& w.baseline && r.baseline && s.baseline
            &&& w.exec_policy == ExecPolicy::Allow && r.exec_policy == ExecPolicy::Allow
                && s.exec_policy == ExecPolicy::Allow
            &&& w.label == Some("workspace"@) && r.label == Some("read-only"@) && s.label == Some(
                "strict"@,
            )
            &&& w.workspace == workspace && r.workspace == workspace && s.workspace == workspace
            &&& w.id == id && r.id == id && s.id == id
            &&& w.style == env.style && r.style == env.style && s.style == env.style
            &&& w.credentials.len() == 0 && r.credentials.len() == 0 && s.credentials.len() == 0
            &&& w.expires_at is None && r.expires_at is None && s.expires_at is None
            &&& w.task_id is None && r.task_id is None && s.task_id is None
        }),
{
}

/// The `workspace` and the `strict` profile let the workspace be written; every
/// profile lets the state directory and the directories for temporary files be
/// written; and the `strict` profile lets the system directories be read. This is so
/// of everything at or below these that no denial covers.
pub proof fn profiles_grant_what_they_are_for(
    workspace: Seq<char>,
    env: EnvironmentView,
    id: Seq<char>,
    dir: Seq<char>,
)
    ensures
        ({
            let write = FsRuleView { path: dir, access: FsAccess::ReadWrite, glob: false };
            let read = FsRuleView { path: dir, access: FsAccess::Read, glob: false };
            let w = workspace_profile(workspace, env, id).fs;
            let r = read_only_profile(workspace, env, id).fs;
            let s = strict_profile(workspace, env, id).fs;
            let temporary = dir == "/tmp"@ || dir == "/var/tmp"@ || dir == "/private/tmp"@ || dir
                == "/private/var/tmp"@ || dir == "/private/var/folders"@ || (env.tmpdir == Some(
                dir,
            ) && !native::same_path(env.style, dir, "/tmp"@) && !native::same_path(
                env.style,
                dir,
                "/var/tmp"@,
            ));
            &&& w.contains(write) <==> dir == workspace || dir == env.state_dir() || temporary
            &&& r.contains(write) <==> dir == env.state_dir() || temporary
            &&& s.contains(write) <==> dir == workspace || dir == env.state_dir() || temporary
            &&& !w.contains(read) && !r.contains(read)
            &&& s.contains(read) <==> dir == "/usr"@ || dir == "/lib"@ || dir == "/lib64"@ || dir
                == "/bin"@ || dir == "/sbin"@ || dir == "/etc"@ || dir == "/dev"@ || dir == "/proc"@
                || dir == "/sys"@ || dir == "/tmp"@ || dir == "/run"@ || dir == "/var"@ || dir
                == "/System"@ || dir == "/Library"@ || dir == "/private"@
        }),
{
    let temp = env.temp_dirs();
    let sys = system_dirs();
    let two = seq![workspace, env.state_dir()];
    let one = seq![env.state_dir()];
    temp_dirs_are(env, dir);
    system_dirs_are(dir);
    rules_of(two + temp, dir, FsAccess::ReadWrite);
    rules_of(one + temp, dir, FsAccess::ReadWrite);
    rules_of(two, dir, FsAccess::ReadWrite);
    rules_of(temp, dir, FsAccess::ReadWrite);
    rules_of(sys, dir, FsAccess::Read);
    in_both(two, temp, dir);
    in_both(one, temp, dir);
    assert(two.contains(dir) <==> dir == workspace || dir == env.state_dir()) by {
        assert(two[0] == workspace && two[1] == env.state_dir());
    }
    assert(one.contains(dir) <==> dir == env.state_dir()) by {
        assert(one[0] == env.state_dir());
    }
    let write = FsRuleView { path: dir, access: FsAccess::ReadWrite, glob: false };
    let read = FsRuleView { path: dir, access: FsAccess::Read, glob: false };
    let a = rules_for(two, FsAccess::ReadWrite);
    let b = rules_for(sys, FsAccess::Read);
    let c = rules_for(temp, FsAccess::ReadWrite);
    in_both(a, b, write);
    in_both(a + b, c, write);
    in_both(a, b, read);
    in_both(a + b, c, read);
}

proof fn in_both<A>(a: Seq<A>, b: Seq<A>, x: A)
    ensures
        (a + b).contains(x) <==> a.contains(x) || b.contains(x),
{
    let all = a + b;
    if all.contains(x) {
        let i = choose|i: int| 0 <= i < all.len() && all[i] == x;
        if i < a.len() {
            assert(a[i] == x);
        } else {
            assert(b[i - a.len()] == x);
        }
    }
    if a.contains(x) {
        let i = choose|i: int| 0 <= i < a.len() && a[i] == x;
        assert(all[i] == x);
    }
    if b.contains(x) {
        let i = choose|i: int| 0 <= i < b.len() && b[i] == x;
        assert(all[a.len() + i] == x);
    }
}

proof fn rules_of(dirs: Seq<Seq<char>>, dir: Seq<char>, access: FsAccess)
    ensures
        rules_for(dirs, access).contains(FsRuleView { path: dir, access, glob: false })
            <==> dirs.contains(dir),
        forall|r: FsRuleView|
            rules_for(dirs, access).contains(r) ==> (#[trigger] r.access) == access,
{
    let all = rules_for(dirs, access);
    let rule = FsRuleView { path: dir, access, glob: false };
    if all.contains(rule) {
        let i = choose|i: int| 0 <= i < all.len() && all[i] == rule;
        assert(dirs[i] == dir);
    }
    if dirs.contains(dir) {
        let i = choose|i: int| 0 <= i < dirs.len() && dirs[i] == dir;
        assert(all[i] == rule);
    }
}

proof fn temp_dirs_are(env: EnvironmentView, dir: Seq<char>)
    ensures
        env.temp_dirs().contains(dir) <==> dir == "/tmp"@ || dir == "/var/tmp"@ || dir
            == "/private/tmp"@ || dir == "/private/var/tmp"@ || dir == "/private/var/folders"@ || (
        env.tmpdir == Some(dir) && !native::same_path(env.style, dir, "/tmp"@)
            && !native::same_path(env.style, dir, "/var/tmp"@)),
{
    let t = env.temp_dirs();
    let n = t.len() - 3;
    assert(t[0] == "/tmp"@ && t[1] == "/var/tmp"@);
    assert(t[n] == "/private/tmp"@ && t[n + 1] == "/private/var/tmp"@ && t[n + 2]
        == "/private/var/folders"@);
    if n == 3 {
        assert(Some(t[2]) == env.tmpdir);
    }
}

proof fn system_dirs_are(dir: Seq<char>)
    ensures
        system_dirs().contains(dir) <==> dir == "/usr"@ || dir == "/lib"@ || dir == "/lib64"@ || dir
            == "/bin"@ || dir == "/sbin"@ || dir == "/etc"@ || dir == "/dev"@ || dir == "/proc"@
            || dir == "/sys"@ || dir == "/tmp"@ || dir == "/run"@ || dir == "/var"@ || dir
            == "/System"@ || dir == "/Library"@ || dir == "/private"@,
{
    let s = system_dirs();
    assert(s[0] == "/usr"@ && s[1] == "/lib"@ && s[2] == "/lib64"@ && s[3] == "/bin"@ && s[4]
        == "/sbin"@ && s[5] == "/etc"@ && s[6] == "/dev"@ && s[7] == "/proc"@ && s[8] == "/sys"@
        && s[9] == "/tmp"@ && s[10] == "/run"@ && s[11] == "/var"@ && s[12] == "/System"@ && s[13]
        == "/Library"@ && s[14] == "/private"@);
}

/// The state directory is what `KEEL_HOME` says, else `.keel` in the home directory;
/// the home directory of secrets is `HOME`, else `USERPROFILE`.
pub proof fn directories_come_from_the_environment(env: EnvironmentView)
    ensures
        env.keel_home is Some ==> Some(env.state_dir()) == env.keel_home,
        env.keel_home is None && env.home is Some ==> env.state_dir() == native::joined(
            env.style,
            env.home->0,
            ".keel"@,
        ),
        env.keel_home is None && env.home is None ==> env.state_dir() == native::joined(
            env.style,
            "/tmp"@,
            ".keel"@,
        ),
        env.home is Some ==> Some(env.secrets_home()) == env.home,
        env.home is None && env.user_profile is Some ==> Some(env.secrets_home())
            == env.user_profile,
        env.home is None && env.user_profile is None ==> env.secrets_home() == "/tmp"@,
{
}

/// A profile that can be used gives the policy that was built, and one that cannot
/// gives what is wrong with it.
pub proof fn building_gives_policy_or_reason(
    r: PolicyResult<Policy>,
    profile: PolicyBuilderView,
    env: EnvironmentView,
    now: Timestamp,
)
    requires
        built(r, profile, env, now),
    ensures
        ({
            let policy = profile.policy(now, env.secrets_home());
            &&& r is Ok <==> policy.problem() is None
            &&& r is Ok ==> r->Ok_0@ == policy
            &&& r is Err ==> r->Err_0@ == PolicyErrorView::Invalid(policy.problem()->0)
        }),
{
}

} // verus!
