//! Named profiles from `sandbox.toml`.
//!
//! There is a global file and one in the project. The project can add profiles
//! under new names; it can redefine neither a global nor a built-in one, so that
//! an untrusted workspace cannot hollow out a trusted profile.
use crate::egress;
use crate::error::{PolicyError, PolicyErrorView, PolicyResult};
use crate::ids::PolicyId;
use crate::net::{NetworkPolicy, NetworkPolicyView, NetworkRule, NetworkRuleView};
use crate::number;
use crate::order;
use crate::native;
use crate::native::Style;
use crate::paths::{FsAccess, FsRule, FsRuleView};
use crate::policy::{ExecPolicy, Policy, PolicyBuilderView, PolicyView};
use crate::presets;
use crate::presets::{Environment, EnvironmentView};
use crate::text;
use crate::text::CharClass;
use crate::time::Timestamp;
use vstd::prelude::*;
use vstd::string::*;

verus! {

/// A profile as it is written under `[profiles.<name>]`.
#[derive(Debug)]
pub struct ProfileConfig {
    /// The profile to start from: a built-in one or another name.
    pub extends: Option<String>,
    /// `true` for no network, unless hosts are listed.
    pub restrict_network: Option<bool>,
    /// `unrestricted`, `deny-all` or `allowlist`.
    pub network: Option<String>,
    /// Hosts of the allowlist, as `host` or `host:port`.
    pub allow_hosts: Vec<String>,
    pub read_only: Vec<String>,
    pub read_write: Vec<String>,
    /// Denied paths; those with an asterisk are globs.
    pub deny: Vec<String>,
    /// `true` for no subprocesses.
    pub deny_exec: Option<bool>,
}

#[verifier::ext_equal]
pub struct ProfileConfigView {
    pub extends: Option<Seq<char>>,
    pub restrict_network: Option<bool>,
    pub network: Option<Seq<char>>,
    pub allow_hosts: Seq<Seq<char>>,
    pub read_only: Seq<Seq<char>>,
    pub read_write: Seq<Seq<char>>,
    pub deny: Seq<Seq<char>>,
    pub deny_exec: Option<bool>,
}

impl View for ProfileConfig {
    type V = ProfileConfigView;

    open spec fn view(&self) -> ProfileConfigView {
        ProfileConfigView {
            extends: self.extends.deep_view(),
            restrict_network: self.restrict_network,
            network: self.network.deep_view(),
            allow_hosts: self.allow_hosts.deep_view(),
            read_only: self.read_only.deep_view(),
            read_write: self.read_write.deep_view(),
            deny: self.deny.deep_view(),
            deny_exec: self.deny_exec,
        }
    }
}

impl Default for ProfileConfig {
    fn default() -> (r: Self)
        ensures
            r@ == (ProfileConfigView {
                extends: None,
                restrict_network: None,
                network: None,
                allow_hosts: Seq::empty(),
                read_only: Seq::empty(),
                read_write: Seq::empty(),
                deny: Seq::empty(),
                deny_exec: None,
            }),
    {
        let r = ProfileConfig {
            extends: None,
            restrict_network: None,
            network: None,
            allow_hosts: Vec::new(),
            read_only: Vec::new(),
            read_write: Vec::new(),
            deny: Vec::new(),
            deny_exec: None,
        };
        assert(r@.allow_hosts =~= Seq::empty());
        assert(r@.read_only =~= Seq::empty());
        assert(r@.read_write =~= Seq::empty());
        assert(r@.deny =~= Seq::empty());
        r
    }
}

/// A profile with its name.
#[derive(Debug)]
pub struct NamedProfile {
    pub name: String,
    pub config: ProfileConfig,
}

#[verifier::ext_equal]
pub struct NamedProfileView {
    pub name: Seq<char>,
    pub config: ProfileConfigView,
}

impl View for NamedProfile {
    type V = NamedProfileView;

    open spec fn view(&self) -> NamedProfileView {
        NamedProfileView { name: self.name@, config: self.config@ }
    }
}

impl DeepView for NamedProfile {
    type V = NamedProfileView;

    open spec fn deep_view(&self) -> NamedProfileView {
        self@
    }
}

/// The profiles of one file.
#[derive(Debug)]
pub struct SandboxConfigFile {
    pub profiles: Vec<NamedProfile>,
}

/// No name occurs twice.
pub open spec fn distinct(profiles: Seq<NamedProfileView>) -> bool {
    forall|i: int, j: int|
        0 <= i < j < profiles.len() ==> (#[trigger] profiles[i]).name != (#[trigger] profiles[j]).name
}

/// The profile with the given name.
pub open spec fn lookup(profiles: Seq<NamedProfileView>, name: Seq<char>) -> Option<
    ProfileConfigView,
>
    decreases profiles.len(),
{
    if profiles.len() == 0 {
        None
    } else if profiles.last().name == name {
        Some(profiles.last().config)
    } else {
        lookup(profiles.drop_last(), name)
    }
}

/// Global and project profiles together.
#[derive(Debug)]
pub struct SandboxConfig {
    profiles: Vec<NamedProfile>,
    ignored_project_overrides: Vec<String>,
}

#[verifier::ext_equal]
pub struct SandboxConfigView {
    pub profiles: Seq<NamedProfileView>,
    /// Names that the project tried to redefine.
    pub ignored_project_overrides: Seq<Seq<char>>,
}

impl View for SandboxConfig {
    type V = SandboxConfigView;

    closed spec fn view(&self) -> SandboxConfigView {
        SandboxConfigView {
            profiles: self.profiles.deep_view(),
            ignored_project_overrides: self.ignored_project_overrides.deep_view(),
        }
    }
}

impl SandboxConfigView {
    /// No profile is defined twice.
    pub open spec fn well_formed(self) -> bool {
        distinct(self.profiles)
    }

    /// The configuration after the profiles of the project have been added. Names
    /// that are defined or built in already are left out and listed.
    pub open spec fn with_project(self, project: Seq<NamedProfileView>) -> Self
        decreases project.len(),
    {
        if project.len() == 0 {
            self
        } else {
            let before = self.with_project(project.drop_last());
            let p = project.last();
            if lookup(before.profiles, p.name) is Some || is_builtin(p.name) {
                SandboxConfigView {
                    ignored_project_overrides: before.ignored_project_overrides.push(p.name),
                    ..before
                }
            } else {
                SandboxConfigView { profiles: before.profiles.push(p), ..before }
            }
        }
    }
}

fn find_profile<'a>(profiles: &'a Vec<NamedProfile>, name: &str) -> (r: Option<&'a ProfileConfig>)
    ensures
        match r {
            Some(c) => lookup(profiles.deep_view(), name@) == Some(c@),
            None => lookup(profiles.deep_view(), name@) is None,
        },
{
    let ghost m = profiles.deep_view();
    let mut i: usize = profiles.len();
    assert(m.take(m.len() as int) =~= m);
    while i > 0
        invariant
            m == profiles.deep_view(),
            i <= profiles.len(),
            lookup(m, name@) == lookup(m.take(i as int), name@),
        decreases i,
    {
        assert(m[i - 1] == profiles@[i - 1]@);
        assert(m.take(i as int).drop_last() =~= m.take(i - 1));
        if text::same(profiles[i - 1].name.as_str(), name) {
            return Some(&profiles[i - 1].config);
        }
        i -= 1;
    }
    None
}

proof fn lookup_none(profiles: Seq<NamedProfileView>, name: Seq<char>)
    ensures
        lookup(profiles, name) is None <==> forall|i: int|
            0 <= i < profiles.len() ==> (#[trigger] profiles[i]).name != name,
    decreases profiles.len(),
{
    if profiles.len() > 0 {
        lookup_none(profiles.drop_last(), name);
        assert(profiles[profiles.len() - 1] == profiles.last());
        assert forall|i: int| 0 <= i < profiles.drop_last().len() implies profiles.drop_last()[i]
            == #[trigger] profiles[i] by {}
        if lookup(profiles, name) is None {
            assert forall|i: int| 0 <= i < profiles.len() implies (#[trigger] profiles[i]).name
                != name by {
                if i < profiles.len() - 1 {
                    assert(profiles.drop_last()[i].name != name);
                }
            }
        } else if profiles.last().name != name {
            let i = choose|i: int|
                0 <= i < profiles.drop_last().len() && (#[trigger] profiles.drop_last()[i]).name
                    == name;
            assert(profiles[i].name == name);
        }
    }
}

impl SandboxConfig {
    #[verifier::type_invariant]
    spec fn profiles_are_distinct(self) -> bool {
        distinct(self.profiles.deep_view())
    }

    /// Where the global and the project file are.
    pub fn search_paths(workspace: &str, env: &Environment) -> (r: (String, String))
        ensures
            r.0@ == native::joined(env@.style, env@.state_dir(), "sandbox.toml"@),
            r.1@ == native::joined(
                env@.style,
                native::joined(env@.style, workspace@, ".keel"@),
                "sandbox.toml"@,
            ),
    {
        (
            native::join(env.style, env.state_dir().as_str(), "sandbox.toml"),
            native::join(
                env.style,
                native::join(env.style, workspace, ".keel").as_str(),
                "sandbox.toml",
            ),
        )
    }

    /// The configuration from the global and the project file, where they exist
    /// and can be read.
    pub fn load_from(global: Option<SandboxConfigFile>, project: Option<SandboxConfigFile>) -> (r:
        Self)
        requires
            global is Some ==> distinct(global->0.profiles.deep_view()),
        ensures
            r@ == (SandboxConfigView {
                profiles: match global {
                    Some(g) => g.profiles.deep_view(),
                    None => Seq::empty(),
                },
                ignored_project_overrides: Seq::empty(),
            }).with_project(
                match project {
                    Some(p) => p.profiles.deep_view(),
                    None => Seq::empty(),
                },
            ),
            r@.well_formed(),
    {
        let mut profiles = match global {
            Some(g) => g.profiles,
            None => Vec::new(),
        };
        let mut ignored: Vec<String> = Vec::new();
        let ghost start = SandboxConfigView {
            profiles: profiles.deep_view(),
            ignored_project_overrides: ignored.deep_view(),
        };
        assert(start.ignored_project_overrides =~= Seq::empty());
        assert(global is None ==> start.profiles =~= Seq::empty());
        if let Some(p) = project {
            let ghost all = p.profiles.deep_view();
            let mut rest = p.profiles;
            let mut pending: Vec<NamedProfile> = Vec::new();
            while rest.len() > 0
                invariant
                    rest@.len() + pending@.len() == all.len(),
                    forall|i: int| 0 <= i < rest@.len() ==> (#[trigger] rest@[i])@ == all[i],
                    forall|i: int|
                        0 <= i < pending@.len() ==> (#[trigger] pending@[i])@ == all[all.len() - 1
                            - i],
                decreases rest.len(),
            {
                if let Some(last) = rest.pop() {
                    pending.push(last);
                }
            }
            let ghost mut done: int = 0;
            assert(all.take(0) =~= Seq::<NamedProfileView>::empty());
            while pending.len() > 0
                invariant
                    0 <= done,
                    done + pending@.len() == all.len(),
                    forall|i: int|
                        0 <= i < pending@.len() ==> (#[trigger] pending@[i])@ == all[all.len() - 1
                            - i],
                    start.with_project(all.take(done)) == (SandboxConfigView {
                        profiles: profiles.deep_view(),
                        ignored_project_overrides: ignored.deep_view(),
                    }),
                    distinct(profiles.deep_view()),
                decreases pending.len(),
            {
                let ghost before = start.with_project(all.take(done));
                assert(all.take(done + 1).drop_last() =~= all.take(done));
                assert(pending@[pending@.len() - 1]@ == all[done]);
                if let Some(profile) = pending.pop() {
                    assert(profile@ == all[done]);
                    if is_builtin_name(profile.name.as_str()) || find_profile(
                        &profiles,
                        profile.name.as_str(),
                    ).is_some() {
                        ignored.push(profile.name);
                        assert(ignored.deep_view() =~= before.ignored_project_overrides.push(
                            all[done].name,
                        ));
                    } else {
                        proof {
                            lookup_none(before.profiles, profile@.name);
                        }
                        profiles.push(profile);
                        assert(profiles.deep_view() =~= before.profiles.push(all[done]));
                    }
                    proof {
                        done = done + 1;
                    }
                }
            }
            assert(all.take(all.len() as int) =~= all);
        }
        SandboxConfig { profiles, ignored_project_overrides: ignored }
    }

    /// The names that the project tried to redefine.
    pub fn ignored_project_overrides(&self) -> (r: &Vec<String>)
        ensures
            r.deep_view() == self@.ignored_project_overrides,
    {
        &self.ignored_project_overrides
    }

    /// The profile with the given name.
    pub fn profile(&self, name: &str) -> (r: Option<&ProfileConfig>)
        ensures
            match r {
                Some(c) => lookup(self@.profiles, name@) == Some(c@),
                None => lookup(self@.profiles, name@) is None,
            },
    {
        find_profile(&self.profiles, name)
    }
}

// ---------------------------------------------------------------------------
// Reading the fields of a profile
// ---------------------------------------------------------------------------
/// The destination that an entry of `allow_hosts` stands for: what follows the
/// last colon is a port if it is the numeral of one.
pub open spec fn host_entry(h: Seq<char>) -> NetworkRuleView {
    let c = text::last_index(h, ':');
    let port = number::u16_numeral(h.subrange(c + 1, h.len() as int));
    if c >= 0 && port is Some {
        NetworkRuleView { host: h.subrange(0, c), port }
    } else {
        NetworkRuleView { host: h, port: None }
    }
}

pub open spec fn host_entries(hosts: Seq<Seq<char>>) -> Seq<NetworkRuleView> {
    hosts.map_values(|h: Seq<char>| host_entry(h))
}

fn parse_host(h: &str) -> (r: NetworkRule)
    ensures
        r@ == host_entry(h@),
{
    if let Some(c) = text::rfind_char(h, ':') {
        let n: usize = h.unicode_len();
        if let Some(port) = number::parse_u16(h.substring_char(c + 1, n)) {
            return NetworkRule::host_port(h.substring_char(0, c), port);
        }
    }
    NetworkRule::host(h)
}

/// The rules of an allowlist whose entries are written `HOST` or `HOST:PORT`. It
/// has at least one.
pub fn parse_allow_hosts(hosts: &Vec<String>) -> (r: PolicyResult<Vec<NetworkRule>>)
    ensures
        match r {
            Ok(rules) => hosts@.len() > 0 && rules.deep_view() == host_entries(hosts.deep_view()),
            Err(e) => hosts@.len() == 0 && e@ == PolicyErrorView::Invalid("allow_hosts is empty"@),
        },
{
    if hosts.len() == 0 {
        return Err(PolicyError::invalid("allow_hosts is empty"));
    }
    let ghost m = host_entries(hosts.deep_view());
    let mut r: Vec<NetworkRule> = Vec::new();
    let mut i: usize = 0;
    while i < hosts.len()
        invariant
            m == host_entries(hosts.deep_view()),
            i <= hosts.len(),
            r.deep_view() == m.take(i as int),
        decreases hosts.len() - i,
    {
        let ghost before = r.deep_view();
        assert(hosts.deep_view()[i as int] == hosts@[i as int]@);
        r.push(parse_host(hosts[i].as_str()));
        i += 1;
        assert(r.deep_view() =~= before.push(m[i - 1]));
        assert(r.deep_view() =~= m.take(i as int));
    }
    assert(m.take(m.len() as int) =~= m);
    Ok(r)
}

/// The network reach for a mode, or why there is none.
pub open spec fn network_mode(mode: Seq<char>, hosts: Seq<Seq<char>>) -> Result<
    NetworkPolicyView,
    Seq<char>,
> {
    let m = text::lowered(text::trimmed(mode, CharClass::Space));
    if m == "unrestricted"@ || m == "allow-all"@ || m == "open"@ {
        Ok(NetworkPolicyView::Unrestricted)
    } else if m == "deny-all"@ || m == "deny_all"@ || m == "blocked"@ || m == "none"@ {
        Ok(NetworkPolicyView::DenyAll)
    } else if m == "allowlist"@ || m == "allow-list"@ {
        if hosts.len() == 0 {
            Err("network = \"allowlist\" requires allow_hosts"@)
        } else {
            Ok(NetworkPolicyView::Allowlist(host_entries(hosts)))
        }
    } else {
        Err("unknown network mode '"@ + m + "'"@)
    }
}

fn parse_network_mode(mode: &str, hosts: &Vec<String>) -> (r: PolicyResult<NetworkPolicy>)
    ensures
        match r {
            Ok(n) => network_mode(mode@, hosts.deep_view()) == Ok::<NetworkPolicyView, Seq<char>>(
                n@,
            ),
            Err(e) => network_mode(mode@, hosts.deep_view()) is Err && e@
                == PolicyErrorView::Invalid(network_mode(mode@, hosts.deep_view())->Err_0),
        },
{
    let m = text::lower(text::trim(mode, CharClass::Space));
    let m = m.as_str();
    if text::same(m, "unrestricted") || text::same(m, "allow-all") || text::same(m, "open") {
        Ok(NetworkPolicy::Unrestricted)
    } else if text::same(m, "deny-all") || text::same(m, "deny_all") || text::same(m, "blocked")
        || text::same(m, "none") {
        Ok(NetworkPolicy::DenyAll)
    } else if text::same(m, "allowlist") || text::same(m, "allow-list") {
        if hosts.len() == 0 {
            Err(PolicyError::invalid("network = \"allowlist\" requires allow_hosts"))
        } else {
            match parse_allow_hosts(hosts) {
                Ok(rules) => Ok(NetworkPolicy::Allowlist(rules)),
                Err(e) => Err(e),
            }
        }
    } else {
        Err(PolicyError::Invalid("unknown network mode '".to_owned().concat(m).concat("'")))
    }
}

/// The network reach that a profile asks for; `None` if it asks for none.
pub open spec fn network_choice(pc: ProfileConfigView) -> Result<
    Option<NetworkPolicyView>,
    Seq<char>,
> {
    if pc.network is Some {
        match network_mode(pc.network->0, pc.allow_hosts) {
            Ok(n) => Ok(Some(n)),
            Err(m) => Err(m),
        }
    } else if pc.allow_hosts.len() > 0 {
        Ok(Some(NetworkPolicyView::Allowlist(host_entries(pc.allow_hosts))))
    } else if pc.restrict_network == Some(true) {
        Ok(Some(NetworkPolicyView::DenyAll))
    } else if pc.restrict_network == Some(false) {
        Ok(Some(NetworkPolicyView::Unrestricted))
    } else {
        Ok(None)
    }
}

/// The rule for a denied path of a profile.
pub open spec fn deny_entry(style: Style, workspace: Seq<char>, p: Seq<char>) -> FsRuleView {
    if p.contains('*') {
        FsRuleView { path: p, access: FsAccess::Deny, glob: true }
    } else {
        FsRuleView {
            path: native::joined(style, workspace, p),
            access: FsAccess::Deny,
            glob: false,
        }
    }
}

/// The rules that a profile adds.
pub open spec fn added_rules(style: Style, pc: ProfileConfigView, workspace: Seq<char>) -> Seq<
    FsRuleView,
> {
    presets::rules_for(
        pc.read_only.map_values(|p: Seq<char>| native::joined(style, workspace, p)),
        FsAccess::Read,
    ) + presets::rules_for(
        pc.read_write.map_values(|p: Seq<char>| native::joined(style, workspace, p)),
        FsAccess::ReadWrite,
    ) + pc.deny.map_values(|p: Seq<char>| deny_entry(style, workspace, p))
}

/// The policy with the profile applied.
pub open spec fn applied(policy: PolicyView, pc: ProfileConfigView, workspace: Seq<char>)
    -> PolicyView {
    PolicyView {
        fs: policy.fs + added_rules(policy.style, pc, workspace),
        network: match network_choice(pc) {
            Ok(Some(n)) => n,
            _ => policy.network,
        },
        exec_policy: if pc.deny_exec == Some(true) {
            ExecPolicy::Deny
        } else {
            policy.exec_policy
        },
        ..policy
    }
}

fn add_paths(
    fs: &mut Vec<FsRule>,
    style: Style,
    workspace: &str,
    paths: &Vec<String>,
    access: FsAccess,
)
    ensures
        final(fs).deep_view() == old(fs).deep_view() + presets::rules_for(
            paths.deep_view().map_values(|p: Seq<char>| native::joined(style, workspace@, p)),
            access,
        ),
{
    let ghost start = fs.deep_view();
    let ghost m = presets::rules_for(
        paths.deep_view().map_values(|p: Seq<char>| native::joined(style, workspace@, p)),
        access,
    );
    let mut i: usize = 0;
    assert(fs.deep_view() =~= start + m.take(0));
    while i < paths.len()
        invariant
            m == presets::rules_for(
                paths.deep_view().map_values(|p: Seq<char>| native::joined(style, workspace@, p)),
                access,
            ),
            i <= paths.len(),
            fs.deep_view() == start + m.take(i as int),
        decreases paths.len() - i,
    {
        let ghost now = fs.deep_view();
        assert(paths.deep_view()[i as int] == paths@[i as int]@);
        fs.push(
            FsRule { path: native::join(style, workspace, paths[i].as_str()), access, glob: false },
        );
        i += 1;
        assert(fs.deep_view() =~= now.push(m[i - 1]));
        assert(fs.deep_view() =~= start + m.take(i as int));
    }
    assert(m.take(m.len() as int) =~= m);
}

fn add_denials(fs: &mut Vec<FsRule>, style: Style, workspace: &str, paths: &Vec<String>)
    ensures
        final(fs).deep_view() == old(fs).deep_view() + paths.deep_view().map_values(
            |p: Seq<char>| deny_entry(style, workspace@, p),
        ),
{
    let ghost start = fs.deep_view();
    let ghost m = paths.deep_view().map_values(|p: Seq<char>| deny_entry(style, workspace@, p));
    let mut i: usize = 0;
    assert(fs.deep_view() =~= start + m.take(0));
    while i < paths.len()
        invariant
            m == paths.deep_view().map_values(|p: Seq<char>| deny_entry(style, workspace@, p)),
            i <= paths.len(),
            fs.deep_view() == start + m.take(i as int),
        decreases paths.len() - i,
    {
        let ghost now = fs.deep_view();
        assert(paths.deep_view()[i as int] == paths@[i as int]@);
        let p = paths[i].as_str();
        if text::contains_char(p, '*') {
            fs.push(FsRule::deny_glob(p));
        } else {
            fs.push(FsRule::deny(native::join(style, workspace, p).as_str()));
        }
        i += 1;
        assert(fs.deep_view() =~= now.push(m[i - 1]));
        assert(fs.deep_view() =~= start + m.take(i as int));
    }
    assert(m.take(m.len() as int) =~= m);
}

fn apply_profile_config(policy: &mut Policy, pc: &ProfileConfig, workspace: &str) -> (r:
    PolicyResult<()>)
    ensures
        match r {
            Ok(_) => network_choice(pc@) is Ok && final(policy)@ == applied(
                old(policy)@,
                pc@,
                workspace@,
            ),
            Err(e) => network_choice(pc@) is Err && e@ == PolicyErrorView::Invalid(
                network_choice(pc@)->Err_0,
            ),
        },
{
    let ghost start = policy@;
    let style = policy.style;
    add_paths(&mut policy.fs, style, workspace, &pc.read_only, FsAccess::Read);
    add_paths(&mut policy.fs, style, workspace, &pc.read_write, FsAccess::ReadWrite);
    add_denials(&mut policy.fs, style, workspace, &pc.deny);
    assert(policy@.fs =~= start.fs + added_rules(style, pc@, workspace@));
    if let Some(mode) = &pc.network {
        match parse_network_mode(mode.as_str(), &pc.allow_hosts) {
            Ok(n) => {
                policy.network = n;
            },
            Err(e) => return Err(e),
        }
    } else if pc.allow_hosts.len() > 0 {
        match parse_allow_hosts(&pc.allow_hosts) {
            Ok(rules) => {
                policy.network = NetworkPolicy::Allowlist(rules);
            },
            Err(e) => return Err(e),
        }
    } else if let Some(restrict) = pc.restrict_network {
        policy.network = if restrict {
            NetworkPolicy::DenyAll
        } else {
            NetworkPolicy::Unrestricted
        };
    }
    if let Some(deny) = pc.deny_exec {
        if deny {
            policy.exec_policy = ExecPolicy::Deny;
        }
    }
    assert(policy@ =~= applied(start, pc@, workspace@));
    Ok(())
}

// ---------------------------------------------------------------------------
// Resolving names
// ---------------------------------------------------------------------------
/// What a policy is made for: the workspace, the environment, the identifier
/// and the time.
#[derive(Debug)]
pub struct Binding<'a> {
    pub workspace: &'a str,
    pub env: &'a Environment,
    pub id: &'a PolicyId,
    pub now: Timestamp,
}

#[verifier::ext_equal]
pub struct BindingView {
    pub workspace: Seq<char>,
    pub env: EnvironmentView,
    pub id: Seq<char>,
    pub now: Timestamp,
}

impl<'a> View for Binding<'a> {
    type V = BindingView;

    open spec fn view(&self) -> BindingView {
        BindingView {
            workspace: self.workspace@,
            env: self.env@,
            id: self.id@,
            now: self.now,
        }
    }
}

pub open spec fn is_read_only_name(name: Seq<char>) -> bool {
    name == "read-only"@ || name == "readonly"@
}

/// The names of profiles that can be started from without being defined.
pub open spec fn is_builtin(name: Seq<char>) -> bool {
    name == "workspace"@ || is_read_only_name(name) || name == "strict"@
}

/// The policy of a profile, or why there is none.
pub open spec fn of_profile(profile: PolicyBuilderView, b: BindingView) -> Result<
    PolicyView,
    Seq<char>,
> {
    let policy = profile.policy(b.now, b.env.secrets_home());
    match policy.problem() {
        Some(m) => Err(m),
        None => Ok(policy),
    }
}

/// The policy of a built-in profile.
pub open spec fn builtin_policy(name: Seq<char>, b: BindingView) -> Result<PolicyView, Seq<char>> {
    if name == "workspace"@ {
        of_profile(presets::workspace_profile(b.workspace, b.env, b.id), b)
    } else if is_read_only_name(name) {
        of_profile(presets::read_only_profile(b.workspace, b.env, b.id), b)
    } else if name == "strict"@ {
        of_profile(presets::strict_profile(b.workspace, b.env, b.id), b)
    } else if name == "off"@ || name == "none"@ {
        Err("profile 'off' is not a resolvable base; omit sandbox instead"@)
    } else {
        Err(
            "unknown sandbox profile '"@ + name
                + "' (define in sandbox.toml or use workspace|read-only|strict)"@,
        )
    }
}

/// The policy that applying a profile to `base` gives under the label `label`.
pub open spec fn customised(
    base: Result<PolicyView, Seq<char>>,
    pc: ProfileConfigView,
    label: Seq<char>,
    workspace: Seq<char>,
) -> Result<PolicyView, Seq<char>> {
    match base {
        Err(m) => Err(m),
        Ok(policy) => match network_choice(pc) {
            Err(m) => Err(m),
            Ok(_) => {
                let p = PolicyView { label: Some(label), ..applied(policy, pc, workspace) };
                match p.problem() {
                    Some(m) => Err(m),
                    None => Ok(p),
                }
            },
        },
    }
}

/// The policy of the profile with the given name, or why there is none. A
/// defined profile starts from the one it extends, `workspace` if it says
/// nothing; the way from one to the next is at most eight steps long.
pub open spec fn resolved_profile(
    profiles: Seq<NamedProfileView>,
    name: Seq<char>,
    b: BindingView,
    depth: nat,
) -> Result<PolicyView, Seq<char>>
    decreases 9 - depth,
{
    if depth > 8 {
        Err("profile extends chain too deep (at '"@ + name + "')"@)
    } else {
        match lookup(profiles, name) {
            None => builtin_policy(name, b),
            Some(pc) => {
                let from = match pc.extends {
                    Some(n) => n,
                    None => "workspace"@,
                };
                if from == name {
                    customised(builtin_policy("workspace"@, b), pc, name, b.workspace)
                } else if lookup(profiles, from) is Some || is_builtin(from) {
                    customised(
                        resolved_profile(profiles, from, b, depth + 1),
                        pc,
                        name,
                        b.workspace,
                    )
                } else {
                    Err("profile '"@ + name + "' extends unknown base '"@ + from + "'"@)
                }
            },
        }
    }
}

/// `r` is the outcome `want`.
pub open spec fn outcome(r: PolicyResult<Policy>, want: Result<PolicyView, Seq<char>>) -> bool {
    match r {
        Ok(p) => want == Ok::<PolicyView, Seq<char>>(p@),
        Err(e) => want is Err && e@ == PolicyErrorView::Invalid(want->Err_0),
    }
}

fn is_builtin_name(name: &str) -> (r: bool)
    ensures
        r == is_builtin(name@),
{
    text::same(name, "workspace") || text::same(name, "read-only") || text::same(name, "readonly")
        || text::same(name, "strict")
}

fn builtin(name: &str, b: &Binding<'_>) -> (r: PolicyResult<Policy>)
    ensures
        outcome(r, builtin_policy(name@, b@)),
{
    if text::same(name, "workspace") {
        presets::profile_workspace(b.workspace, b.env, b.id.clone(), b.now)
    } else if text::same(name, "read-only") || text::same(name, "readonly") {
        presets::profile_read_only(b.workspace, b.env, b.id.clone(), b.now)
    } else if text::same(name, "strict") {
        presets::profile_strict(b.workspace, b.env, b.id.clone(), b.now)
    } else if text::same(name, "off") || text::same(name, "none") {
        Err(
            PolicyError::invalid(
                "profile 'off' is not a resolvable base; omit sandbox instead",
            ),
        )
    } else {
        Err(
            PolicyError::Invalid(
                "unknown sandbox profile '".to_owned().concat(name).concat(
                    "' (define in sandbox.toml or use workspace|read-only|strict)",
                ),
            ),
        )
    }
}

fn customise(base: PolicyResult<Policy>, pc: &ProfileConfig, label: &str, workspace: &str) -> (r:
    PolicyResult<Policy>)
    requires
        base is Err ==> base->Err_0@ is Invalid,
    ensures
        outcome(
            r,
            customised(
                match base {
                    Ok(p) => Ok(p@),
                    Err(e) => Err(e@->Invalid_0),
                },
                pc@,
                label@,
                workspace@,
            ),
        ),
{
    let mut policy = match base {
        Ok(p) => p,
        Err(e) => return Err(e),
    };
    match apply_profile_config(&mut policy, pc, workspace) {
        Ok(_) => {},
        Err(e) => return Err(e),
    }
    policy.label = Some(label.to_owned());
    match policy.validate() {
        Ok(_) => Ok(policy),
        Err(e) => Err(e),
    }
}

fn resolve_named_profile(cfg: &SandboxConfig, name: &str, b: &Binding<'_>, depth: u8) -> (r:
    PolicyResult<Policy>)
    requires
        depth <= 9,
    ensures
        outcome(r, resolved_profile(cfg@.profiles, name@, b@, depth as nat)),
    decreases 9 - depth,
{
    if depth > 8 {
        return Err(
            PolicyError::Invalid(
                "profile extends chain too deep (at '".to_owned().concat(name).concat("')"),
            ),
        );
    }
    let pc = match cfg.profile(name) {
        Some(pc) => pc,
        None => return builtin(name, b),
    };
    let from = match &pc.extends {
        Some(n) => n.as_str(),
        None => "workspace",
    };
    if text::same(from, name) {
        let base = builtin("workspace", b);
        customise(base, pc, name, b.workspace)
    } else if cfg.profile(from).is_some() || is_builtin_name(from) {
        let base = resolve_named_profile(cfg, from, b, depth + 1);
        customise(base, pc, name, b.workspace)
    } else {
        Err(
            PolicyError::Invalid(
                "profile '".to_owned().concat(name).concat("' extends unknown base '").concat(
                    from,
                ).concat("'"),
            ),
        )
    }
}

impl SandboxConfig {
    /// The policy of a built-in or defined profile.
    pub fn resolve_policy(&self, name: &str, b: &Binding<'_>) -> (r: PolicyResult<Policy>)
        ensures
            outcome(r, resolved_profile(self@.profiles, name@, b@, 0)),
    {
        resolve_named_profile(self, name, b, 0)
    }

    /// The names of the defined profiles, in order.
    pub fn profile_names(&self) -> (r: Vec<String>)
        ensures
            names_sorted(r.deep_view()),
            forall|n: Seq<char>|
                r.deep_view().contains(n) <==> lookup(self@.profiles, n) is Some,
    {
        proof {
            use_type_invariant(self);
        }
        let ghost m = self.profiles.deep_view();
        let mut r: Vec<String> = Vec::new();
        let mut i: usize = 0;
        while i < self.profiles.len()
            invariant
                m == self.profiles.deep_view(),
                distinct(m),
                i <= self.profiles.len(),
                names_sorted(r.deep_view()),
                forall|n: Seq<char>|
                    r.deep_view().contains(n) <==> exists|k: int|
                        0 <= k < i && (#[trigger] m[k]).name == n,
            decreases self.profiles.len() - i,
        {
            assert(m[i as int] == self.profiles@[i as int]@);
            let ghost before = r.deep_view();
            insert_name(&mut r, self.profiles[i].name.as_str());
            i += 1;
            proof {
                let after = r.deep_view();
                assert forall|n: Seq<char>|
                    after.contains(n) <==> exists|k: int|
                        0 <= k < i && (#[trigger] m[k]).name == n by {
                    if after.contains(n) {
                        if n == m[i - 1].name {
                        } else {
                            assert(before.contains(n));
                            let k = choose|k: int| 0 <= k < i - 1 && (#[trigger] m[k]).name == n;
                            assert(m[k].name == n);
                        }
                    }
                    if exists|k: int| 0 <= k < i && (#[trigger] m[k]).name == n {
                        let k = choose|k: int| 0 <= k < i && (#[trigger] m[k]).name == n;
                        if k < i - 1 {
                            assert(before.contains(n));
                        }
                    }
                }
            }
        }
        proof {
            assert forall|n: Seq<char>|
                r.deep_view().contains(n) <==> lookup(self@.profiles, n) is Some by {
                lookup_none(m, n);
            }
        }
        r
    }
}

/// The names go strictly upwards.
pub open spec fn names_sorted(names: Seq<Seq<char>>) -> bool {
    forall|i: int, j: int|
        0 <= i < j < names.len() ==> order::text_order(
            #[trigger] names[i],
            #[trigger] names[j],
        ) < 0
}

fn insert_name(names: &mut Vec<String>, name: &str)
    requires
        names_sorted(old(names).deep_view()),
    ensures
        names_sorted(final(names).deep_view()),
        forall|n: Seq<char>|
            final(names).deep_view().contains(n) <==> old(names).deep_view().contains(n) || n
                == name@,
{
    let ghost m = names.deep_view();
    let mut i: usize = 0;
    while i < names.len() && order::compare_text(names[i].as_str(), name) < 0
        invariant
            m == names.deep_view(),
            i <= names.len(),
            forall|k: int| 0 <= k < i ==> order::text_order(#[trigger] m[k], name@) < 0,
        ensures
            m == names.deep_view(),
            i <= names.len(),
            forall|k: int| 0 <= k < i ==> order::text_order(#[trigger] m[k], name@) < 0,
            i < names.len() ==> order::text_order(m[i as int], name@) >= 0,
        decreases names.len() - i,
    {
        assert(m[i as int] == names@[i as int]@);
        i += 1;
    }
    if i < names.len() {
        assert(m[i as int] == names@[i as int]@);
        if text::same(names[i].as_str(), name) {
            assert(m.contains(name@));
            return;
        }
    }
    proof {
        assert forall|k: int| i <= k < m.len() implies order::text_order(name@, #[trigger] m[k])
            < 0 by {
            order::text_order_laws(m[i as int], name@, name@);
            order::text_order_laws(name@, m[i as int], m[k]);
        }
    }
    names.insert(i, name.to_owned());
    proof {
        let after = names.deep_view();
        assert(after =~= m.insert(i as int, name@));
        assert forall|a: int, b: int| 0 <= a < b < after.len() implies order::text_order(
            #[trigger] after[a],
            #[trigger] after[b],
        ) < 0 by {
            let x = if a < i {
                a
            } else {
                a - 1
            };
            let y = if b < i {
                b
            } else {
                b - 1
            };
            if a != i {
                assert(after[a] == m[x]);
            }
            if b != i {
                assert(after[b] == m[y]);
            }
        }
        assert forall|n: Seq<char>| after.contains(n) <==> m.contains(n) || n == name@ by {
            if m.contains(n) {
                let k = choose|k: int| 0 <= k < m.len() && m[k] == n;
                if k < i {
                    assert(after[k] == n);
                } else {
                    assert(after[k + 1] == n);
                }
            }
            assert(after[i as int] == name@);
            if after.contains(n) {
                let k = choose|k: int| 0 <= k < after.len() && after[k] == n;
                if k < i {
                    assert(m[k] == n);
                } else if k > i {
                    assert(m[k - 1] == n);
                }
            }
        }
    }
}

/// The policy of a profile of the given configuration.
pub fn load_policy_from_sandbox_toml(cfg: &SandboxConfig, profile_name: &str, b: &Binding<'_>)
    -> (r: PolicyResult<Policy>)
    ensures
        outcome(r, resolved_profile(cfg@.profiles, profile_name@, b@, 0)),
{
    cfg.resolve_policy(profile_name, b)
}

/// What a profile file was read as.
#[derive(Debug)]
pub enum ProfileFile {
    /// A whole policy.
    Policy(Policy),
    /// A profile, and the name of the file without its extension.
    Fragment { config: ProfileConfig, stem: Option<String> },
}

/// What a profile file starts from: the profile that it extends, the built-in
/// `workspace` if it says nothing.
pub open spec fn file_base(
    profiles: Seq<NamedProfileView>,
    config: ProfileConfigView,
    b: BindingView,
) -> Result<PolicyView, Seq<char>> {
    match config.extends {
        Some(name) => resolved_profile(profiles, name, b, 0),
        None => builtin_policy("workspace"@, b),
    }
}

/// The policy from a profile file, or without one from a profile name;
/// `workspace` if there is no name either.
pub fn resolve_policy_with_files(
    profile_name: Option<&str>,
    file: Option<ProfileFile>,
    cfg: &SandboxConfig,
    b: &Binding<'_>,
) -> (r: PolicyResult<Policy>)
    ensures
        match file {
            Some(ProfileFile::Policy(p)) => r is Ok && r->Ok_0@ == p@,
            Some(ProfileFile::Fragment { config, stem }) => outcome(
                r,
                customised(
                    file_base(cfg@.profiles, config@, b@),
                    config@,
                    match stem {
                        Some(s) => s@,
                        None => "custom"@,
                    },
                    b@.workspace,
                ),
            ),
            None => outcome(
                r,
                resolved_profile(
                    cfg@.profiles,
                    match profile_name {
                        Some(n) => n@,
                        None => "workspace"@,
                    },
                    b@,
                    0,
                ),
            ),
        },
{
    match file {
        Some(ProfileFile::Policy(p)) => Ok(p),
        Some(ProfileFile::Fragment { config, stem }) => {
            let label = match &stem {
                Some(s) => s.as_str(),
                None => "custom",
            };
            let base = match &config.extends {
                Some(name) => cfg.resolve_policy(name.as_str(), b),
                None => builtin("workspace", b),
            };
            customise(base, &config, label, b.workspace)
        },
        None => {
            let name = match profile_name {
                Some(n) => n,
                None => "workspace",
            };
            cfg.resolve_policy(name, b)
        },
    }
}

// ---------------------------------------------------------------------------
// Laws
// ---------------------------------------------------------------------------
/// A project cannot redefine a profile that is defined globally.
pub proof fn project_cannot_clobber_global(
    cfg: SandboxConfigView,
    project: Seq<NamedProfileView>,
    name: Seq<char>,
)
    requires
        lookup(cfg.profiles, name) is Some,
    ensures
        lookup(cfg.with_project(project).profiles, name) == lookup(cfg.profiles, name),
    decreases project.len(),
{
    if project.len() > 0 {
        project_cannot_clobber_global(cfg, project.drop_last(), name);
        let before = cfg.with_project(project.drop_last());
        let p = project.last();
        if lookup(before.profiles, p.name) is None {
            assert(before.profiles.push(p).drop_last() =~= before.profiles);
        }
    }
}

proof fn builtin_names_stay_free(
    cfg: SandboxConfigView,
    project: Seq<NamedProfileView>,
    name: Seq<char>,
)
    requires
        is_builtin(name),
        lookup(cfg.profiles, name) is None,
    ensures
        lookup(cfg.with_project(project).profiles, name) is None,
    decreases project.len(),
{
    if project.len() > 0 {
        builtin_names_stay_free(cfg, project.drop_last(), name);
        let before = cfg.with_project(project.drop_last());
        let p = project.last();
        assert(before.profiles.push(p).drop_last() =~= before.profiles);
    }
}

/// A built-in profile that is not defined globally is the built-in one, whatever
/// the project defines.
pub proof fn project_cannot_clobber_builtins(
    cfg: SandboxConfigView,
    project: Seq<NamedProfileView>,
    name: Seq<char>,
    b: BindingView,
)
    requires
        is_builtin(name),
        lookup(cfg.profiles, name) is None,
    ensures
        resolved_profile(cfg.with_project(project).profiles, name, b, 0) == builtin_policy(
            name,
            b,
        ),
{
    builtin_names_stay_free(cfg, project, name);
}

/// A profile that can be used without the project is the same with it, however
/// many others it extends.
pub proof fn projects_only_add(
    cfg: SandboxConfigView,
    project: Seq<NamedProfileView>,
    name: Seq<char>,
    b: BindingView,
    depth: nat,
)
    requires
        resolved_profile(cfg.profiles, name, b, depth) is Ok,
    ensures
        resolved_profile(cfg.with_project(project).profiles, name, b, depth) == resolved_profile(
            cfg.profiles,
            name,
            b,
            depth,
        ),
    decreases 9 - depth,
{
    match lookup(cfg.profiles, name) {
        None => builtin_names_stay_free(cfg, project, name),
        Some(pc) => {
            project_cannot_clobber_global(cfg, project, name);
            let from = match pc.extends {
                Some(n) => n,
                None => "workspace"@,
            };
            if from != name {
                projects_only_add(cfg, project, from, b, depth + 1);
                if lookup(cfg.profiles, from) is Some {
                    project_cannot_clobber_global(cfg, project, from);
                }
            }
        },
    }
}

/// A redefinition that was ignored is reported.
pub proof fn ignored_overrides_are_reported(
    cfg: SandboxConfigView,
    project: Seq<NamedProfileView>,
    i: int,
)
    requires
        0 <= i < project.len(),
        lookup(cfg.profiles, project[i].name) is Some || is_builtin(project[i].name),
    ensures
        cfg.with_project(project).ignored_project_overrides.contains(project[i].name),
    decreases project.len(),
{
    let before = cfg.with_project(project.drop_last());
    let after = cfg.with_project(project).ignored_project_overrides;
    if i < project.len() - 1 {
        ignored_overrides_are_reported(cfg, project.drop_last(), i);
        let old_list = before.ignored_project_overrides;
        let k = choose|k: int| 0 <= k < old_list.len() && old_list[k] == project[i].name;
        assert(after[k] == project[i].name);
    } else {
        if lookup(cfg.profiles, project[i].name) is Some {
            project_cannot_clobber_global(cfg, project.drop_last(), project[i].name);
        }
        assert(after[after.len() - 1] == project[i].name);
    }
}

/// `p` is `q` with what the profile says on top: its readable, writable and denied
/// paths behind the rules of `q`, no subprocesses if it denies them, the network that
/// its mode names, and the label.
pub open spec fn adds_to(
    p: PolicyView,
    q: PolicyView,
    pc: ProfileConfigView,
    label: Seq<char>,
    workspace: Seq<char>,
) -> bool {
    let n = q.fs.len() as int;
    let ro = pc.read_only.len() as int;
    let rw = pc.read_write.len() as int;
    &&& p.label == Some(label)
    &&& p.id == q.id && p.task_id == q.task_id && p.workspace == q.workspace && p.style == q.style
    &&& p.default_read == q.default_read && p.credentials == q.credentials
    &&& p.created_at == q.created_at && p.expires_at == q.expires_at && p.glob_root == q.glob_root
    &&& pc.deny_exec == Some(true) ==> p.exec_policy == ExecPolicy::Deny
    &&& pc.deny_exec != Some(true) ==> p.exec_policy == q.exec_policy
    &&& p.fs.len() == n + ro + rw + pc.deny.len()
    &&& forall|i: int| 0 <= i < n ==> #[trigger] p.fs[i] == q.fs[i]
    &&& forall|i: int|
        0 <= i < ro ==> p.fs[n + i].access == FsAccess::Read && !p.fs[n + i].glob && p.fs[n
            + i].path == native::joined(q.style, workspace, #[trigger] pc.read_only[i])
    &&& forall|i: int|
        0 <= i < rw ==> p.fs[n + ro + i].access == FsAccess::ReadWrite && !p.fs[n + ro + i].glob
            && p.fs[n + ro + i].path == native::joined(
            q.style,
            workspace,
            #[trigger] pc.read_write[i],
        )
    &&& forall|i: int|
        0 <= i < pc.deny.len() ==> {
            let rule = p.fs[n + ro + rw + i];
            let d = #[trigger] pc.deny[i];
            &&& rule.access == FsAccess::Deny
            &&& rule.glob <==> d.contains('*')
            &&& d.contains('*') ==> rule.path == d
            &&& !d.contains('*') ==> rule.path == native::joined(q.style, workspace, d)
        }
    &&& match pc.network {
        Some(mode) => {
            let m = text::lowered(text::trimmed(mode, CharClass::Space));
            &&& p.network is Unrestricted <==> m == "unrestricted"@ || m == "allow-all"@ || m
                == "open"@
            &&& p.network is DenyAll <==> m == "deny-all"@ || m == "deny_all"@ || m == "blocked"@
                || m == "none"@
            &&& p.network is Allowlist <==> m == "allowlist"@ || m == "allow-list"@
        },
        None => {
            &&& pc.allow_hosts.len() > 0 ==> p.network is Allowlist
            &&& pc.allow_hosts.len() == 0 && pc.restrict_network == Some(true)
                ==> p.network is DenyAll
            &&& pc.allow_hosts.len() == 0 && pc.restrict_network == Some(false)
                ==> p.network is Unrestricted
            &&& pc.allow_hosts.len() == 0 && pc.restrict_network is None ==> p.network == q.network
        },
    }
    &&& (match p.network {
        NetworkPolicyView::Allowlist(rules) => pc.network is Some || pc.allow_hosts.len() > 0 ==> {
            &&& rules.len() == pc.allow_hosts.len() && rules.len() > 0
            &&& forall|i: int|
                0 <= i < rules.len() ==> names_destination(
                    #[trigger] pc.allow_hosts[i],
                    rules[i],
                )
        },
        _ => true,
    })
}

/// The entry names the destination: `HOST`, or `HOST:PORT` where what follows the
/// last colon is a port.
pub open spec fn names_destination(entry: Seq<char>, rule: NetworkRuleView) -> bool {
    match rule.port {
        Some(port) => {
            let n = rule.host.len() as int;
            &&& n < entry.len()
            &&& entry.take(n) == rule.host
            &&& entry[n] == ':'
            &&& !entry.subrange(n + 1, entry.len() as int).contains(':')
            &&& number::u16_numeral(entry.subrange(n + 1, entry.len() as int)) == Some(port)
        },
        None => {
            &&& rule.host == entry
            &&& forall|n: int|
                0 <= n < entry.len() && #[trigger] entry[n] == ':' && !entry.subrange(
                    n + 1,
                    entry.len() as int,
                ).contains(':') ==> number::u16_numeral(
                    entry.subrange(n + 1, entry.len() as int),
                ) is None
        },
    }
}

proof fn last_colon(s: Seq<char>, c: char)
    ensures
        ({
            let k = text::last_index(s, c);
            &&& -1 <= k < s.len()
            &&& k >= 0 ==> s[k] == c
            &&& forall|i: int| k < i < s.len() ==> #[trigger] s[i] != c
        }),
    decreases s.len(),
{
    if s.len() > 0 && s.last() != c {
        last_colon(s.drop_last(), c);
        let k = text::last_index(s, c);
        assert forall|i: int| k < i < s.len() implies #[trigger] s[i] != c by {
            if i < s.len() - 1 {
                assert(s.drop_last()[i] == s[i]);
            }
        }
    }
}

/// An entry of `allow_hosts` names the destination that it is read as.
pub proof fn entries_name_their_destinations(entry: Seq<char>)
    ensures
        names_destination(entry, host_entry(entry)),
{
    let k = text::last_index(entry, ':');
    last_colon(entry, ':');
    let rule = host_entry(entry);
    if rule.port is Some {
        assert(entry.take(k) =~= rule.host);
        let rest = entry.subrange(k + 1, entry.len() as int);
        if rest.contains(':') {
            let i = choose|i: int| 0 <= i < rest.len() && rest[i] == ':';
            assert(entry[k + 1 + i] == ':');
        }
    } else {
        assert forall|n: int|
            0 <= n < entry.len() && #[trigger] entry[n] == ':' && !entry.subrange(
                n + 1,
                entry.len() as int,
            ).contains(':') implies number::u16_numeral(
            entry.subrange(n + 1, entry.len() as int),
        ) is None by {
            if n < k {
                let rest = entry.subrange(n + 1, entry.len() as int);
                assert(rest[k - n - 1] == ':');
            }
            assert(n == k);
        }
    }
}

/// A host and a port, written with a colon between them, are read back.
pub proof fn hosts_and_ports_read_back(host: Seq<char>, port: u16)
    ensures
        host_entry(host + ":"@ + number::decimal(port as nat)) == (NetworkRuleView {
            host,
            port: Some(port),
        }),
        !host.contains(':') ==> host_entry(host) == (NetworkRuleView { host, port: None }),
{
    reveal_strlit(":");
    let d = number::decimal(port as nat);
    let e = host + ":"@ + d;
    number::u16_numerals_read_back(port);
    number::decimal_reads_back(port as nat);
    last_colon(e, ':');
    let k = text::last_index(e, ':');
    assert(e[host.len() as int] == ':');
    if k > host.len() {
        assert(d[k - host.len() - 1] == ':');
        assert(number::is_digit(d[k - host.len() - 1]));
    }
    assert(k == host.len());
    assert(e.subrange(k + 1, e.len() as int) =~= d);
    assert(e.subrange(0, k) =~= host);
    last_colon(host, ':');
}

/// What a profile makes of what it starts from: nothing but what it says is changed,
/// and the result can be used. It fails if what it starts from fails.
pub proof fn profiles_add_what_they_say(
    base: Result<PolicyView, Seq<char>>,
    pc: ProfileConfigView,
    label: Seq<char>,
    workspace: Seq<char>,
)
    ensures
        match customised(base, pc, label, workspace) {
            Ok(p) => base is Ok && adds_to(p, base->Ok_0, pc, label, workspace) && p.problem()
                is None,
            Err(_) => true,
        },
        base is Err ==> customised(base, pc, label, workspace) is Err,
{
    if let Ok(p) = customised(base, pc, label, workspace) {
        let q = base->Ok_0;
        let n = q.fs.len() as int;
        let ro = pc.read_only.len() as int;
        let rw = pc.read_write.len() as int;
        reveal_strlit("unrestricted");
        reveal_strlit("allow-all");
        reveal_strlit("open");
        reveal_strlit("deny-all");
        reveal_strlit("deny_all");
        reveal_strlit("blocked");
        reveal_strlit("none");
        reveal_strlit("allowlist");
        reveal_strlit("allow-list");
        modes_differ();
        assert forall|i: int| 0 <= i < pc.deny.len() implies p.fs[n + ro + rw + i] == deny_entry(
            q.style,
            workspace,
            #[trigger] pc.deny[i],
        ) by {}
        assert forall|i: int| 0 <= i < pc.allow_hosts.len() implies names_destination(
            #[trigger] pc.allow_hosts[i],
            host_entry(pc.allow_hosts[i]),
        ) by {
            entries_name_their_destinations(pc.allow_hosts[i]);
        }
    }
}

proof fn modes_differ()
    ensures
        "unrestricted"@ != "deny-all"@ && "unrestricted"@ != "deny_all"@ && "unrestricted"@
            != "blocked"@ && "unrestricted"@ != "none"@ && "unrestricted"@ != "allowlist"@
            && "unrestricted"@ != "allow-list"@,
        "allow-all"@ != "deny-all"@ && "allow-all"@ != "deny_all"@ && "allow-all"@ != "blocked"@
            && "allow-all"@ != "none"@ && "allow-all"@ != "allowlist"@ && "allow-all"@
            != "allow-list"@,
        "open"@ != "deny-all"@ && "open"@ != "deny_all"@ && "open"@ != "blocked"@ && "open"@
            != "none"@ && "open"@ != "allowlist"@ && "open"@ != "allow-list"@,
        "allowlist"@ != "deny-all"@ && "allowlist"@ != "deny_all"@ && "allowlist"@ != "blocked"@
            && "allowlist"@ != "none"@,
        "allow-list"@ != "deny-all"@ && "allow-list"@ != "deny_all"@ && "allow-list"@ != "blocked"@
            && "allow-list"@ != "none"@,
{
    reveal_strlit("unrestricted");
    reveal_strlit("allow-all");
    reveal_strlit("open");
    reveal_strlit("deny-all");
    reveal_strlit("deny_all");
    reveal_strlit("blocked");
    reveal_strlit("none");
    reveal_strlit("allowlist");
    reveal_strlit("allow-list");
    assert("unrestricted"@[0] == 'u' && "allow-all"@[0] == 'a' && "open"@[0] == 'o' && "deny-all"@[0]
        == 'd' && "deny_all"@[0] == 'd' && "blocked"@[0] == 'b' && "none"@[0] == 'n'
        && "allowlist"@[0] == 'a' && "allow-list"@[0] == 'a');
    assert("allow-all"@[5] == '-' && "allowlist"@[5] == 'l');
    assert("allow-all"@.len() == 9 && "allow-list"@.len() == 10);
}

/// A defined profile is the one that it extends, `workspace` if it says nothing, with
/// what it says on top.
pub proof fn a_profile_starts_from_what_it_extends(
    profiles: Seq<NamedProfileView>,
    name: Seq<char>,
    b: BindingView,
    depth: nat,
)
    requires
        lookup(profiles, name) is Some,
        resolved_profile(profiles, name, b, depth) is Ok,
    ensures
        ({
            let pc = lookup(profiles, name)->0;
            let p = resolved_profile(profiles, name, b, depth)->Ok_0;
            let from = match pc.extends {
                Some(n) => n,
                None => "workspace"@,
            };
            &&& p.problem() is None
            &&& from != name ==> resolved_profile(profiles, from, b, depth + 1) is Ok && adds_to(
                p,
                resolved_profile(profiles, from, b, depth + 1)->Ok_0,
                pc,
                name,
                b.workspace,
            )
            &&& from == name ==> adds_to(
                p,
                presets::workspace_profile(b.workspace, b.env, b.id).policy(
                    b.now,
                    b.env.secrets_home(),
                ),
                pc,
                name,
                b.workspace,
            )
        }),
{
    let pc = lookup(profiles, name)->0;
    let from = match pc.extends {
        Some(n) => n,
        None => "workspace"@,
    };
    if from == name {
        profiles_add_what_they_say(
            builtin_policy("workspace"@, b),
            pc,
            name,
            b.workspace,
        );
    } else {
        profiles_add_what_they_say(
            resolved_profile(profiles, from, b, depth + 1),
            pc,
            name,
            b.workspace,
        );
    }
}

/// A profile with a mode that stands for no network, in any case and with white space
/// around it, reaches no host; and one that has a mode reaches without limits only if
/// its mode says so.
pub proof fn a_profile_has_the_network_of_its_mode(
    profiles: Seq<NamedProfileView>,
    name: Seq<char>,
    b: BindingView,
    depth: nat,
    host: Seq<char>,
    port: u16,
)
    requires
        lookup(profiles, name) is Some,
        lookup(profiles, name)->0.network is Some,
        resolved_profile(profiles, name, b, depth) is Ok,
    ensures
        ({
            let m = text::lowered(
                text::trimmed(lookup(profiles, name)->0.network->0, CharClass::Space),
            );
            let network = resolved_profile(profiles, name, b, depth)->Ok_0.network;
            &&& m == "deny-all"@ || m == "deny_all"@ || m == "blocked"@ || m == "none"@
                ==> egress::decision(network, host, port) is Deny
            &&& network is Unrestricted ==> m == "unrestricted"@ || m == "allow-all"@ || m
                == "open"@
            &&& m == "unrestricted"@ || m == "allow-all"@ || m == "open"@
                ==> network is Unrestricted
            &&& m == "allowlist"@ || m == "allow-list"@ ==> network is Allowlist
        }),
{
    a_profile_starts_from_what_it_extends(profiles, name, b, depth);
}

/// A name that no profile has is that of a built-in profile or of none.
pub proof fn undefined_names_are_built_in(
    profiles: Seq<NamedProfileView>,
    name: Seq<char>,
    b: BindingView,
    depth: nat,
)
    requires
        lookup(profiles, name) is None,
        depth <= 8,
    ensures
        ({
            let home = b.env.secrets_home();
            let r = resolved_profile(profiles, name, b, depth);
            &&& r is Ok ==> {
                let p = r->Ok_0;
                &&& p.problem() is None
                &&& name == "workspace"@ ==> p == presets::workspace_profile(
                    b.workspace,
                    b.env,
                    b.id,
                ).policy(b.now, home)
                &&& name == "read-only"@ || name == "readonly"@ ==> p == presets::read_only_profile(
                    b.workspace,
                    b.env,
                    b.id,
                ).policy(b.now, home)
                &&& name == "strict"@ ==> p == presets::strict_profile(
                    b.workspace,
                    b.env,
                    b.id,
                ).policy(b.now, home)
                &&& name == "workspace"@ || name == "read-only"@ || name == "readonly"@ || name
                    == "strict"@
            }
            &&& b.workspace.len() > 0 && (name == "workspace"@ || name == "read-only"@ || name
                == "readonly"@ || name == "strict"@) ==> r is Ok
        }),
{
    reveal_strlit("workspace");
    reveal_strlit("read-only");
    reveal_strlit("readonly");
    reveal_strlit("strict");
    assert("workspace"@[0] == 'w' && "read-only"@[0] == 'r' && "readonly"@[0] == 'r'
        && "strict"@[0] == 's');
    if b.workspace.len() > 0 {
        presets::profiles_can_be_used(b.workspace, b.env, b.id, b.now);
    }
}

/// Profiles that extend each other in a circle, and profiles that extend what is not
/// there, stand for no policy.
pub proof fn circles_and_gaps_are_refused(
    profiles: Seq<NamedProfileView>,
    one: Seq<char>,
    two: Seq<char>,
    b: BindingView,
    depth: nat,
)
    requires
        one != two,
        lookup(profiles, one) is Some,
        lookup(profiles, one)->0.extends == Some(two),
        match lookup(profiles, two) {
            Some(pc) => pc.extends == Some(one),
            None => two != "workspace"@ && two != "read-only"@ && two != "readonly"@ && two
                != "strict"@,
        },
    ensures
        resolved_profile(profiles, one, b, depth) is Err,
    decreases 9 - depth,
{
    if depth <= 8 && lookup(profiles, two) is Some {
        circles_and_gaps_are_refused(profiles, two, one, b, depth + 1);
    }
}

/// Without two profiles of one name, looking a name up finds the profile that has it.
pub proof fn looking_up_finds_the_profile(profiles: Seq<NamedProfileView>, i: int)
    requires
        0 <= i < profiles.len(),
        forall|j: int, k: int|
            0 <= j < k < profiles.len() ==> (#[trigger] profiles[j]).name != (
            #[trigger] profiles[k]).name,
    ensures
        lookup(profiles, profiles[i].name) == Some(profiles[i].config),
    decreases profiles.len(),
{
    if i < profiles.len() - 1 {
        let front = profiles.drop_last();
        assert(profiles[i].name != profiles[profiles.len() - 1].name);
        assert forall|j: int, k: int| 0 <= j < k < front.len() implies (#[trigger] front[j]).name
            != (#[trigger] front[k]).name by {
            assert(front[j] == profiles[j] && front[k] == profiles[k]);
        }
        looking_up_finds_the_profile(front, i);
    }
}

/// A profile that no file defines is not found.
pub proof fn looking_up_finds_nothing_else(profiles: Seq<NamedProfileView>, name: Seq<char>)
    ensures
        match lookup(profiles, name) {
            Some(c) => exists|i: int|
                0 <= i < profiles.len() && (#[trigger] profiles[i]).name == name
                    && profiles[i].config == c,
            None => forall|i: int| 0 <= i < profiles.len() ==> (#[trigger] profiles[i]).name != name,
        },
    decreases profiles.len(),
{
    if profiles.len() > 0 {
        let front = profiles.drop_last();
        looking_up_finds_nothing_else(front, name);
        assert(profiles[profiles.len() - 1] == profiles.last());
        if profiles.last().name != name {
            match lookup(front, name) {
                Some(c) => {
                    let i = choose|i: int|
                        0 <= i < front.len() && (#[trigger] front[i]).name == name
                            && front[i].config == c;
                    assert(profiles[i] == front[i]);
                },
                None => {
                    assert forall|i: int| 0 <= i < profiles.len() implies (
                    #[trigger] profiles[i]).name != name by {
                        if i < front.len() {
                            assert(front[i] == profiles[i]);
                        }
                    }
                },
            }
        }
    }
}

/// What a project defines under a name of its own is there.
pub proof fn projects_add_their_own(
    cfg: SandboxConfigView,
    project: Seq<NamedProfileView>,
    i: int,
)
    requires
        0 <= i < project.len(),
        lookup(cfg.profiles, project[i].name) is None,
        project[i].name != "workspace"@,
        project[i].name != "read-only"@,
        project[i].name != "readonly"@,
        project[i].name != "strict"@,
        forall|j: int| 0 <= j < i ==> (#[trigger] project[j]).name != project[i].name,
    ensures
        lookup(cfg.with_project(project).profiles, project[i].name) == Some(project[i].config),
    decreases project.len(),
{
    let name = project[i].name;
    if i < project.len() - 1 {
        let front = project.drop_last();
        assert forall|j: int| 0 <= j < i implies (#[trigger] front[j]).name != front[i].name by {
            assert(front[j] == project[j]);
        }
        projects_add_their_own(cfg, front, i);
        let before = cfg.with_project(front);
        assert(before.profiles.push(project.last()).drop_last() =~= before.profiles);
    } else {
        not_yet_there(cfg, project, i);
        let front = project.drop_last();
        assert(project.take(i) =~= front);
        let before = cfg.with_project(front);
        assert(before.profiles.push(project.last()).last() == project.last());
    }
}

proof fn not_yet_there(cfg: SandboxConfigView, project: Seq<NamedProfileView>, i: int)
    requires
        0 <= i < project.len(),
        lookup(cfg.profiles, project[i].name) is None,
        forall|j: int| 0 <= j < i ==> (#[trigger] project[j]).name != project[i].name,
    ensures
        lookup(cfg.with_project(project.take(i)).profiles, project[i].name) is None,
{
    never_named(cfg, project.take(i), project[i].name);
}

proof fn never_named(cfg: SandboxConfigView, project: Seq<NamedProfileView>, name: Seq<char>)
    requires
        lookup(cfg.profiles, name) is None,
        forall|j: int| 0 <= j < project.len() ==> (#[trigger] project[j]).name != name,
    ensures
        lookup(cfg.with_project(project).profiles, name) is None,
    decreases project.len(),
{
    if project.len() > 0 {
        let front = project.drop_last();
        assert forall|j: int| 0 <= j < front.len() implies (#[trigger] front[j]).name != name by {
            assert(front[j] == project[j]);
        }
        never_named(cfg, front, name);
        let before = cfg.with_project(front);
        assert(project[project.len() - 1].name != name);
        assert(before.profiles.push(project.last()).drop_last() =~= before.profiles);
    }
}

/// A profile file starts from the profile that it extends, from the built-in
/// `workspace` if it says nothing.
pub proof fn files_start_from_what_they_extend(
    profiles: Seq<NamedProfileView>,
    config: ProfileConfigView,
    b: BindingView,
)
    ensures
        config.extends is Some ==> file_base(profiles, config, b) == resolved_profile(
            profiles,
            config.extends->0,
            b,
            0,
        ),
        config.extends is None && b.workspace.len() > 0 ==> file_base(profiles, config, b) == Ok::<
            PolicyView,
            Seq<char>,
        >(
            presets::workspace_profile(b.workspace, b.env, b.id).policy(
                b.now,
                b.env.secrets_home(),
            ),
        ),
{
    if b.workspace.len() > 0 {
        presets::profiles_can_be_used(b.workspace, b.env, b.id, b.now);
    }
}

/// A profile that resolves gives its policy, and one that does not gives the reason.
pub proof fn resolving_gives_policy_or_reason(
    r: PolicyResult<Policy>,
    want: Result<PolicyView, Seq<char>>,
)
    requires
        outcome(r, want),
    ensures
        r is Ok <==> want is Ok,
        r is Ok ==> r->Ok_0@ == want->Ok_0,
        r is Err ==> r->Err_0@ == PolicyErrorView::Invalid(want->Err_0),
{
}

} // verus!
