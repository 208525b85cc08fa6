use keel::baseline::{
    baseline_credential_path_denies, baseline_deny_rules, baseline_secret_glob_denies,
};
use keel::config::{
    load_policy_from_sandbox_toml, parse_allow_hosts, resolve_policy_with_files, Binding, NamedProfile,
    ProfileConfig, ProfileFile, SandboxConfig, SandboxConfigFile,
};
use keel::credentials::{parse_grant, source_lookup};
use keel::deny_glob::glob_walks;
use keel::egress::is_settled;
use keel::error::PolicyError;
use keel::ids::{PolicyId, TaskId};
use keel::narrow::{narrow_policy, TaskSpec};
use keel::native::Style;
use keel::net::{NetworkPolicy, NetworkRule};
use keel::paths::{FsAccess, FsRule, PathPattern};
use keel::policy::{CredentialGrant, ExecPolicy, Policy, PolicyBuilder};
use keel::presets::{profile_read_only, profile_strict, profile_workspace, Environment};
use keel::process_guard::soft_fs_allowed;
use keel::time::{Span, Timestamp};

const HOME: &str = "/home/u";

fn now() -> Timestamp {
    Timestamp { seconds: 1_700_000_000, nanos: 0 }
}

fn later(seconds: i64) -> Timestamp {
    Timestamp { seconds: 1_700_000_000 + seconds, nanos: 0 }
}

fn id() -> PolicyId {
    PolicyId::from_string("pol-1")
}

fn env() -> Environment {
    Environment {
        keel_home: None,
        home: Some(HOME.to_string()),
        user_profile: None,
        tmpdir: None,
        style: Style::Unix,
    }
}

fn builder(workspace: &str) -> PolicyBuilder {
    Policy::builder(workspace, id())
}

fn build(b: PolicyBuilder) -> Policy {
    b.build(now(), HOME).unwrap()
}

fn grant(name: &str, source: &str) -> CredentialGrant {
    CredentialGrant {
        name: name.to_string(),
        source: source.to_string(),
        inject_as_env: None,
    }
}

fn task() -> TaskSpec {
    TaskSpec::new(TaskId::from_string("tsk-1"))
}

fn narrowed(parent: &Policy, t: TaskSpec) -> Result<Policy, PolicyError> {
    narrow_policy(parent, t, PolicyId::from_string("pol-2"), now())
}

fn refused(parent: &Policy, t: TaskSpec) -> String {
    narrowed(parent, t).unwrap_err().message()
}

fn strings(items: &[&str]) -> Vec<String> {
    items.iter().map(|s| s.to_string()).collect()
}

fn paths_with(p: &Policy, access: FsAccess) -> Vec<String> {
    p.fs
        .iter()
        .filter(|r| r.access == access && !r.glob)
        .map(|r| r.path.clone())
        .collect()
}

// ---------------------------------------------------------------------------
// Builder and validation
// ---------------------------------------------------------------------------
#[test]
fn empty_allowlist_rejected() {
    let err = builder("/ws")
        .network(NetworkPolicy::Allowlist(vec![]))
        .build(now(), HOME)
        .unwrap_err();
    assert!(matches!(err, PolicyError::Invalid(_)));
}

#[test]
fn allowlist_ok() {
    let p = build(builder("/ws").network(NetworkPolicy::Allowlist(vec![
        NetworkRule::host_port("api.x.ai", 443),
    ])));
    assert!(matches!(p.network, NetworkPolicy::Allowlist(ref r) if r.len() == 1));
}

#[test]
fn each_invalid_policy_is_told_apart() {
    let empty_workspace = builder("").build(now(), HOME).unwrap_err();
    assert_eq!(empty_workspace.message(), "invalid policy: workspace path is empty");
    let empty_list = builder("/ws")
        .network(NetworkPolicy::Allowlist(vec![]))
        .build(now(), HOME)
        .unwrap_err();
    assert_eq!(
        empty_list.message(),
        "invalid policy: network allowlist must not be empty (use DenyAll or Unrestricted)"
    );
    let blank_host = builder("/ws")
        .network(NetworkPolicy::Allowlist(vec![
            NetworkRule::host("a.com"),
            NetworkRule::host(" \t"),
        ]))
        .build(now(), HOME)
        .unwrap_err();
    assert_eq!(blank_host.message(), "invalid policy: network rule host must not be empty");
    let blank_grant = builder("/ws").credential(grant("a", " ")).build(now(), HOME).unwrap_err();
    assert_eq!(
        blank_grant.message(),
        "invalid policy: credential grant name/source must not be empty"
    );
    let nameless = builder("/ws").credential(grant("", "env:A")).build(now(), HOME);
    assert!(nameless.is_err());
}

#[test]
fn a_builder_keeps_what_it_was_told() {
    let p = build(
        builder("/ws")
            .id(PolicyId::from_string("pol-9"))
            .task_id(TaskId::from_string("tsk-9"))
            .label("mine")
            .default_read(true)
            .read_write("/ws")
            .read_only("/usr")
            .deny("/ws/secret")
            .deny_glob("**/*.bak")
            .network(NetworkPolicy::DenyAll)
            .exec_policy(ExecPolicy::Deny)
            .credential(grant("api", "env:API"))
            .ttl(Span { seconds: 60, nanos: 0 }, now())
            .without_baseline_denies(),
    );
    assert_eq!(p.id.as_str(), "pol-9");
    assert_eq!(p.task_id.as_ref().map(|t| t.as_str()), Some("tsk-9"));
    assert_eq!(p.label.as_deref(), Some("mine"));
    assert!(p.default_read);
    assert_eq!(p.read_write_paths(), vec![&"/ws".to_string()]);
    assert_eq!(p.read_only_paths(), vec![&"/usr".to_string()]);
    let denials: Vec<(&str, bool)> =
        p.deny_paths().iter().map(|r| (r.path.as_str(), r.glob)).collect();
    assert_eq!(denials, vec![("/ws/secret", false), ("**/*.bak", true)]);
    assert!(matches!(p.network, NetworkPolicy::DenyAll));
    assert_eq!(p.exec_policy, ExecPolicy::Deny);
    assert_eq!(p.credentials.len(), 1);
    assert_eq!(p.created_at, now());
    assert_eq!(p.expires_at, Some(later(60)));
    assert_eq!(p.workspace, "/ws");
}

#[test]
fn a_fresh_builder_is_closed_but_for_network_and_programs() {
    let p = build(builder("/ws").without_baseline_denies());
    assert!(!p.default_read);
    assert!(p.fs.is_empty());
    assert!(p.credentials.is_empty());
    assert!(p.label.is_none());
    assert!(p.task_id.is_none());
    assert!(p.expires_at.is_none());
    assert!(matches!(p.network, NetworkPolicy::Unrestricted));
    assert_eq!(p.exec_policy, ExecPolicy::Allow);
}

#[test]
fn a_deadline_is_reached_when_it_comes() {
    let p = build(builder("/ws").expires_at(later(10)));
    assert!(!p.is_expired(now()));
    assert!(!p.is_expired(Timestamp { seconds: 1_700_000_009, nanos: 999_999_999 }));
    assert!(p.is_expired(later(10)));
    assert!(p.is_expired(later(11)));
    assert!(!build(builder("/ws")).is_expired(later(1_000_000)));
}

#[test]
fn rules_say_what_they_are() {
    let r = FsRule::read("/a");
    assert_eq!((r.path.as_str(), r.access, r.glob), ("/a", FsAccess::Read, false));
    let r = FsRule::read_write("/a");
    assert_eq!((r.path.as_str(), r.access, r.glob), ("/a", FsAccess::ReadWrite, false));
    let r = FsRule::deny("/a");
    assert_eq!((r.path.as_str(), r.access, r.glob), ("/a", FsAccess::Deny, false));
    let r = FsRule::deny_glob("*.a");
    assert_eq!((r.path.as_str(), r.access, r.glob), ("*.a", FsAccess::Deny, true));
    let p = PathPattern::new("a/b");
    assert_eq!(p.as_str(), "a/b");
    assert_eq!(p.as_path(), "a/b");
}

// ---------------------------------------------------------------------------
// Baseline
// ---------------------------------------------------------------------------
#[test]
fn baseline_includes_ssh_and_env_glob() {
    let rules = baseline_deny_rules(Style::Unix, HOME);
    assert!(rules.iter().any(|r| r.path.ends_with(".ssh") && !r.glob));
    assert!(rules.iter().any(|r| r.glob && r.path.contains(".env")));
}

#[test]
fn baseline_is_paths_and_then_globs() {
    let paths = baseline_credential_path_denies(Style::Unix, HOME);
    assert_eq!(paths.len(), 15);
    assert_eq!(paths[0].path, "/home/u/.ssh");
    assert_eq!(paths[6].path, "/home/u/.config/gcloud");
    assert_eq!(paths[9].path, "/home/u/Library/Keychains");
    assert_eq!(paths[11].path, "/etc/shadow");
    assert_eq!(paths[14].path, "/etc/master.passwd");
    assert!(paths.iter().all(|r| r.access == FsAccess::Deny && !r.glob));
    let globs = baseline_secret_glob_denies();
    assert_eq!(globs.len(), 14);
    assert_eq!(globs[0].path, "**/.env");
    assert_eq!(globs[13].path, "**/secrets.yml");
    assert!(globs.iter().all(|r| r.access == FsAccess::Deny && r.glob));
    let all = baseline_deny_rules(Style::Unix, HOME);
    assert_eq!(all.len(), 29);
    assert_eq!(all[15].path, "**/.env");
}

#[test]
fn every_policy_denies_the_baseline_unless_opted_out() {
    let p = build(builder("/ws").read_write("/ws"));
    assert_eq!(p.fs.len(), 30);
    assert_eq!(p.fs[0].path, "/ws");
    assert_eq!(p.fs[1].path, "/home/u/.ssh");
    let bare = build(builder("/ws").read_write("/ws").without_baseline_denies());
    assert_eq!(bare.fs.len(), 1);
}

// ---------------------------------------------------------------------------
// Presets
// ---------------------------------------------------------------------------
#[test]
fn presets_build() {
    let ws = "/tmp/keel-ws";
    let w = profile_workspace(ws, &env(), id(), now()).unwrap();
    assert!(w.default_read);
    assert!(matches!(w.network, NetworkPolicy::Unrestricted));

    let r = profile_read_only(ws, &env(), id(), now()).unwrap();
    assert!(matches!(r.network, NetworkPolicy::DenyAll));

    let s = profile_strict(ws, &env(), id(), now()).unwrap();
    assert!(!s.default_read);
}

#[test]
fn presets_differ_in_what_they_write_and_read() {
    let ws = "/proj";
    let w = profile_workspace(ws, &env(), id(), now()).unwrap();
    assert_eq!(w.label.as_deref(), Some("workspace"));
    let writable = paths_with(&w, FsAccess::ReadWrite);
    assert_eq!(writable[0], "/proj");
    assert!(writable.contains(&"/home/u/.keel".to_string()));
    assert!(writable.contains(&"/tmp".to_string()));

    let r = profile_read_only(ws, &env(), id(), now()).unwrap();
    assert_eq!(r.label.as_deref(), Some("read-only"));
    assert!(r.default_read);
    assert!(!paths_with(&r, FsAccess::ReadWrite).contains(&"/proj".to_string()));

    let s = profile_strict(ws, &env(), id(), now()).unwrap();
    assert_eq!(s.label.as_deref(), Some("strict"));
    assert!(matches!(s.network, NetworkPolicy::DenyAll));
    assert!(paths_with(&s, FsAccess::ReadWrite).contains(&"/proj".to_string()));
    assert!(!paths_with(&s, FsAccess::Read).is_empty());
}

#[test]
fn an_empty_workspace_has_no_preset() {
    assert!(profile_workspace("", &env(), id(), now()).is_err());
}

// ---------------------------------------------------------------------------
// Narrowing
// ---------------------------------------------------------------------------
#[test]
fn can_narrow_network() {
    let parent = build(builder("/tmp/ws").network(NetworkPolicy::Allowlist(vec![
        NetworkRule::host_port("api.x.ai", 443),
        NetworkRule::host_port("example.com", 443),
    ])));
    let mut t = task();
    t.network = Some(NetworkPolicy::Allowlist(vec![NetworkRule::host_port("api.x.ai", 443)]));
    let child = narrowed(&parent, t).unwrap();
    assert!(matches!(child.network, NetworkPolicy::Allowlist(ref r) if r.len() == 1));
}

#[test]
fn cannot_expand_network() {
    let parent = build(builder("/tmp/ws").network(NetworkPolicy::DenyAll));
    let mut t = task();
    t.network = Some(NetworkPolicy::Unrestricted);
    let err = narrowed(&parent, t).unwrap_err();
    assert!(matches!(err, PolicyError::Invalid(_)));
}

#[test]
fn extra_deny_ok() {
    let parent = build(builder("/tmp/ws"));
    let mut t = task();
    t.extra_deny = strings(&["/tmp/ws/secrets"]);
    let child = narrowed(&parent, t).unwrap();
    assert!(child.deny_paths().iter().any(|r| r.path.ends_with("secrets")));
}

#[test]
fn credential_subset() {
    let parent = build(
        builder("/tmp/ws").credential(grant("a", "env:A")).credential(grant("b", "env:B")),
    );
    let mut t = task();
    t.credential_names = Some(strings(&["a"]));
    let child = narrowed(&parent, t).unwrap();
    assert_eq!(child.credentials.len(), 1);
    assert_eq!(child.credentials[0].name, "a");
}

#[test]
fn a_child_inherits_what_its_task_leaves_open() {
    let parent = build(
        builder("/tmp/ws")
            .default_read(true)
            .label("parent")
            .read_write("/tmp/ws")
            .network(NetworkPolicy::DenyAll)
            .exec_policy(ExecPolicy::Deny)
            .credential(grant("a", "env:A"))
            .expires_at(later(100)),
    );
    let child = narrowed(&parent, task()).unwrap();
    assert_eq!(child.id.as_str(), "pol-2");
    assert_eq!(child.task_id.as_ref().map(|t| t.as_str()), Some("tsk-1"));
    assert!(child.default_read);
    assert_eq!(child.exec_policy, ExecPolicy::Deny);
    assert!(matches!(child.network, NetworkPolicy::DenyAll));
    assert_eq!(child.credentials.len(), 1);
    assert_eq!(child.expires_at, Some(later(100)));
    assert_eq!(child.workspace, "/tmp/ws");
    assert_eq!(child.fs.len(), parent.fs.len());
}

#[test]
fn a_child_does_not_outlive_its_parent() {
    let parent = build(builder("/ws").expires_at(later(100)));
    let mut long = task();
    long.ttl = Some(Span { seconds: 1_000, nanos: 0 });
    assert_eq!(
        refused(&parent, long),
        "invalid policy: child TTL cannot expire after the parent policy"
    );
    let mut short = task();
    short.ttl = Some(Span { seconds: 10, nanos: 0 });
    assert_eq!(narrowed(&parent, short).unwrap().expires_at, Some(later(10)));
    let open = build(builder("/ws"));
    let mut only = task();
    only.ttl = Some(Span { seconds: 10, nanos: 0 });
    assert_eq!(narrowed(&open, only).unwrap().expires_at, Some(later(10)));
}

#[test]
fn a_child_stays_below_the_workspace() {
    let parent = build(builder("/tmp/ws"));
    let mut below = task();
    below.workspace = Some("/tmp/ws/sub".to_string());
    assert_eq!(narrowed(&parent, below).unwrap().workspace, "/tmp/ws/sub");
    let mut outside = task();
    outside.workspace = Some("/tmp/other".to_string());
    assert!(refused(&parent, outside).contains("/tmp/other"));
    let mut climbing = task();
    climbing.workspace = Some("/tmp/wsx".to_string());
    assert!(narrowed(&parent, climbing).is_err());
    let mut climbing = task();
    climbing.workspace = Some("/tmp/ws/../etc".to_string());
    assert!(refused(&parent, climbing).contains("is not under parent workspace /tmp/ws"));
    let mut around = task();
    around.workspace = Some("/tmp/ws/a/../b".to_string());
    assert!(narrowed(&parent, around).is_ok());
}

#[test]
fn a_child_with_its_own_workspace_inherits_the_same_rules() {
    let parent = build(
        builder("/w")
            .read_write(".")
            .read_only("docs")
            .deny("/w/s")
            .deny_glob("secrets/*")
            .without_baseline_denies(),
    );
    let mut t = task();
    t.workspace = Some("/w/a".to_string());
    t.extra_deny = strings(&["own"]);
    let child = narrowed(&parent, t).unwrap();
    assert_eq!(child.workspace, "/w/a");
    assert_eq!(child.glob_base(), "/w");
    assert_eq!(glob_walks(&child)[0].base, "/w");
    let paths: Vec<&str> = child.fs.iter().map(|r| r.path.as_str()).collect();
    assert_eq!(paths, [".", "docs", "/w/s", "secrets/*", "own"]);
    for p in ["/w/x", "/w/s", "/w/s/x", "../s", "/w/secrets/x", "../secrets/x", "own", "/w/a/own/x"] {
        assert!(!soft_fs_allowed(&child, p, true), "{p}");
    }
    assert!(soft_fs_allowed(&child, "x", true));
    assert!(soft_fs_allowed(&parent, "/w/a/x", true));
    assert!(soft_fs_allowed(&parent, "/w/x", true));
    assert!(!soft_fs_allowed(&parent, "/w/s", true));
    assert!(!soft_fs_allowed(&parent, "/w/secrets/x", true));
    let mut t = task();
    t.workspace = Some("/w/a/b".to_string());
    let grandchild = narrowed(&child, t).unwrap();
    assert_eq!(grandchild.glob_base(), "/w");
    assert!(!soft_fs_allowed(&grandchild, "/w/a/own", true));
    assert!(!soft_fs_allowed(&grandchild, "/w/secrets/x", true));
}

#[test]
fn a_relative_workspace_can_be_narrowed() {
    let parent = build(builder("proj").read_write(".").without_baseline_denies());
    let mut t = task();
    t.workspace = Some("proj/sub".to_string());
    let child = narrowed(&parent, t).unwrap();
    assert_eq!(child.fs[0].path, ".");
    assert!(soft_fs_allowed(&child, "x", true));
}

#[test]
fn windows_workspaces_are_narrowed_by_their_components() {
    let parent = build(
        builder("C:\\ws")
            .style(Style::Windows)
            .read_write(".")
            .credential(grant("k", "file:tok"))
            .without_baseline_denies(),
    );
    let at = |w: &str, names: &[&str]| {
        let mut t = task();
        t.workspace = Some(w.to_string());
        t.credential_names = Some(strings(names));
        narrowed(&parent, t)
    };
    let child = at("c:/ws/sub", &[]).unwrap();
    assert_eq!(child.fs[0].path, ".");
    assert!(soft_fs_allowed(&child, "x", true));
    assert!(soft_fs_allowed(&child, "C:\\ws\\sub\\x", true));
    assert!(!soft_fs_allowed(&child, "C:\\ws\\x", true));
    assert!(!soft_fs_allowed(&child, "..\\x", true));
    assert!(at("c:/ws/", &["k"]).unwrap().glob_root.is_none());
    assert!(at("C:\\ws\\sub", &["k"]).is_err());
    for w in ["D:\\ws\\sub", "C:\\wsx", "C:\\ws\\..\\x", "\\ws\\sub"] {
        assert!(at(w, &[]).is_err(), "{w}");
    }
}

#[test]
fn another_name_for_the_same_directory_is_no_move() {
    let parent = build(
        builder("/ws")
            .read_write(".")
            .deny("s")
            .credential(grant("k", "file:tok"))
            .without_baseline_denies(),
    );
    for w in ["/ws", "/ws/", "/ws/."] {
        let mut t = task();
        t.workspace = Some(w.to_string());
        let twin = narrowed(&parent, t).unwrap();
        assert!(twin.glob_root.is_none());
        assert_eq!(twin.fs[1].path, "s");
        assert_eq!(twin.credentials[0].source, "file:tok");
    }
}

#[test]
fn what_would_reach_further_from_another_workspace_is_refused() {
    let refusal = |b: PolicyBuilder| {
        let mut t = task();
        t.workspace = Some("/w/a".to_string());
        narrowed(&build(b.without_baseline_denies()), t).err().map(|e| e.message())
    };
    let rule = |r: &str| {
        Some(format!("invalid policy: rule {r} of the parent would reach further in child workspace /w/a"))
    };
    // a grant that leaves what the parent grants
    assert_eq!(refusal(builder("/w").read_write("x")), rule("x"));
    assert_eq!(refusal(builder("/w").read_only("x")), rule("x"));
    assert_eq!(refusal(builder("/w").read_only("x").default_read(true)), None);
    assert_eq!(refusal(builder("/w").read_write("x").read_only(".")), rule("x"));
    assert_eq!(refusal(builder("/w").read_write("x").deny("/w/a")), None);
    // a denial that leaves what it denies
    assert_eq!(refusal(builder("/w").deny("s").default_read(true)), rule("s"));
    assert_eq!(refusal(builder("/w").deny("s").read_write("/w")), rule("s"));
    assert_eq!(refusal(builder("/w").deny("s").read_write(".")), None);
    assert_eq!(refusal(builder("/w").deny("s")), None);
    assert_eq!(refusal(builder("/w").deny("s").deny("/w/s").default_read(true)), None);
}

#[test]
fn the_credentials_of_a_child_come_from_the_same_place() {
    let parent = build(
        builder("/w")
            .credential(grant("c", "/etc/c"))
            .credential(grant("d", "env:D"))
            .credential(grant("a", "file:token")),
    );
    let mut t = task();
    t.workspace = Some("/w/a".to_string());
    assert_eq!(
        refused(&parent, t),
        "invalid policy: credential 'a' would come from another file in child workspace /w/a"
    );
    let mut t = task();
    t.workspace = Some("/w/a".to_string());
    t.credential_names = Some(strings(&["d", "c"]));
    let child = narrowed(&parent, t).unwrap();
    let sources: Vec<&str> = child.credentials.iter().map(|g| g.source.as_str()).collect();
    assert_eq!(sources, ["env:D", "/etc/c"]);
    for c in &child.credentials {
        assert_eq!(
            format!("{:?}", source_lookup(Style::Unix, c, "/w")),
            format!("{:?}", source_lookup(Style::Unix, c, "/w/a"))
        );
    }
}

#[test]
fn one_more_denial_only_shrinks_what_is_permitted() {
    let open = build(builder("/w").read_write("/w").without_baseline_denies());
    for at in 0..=1 {
        for rule in [FsRule::deny("a"), FsRule::deny_glob("**/*.key")] {
            let mut tight = open.clone();
            tight.fs.insert(at, rule);
            let mut denied = 0;
            for p in ["a", "a/x", "b", "b/x.key", "/w/c", "/else"] {
                assert!(!soft_fs_allowed(&tight, p, true) || soft_fs_allowed(&open, p, true));
                if soft_fs_allowed(&open, p, true) && !soft_fs_allowed(&tight, p, true) {
                    denied += 1;
                }
            }
            assert!(denied > 0);
        }
    }
}

#[test]
fn an_unsettled_pattern_covers_only_itself() {
    let list = |host: &str| NetworkPolicy::Allowlist(vec![NetworkRule::host(host)]);
    let parent = build(builder("/ws").network(list("x.ai].")));
    let mut t = task();
    t.network = Some(list("x.ai]"));
    assert!(refused(&parent, t).contains("x.ai]:* is not covered by parent"));
    let mut t = task();
    t.network = Some(list("x.ai]."));
    assert!(narrowed(&parent, t).is_ok());
    assert!(is_settled("*.x.ai.") && is_settled("[::1]") && !is_settled("x.ai]."));
}

#[test]
fn a_child_gets_no_grant_that_its_parent_lacks() {
    let parent = build(builder("/tmp/ws").credential(grant("a", "env:A")));
    let mut t = task();
    t.credential_names = Some(strings(&["a", "z"]));
    assert!(refused(&parent, t).contains("z"));
    let mut none = task();
    none.credential_names = Some(vec![]);
    assert!(narrowed(&parent, none).unwrap().credentials.is_empty());
}

#[test]
fn the_network_of_a_child_is_below_that_of_its_parent() {
    let list = |rules: Vec<NetworkRule>| NetworkPolicy::Allowlist(rules);
    let parent = build(builder("/ws").network(list(vec![
        NetworkRule::host("*.github.com"),
        NetworkRule::host_port("api.x.ai", 443),
    ])));
    let cases: Vec<(NetworkPolicy, bool)> = vec![
        (NetworkPolicy::DenyAll, true),
        (NetworkPolicy::Unrestricted, false),
        (list(vec![NetworkRule::host("*.github.com")]), true),
        (list(vec![NetworkRule::host_port("api.github.com", 80)]), true),
        (list(vec![NetworkRule::host("api.x.ai")]), false),
        (list(vec![NetworkRule::host_port("api.x.ai", 443)]), true),
        (list(vec![NetworkRule::host_port("api.x.ai", 80)]), false),
        (list(vec![NetworkRule::host("evil.com")]), false),
    ];
    for (network, ok) in cases {
        let shown = format!("{network:?}");
        let mut t = task();
        t.network = Some(network);
        assert_eq!(narrowed(&parent, t).is_ok(), ok, "{shown}");
    }
}

#[test]
fn narrowing_an_open_parent_validates_the_child() {
    let parent = build(builder("/ws"));
    let mut t = task();
    t.network = Some(NetworkPolicy::Allowlist(vec![]));
    assert!(narrowed(&parent, t).is_err());
}

// ---------------------------------------------------------------------------
// Profiles
// ---------------------------------------------------------------------------
fn profile(name: &str, config: ProfileConfig) -> NamedProfile {
    NamedProfile { name: name.to_string(), config }
}

fn extending(base: &str, deny: &[&str]) -> ProfileConfig {
    let mut c = ProfileConfig::default();
    c.extends = Some(base.to_string());
    c.deny = strings(deny);
    c
}

fn config(global: Vec<NamedProfile>, project: Vec<NamedProfile>) -> SandboxConfig {
    SandboxConfig::load_from(
        Some(SandboxConfigFile { profiles: global }),
        Some(SandboxConfigFile { profiles: project }),
    )
}

fn resolve(cfg: &SandboxConfig, name: &str) -> Result<Policy, PolicyError> {
    let e = env();
    let i = id();
    cfg.resolve_policy(name, &Binding { workspace: "/proj", env: &e, id: &i, now: now() })
}

#[test]
fn project_cannot_clobber_global() {
    let cfg = config(
        vec![profile("team", extending("workspace", &[".env"]))],
        vec![
            profile("team", extending("workspace", &[])),
            profile("localonly", extending("strict", &[])),
        ],
    );
    assert!(
        cfg.ignored_project_overrides().contains(&"team".to_string()),
        "ignored={:?}",
        cfg.ignored_project_overrides()
    );
    assert!(cfg.profile("localonly").is_some());
    let team = resolve(&cfg, "team").unwrap();
    assert!(team.deny_paths().iter().any(|r| r.path.ends_with(".env")));
    assert!(team.deny_paths().iter().any(|r| r.path == "/proj/.env" && !r.glob));
}

#[test]
fn project_cannot_clobber_builtins() {
    let open = || extending("workspace", &[]);
    let cfg = config(
        vec![],
        vec![
            profile("strict", open()),
            profile("readonly", open()),
            profile("read-only", open()),
            profile("workspace", extending("workspace", &["x"])),
            profile("mine", extending("strict", &[])),
        ],
    );
    assert_eq!(
        cfg.ignored_project_overrides(),
        &strings(&["strict", "readonly", "read-only", "workspace"])
    );
    assert_eq!(cfg.profile_names(), strings(&["mine"]));
    let e = env();
    let i = id();
    let b = Binding { workspace: "/proj", env: &e, id: &i, now: now() };
    let p = resolve_policy_with_files(Some("strict"), None, &cfg, &b).unwrap();
    assert!(!p.default_read);
    assert!(matches!(p.network, NetworkPolicy::DenyAll));
    let p = resolve_policy_with_files(Some("mine"), None, &cfg, &b).unwrap();
    assert!(!p.default_read);
    let p = resolve(&cfg, "workspace").unwrap();
    assert!(!p.deny_paths().iter().any(|r| r.path == "/proj/x"));
}

#[test]
fn a_builtin_profile_can_be_redefined_globally() {
    let cfg = config(
        vec![profile("strict", extending("workspace", &["x"]))],
        vec![profile("strict", extending("workspace", &[]))],
    );
    assert_eq!(cfg.ignored_project_overrides(), &strings(&["strict"]));
    let p = resolve(&cfg, "strict").unwrap();
    assert!(p.default_read);
    assert!(p.deny_paths().iter().any(|r| r.path == "/proj/x"));
}

#[test]
fn a_project_changes_no_profile_that_works_without_it() {
    let team = || vec![profile("team", extending("base", &[])), profile("base", extending("strict", &["x"]))];
    let alone = resolve(&config(team(), vec![]), "team").unwrap();
    let cfg = config(
        team(),
        vec![profile("base", extending("workspace", &[])), profile("strict", extending("workspace", &[]))],
    );
    let with = resolve(&cfg, "team").unwrap();
    assert_eq!(format!("{alone:?}"), format!("{with:?}"));
}

#[test]
fn extends_and_allowlist() {
    let mut api = extending("workspace", &["**/.env"]);
    api.network = Some("allowlist".to_string());
    api.allow_hosts = strings(&["api.x.ai:443"]);
    let cfg = config(vec![profile("api", api)], vec![]);
    let p = resolve(&cfg, "api").unwrap();
    assert!(matches!(p.network, NetworkPolicy::Allowlist(ref r) if r.len() == 1));
    assert!(p.fs.iter().any(|r| r.glob && r.access == FsAccess::Deny));
    if let NetworkPolicy::Allowlist(rules) = &p.network {
        assert_eq!((rules[0].host.as_str(), rules[0].port), ("api.x.ai", Some(443)));
    }
}

#[test]
fn builtin_profiles_are_always_there() {
    let cfg = config(vec![], vec![]);
    for name in ["workspace", "read-only", "strict"] {
        let p = resolve(&cfg, name).unwrap();
        assert_eq!(p.label.as_deref(), Some(name));
    }
    assert!(resolve(&cfg, "nobody").is_err());
    assert_eq!(
        resolve(&cfg, "off").unwrap_err().message(),
        "invalid policy: profile 'off' is not a resolvable base; omit sandbox instead"
    );
    assert_eq!(
        resolve(&cfg, "nobody").unwrap_err().message(),
        "invalid policy: unknown sandbox profile 'nobody' (define in sandbox.toml or use workspace|read-only|strict)"
    );
    assert!(cfg.profile_names().is_empty());
}

#[test]
fn profile_names_are_sorted_and_distinct() {
    let cfg = config(
        vec![profile("zed", extending("workspace", &[]))],
        vec![profile("abc", extending("workspace", &[]))],
    );
    assert_eq!(cfg.profile_names(), strings(&["abc", "zed"]));
}

#[test]
fn profiles_that_extend_each_other_are_refused() {
    let cfg = config(
        vec![
            profile("a", extending("b", &[])),
            profile("b", extending("a", &[])),
        ],
        vec![],
    );
    assert!(resolve(&cfg, "a").unwrap_err().message().contains("extends chain too deep"));
    let cfg = config(vec![profile("p", extending("nobody", &[]))], vec![]);
    assert_eq!(
        resolve(&cfg, "p").unwrap_err().message(),
        "invalid policy: profile 'p' extends unknown base 'nobody'"
    );
    let cfg = config(vec![profile("p", extending("p", &[]))], vec![]);
    assert!(resolve(&cfg, "p").unwrap().default_read);
}

#[test]
fn a_profile_can_take_the_network_and_programs() {
    let mut c = extending("workspace", &[]);
    c.restrict_network = Some(true);
    c.deny_exec = Some(true);
    c.read_only = strings(&["docs"]);
    c.read_write = strings(&["/srv/out"]);
    let cfg = config(vec![profile("p", c)], vec![]);
    let p = resolve(&cfg, "p").unwrap();
    assert!(matches!(p.network, NetworkPolicy::DenyAll));
    assert_eq!(p.exec_policy, ExecPolicy::Deny);
    assert!(paths_with(&p, FsAccess::Read).contains(&"/proj/docs".to_string()));
    assert!(paths_with(&p, FsAccess::ReadWrite).contains(&"/srv/out".to_string()));
    assert_eq!(p.label.as_deref(), Some("p"));
}

#[test]
fn an_unknown_network_mode_is_refused() {
    let mut c = extending("workspace", &[]);
    c.network = Some("sometimes".to_string());
    let cfg = config(vec![profile("p", c)], vec![]);
    assert!(resolve(&cfg, "p").unwrap_err().message().contains("sometimes"));
}

#[test]
fn a_profile_file_comes_before_a_profile_name() {
    let cfg = config(vec![], vec![]);
    let e = env();
    let i = id();
    let b = Binding { workspace: "/proj", env: &e, id: &i, now: now() };
    let whole = build(builder("/elsewhere").label("whole"));
    let p = resolve_policy_with_files(Some("strict"), Some(ProfileFile::Policy(whole)), &cfg, &b)
        .unwrap();
    assert_eq!(p.label.as_deref(), Some("whole"));
    let fragment = ProfileFile::Fragment {
        config: extending("strict", &["x"]),
        stem: Some("ci".to_string()),
    };
    let p = resolve_policy_with_files(None, Some(fragment), &cfg, &b).unwrap();
    assert!(!p.default_read);
    assert!(matches!(p.network, NetworkPolicy::DenyAll));
    assert_eq!(p.label.as_deref(), Some("ci"));
    assert!(p.deny_paths().iter().any(|r| r.path == "/proj/x"));
    let plain = ProfileFile::Fragment { config: ProfileConfig::default(), stem: None };
    let p = resolve_policy_with_files(Some("strict"), Some(plain), &cfg, &b).unwrap();
    assert!(p.default_read);
    assert_eq!(p.label.as_deref(), Some("custom"));
    let lost = ProfileFile::Fragment { config: extending("nobody", &[]), stem: None };
    let e = resolve_policy_with_files(None, Some(lost), &cfg, &b).unwrap_err();
    assert!(e.message().contains("unknown sandbox profile 'nobody'"));
    let p = resolve_policy_with_files(Some("read-only"), None, &cfg, &b).unwrap();
    assert_eq!(p.label.as_deref(), Some("read-only"));
    let p = resolve_policy_with_files(None, None, &cfg, &b).unwrap();
    assert_eq!(p.label.as_deref(), Some("workspace"));
    let p = load_policy_from_sandbox_toml(&cfg, "strict", &b).unwrap();
    assert_eq!(p.label.as_deref(), Some("strict"));
}

#[test]
fn error_texts() {
    assert_eq!(PolicyError::Invalid("x".to_string()).message(), "invalid policy: x");
    assert_eq!(PolicyError::Parse("x".to_string()).message(), "policy parse error: x");
    assert_eq!(PolicyError::Io("x".to_string()).message(), "x");
}

#[test]
fn written_grants_are_split_at_the_first_sign() {
    let g = parse_grant("API_TOKEN=env:MY_TOKEN").unwrap();
    assert_eq!(g.name, "API_TOKEN");
    assert_eq!(g.source, "env:MY_TOKEN");
    assert!(g.inject_as_env.is_none());
    let g = parse_grant("A=file:/x=y").unwrap();
    assert_eq!((g.name.as_str(), g.source.as_str()), ("A", "file:/x=y"));
    let g = parse_grant("=").unwrap();
    assert_eq!((g.name.as_str(), g.source.as_str()), ("", ""));
    assert!(parse_grant("API_TOKEN").is_none());
    assert!(parse_grant("").is_none());
}

#[test]
fn allowed_hosts_have_a_port_or_none() {
    let written = strings(&["api.x.ai:443", "example.com", "h:99999"]);
    let rules = parse_allow_hosts(&written).unwrap();
    assert_eq!(rules.len(), 3);
    assert_eq!((rules[0].host.as_str(), rules[0].port), ("api.x.ai", Some(443)));
    assert_eq!((rules[1].host.as_str(), rules[1].port), ("example.com", None));
    assert_eq!((rules[2].host.as_str(), rules[2].port), ("h:99999", None));
    let e = parse_allow_hosts(&Vec::new()).unwrap_err();
    assert!(matches!(e, PolicyError::Invalid(m) if m == "allow_hosts is empty"));
}

#[test]
fn configuration_is_searched_in_two_places() {
    let (global, project) = SandboxConfig::search_paths("/w", &env());
    assert_eq!(global, "/home/u/.keel/sandbox.toml");
    assert_eq!(project, "/w/.keel/sandbox.toml");
    let mut elsewhere = env();
    elsewhere.keel_home = Some("/srv/keel".to_string());
    assert_eq!(SandboxConfig::search_paths("/w", &elsewhere).0, "/srv/keel/sandbox.toml");
}
