use keel::admission::{NullBackend, ProcessGuardBackend};
use keel::backend::{
    classify_status, ProcessExit, SpawnRequest, StdioMode, TerminationReason,
};
use keel::bwrap::{
    bwrap_available, bwrap_candidates, deny_paths_for_bwrap, is_inside_bwrap, placeholder_name,
    which_bwrap, wrap_command, BWRAP_MARKER,
};
use keel::child_net::ChildFilter;
use keel::compose::{
    local_process, local_process_confined, process_guard, worktree_sandboxed, worktree_soft,
    Enforcer,
};
use keel::credentials::{
    grant_names, grant_sources, inject_into_env, resolve_credentials, revoke_resolved,
    source_lookup, CredentialSourceKind, ResolvedCredential, SourceLookup, SourceValue,
};
use keel::deny_glob::{
    expand_deny_globs, expand_one, glob_queries, glob_to_seatbelt_regex, glob_walks,
    path_matches_deny_glob, GlobWalk, DENY_GLOB_MAX_MATCHES,
};
use keel::error::EnforceError;
use keel::event::EventKind;
use keel::ids::{PolicyId, SpaceId, TaskId};
use keel::local_process::{
    HostStep, IsolationFacts, KernelSupport, LocalProcessBackend, LocalProcessOptions, Platform,
    SpawnFacts,
};
use keel::map_caps::{
    grant_requests, network_mode, policy_to_capability_set, AccessMode, CapStep, MapOptions,
    PathKind, ProcessNetwork,
};
use keel::native::{is_absolute, join, Style};
use keel::net::{NetworkPolicy, NetworkRule};
use keel::policy::{CredentialGrant, ExecPolicy, Policy, PolicyBuilder};
use keel::presets::{profile_strict, profile_workspace, Environment};
use keel::process_guard::{
    normalize, resolve_against_workspace, resolve_lookups, soft_fs_allowed, soft_fs_resolve, Probe,
};
use keel::sandbox_child::{map_options, prepare_kernel, spawn_policy_file};
use keel::seatbelt::{
    apply_deny_globs_seatbelt, escape_seatbelt_path, escape_sexp_string, macos_deny_aliases,
    macos_deny_rules, seatbelt_denials, toggle_private_prefix,
};
use keel::time::Timestamp;
use keel::windows::{
    capability_summary, child_fate, icacls_args, policy_grants, profile_name_for_policy, quote_arg,
    spawn_in_appcontainer, ChildFate, JobOutcome, WindowsSandboxOptions,
};
use keel::worktree::{
    branch_name, check_fs, cleanup_commands, git_toplevel, inner_policy, ready_event,
    remap_to_worktree, spawn_in_worktree, worktree_add_args, worktree_dir_name, worktree_state,
    worktrees_root, WorktreeOptions,
};

const HOME: &str = "/home/u";

fn now() -> Timestamp {
    Timestamp { seconds: 1_700_000_000, nanos: 0 }
}

fn id() -> PolicyId {
    PolicyId::from_string("pol-1")
}

fn env() -> Environment {
    Environment {
        keel_home: None,
        home: Some(HOME.to_string()),
        user_profile: None,
        tmpdir: None,
        style: Style::Unix,
    }
}

fn builder(workspace: &str) -> PolicyBuilder {
    Policy::builder(workspace, id())
}

fn build(b: PolicyBuilder) -> Policy {
    b.build(now(), HOME).unwrap()
}

fn workspace(ws: &str) -> Policy {
    profile_workspace(ws, &env(), id(), now()).unwrap()
}

fn strings(items: &[&str]) -> Vec<String> {
    items.iter().map(|s| s.to_string()).collect()
}

fn pairs(items: &[(&str, &str)]) -> Vec<(String, String)> {
    items.iter().map(|(k, v)| (k.to_string(), v.to_string())).collect()
}

fn grant(name: &str, source: &str, key: Option<&str>) -> CredentialGrant {
    CredentialGrant {
        name: name.to_string(),
        source: source.to_string(),
        inject_as_env: key.map(|k| k.to_string()),
    }
}

fn space() -> SpaceId {
    SpaceId::from_string("spc-1")
}

// ---------------------------------------------------------------------------
// Files
// ---------------------------------------------------------------------------
#[test]
fn workspace_write_rules() {
    let p = workspace("/tmp/proj");
    assert!(soft_fs_allowed(&p, "/tmp/proj/a.rs", true));
    assert!(soft_fs_allowed(&p, "/etc/passwd", false));
    assert!(!soft_fs_allowed(&p, "/etc/passwd", true));
}

#[test]
fn deny_wins() {
    let p = build(
        builder("/tmp/proj")
            .default_read(true)
            .read_write("/tmp/proj")
            .deny("/tmp/proj/secrets"),
    );
    assert!(!soft_fs_allowed(&p, "/tmp/proj/secrets/key", false));
    assert!(soft_fs_allowed(&p, "/tmp/proj/src", true));
}

#[test]
fn relative_paths_resolve_to_workspace() {
    let p = workspace("/tmp/proj");
    assert!(soft_fs_allowed(&p, "README.md", true));
    assert!(soft_fs_allowed(&p, "src/main.rs", true));
}

#[test]
fn soft_write_outside_workspace_denied() {
    let p = workspace("/srv/dir");
    let backend = ProcessGuardBackend::new();
    backend.apply(&p, now()).unwrap();
    assert!(!backend.check_fs(&p, "/etc/passwd", true));
    assert!(backend.check_fs(&p, "/srv/dir/ok.rs", true));
}

#[test]
fn deny_glob_soft_blocks_env() {
    let p = build(
        builder("/srv/dir").default_read(true).read_write("/srv/dir").deny_glob("**/.env"),
    );
    let backend = ProcessGuardBackend::new();
    assert!(!backend.check_fs(&p, "/srv/dir/.env", false));
    assert!(backend.check_fs(&p, "/srv/dir/env", false));
}

#[test]
fn paths_are_judged_where_they_lead() {
    let p = build(
        builder("/proj").read_write("/proj").deny("secrets").without_baseline_denies(),
    );
    assert!(!soft_fs_allowed(&p, "/proj/src/../secrets/a", false));
    assert!(!soft_fs_allowed(&p, "secrets", false));
    assert!(soft_fs_allowed(&p, "secretsx", true));
    assert!(!soft_fs_allowed(&p, "/proj/../etc/passwd", false));
    assert!(!soft_fs_allowed(&p, "../other", true));
}

#[test]
fn reading_needs_a_rule_without_the_default() {
    let p = build(
        builder("/proj").read_only("/usr").read_write("/proj").without_baseline_denies(),
    );
    assert!(soft_fs_allowed(&p, "/usr/bin/ls", false));
    assert!(!soft_fs_allowed(&p, "/usr/bin/ls", true));
    assert!(soft_fs_allowed(&p, "/proj/a", false));
    assert!(!soft_fs_allowed(&p, "/opt", false));
}

#[test]
fn secrets_are_out_of_reach_even_where_everything_is_readable() {
    let p = workspace("/proj");
    for path in [
        "/home/u/.ssh/id_rsa",
        "/home/u/.aws/credentials",
        "/etc/shadow",
        "/proj/.env",
        "/proj/deep/down/.env.local",
        "/proj/certs/server.pem",
        "/proj/id_ed25519",
    ] {
        assert!(!soft_fs_allowed(&p, path, false), "{path}");
        assert!(!soft_fs_allowed(&p, path, true), "{path}");
    }
    let open = build(builder("/proj").default_read(true).without_baseline_denies());
    assert!(soft_fs_allowed(&open, "/home/u/.ssh/id_rsa", false));
}

#[test]
fn paths_are_normalised_without_the_disk() {
    assert_eq!(normalize(Style::Unix, "/a/./b/../c//d/"), "/a/c/d");
    assert_eq!(normalize(Style::Unix, "/.."), "/");
    assert_eq!(normalize(Style::Unix, "a/../.."), "");
    let p = workspace("/proj");
    assert_eq!(resolve_against_workspace(&p, "a/../b"), "/proj/b");
    assert_eq!(resolve_against_workspace(&p, "/x/./y"), "/x/y");
}

#[test]
fn existing_paths_resolve_to_where_they_lead() {
    let p = workspace("/proj");
    assert_eq!(resolve_lookups(&p, "a/b"), strings(&["/proj/a/b", "/proj/a", "/proj", "/"]));
    let found = vec![Probe::Found(Ok("/real/b".to_string()))];
    assert_eq!(soft_fs_resolve(&p, "a/b", &found), Ok("/real/b".to_string()));
    let broken = vec![Probe::Found(Err("loop".to_string()))];
    assert_eq!(
        soft_fs_resolve(&p, "a/b", &broken),
        Err("canonicalize /proj/a/b: loop".to_string())
    );
}

#[test]
fn new_paths_resolve_below_the_nearest_directory() {
    let p = workspace("/proj");
    let probes = vec![Probe::Missing, Probe::Missing, Probe::Found(Ok("/real".to_string()))];
    assert_eq!(soft_fs_resolve(&p, "foo/bar.txt", &probes), Ok("/real/foo/bar.txt".to_string()));
    let parent = vec![Probe::Missing, Probe::Found(Ok("/real/foo".to_string()))];
    assert_eq!(soft_fs_resolve(&p, "foo/bar.txt", &parent), Ok("/real/foo/bar.txt".to_string()));
    let odd = vec![Probe::Missing, Probe::Found(Err("no".to_string()))];
    assert_eq!(soft_fs_resolve(&p, "foo/bar.txt", &odd), Ok("/proj/foo/bar.txt".to_string()));
    let nothing = vec![Probe::Missing, Probe::Missing, Probe::Missing, Probe::Missing];
    assert_eq!(soft_fs_resolve(&p, "foo/bar.txt", &nothing), Ok("/proj/foo/bar.txt".to_string()));
    assert_eq!(
        soft_fs_resolve(&p, "/", &vec![Probe::Missing]),
        Err("invalid path: /".to_string())
    );
}

// ---------------------------------------------------------------------------
// Deny globs
// ---------------------------------------------------------------------------
#[test]
fn glob_to_regex_relative() {
    let re = glob_to_seatbelt_regex("/ws", "**/.env").unwrap();
    assert!(re.contains(".env"));
    assert!(re.starts_with('^'));
}

#[test]
fn soft_match_env() {
    let p = build(builder("/srv/dir").deny_glob("**/.env"));
    assert!(path_matches_deny_glob(&p, "/srv/dir/a/.env"));
}

#[test]
fn expand_finds_env_file() {
    let p = build(builder("/srv/dir").deny_glob("**/.env").without_baseline_denies());
    let walks = glob_walks(&p);
    assert_eq!(walks.len(), 1);
    assert_eq!(walks[0].base, "/srv/dir");
    let found = vec![strings(&["/srv/dir/.env", "/srv/dir/a.rs", "/srv/dir/sub/.env"])];
    let m = expand_deny_globs(&p, &found).unwrap();
    assert!(m.len() >= 2, "matches={m:?}");
    assert_eq!(m, strings(&["/srv/dir/.env", "/srv/dir/sub/.env"]));
}

#[test]
fn a_glob_of_one_level_stays_on_it() {
    let p = build(builder("/ws").deny_glob("*.bak").without_baseline_denies());
    assert!(path_matches_deny_glob(&p, "/ws/a.bak"));
    assert!(!path_matches_deny_glob(&p, "/ws/a.rs"));
    assert!(!glob_queries(&p, "/ws/a.bak").is_empty());
}

#[test]
fn a_glob_that_matches_too_much_is_an_error() {
    let w = GlobWalk {
        glob: "*".to_string(),
        base: "/ws".to_string(),
        pattern: "*".to_string(),
    };
    let entries: Vec<String> = (0..DENY_GLOB_MAX_MATCHES + 1).map(|i| format!("/ws/f{i}")).collect();
    assert!(matches!(expand_one(Style::Unix, &w, &entries), Err(EnforceError::ApplyFailed(_))));
    let fewer = entries[..5].to_vec();
    assert_eq!(expand_one(Style::Unix, &w, &fewer).unwrap().len(), 5);
}

#[test]
fn a_glob_that_is_none_is_an_error() {
    let w = GlobWalk {
        glob: "a[".to_string(),
        base: "/ws".to_string(),
        pattern: "a[".to_string(),
    };
    assert!(expand_one(Style::Unix, &w, &vec![]).is_err());
    let p = build(builder("/ws").deny_glob("a[").without_baseline_denies());
    assert!(!path_matches_deny_glob(&p, "/ws/a["));
}

// ---------------------------------------------------------------------------
// Credentials
// ---------------------------------------------------------------------------
#[test]
fn parse_sources() {
    assert!(matches!(
        CredentialSourceKind::parse("env:FOO"),
        CredentialSourceKind::Env(s) if s == "FOO"
    ));
    assert!(matches!(
        CredentialSourceKind::parse("TOKEN"),
        CredentialSourceKind::Env(s) if s == "TOKEN"
    ));
    assert!(matches!(
        CredentialSourceKind::parse("file:/tmp/x"),
        CredentialSourceKind::File(s) if s == "/tmp/x"
    ));
}

#[test]
fn other_sources() {
    assert!(matches!(
        CredentialSourceKind::parse(" ./a "),
        CredentialSourceKind::File(s) if s == "./a"
    ));
    assert!(matches!(
        CredentialSourceKind::parse("vault:x"),
        CredentialSourceKind::Unsupported(s) if s == "vault:x"
    ));
    assert!(matches!(
        source_lookup(Style::Unix, &grant("a", "file:key", None), "/ws"),
        SourceLookup::File(p) if p == "/ws/key"
    ));
    assert!(matches!(
        source_lookup(Style::Unix, &grant("a", "env:A", None), "/ws"),
        SourceLookup::Env(v) if v == "A"
    ));
    assert!(matches!(source_lookup(Style::Unix, &grant("a", "vault:x", None), "/ws"), SourceLookup::Nothing));
}

#[test]
fn resolve_env_grant() {
    let p = build(
        builder("/tmp").credential(grant("api", "env:KEEL_TEST_SECRET_XYZ", Some("API_TOKEN"))),
    );
    let found = vec![SourceValue::Env(Some("s3cr3t".to_string()))];
    let resolved = resolve_credentials(&p, &found, true).unwrap_or_else(|_| panic!());
    assert_eq!(resolved.len(), 1);
    assert_eq!(resolved[0].env_key, "API_TOKEN");
    assert_eq!(resolved[0].value, "s3cr3t");
}

#[test]
fn inject_does_not_overwrite() {
    let creds = vec![ResolvedCredential {
        name: "a".to_string(),
        env_key: "K".to_string(),
        value: "new".to_string(),
    }];
    let mut env = pairs(&[("K", "old")]);
    let issued = inject_into_env(&mut env, &creds);
    assert!(issued.is_empty());
    assert_eq!(env[0].1, "old");
}

#[test]
fn injection_adds_and_names() {
    let creds = vec![
        ResolvedCredential {
            name: "a".to_string(),
            env_key: "A".to_string(),
            value: "1".to_string(),
        },
        ResolvedCredential {
            name: "again".to_string(),
            env_key: "A".to_string(),
            value: "2".to_string(),
        },
    ];
    let mut env = pairs(&[("PATH", "/bin")]);
    assert_eq!(inject_into_env(&mut env, &creds), strings(&["a"]));
    assert_eq!(env, pairs(&[("PATH", "/bin"), ("A", "1")]));
    let mut creds = creds;
    revoke_resolved(&mut creds);
    assert!(creds.iter().all(|c| c.value.is_empty()));
}

#[test]
fn missing_secrets_are_skipped_or_refused() {
    let p = build(
        builder("/ws")
            .credential(grant("gone", "env:GONE", None))
            .credential(grant("file", "file:/k", None)),
    );
    let found = || {
        vec![SourceValue::Env(None), SourceValue::File(Ok("secret\r\n".to_string()))]
    };
    let loose = resolve_credentials(&p, &found(), false).unwrap_or_else(|_| panic!());
    assert_eq!(loose.len(), 1);
    assert_eq!((loose[0].env_key.as_str(), loose[0].value.as_str()), ("file", "secret"));
    assert!(resolve_credentials(&p, &found(), true).is_err());
    let unreadable = vec![SourceValue::Env(Some("x".to_string())), SourceValue::File(Err("no".to_string()))];
    assert!(resolve_credentials(&p, &unreadable, true).is_err());
    assert_eq!(grant_names(&p), strings(&["gone", "file"]));
    assert_eq!(grant_sources(&p), pairs(&[("gone", "env:GONE"), ("file", "file:/k")]));
}

// ---------------------------------------------------------------------------
// Requests, exits and starts
// ---------------------------------------------------------------------------
#[test]
fn a_request_has_plain_defaults() {
    let r = SpawnRequest::new("sh");
    assert_eq!(r.program, "sh");
    assert_eq!((r.stdin, r.stdout, r.stderr), (StdioMode::Null, StdioMode::Piped, StdioMode::Piped));
    assert!(r.process_group);
    assert!(r.audit_args);
    let r = r
        .args(strings(&["-c", "ls"]))
        .cwd("/ws")
        .stdin(StdioMode::Piped)
        .stdout(StdioMode::Inherit)
        .stderr(StdioMode::Null)
        .process_group(false);
    assert_eq!(r.args, strings(&["-c", "ls"]));
    assert_eq!(r.cwd.as_deref(), Some("/ws"));
    assert_eq!((r.stdin, r.stdout, r.stderr), (StdioMode::Piped, StdioMode::Inherit, StdioMode::Null));
    assert!(!r.process_group);
    assert_eq!(r.audit_args_for_event(), (strings(&["-c", "ls"]), false));
    assert_eq!(r.audit_args(false).audit_args_for_event(), (vec![], true));
}

#[test]
fn exits_are_classified() {
    assert_eq!(classify_status(Some(3), None, TerminationReason::Exited), (Some(3), None, TerminationReason::Exited));
    assert_eq!(classify_status(None, Some(9), TerminationReason::Exited), (None, Some(9), TerminationReason::Signal));
    assert_eq!(classify_status(None, Some(9), TerminationReason::TimedOut), (None, Some(9), TerminationReason::TimedOut));
    assert_eq!(classify_status(Some(0), None, TerminationReason::Cancelled), (Some(0), None, TerminationReason::Cancelled));
    assert_eq!(classify_status(None, None, TerminationReason::Exited), (None, None, TerminationReason::Unknown));
    assert_eq!(classify_status(None, None, TerminationReason::Killed), (None, None, TerminationReason::Killed));
    let exit = ProcessExit::from_status(Some(0), None, 12, TerminationReason::Exited);
    assert!(exit.success());
    assert_eq!(exit.duration_ms, 12);
    assert!(!ProcessExit::from_status(Some(1), None, 0, TerminationReason::Exited).success());
    assert!(!ProcessExit::from_status(None, Some(9), 0, TerminationReason::Killed).success());
    let texts: Vec<&str> = [TerminationReason::Exited, TerminationReason::TimedOut, TerminationReason::Cancelled, TerminationReason::Killed, TerminationReason::Signal, TerminationReason::Unknown]
        .iter()
        .map(|r| r.as_str())
        .collect();
    assert_eq!(texts, vec!["exited", "timed_out", "cancelled", "killed", "signal", "unknown"]);
}

fn exec_of(event: &keel::event::RecordEvent) -> (String, Vec<String>, bool, bool) {
    match &event.event {
        EventKind::Exec { program, args, allowed, args_redacted } => {
            (program.clone(), args.clone(), *allowed, *args_redacted)
        }
        other => panic!("{other:?}"),
    }
}

#[test]
fn a_start_is_recorded() {
    let p = workspace("/proj");
    let req = SpawnRequest::new("echo").args(strings(&["hi"])).cwd("/proj");
    let a = ProcessGuardBackend::new().admit_spawn(&space(), &p, &req, now());
    assert!(a.verdict.is_ok());
    assert_eq!(exec_of(&a.event.unwrap()), ("echo".to_string(), strings(&["hi"]), true, false));
}

#[test]
fn a_policy_without_programs_starts_none() {
    let p = build(builder("/proj").exec_policy(ExecPolicy::Deny));
    let req = SpawnRequest::new("echo").args(strings(&["hi"]));
    for a in [
        ProcessGuardBackend::new().admit_spawn(&space(), &p, &req, now()),
        NullBackend::new().admit_spawn(&space(), &p, &req, now()),
        LocalProcessBackend::new().admit_spawn(&space(), &p, &req, now()),
    ] {
        assert_eq!(a.verdict.unwrap_err().message(), "policy denied: exec denied by policy");
        assert!(!exec_of(&a.event.unwrap()).2);
    }
}

#[test]
fn starts_outside_the_readable_paths_are_refused() {
    let p = profile_strict("/proj", &env(), id(), now()).unwrap();
    let cwd = SpawnRequest::new("echo").cwd("/opt/x");
    let a = ProcessGuardBackend::new().admit_spawn(&space(), &p, &cwd, now());
    assert_eq!(a.verdict.unwrap_err().message(), "policy denied: cwd not allowed: /opt/x");
    assert!(a.event.is_none());
    let a = NullBackend::new().admit_spawn(&space(), &p, &cwd, now());
    assert_eq!(
        a.verdict.unwrap_err().message(),
        "policy denied: cwd not readable under policy: /opt/x"
    );
    let program = SpawnRequest::new("/opt/x/tool");
    let a = ProcessGuardBackend::new().admit_spawn(&space(), &p, &program, now());
    assert_eq!(
        a.verdict.unwrap_err().message(),
        "policy denied: program path not readable under policy: /opt/x/tool"
    );
    assert!(NullBackend::new().admit_spawn(&space(), &p, &program, now()).verdict.is_ok());
    assert!(LocalProcessBackend::new().admit_spawn(&space(), &p, &program, now()).verdict.is_ok());
}

#[test]
fn nothing_starts_after_the_deadline() {
    let p = build(builder("/proj").expires_at(now()));
    let a = NullBackend::new().admit_spawn(&space(), &p, &SpawnRequest::new("ls"), now());
    assert!(matches!(a.verdict, Err(EnforceError::PolicyExpired)));
    assert!(a.event.is_none());
    assert!(matches!(NullBackend::new().apply(&p, now()), Err(EnforceError::PolicyExpired)));
}

// ---------------------------------------------------------------------------
// Composition
// ---------------------------------------------------------------------------
#[test]
fn composition_names() {
    let soft = worktree_soft(WorktreeOptions::default());
    assert_eq!(soft.info(Platform::Linux).name, "local-worktree");

    let sandboxed = worktree_sandboxed(WorktreeOptions::default(), LocalProcessOptions::default());
    assert_eq!(sandboxed.info(Platform::Linux).name, "local-worktree");
    assert!(sandboxed.info(Platform::Linux).kernel_fs);
    assert!(!sandboxed.info(Platform::Other).kernel_fs);

    let local = local_process(LocalProcessOptions::default());
    assert_eq!(local.info(Platform::Linux).name, "local-process");
    assert_eq!(process_guard().info(Platform::Linux).name, "process-guard");
}

#[test]
fn confinement_is_of_this_process() {
    let c = local_process_confined();
    assert!(matches!(c.inner, Enforcer::LocalProcess(o) if !o.isolate_apply && o.require_kernel));
    assert!(c.worktree.is_none());
}

// ---------------------------------------------------------------------------
// Local process
// ---------------------------------------------------------------------------
fn facts(prepared: Result<(), EnforceError>, denied_paths: usize, bwrap: bool) -> IsolationFacts {
    IsolationFacts {
        platform: Platform::Linux,
        proxy_url: None,
        prepared,
        denied_paths,
        bwrap_available: bwrap,
    }
}

#[test]
fn maps_and_reports_info() {
    let b = LocalProcessBackend::new();
    assert_eq!(b.info(Platform::Linux).name, "local-process");
    assert!(b.options().isolate_apply);
}

#[test]
fn isolate_prepare_does_not_mark_host_kernel() {
    let p = workspace("/proj");
    let mut b = LocalProcessBackend::new();
    b.check_apply(&p, now()).unwrap();
    let note = b.apply_isolated_prepare(&p, facts(Ok(()), 3, true), now()).unwrap().unwrap();
    assert!(b.is_applied());
    assert!(!b.restricts_child_network());
    assert_eq!(note.space_id.as_str(), "pending");
    assert!(matches!(note.event, EventKind::Note { message } if message
        == "local-process isolate_apply: host unsandboxed; children apply kernel FS"));
}

#[test]
fn required_isolation_fails_closed() {
    let p = workspace("/proj");
    let mut b = LocalProcessBackend::new();
    let e = b
        .apply_isolated_prepare(&p, facts(Err(EnforceError::Unsupported("x".to_string())), 0, true), now())
        .unwrap_err();
    assert!(matches!(e, EnforceError::Unsupported(_)));
    let e = b.apply_isolated_prepare(&p, facts(Ok(()), 1, false), now()).unwrap_err();
    assert!(matches!(e, EnforceError::ApplyFailed(_)));
    assert!(!b.is_applied());
    let mut loose = LocalProcessBackend::with_options(LocalProcessOptions {
        require_kernel: false,
        ..LocalProcessOptions::default()
    });
    let r = loose.apply_isolated_prepare(
        &p,
        facts(Err(EnforceError::Unsupported("x".to_string())), 0, true),
        now(),
    );
    assert!(r.unwrap().is_none());
    assert!(loose.is_applied());
}

#[test]
fn a_process_is_confined_once() {
    let p = workspace("/proj");
    let mut b = LocalProcessBackend::with_options(LocalProcessOptions::confine_host());
    let support = KernelSupport {
        is_supported: true,
        platform: "linux".to_string(),
        details: "ok".to_string(),
    };
    assert_eq!(b.host_apply_step(&p, &support, None).unwrap(), HostStep::ApplyNow);
    assert_eq!(b.host_apply_step(&p, &support, Some("pol-1")).unwrap(), HostStep::AlreadyBound);
    assert_eq!(
        b.host_apply_step(&p, &support, Some("pol-0")).unwrap_err().message(),
        "kernel sandbox already applied (policy pol-0); cannot re-apply pol-1"
    );
    let none = KernelSupport {
        is_supported: false,
        platform: "x".to_string(),
        details: "no landlock".to_string(),
    };
    assert!(matches!(b.host_apply_step(&p, &none, None), Err(EnforceError::Unsupported(m)) if m == "no landlock"));
    let note = b.host_step_done(HostStep::ApplyNow, &p, &support, now()).unwrap();
    assert!(matches!(note.event, EventKind::Note { message } if message
        == "kernel sandbox applied on host via nono (linux)"));
    assert!(b.is_applied());
}

fn spawn_facts(proxy_port: Option<u16>, globs: &[&str]) -> SpawnFacts {
    SpawnFacts {
        platform: Platform::Linux,
        proxy_port,
        prepared: Ok(()),
        globs: Ok(strings(globs)),
        bwrap_available: true,
    }
}

#[test]
fn children_of_a_policy_without_network_are_filtered() {
    let p = build(builder("/proj").network(NetworkPolicy::DenyAll).without_baseline_denies());
    let b = LocalProcessBackend::new();
    let plan = b.spawn_sandboxed(&p, SpawnRequest::new("ls"), spawn_facts(None, &[])).unwrap();
    assert_eq!(plan.hooks.filter, Some(ChildFilter::All));
    assert!(plan.hooks.sandbox);
    assert!(plan.deny_paths.is_empty());
}

#[test]
fn children_with_a_proxy_know_it_and_cannot_listen() {
    let p = build(
        builder("/proj")
            .network(NetworkPolicy::Allowlist(vec![NetworkRule::host("a.com")]))
            .deny("z")
            .deny("/a")
            .without_baseline_denies(),
    );
    let b = LocalProcessBackend::new();
    assert!(b.needs_proxy(&p));
    let mut req = SpawnRequest::new("ls");
    req.env = pairs(&[("HTTP_PROXY", "mine")]);
    let plan = b.spawn_sandboxed(&p, req, spawn_facts(Some(99), &["/proj/.env", "/a"])).unwrap();
    assert_eq!(plan.hooks.filter, Some(ChildFilter::Server));
    assert_eq!(plan.hooks.proxy_port, Some(99));
    assert_eq!(plan.req.env[0], ("HTTP_PROXY".to_string(), "mine".to_string()));
    assert!(plan
        .req
        .env
        .contains(&("HTTPS_PROXY".to_string(), "http://127.0.0.1:99".to_string())));
    assert_eq!(plan.req.env.iter().filter(|(k, _)| k == "HTTP_PROXY").count(), 1);
    assert_eq!(plan.deny_paths, strings(&["/a", "/proj/.env", "/proj/z"]));
}

#[test]
fn a_child_that_cannot_be_isolated_does_not_start() {
    let p = build(builder("/proj").without_baseline_denies());
    let b = LocalProcessBackend::new();
    let mut f = spawn_facts(None, &[]);
    f.prepared = Err(EnforceError::Unsupported("x".to_string()));
    assert!(b.spawn_sandboxed(&p, SpawnRequest::new("ls"), f).is_err());
    let mut f = spawn_facts(None, &[]);
    f.globs = Err(EnforceError::ApplyFailed("x".to_string()));
    assert!(b.spawn_sandboxed(&p, SpawnRequest::new("ls"), f).is_err());
}

#[test]
fn without_required_isolation_a_child_gets_what_there_is() {
    let p = build(builder("/proj").deny("z").without_baseline_denies());
    let loose = LocalProcessBackend::with_options(LocalProcessOptions {
        require_kernel: false,
        ..LocalProcessOptions::default()
    });
    let mut f = spawn_facts(None, &["/proj/.env"]);
    f.prepared = Err(EnforceError::Unsupported("x".to_string()));
    let plan = loose.spawn_sandboxed(&p, SpawnRequest::new("ls"), f).unwrap();
    assert!(!plan.hooks.sandbox);
    assert_eq!(plan.deny_paths, strings(&["/proj/.env", "/proj/z"]));
    let mut f = spawn_facts(None, &["/proj/.env"]);
    f.globs = Err(EnforceError::ApplyFailed("x".to_string()));
    let plan = loose.spawn_sandboxed(&p, SpawnRequest::new("ls"), f).unwrap();
    assert!(plan.hooks.sandbox);
    assert_eq!(plan.deny_paths, strings(&["/proj/z"]));
    let mut f = spawn_facts(None, &["/proj/.env"]);
    f.bwrap_available = false;
    let plan = loose.spawn_sandboxed(&p, SpawnRequest::new("ls"), f).unwrap();
    assert!(plan.deny_paths.is_empty());
}

#[test]
fn denied_paths_are_hidden_if_that_is_wanted() {
    let p = build(builder("/proj").deny("z").without_baseline_denies());
    let mut f = spawn_facts(None, &[]);
    f.bwrap_available = false;
    let plan = LocalProcessBackend::new().spawn_sandboxed(&p, SpawnRequest::new("ls"), f).unwrap();
    assert_eq!(plan.deny_paths, strings(&["/proj/z"]));
    let by_hand = LocalProcessBackend::with_options(LocalProcessOptions {
        auto_bwrap: false,
        ..LocalProcessOptions::default()
    });
    let plan = by_hand
        .spawn_sandboxed(&p, SpawnRequest::new("ls"), spawn_facts(None, &["/proj/.env"]))
        .unwrap();
    assert!(plan.deny_paths.is_empty());
}

#[test]
fn a_guard_can_refuse_to_start_under_a_denied_network() {
    let denied = build(builder("/proj").network(NetworkPolicy::DenyAll));
    let open = build(builder("/proj").network(NetworkPolicy::Unrestricted));
    let space = SpaceId::from_string("spc-1");
    let strict = ProcessGuardBackend { soft_block_on_deny_all_net: true };
    let a = strict.admit_spawn(&space, &denied, &SpawnRequest::new("ls"), now());
    assert!(matches!(a.verdict, Err(EnforceError::Denied(m)) if m
        == "process-guard: DenyAll network is advisory without kernel backend"));
    assert!(a.event.is_none());
    assert!(strict.admit_spawn(&space, &open, &SpawnRequest::new("ls"), now()).verdict.is_ok());
    let a = ProcessGuardBackend::new().admit_spawn(&space, &denied, &SpawnRequest::new("ls"), now());
    assert!(a.verdict.is_ok());
}

#[test]
fn unsupported_systems_are_told_so() {
    let mut b = LocalProcessBackend::new();
    assert!(matches!(b.apply_unsupported(), Err(EnforceError::Unsupported(_))));
    let mut loose = LocalProcessBackend::with_options(LocalProcessOptions {
        require_kernel: false,
        ..LocalProcessOptions::default()
    });
    loose.apply_unsupported().unwrap();
    assert!(loose.is_applied());
}

#[test]
fn children_find_their_policy() {
    let p = workspace("/proj");
    assert_eq!(
        spawn_policy_file(Some("/state"), Some(HOME), &p, 7),
        "/state/tmp/policy-pol-1-7.json"
    );
    assert_eq!(
        spawn_policy_file(None, Some(HOME), &p, 7),
        "/home/u/.keel/tmp/policy-pol-1-7.json"
    );
    assert_eq!(spawn_policy_file(None, None, &p, 7), "/tmp/.keel/tmp/policy-pol-1-7.json");
    let o = map_options(true, Some("80"));
    assert!(o.block_process_network && o.egress_proxy_port == Some(80));
    assert_eq!(map_options(false, Some("x")).egress_proxy_port, None);
    assert_eq!(map_options(false, None).egress_proxy_port, None);
    let none = KernelSupport {
        is_supported: false,
        platform: String::new(),
        details: "why".to_string(),
    };
    assert!(matches!(prepare_kernel(&none), Err(EnforceError::Unsupported(m)) if m == "why"));
}

// ---------------------------------------------------------------------------
// Capabilities
// ---------------------------------------------------------------------------
#[test]
fn maps_workspace_profile() {
    let p = workspace("/proj");
    let qs = grant_requests(&p);
    let kinds = vec![PathKind::Directory; qs.len()];
    let caps = policy_to_capability_set(&p, MapOptions::default(), &kinds);
    assert!(matches!(&caps.steps[0], CapStep::AllowTree { path, mode: AccessMode::Read } if path == "/"));
    assert!(caps.steps.iter().any(|s| matches!(
        s,
        CapStep::AllowTree { path, mode: AccessMode::ReadWrite } if path == "/proj"
    )));
    assert_eq!(caps.network, ProcessNetwork::AllowAll);
}

#[test]
fn deny_path_maps() {
    let p = build(
        builder("/srv/dir")
            .default_read(true)
            .read_write("/srv/dir")
            .deny("/srv/dir/secret")
            .without_baseline_denies(),
    );
    let qs = grant_requests(&p);
    let kinds = vec![PathKind::Directory; qs.len()];
    let caps = policy_to_capability_set(&p, MapOptions::default(), &kinds);
    assert_eq!(caps.denied, strings(&["/srv/dir/secret"]));
    let rules = macos_deny_rules("/srv/dir/secret", "/srv/dir/secret", true).unwrap();
    assert!(!rules.is_empty(), "expected Seatbelt deny rules");
}

#[test]
fn what_is_missing_is_not_granted() {
    let p = build(
        builder("/proj").read_only("a").read_write("b").without_baseline_denies(),
    );
    let qs = grant_requests(&p);
    assert_eq!((qs[0].path.as_str(), qs[0].create), ("/proj/a", false));
    assert_eq!((qs[1].path.as_str(), qs[1].create), ("/proj/b", true));
    let mut kinds = vec![PathKind::Missing; qs.len()];
    kinds[1] = PathKind::Other;
    let caps = policy_to_capability_set(&p, MapOptions::default(), &kinds);
    assert_eq!(caps.steps.len(), 1);
    assert!(matches!(
        &caps.steps[0],
        CapStep::AllowFile { path, mode: AccessMode::ReadWrite } if path == "/proj/b"
    ));
}

#[test]
fn the_network_of_a_sandbox_follows_the_policy() {
    let opts = |block, port| MapOptions { block_process_network: block, egress_proxy_port: port };
    let list = NetworkPolicy::Allowlist(vec![NetworkRule::host("a")]);
    assert_eq!(network_mode(&NetworkPolicy::Unrestricted, opts(false, None)), ProcessNetwork::AllowAll);
    assert_eq!(network_mode(&NetworkPolicy::DenyAll, opts(false, None)), ProcessNetwork::Blocked);
    assert_eq!(network_mode(&list, opts(false, Some(8))), ProcessNetwork::ProxyOnly(8));
    assert_ne!(network_mode(&list, opts(false, None)), ProcessNetwork::AllowAll);
    assert_eq!(network_mode(&NetworkPolicy::Unrestricted, opts(true, None)), ProcessNetwork::Blocked);
}

// ---------------------------------------------------------------------------
// Bubblewrap
// ---------------------------------------------------------------------------
#[test]
fn no_wrap_without_deny() {
    let p = build(builder("/srv/dir").default_read(true).without_baseline_denies());
    let denies = deny_paths_for_bwrap(&p);
    assert!(denies.is_empty());
    let w = wrap_command("echo", &strings(&["hi"]), &denies, false, None, &vec![], &vec![]).unwrap();
    assert!(w.is_none());
}

#[test]
fn denied_paths_are_bound_over() {
    let denies = strings(&["/a", "/b"]);
    let placeholders = vec![Ok("/s/p1".to_string()), Ok("/s/p2".to_string())];
    let w = wrap_command(
        "echo",
        &strings(&["hi"]),
        &denies,
        false,
        Some("/usr/bin/bwrap"),
        &placeholders,
        &pairs(&[("K", "V")]),
    )
    .unwrap()
    .unwrap();
    assert_eq!(w.program, "/usr/bin/bwrap");
    assert_eq!(
        w.args,
        strings(&[
            "--bind", "/", "/", "--dev-bind", "/dev", "/dev", "--proc", "/proc", "--ro-bind",
            "/s/p1", "/a", "--ro-bind", "/s/p2", "/b", "--", "echo", "hi",
        ])
    );
    assert_eq!(w.env, pairs(&[("__KEEL_INSIDE_BWRAP", "1"), ("K", "V")]));
}

#[test]
fn a_wrap_that_cannot_hide_fails() {
    let denies = strings(&["/a"]);
    let ok = vec![Ok("/s/p1".to_string())];
    let none = wrap_command("ls", &vec![], &denies, false, None, &ok, &vec![]);
    assert!(matches!(none, Err(EnforceError::ApplyFailed(_))));
    let broken: Vec<Result<String, String>> = vec![Err("full".to_string())];
    let r = wrap_command("ls", &vec![], &denies, false, Some("/b"), &broken, &vec![]);
    assert!(matches!(r, Err(EnforceError::ApplyFailed(m)) if m == "bwrap placeholder for /a: full"));
    let inside = wrap_command("ls", &vec![], &denies, true, None, &ok, &vec![]).unwrap();
    assert!(inside.is_none());
}

#[test]
fn bubblewrap_is_searched_for() {
    let c = bwrap_candidates(Some("/opt/bwrap"), Some("/bin:/usr/bin"));
    assert_eq!(c, strings(&["/opt/bwrap", "/bin/bwrap", "/usr/bin/bwrap"]));
    assert_eq!(which_bwrap(&c, &vec![false, false, true]).as_deref(), Some("/usr/bin/bwrap"));
    assert!(which_bwrap(&c, &vec![false, false, false]).is_none());
    assert!(bwrap_available(&c, &vec![true, false, false]));
    assert_eq!(BWRAP_MARKER, "__KEEL_INSIDE_BWRAP");
    assert!(is_inside_bwrap(Some("")));
    assert!(!is_inside_bwrap(None));
    assert_eq!(placeholder_name(true, 7, 255), "blocked-dir.7.ff");
    assert_eq!(placeholder_name(false, 7, 16), "blocked.7.10");
}

// ---------------------------------------------------------------------------
// Seatbelt
// ---------------------------------------------------------------------------
#[test]
fn seatbelt_texts_are_escaped() {
    assert_eq!(escape_sexp_string("a\"b\\c"), "a\\\"b\\\\c");
    assert_eq!(escape_seatbelt_path("/a b").as_deref(), Some("/a b"));
    assert!(escape_seatbelt_path("/a\nb").is_none());
    assert_eq!(toggle_private_prefix("/tmp/x").as_deref(), Some("/private/tmp/x"));
    assert_eq!(toggle_private_prefix("/private/tmp/x").as_deref(), Some("/tmp/x"));
    assert!(toggle_private_prefix("/home").is_none());
    let forms = macos_deny_aliases("/tmp/x", "/private/tmp/x");
    assert!(forms.contains(&"/tmp/x".to_string()));
    assert!(forms.contains(&"/private/tmp/x".to_string()));
    assert_eq!(forms.len(), 2);
    let rules = seatbelt_denials("(literal \"/a\")");
    assert!(rules.iter().all(|r| r.starts_with("(deny file-") && r.contains("(literal \"/a\")")));
}

#[test]
fn deny_globs_become_rules() {
    let p = build(builder("/ws").deny_glob("**/.env").without_baseline_denies());
    let rules = apply_deny_globs_seatbelt(&p).unwrap();
    assert!(!rules.is_empty());
    assert!(rules[0].contains("regex"));
    let none = build(builder("/ws").without_baseline_denies());
    assert!(apply_deny_globs_seatbelt(&none).unwrap().is_empty());
}

// ---------------------------------------------------------------------------
// Windows
// ---------------------------------------------------------------------------
#[test]
fn windows_decisions() {
    assert_eq!(
        capability_summary(&WindowsSandboxOptions::default()),
        "job-object(KILL_ON_JOB_CLOSE) + restricted-token(probe) + soft-fs-policy + appcontainer=optional"
    );
    let failed = || JobOutcome::NotAssigned("x".to_string());
    assert!(matches!(child_fate(true, true, &failed()), ChildFate::Kill(_)));
    assert!(matches!(child_fate(true, false, &failed()), ChildFate::Keep));
    assert!(matches!(child_fate(true, true, &JobOutcome::Ready), ChildFate::KeepInJob));
    assert!(matches!(child_fate(false, true, &failed()), ChildFate::Keep));
    let lost = JobOutcome::NotCreated("x".to_string());
    assert!(matches!(
        child_fate(true, true, &lost),
        ChildFate::Kill(EnforceError::ApplyFailed(m)) if m == "CreateJobObject failed: x"
    ));
}

#[test]
fn windows_arguments_are_quoted() {
    assert_eq!(quote_arg("plain"), "plain");
    assert_eq!(quote_arg("a b"), "\"a b\"");
    assert_eq!(quote_arg(""), "\"\"");
}

#[test]
fn windows_containers() {
    let p = build(builder("C:\\ws").read_write("C:\\out").without_baseline_denies());
    let name = profile_name_for_policy(&p);
    assert!(!name.is_empty());
    let other = build(builder("C:\\ws").id(PolicyId::from_string("pol-2")).without_baseline_denies());
    assert_ne!(name, profile_name_for_policy(&other));
    let grants = policy_grants(&p);
    assert!(grants.iter().any(|g| g.path == "C:\\out" && g.write));
    let args = icacls_args("S-1", "C:\\out", true);
    assert!(args.iter().any(|a| a.contains("S-1")));
    let start = spawn_in_appcontainer("cmd", &strings(&["/c", "a b"]), true, true, false);
    assert_eq!(start.command_line, "cmd /c \"a b\"");
    assert!(start.capabilities.is_empty());
    assert_eq!(spawn_in_appcontainer("cmd", &vec![], true, true, true).capabilities.len(), 1);
}

#[test]
fn windows_paths_have_drives_shares_and_two_separators() {
    let shown = |p: &str| normalize(Style::Windows, p);
    assert_eq!(shown("c:\\a\\.\\b\\..\\c//d\\"), "c:\\a\\c\\d");
    assert_eq!(shown("C:\\.."), "C:\\");
    assert_eq!(shown("C:/../x"), "C:\\x");
    assert_eq!(shown("C:x\\..\\y"), "C:y");
    assert_eq!(shown("\\\\srv\\share\\..\\x"), "\\\\srv\\share\\x");
    assert_eq!(shown("//srv/share"), "//srv/share\\");
    assert_eq!(shown("a\\..\\b"), "b");
    assert_eq!(shown(&shown("c:/a/../b")), shown("c:/a/../b"));
    assert_eq!(normalize(Style::Unix, "c:\\a"), "c:\\a");
    for (p, yes) in [
        ("C:\\x", true),
        ("c:/x", true),
        ("C:x", false),
        ("\\x", false),
        ("x", false),
        ("\\\\srv\\share", true),
        ("\\\\srv", false),
        ("/x", false),
    ] {
        assert_eq!(is_absolute(Style::Windows, p), yes, "{p}");
    }
    assert_eq!(join(Style::Windows, "C:\\ws", "a"), "C:\\ws\\a");
    assert_eq!(join(Style::Windows, "C:\\ws", "\\a"), "C:\\a");
    assert_eq!(join(Style::Windows, "C:\\ws", "D:a"), "D:a");
    assert_eq!(join(Style::Windows, "C:", "a"), "C:a");
    assert_eq!(join(Style::Windows, "\\\\srv\\share\\a", "/b"), "\\\\srv\\share/b");
}

#[test]
fn windows_paths_are_judged_by_their_components() {
    let p = build(
        builder("C:\\ws")
            .style(Style::Windows)
            .default_read(true)
            .read_write("out")
            .deny("C:\\ws\\secrets")
            .without_baseline_denies(),
    );
    for q in [
        "C:\\ws\\secrets\\key",
        "C:\\ws\\secrets",
        "c:/ws/secrets/key",
        "secrets\\key",
        "\\ws\\secrets",
        "a\\..\\secrets/key",
        "C:\\ws\\a\\..\\secrets\\key",
    ] {
        assert!(!soft_fs_allowed(&p, q, false), "{q}");
    }
    let shares = build(
        builder("//srv/share/ws").style(Style::Windows).read_write(".").without_baseline_denies(),
    );
    assert!(soft_fs_allowed(&shares, "\\\\srv\\share\\ws\\x", true));
    assert!(!soft_fs_allowed(&shares, "\\\\srv\\other\\ws\\x", true));
    for q in ["C:\\ws\\other", "D:\\ws\\secrets\\key", "secretsx", "\\secrets"] {
        assert!(soft_fs_allowed(&p, q, false), "{q}");
    }
    assert!(soft_fs_allowed(&p, "c:\\ws\\out\\x", true));
    assert!(!soft_fs_allowed(&p, "C:\\ws\\outx", true));
    assert_eq!(resolve_against_workspace(&p, "a\\..\\b"), "C:\\ws\\b");
    assert_eq!(resolve_lookups(&p, "a"), strings(&["C:\\ws\\a", "C:\\ws", "C:\\"]));
    let parent = vec![Probe::Missing, Probe::Found(Ok("C:\\real".to_string()))];
    assert_eq!(soft_fs_resolve(&p, "a", &parent), Ok("C:\\real\\a".to_string()));
    let here = vec![Probe::Found(Ok("c:\\real\\a".to_string()))];
    assert_eq!(soft_fs_resolve(&p, "a", &here), Ok("c:\\real\\a".to_string()));
    assert_eq!(
        soft_fs_resolve(&p, "C:\\", &vec![Probe::Missing]),
        Err("invalid path: C:\\".to_string())
    );
    let beyond = vec![
        Probe::Missing,
        Probe::Missing,
        Probe::Missing,
        Probe::Found(Ok("D:\\x".to_string())),
    ];
    assert_eq!(soft_fs_resolve(&p, "a", &beyond), Ok("C:\\ws\\a".to_string()));
}

#[test]
fn windows_paths_match_deny_globs() {
    let p = build(
        builder("C:\\ws")
            .style(Style::Windows)
            .default_read(true)
            .deny_glob("secrets/x*y")
            .without_baseline_denies(),
    );
    assert!(path_matches_deny_glob(&p, "C:\\ws\\secrets\\xay"));
    assert!(!soft_fs_allowed(&p, "secrets\\xay", false));
    assert!(!soft_fs_allowed(&p, "c:/ws/secrets/xay", false));
    assert!(soft_fs_allowed(&p, "other\\xay", false));
    let whole = build(
        builder("C:\\ws")
            .style(Style::Windows)
            .default_read(true)
            .deny_glob("d:/k/x*y")
            .without_baseline_denies(),
    );
    assert!(!soft_fs_allowed(&whole, "d:\\k\\xay", false));
    let usual = build(builder("C:\\ws").style(Style::Windows).default_read(true));
    assert!(!soft_fs_allowed(&usual, "C:\\ws\\a\\.env", false));
    assert!(!soft_fs_allowed(&usual, "C:\\ws\\a\\id_rsa", false));
}

#[test]
fn windows_deny_globs_expand_in_order() {
    let p = build(
        builder("C:\\ws").style(Style::Windows).deny_glob("**/.env").without_baseline_denies(),
    );
    let found = strings(&["C:\\ws\\b\\.env", "C:\\ws\\a c\\.env", "c:/ws/a/.env", "C:\\ws\\x", "D:\\.env"]);
    assert_eq!(
        expand_deny_globs(&p, &vec![found]).unwrap(),
        strings(&["c:/ws/a/.env", "C:\\ws\\a c\\.env", "C:\\ws\\b\\.env"])
    );
}

#[test]
fn unreadable_windows_programs_are_not_started() {
    let p = build(builder("C:\\ws").read_only("C:\\bin").without_baseline_denies());
    let b = LocalProcessBackend::new();
    let start = |program: &str| b.spawn_windows(&p, SpawnRequest::new(program), None);
    assert_eq!(
        start("C:\\x.exe").unwrap_err().message(),
        "policy denied: program path not readable under policy: C:\\x.exe"
    );
    assert!(start("\\\\srv\\share\\x.exe").is_err());
    assert!(start("c:/bin/x.exe").is_ok());
    assert!(start("x.exe").is_ok());
    let proxied = b.spawn_windows(&p, SpawnRequest::new("x.exe"), Some(8080)).unwrap();
    assert!(!proxied.env.is_empty());
    let w = build(
        builder("C:\\ws").style(Style::Windows).read_only("C:\\bin").without_baseline_denies(),
    );
    let guard = ProcessGuardBackend::new();
    let ask = |program: &str| guard.admit_spawn(&space(), &w, &SpawnRequest::new(program), now());
    assert!(ask("C:\\x.exe").verdict.is_err());
    assert!(ask("C:\\bin\\x.exe").verdict.is_ok());
}

#[test]
fn windows_files_and_trees() {
    let w = Style::Windows;
    assert!(matches!(
        source_lookup(w, &grant("a", "file:key", None), "C:\\ws"),
        SourceLookup::File(f) if f == "C:\\ws\\key"
    ));
    let st = worktree_state(w, "C:\\wt\\t", "C:\\origin", None);
    assert_eq!(remap_to_worktree(w, Some(&st), "c:/origin/a"), "C:\\wt\\t\\a");
    assert_eq!(remap_to_worktree(w, Some(&st), "D:\\a"), "D:\\a");
    assert_eq!(branch_name(w, "C:\\wt\\task-1"), "keel/task-1");
    assert_eq!(branch_name(w, "C:\\"), "keel/task");
}

// ---------------------------------------------------------------------------
// Working trees
// ---------------------------------------------------------------------------
#[test]
fn creates_directory_worktree() {
    let p = workspace("/origin");
    let opts = WorktreeOptions {
        worktrees_root: Some("/wt".to_string()),
        cleanup_on_destroy: true,
        prefer_git: true,
    };
    assert_eq!(worktrees_root(Style::Unix, &opts, None, None), "/wt");
    assert_eq!(worktree_dir_name(&p, 42), "pol-1-42");
    let st = worktree_state(Style::Unix, "/wt/pol-1-42", "/origin", None);
    assert!(!st.git);
    assert!(st.branch.is_none());
    assert!(cleanup_commands(&st).is_empty());
    let note = ready_event(&p, &st, now());
    assert!(matches!(note.event, EventKind::Note { message } if message
        == "worktree ready at /wt/pol-1-42 (git=false, origin=/origin)"));
}

#[test]
fn git_working_trees() {
    assert_eq!(git_toplevel(true, "/repo\n").as_deref(), Some("/repo"));
    assert!(git_toplevel(false, "/repo\n").is_none());
    assert!(git_toplevel(true, " \n").is_none());
    assert_eq!(branch_name(Style::Unix, "/wt/task-1"), "keel/task-1");
    assert_eq!(
        worktree_add_args(Style::Unix, "/repo", "/wt/task-1"),
        strings(&["-C", "/repo", "worktree", "add", "-b", "keel/task-1", "/wt/task-1", "HEAD"])
    );
    let st = worktree_state(Style::Unix, "/wt/task-1", "/repo/sub", Some("/repo"));
    assert!(st.git);
    assert_eq!(st.origin, "/repo");
    assert_eq!(
        cleanup_commands(&st),
        vec![
            strings(&["-C", "/repo", "worktree", "remove", "--force", "/wt/task-1"]),
            strings(&["-C", "/repo", "branch", "-D", "keel/task-1"]),
        ]
    );
    let long = build(builder("/ws").task_id(TaskId::from_string("abcdefghijklmnopqrstuvwxyz")));
    assert_eq!(worktree_dir_name(&long, 1), "abcdefghijklmnopqrstuvwx-1");
    let opts = WorktreeOptions::default();
    assert_eq!(worktrees_root(Style::Unix, &opts, Some("/state"), None), "/state/worktrees");
    assert_eq!(worktrees_root(Style::Unix, &opts, None, Some(HOME)), "/home/u/.keel/worktrees");
    assert_eq!(worktrees_root(Style::Unix, &opts, None, None), "/tmp/.keel/worktrees");
}

#[test]
fn the_original_is_out_of_the_way() {
    let p = build(builder("/origin").read_write("/origin").without_baseline_denies());
    let st = worktree_state(Style::Unix, "/wt/t", "/origin", None);
    assert_eq!(remap_to_worktree(Style::Unix, Some(&st), "/origin/a/b"), "/wt/t/a/b");
    assert_eq!(remap_to_worktree(Style::Unix, Some(&st), "a"), "/wt/t/a");
    assert_eq!(remap_to_worktree(Style::Unix, Some(&st), "/else"), "/else");
    assert_eq!(remap_to_worktree(Style::Unix, None, "/origin/a"), "/origin/a");
    let inner = inner_policy(&p, &st);
    assert_eq!(inner.workspace, "/wt/t");
    assert!(inner.fs.iter().any(|r| r.path == "/wt/t"));
    assert!(check_fs(&inner, Some(&st), "/origin/a", true));
    let (q, cwd) = spawn_in_worktree(&p, Some(&st), None);
    assert_eq!((q.workspace.as_str(), cwd.as_deref()), ("/wt/t", Some("/wt/t")));
    let (_, cwd) = spawn_in_worktree(&p, Some(&st), Some("/origin/x".to_string()));
    assert_eq!(cwd.as_deref(), Some("/wt/t/x"));
    let (_, cwd) = spawn_in_worktree(&p, Some(&st), Some("y".to_string()));
    assert_eq!(cwd.as_deref(), Some("/wt/t/y"));
    let (q, cwd) = spawn_in_worktree(&p, None, None);
    assert_eq!((q.workspace.as_str(), cwd), ("/origin", None));
}

#[test]
fn composed_worktree_sandbox_apply_smoke() {
    let p = workspace("/origin");
    let c = worktree_sandboxed(
        WorktreeOptions {
            worktrees_root: Some("/wt".to_string()),
            cleanup_on_destroy: true,
            prefer_git: false,
        },
        LocalProcessOptions { require_kernel: false, ..LocalProcessOptions::default() },
    );
    let st = worktree_state(Style::Unix, "/wt/pol-1-1", "/origin", None);
    let opts = match c.inner {
        Enforcer::LocalProcess(o) => o,
        other => panic!("{other:?}"),
    };
    let mut inner = LocalProcessBackend::with_options(opts);
    inner.check_apply(&inner_policy(&p, &st), now()).unwrap();
    inner.apply_isolated_prepare(&inner_policy(&p, &st), facts(Ok(()), 0, false), now()).unwrap();
    assert!(inner.is_applied());
    assert_eq!(c.info(Platform::Linux).name, "local-worktree");
}

#[test]
fn enforce_error_texts() {
    let s = || "x".to_string();
    assert_eq!(EnforceError::Denied(s()).message(), "policy denied: x");
    assert_eq!(
        EnforceError::Unsupported(s()).message(),
        "backend not supported on this platform: x"
    );
    assert_eq!(EnforceError::PolicyExpired.message(), "policy expired");
    assert_eq!(EnforceError::Closed.message(), "space is closed");
    assert_eq!(EnforceError::ApplyFailed(s()).message(), "kernel sandbox apply failed: x");
    assert_eq!(EnforceError::Io(s()).message(), "x");
    assert_eq!(EnforceError::Other(s()).message(), "x");
    assert_eq!(
        EnforceError::Policy(keel::error::PolicyError::Parse(s())).message(),
        "policy parse error: x"
    );
}
