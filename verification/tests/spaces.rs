use keel::admission::ProcessGuardBackend;
use keel::backend::{ProcessExit, SpawnRequest, TerminationReason};
use keel::chain::{content_sha256, verify_chain};
use keel::credentials::SourceValue;
use keel::error::{EnforceError, KeelError, PolicyError};
use keel::event::{EventKind, RecordEvent};
use keel::ids::{PolicyId, SpaceId, TaskId};
use keel::narrow::TaskSpec;
use keel::net::{NetworkPolicy, NetworkRule};
use keel::policy::{CredentialGrant, Policy};
use keel::native::Style;
use keel::presets::{profile_workspace, Environment};
use keel::process_guard::Probe;
use keel::sink::{HashChainSink, MemorySink};
use keel::space::{confined_options, fs_target, Space, SpaceOptions, SpaceState};
use keel::time::Timestamp;

fn now() -> Timestamp {
    Timestamp { seconds: 1_700_000_000, nanos: 0 }
}

fn env() -> Environment {
    Environment {
        keel_home: None,
        home: Some("/home/u".to_string()),
        user_profile: None,
        tmpdir: None,
        style: Style::Unix,
    }
}

fn workspace(ws: &str) -> Policy {
    profile_workspace(ws, &env(), PolicyId::from_string("pol-1"), now()).unwrap()
}

fn options() -> SpaceOptions {
    SpaceOptions {
        persist_events: false,
        memory_events: true,
        persist_policy: false,
        ..SpaceOptions::default()
    }
}

/// An open space and its first entries.
fn open(policy: Policy, opts: SpaceOptions) -> (Space, Vec<RecordEvent>) {
    let created = Space::create_with_sink(
        policy,
        SpaceId::from_string("spc-1"),
        opts,
        true,
        "/state",
        "process-guard",
        now(),
    )
    .unwrap();
    let mut space = created.space;
    assert_eq!(space.state(), SpaceState::Creating);
    space.opened();
    (space, created.events)
}

fn kinds(events: &[RecordEvent]) -> Vec<String> {
    events
        .iter()
        .map(|e| {
            let json: serde_json::Value = serde_json::from_str(&e.event.to_json()).unwrap();
            json["kind"].as_str().unwrap().to_string()
        })
        .collect()
}

fn grant(name: &str, source: &str) -> CredentialGrant {
    CredentialGrant {
        name: name.to_string(),
        source: source.to_string(),
        inject_as_env: None,
    }
}

#[test]
fn create_check_destroy_memory_only() {
    let (mut space, _) = open(workspace("/tmp/keel-test-ws"), options());
    let backend = ProcessGuardBackend::new();
    let allowed = backend.check_fs(space.policy(), "/tmp/keel-test-ws/foo.rs", true);
    assert!(allowed);
    space.check_fs("/tmp/keel-test-ws/foo.rs", true, allowed, now()).unwrap();
    space.begin_destroy(now()).unwrap();
    space.destroyed();
    assert_eq!(space.state(), SpaceState::Destroyed);
}

#[test]
fn integrity_chain_on_space_events() {
    let mut sink = MemorySink::new();
    let mut chain = HashChainSink::new();
    let (mut space, events) = open(workspace("/tmp/keel-chain-ws"), options());
    for e in events {
        sink.emit(chain.emit(e).unwrap());
    }
    let allowed = ProcessGuardBackend::new().check_fs(space.policy(), "/tmp/keel-chain-ws/x", false);
    for e in space.check_fs("/tmp/keel-chain-ws/x", false, allowed, now()).unwrap() {
        sink.emit(chain.emit(e).unwrap());
    }
    for e in space.begin_destroy(now()).unwrap() {
        sink.emit(chain.emit(e).unwrap());
    }
    sink.emit(chain.emit(space.destroyed_event(now())).unwrap());
    space.destroyed();
    let events = sink.events();
    assert!(events.len() >= 2);
    assert!(events.iter().all(|e| e.event_hash.is_some()));
    assert!(verify_chain(&events).is_ok());
    assert_eq!(
        kinds(&events),
        vec!["space_created", "policy_bound", "fs_access", "space_destroyed"]
    );
}

#[test]
fn create_persists_events() {
    let created = Space::create_with_sink(
        workspace("/tmp"),
        SpaceId::from_string("spc-1"),
        SpaceOptions::default(),
        false,
        "/state",
        "process-guard",
        now(),
    )
    .unwrap();
    let path = "/state/spaces/spc-1/events.jsonl";
    assert_eq!(created.storage.events_path.as_deref(), Some(path));
    assert_eq!(created.space.events_path().as_deref(), Some(path));
    assert_eq!(created.storage.policy_path.as_deref(), Some("/state/spaces/spc-1/policy.json"));
    assert!(created.storage.chained);
    assert!(!created.storage.memory);
    assert!(created.events[0].event.to_json().contains("\"kind\""));
}

#[test]
fn a_space_always_has_a_sink() {
    let plan = |opts: SpaceOptions, own: bool| {
        Space::create_with_sink(
            workspace("/ws"),
            SpaceId::from_string("s"),
            opts,
            own,
            "/state",
            "null",
            now(),
        )
        .unwrap()
        .storage
    };
    let none = SpaceOptions { persist_events: false, ..SpaceOptions::default() };
    assert!(plan(none, false).memory);
    assert!(plan(none, false).policy_path.is_none());
    assert!(!plan(none, true).memory);
    let both = SpaceOptions { memory_events: true, ..SpaceOptions::default() };
    assert!(plan(both, false).memory);
    assert!(plan(both, false).events_path.is_some());
    assert!(plan(both, true).events_path.is_none());
    assert!(plan(both, true).policy_path.is_some());
    let loose = SpaceOptions { integrity_chain: false, ..SpaceOptions::default() };
    assert!(!plan(loose, false).chained);
}

#[test]
fn bad_and_expired_policies_open_nothing() {
    let create = |p: Policy| {
        Space::create_with_sink(
            p,
            SpaceId::from_string("s"),
            options(),
            true,
            "/state",
            "null",
            now(),
        )
        .unwrap_err()
    };
    let mut p = workspace("/ws");
    p.expires_at = Some(now());
    assert!(matches!(create(p), KeelError::Enforce(EnforceError::PolicyExpired)));
    let mut p = workspace("/ws");
    p.workspace = String::new();
    assert!(matches!(create(p), KeelError::Policy(PolicyError::Invalid(_))));
}

#[test]
fn only_open_spaces_answer() {
    let created = Space::create_with_sink(
        workspace("/ws"),
        SpaceId::from_string("s"),
        options(),
        true,
        "/state",
        "null",
        now(),
    )
    .unwrap();
    let mut space = created.space;
    assert_eq!(
        space.ensure_open().unwrap_err().message(),
        "space is not open (state=creating)"
    );
    assert!(space.check_fs("/a", false, true, now()).is_err());
    space.opened();
    assert!(space.ensure_open().is_ok());
    assert!(space.begin_destroy(now()).is_some());
    assert!(space.begin_destroy(now()).is_none());
    assert_eq!(
        space.check_egress("a.com", 80, now()).unwrap_err().message(),
        "space is not open (state=destroying)"
    );
    space.destroyed();
    assert!(space.begin_destroy(now()).is_none());
    assert!(space.spawn(SpawnRequest::new("ls"), &vec![], now()).is_err());
    assert_eq!(
        space.ensure_open().unwrap_err().message(),
        "space is not open (state=destroyed)"
    );
}

#[test]
fn an_expired_space_answers_nothing() {
    let mut p = workspace("/ws");
    p.expires_at = Some(Timestamp { seconds: 1_700_000_010, nanos: 0 });
    let (space, _) = open(p, options());
    assert!(space.check_fs("/a", false, true, now()).is_ok());
    let late = Timestamp { seconds: 1_700_000_010, nanos: 0 };
    assert!(matches!(
        space.check_fs("/a", false, true, late),
        Err(KeelError::Enforce(EnforceError::PolicyExpired))
    ));
    assert!(space.check_egress("a.com", 80, late).is_err());
    assert!(space.spawn(SpawnRequest::new("ls"), &vec![], late).is_err());
}

#[test]
fn denials_are_violations() {
    let (space, _) = open(workspace("/ws"), options());
    let events = space.check_fs("/etc/passwd", true, false, now()).unwrap();
    assert_eq!(kinds(&events), vec!["fs_access", "violation"]);
    assert!(matches!(
        &events[1].event,
        EventKind::Violation { operation, target, detail }
            if operation == "check_write" && target == "/etc/passwd"
            && detail.as_deref() == Some("advisory soft deny (use SpaceFs for real I/O)")
    ));
    let quiet = SpaceOptions { record_violations: false, ..options() };
    let (space, _) = open(workspace("/ws"), quiet);
    assert_eq!(kinds(&space.check_fs("/a", false, false, now()).unwrap()), vec!["fs_access"]);
}

#[test]
fn dials_are_recorded() {
    let mut p = workspace("/ws");
    p.network = NetworkPolicy::Allowlist(vec![NetworkRule::host_port("api.x.ai", 443)]);
    let (space, _) = open(p, options());
    let (allowed, events) = space.check_egress("api.x.ai", 443, now()).unwrap();
    assert!(allowed);
    assert_eq!(kinds(&events), vec!["net_dial"]);
    let (allowed, events) = space.check_egress("evil.com", 80, now()).unwrap();
    assert!(!allowed);
    assert!(matches!(
        &events[1].event,
        EventKind::Violation { operation, target, detail }
            if operation == "connect" && target == "evil.com:80"
            && detail.as_deref() == Some("host evil.com:80 is not in the egress allowlist")
    ));
}

#[test]
fn audit_args_false_redacts_exec_event() {
    let (space, mut events) = open(workspace("/tmp"), options());
    let req = SpawnRequest::new("echo")
        .args(vec!["token=super-secret".to_string()])
        .audit_args(false);
    let prepared = space.spawn(req, &vec![], now()).unwrap();
    events.extend(prepared.events);
    let admission = ProcessGuardBackend::new().admit_spawn(
        space.id(),
        space.policy(),
        &prepared.req,
        now(),
    );
    assert!(admission.verdict.is_ok());
    events.extend(admission.event);
    let exec = events.iter().find_map(|e| match &e.event {
        EventKind::Exec { args, args_redacted, .. } => Some((args.clone(), *args_redacted)),
        _ => None,
    });
    let (args, redacted) = exec.expect("Exec event");
    assert!(redacted);
    assert!(args.is_empty());
    assert!(!format!("{events:?}").contains("super-secret"));
}

#[test]
fn secrets_reach_the_program_and_not_the_trail() {
    let mut p = workspace("/ws");
    p.credentials = vec![grant("API", "env:A"), grant("KEY", "file:/k")];
    let (mut space, _) = open(p, options());
    let found = vec![
        SourceValue::Env(Some("s3cr3t".to_string())),
        SourceValue::File(Ok("k3y\n".to_string())),
    ];
    let prepared = space.spawn(SpawnRequest::new("ls"), &found, now()).unwrap();
    assert_eq!(
        prepared.req.env,
        vec![
            ("API".to_string(), "s3cr3t".to_string()),
            ("KEY".to_string(), "k3y".to_string()),
        ]
    );
    assert_eq!(kinds(&prepared.events), vec!["credential_issued", "credential_issued"]);
    let shown = format!("{:?}", prepared.events);
    assert!(!shown.contains("s3cr3t") && !shown.contains("k3y"));
    let revoked = space.begin_destroy(now()).unwrap();
    assert_eq!(kinds(&revoked), vec!["credential_revoked", "credential_revoked"]);
}

#[test]
fn strict_spaces_want_every_secret() {
    let p = || {
        let mut p = workspace("/ws");
        p.credentials = vec![grant("API", "env:A")];
        p
    };
    let missing = vec![SourceValue::Env(None)];
    let strict = SpaceOptions { strict_credentials: true, ..options() };
    let (space, _) = open(p(), strict);
    assert!(matches!(
        space.spawn(SpawnRequest::new("ls"), &missing, now()),
        Err(KeelError::Enforce(EnforceError::Denied(_)))
    ));
    let (space, _) = open(p(), options());
    let prepared = space.spawn(SpawnRequest::new("ls"), &missing, now()).unwrap();
    assert!(prepared.req.env.is_empty());
    assert!(prepared.events.is_empty());
}

#[test]
fn spawn_timeout_kills_sleep() {
    let (space, _) = open(workspace("/tmp"), options());
    let exit = ProcessExit::from_status(None, Some(9), 200, TerminationReason::TimedOut);
    assert_eq!(exit.termination_reason, TerminationReason::TimedOut);
    let event = space.finished("sh", &exit, now());
    assert!(matches!(
        &event.event,
        EventKind::ExecFinished { termination_reason, .. } if termination_reason == "timed_out"
    ));
}

#[test]
fn space_fs_write_read_roundtrip() {
    let (space, _) = open(workspace("/srv/ws"), options());
    let here = vec![Probe::Missing, Probe::Found(Ok("/srv/ws".to_string()))];
    let (target, outcome) =
        space.authorize_by_policy("/srv/ws/note.txt", true, &here, now()).unwrap();
    assert!(outcome.verdict.is_ok());
    assert_eq!(target.resolved, "/srv/ws/note.txt");
    let found = vec![Probe::Found(Ok("/srv/ws/note.txt".to_string()))];
    let (_, outcome) = space.authorize_by_policy("/srv/ws/note.txt", false, &found, now()).unwrap();
    assert!(outcome.verdict.is_ok());

    let etc = vec![Probe::Missing, Probe::Found(Ok("/etc".to_string()))];
    let (_, denied) =
        space.authorize_by_policy("/etc/keel-should-not-write", true, &etc, now()).unwrap();
    assert_eq!(
        denied.verdict.unwrap_err().message(),
        "fs write denied by policy: /etc/keel-should-not-write"
    );
}

#[test]
fn space_fs_nested_create_path() {
    let (space, _) = open(workspace("/srv/ws"), options());
    let probes = vec![Probe::Missing, Probe::Missing, Probe::Found(Ok("/srv/ws".to_string()))];
    let (target, outcome) = space.authorize_by_policy("foo/bar.txt", true, &probes, now()).unwrap();
    assert!(outcome.verdict.is_ok());
    assert_eq!(target.resolved, "/srv/ws/foo/bar.txt");
}

#[test]
fn links_do_not_lead_out() {
    let (space, _) = open(workspace("/srv/ws"), options());
    let probes = vec![Probe::Found(Ok("/etc/passwd".to_string()))];
    let (target, outcome) = space.authorize_by_policy("link", true, &probes, now()).unwrap();
    assert!(!target.permitted);
    assert_eq!(outcome.verdict.unwrap_err().message(), "fs write denied by policy: link");
    assert_eq!(kinds(&outcome.events), vec!["fs_access", "violation"]);
    let secret = vec![Probe::Found(Ok("/home/u/.ssh/id_rsa".to_string()))];
    let (_, outcome) = space.authorize_by_policy("link", false, &secret, now()).unwrap();
    assert_eq!(outcome.verdict.unwrap_err().message(), "fs read denied by policy: link");
    let broken = vec![Probe::Found(Err("loop".to_string()))];
    let e = space.authorize_by_policy("link", false, &broken, now()).unwrap_err();
    assert_eq!(e.message(), "canonicalize /srv/ws/link: loop");
}

#[test]
fn a_backend_can_forbid_what_the_policy_permits() {
    let (space, _) = open(workspace("/srv/ws"), options());
    let probes = vec![Probe::Found(Ok("/srv/ws/a".to_string()))];
    let target = fs_target(space.policy(), "a", true, &probes).unwrap();
    assert!(target.permitted);
    let yes = space.authorize("a", true, &target, true, now()).unwrap();
    assert!(yes.verdict.is_ok());
    let no = space.authorize("a", true, &target, false, now()).unwrap();
    assert!(no.verdict.is_err());
}

#[test]
fn contents_are_recorded_as_digests() {
    let (space, _) = open(workspace("/srv/ws"), options());
    let e = space.content_event("/srv/ws/a", true, b"abc", now());
    assert!(matches!(
        &e.event,
        EventKind::FsAccess { operation, content_sha256: Some(d), allowed: true, .. }
            if operation == "write" && *d == content_sha256(b"abc")
    ));
}

#[test]
fn tasks_reach_less() {
    let (space, _) = open(workspace("/ws"), options());
    let mut task = TaskSpec::new(TaskId::from_string("tsk-review"));
    task.network = Some(NetworkPolicy::DenyAll);
    task.extra_deny = vec![".env".to_string()];
    let child = space.open_task(task, PolicyId::from_string("pol-2"), now()).unwrap();
    assert!(matches!(child.network, NetworkPolicy::DenyAll));
    assert_eq!(child.task_id.as_ref().map(|t| t.as_str()), Some("tsk-review"));
    let mut away = TaskSpec::new(TaskId::from_string("t"));
    away.workspace = Some("/elsewhere".to_string());
    assert!(matches!(
        space.open_task(away, PolicyId::from_string("pol-3"), now()),
        Err(KeelError::Policy(PolicyError::Invalid(_)))
    ));
}

#[test]
fn confinement_blocks_the_network_only_without_one() {
    let mut p = workspace("/ws");
    assert!(!confined_options(&p).block_process_network);
    assert!(!confined_options(&p).isolate_apply);
    assert!(confined_options(&p).require_kernel);
    p.network = NetworkPolicy::DenyAll;
    assert!(confined_options(&p).block_process_network);
}

#[test]
fn keel_error_texts() {
    let s = || "x".to_string();
    assert_eq!(KeelError::NotOpen(s()).message(), "space is not open (state=x)");
    assert_eq!(KeelError::Record(s()).message(), "record sink error: x");
    assert_eq!(KeelError::Other(s()).message(), "x");
    assert_eq!(KeelError::Enforce(EnforceError::PolicyExpired).message(), "policy expired");
    assert_eq!(KeelError::Policy(PolicyError::Invalid(s())).message(), "invalid policy: x");
}
