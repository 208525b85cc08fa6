use keel::chain::{
    compute_event_hash, content_sha256, hash_body, seal_event, trail_lines, verify_chain,
    verify_jsonl, ChainVerifyError, ReadLine, GENESIS_PREV,
};
use keel::event::{EventKind, RecordEvent};
use keel::ids::{PolicyId, SpaceId, TaskId};
use keel::layout::{keel_home, keel_tmp_dir, space_dir, space_events_path, space_policy_path};
use keel::native::Style;
use keel::sink::{HashChainSink, MemorySink};
use keel::time::Timestamp;

fn at(seconds: i64, nanos: u32) -> Timestamp {
    Timestamp { seconds, nanos }
}

fn event(kind: EventKind) -> RecordEvent {
    RecordEvent::new(
        SpaceId::from_string("spc"),
        PolicyId::from_string("pol"),
        None,
        kind,
        at(1_700_000_000, 0),
    )
}

fn note(msg: &str) -> RecordEvent {
    event(EventKind::Note { message: msg.to_string() })
}

fn chain(n: usize) -> Vec<RecordEvent> {
    let mut sink = HashChainSink::new();
    (0..n).map(|i| sink.emit(note(&format!("m{i}"))).unwrap()).collect()
}

#[test]
fn chain_seals_and_verifies() {
    let e1 = seal_event(note("a"), None).unwrap();
    let e2 = seal_event(note("b"), e1.event_hash.as_deref()).unwrap();
    let e3 = seal_event(note("c"), e2.event_hash.as_deref()).unwrap();
    assert!(verify_chain(&[e1.clone(), e2.clone(), e3.clone()]).is_ok());

    let mut bad = e2.clone();
    bad.event = EventKind::Note { message: "tampered".to_string() };
    assert!(matches!(
        verify_chain(&[e1, bad, e3]),
        Err(ChainVerifyError::HashMismatch { index: 1 })
    ));
}

#[test]
fn content_hash_stable() {
    assert_eq!(content_sha256(b"hello"), content_sha256(b"hello"));
    assert_ne!(content_sha256(b"hello"), content_sha256(b"world"));
}

#[test]
fn digests_are_sha256() {
    assert_eq!(
        content_sha256(b""),
        "e3b0c44298fc1c149afbf4c8996fb92427ae41e4649b934ca495991b7852b855"
    );
    assert_eq!(
        content_sha256(b"abc"),
        "ba7816bf8f01cfea414140de5dae2223b00361a396177a9cb410ff61f20015ad"
    );
}

#[test]
fn memory_sink_collects() {
    let mut sink = MemorySink::new();
    assert!(sink.is_empty());
    sink.emit(RecordEvent::new(
        SpaceId::from_string("spc-1"),
        PolicyId::from_string("pol-1"),
        None,
        EventKind::Note { message: "hi".to_string() },
        at(0, 0),
    ));
    assert_eq!(sink.len(), 1);
    assert_eq!(sink.events().len(), 1);
    assert!(!sink.is_empty());
}

#[test]
fn hash_chain_sink_seals() {
    let mut mem = MemorySink::new();
    let mut chained = HashChainSink::new();
    for msg in ["a", "b", "c"] {
        mem.emit(chained.emit(note(msg)).unwrap());
    }
    let events = mem.events();
    assert_eq!(events.len(), 3);
    assert_eq!(events[0].prev_hash.as_deref(), Some(GENESIS_PREV));
    assert!(verify_chain(&events).is_ok());
}

#[test]
fn paths_join() {
    let id = SpaceId::from_string("spc-test");
    let ev = space_events_path(Style::Unix, &keel_home(Style::Unix, None, Some("/home/u")), &id);
    assert!(ev.ends_with("spaces/spc-test/events.jsonl") || ev.contains("spc-test"));
}

#[test]
fn the_layout_of_the_state_directory() {
    let id = SpaceId::from_string("spc-1");
    assert_eq!(keel_home(Style::Unix, Some("/state"), Some("/home/u")), "/state");
    assert_eq!(keel_home(Style::Unix, Some(""), Some("/home/u")), "/home/u/.keel");
    assert_eq!(keel_home(Style::Unix, None, None), "./.keel");
    assert_eq!(space_dir(Style::Unix, "/state", &id), "/state/spaces/spc-1");
    assert_eq!(space_events_path(Style::Unix, "/state", &id), "/state/spaces/spc-1/events.jsonl");
    assert_eq!(space_policy_path(Style::Unix, "/state", &id), "/state/spaces/spc-1/policy.json");
    assert_eq!(keel_tmp_dir(Style::Unix, "/state"), "/state/tmp");
    assert_eq!(
        space_dir(Style::Windows, "C:\\s", &id),
        "C:\\s\\spaces\\spc-1"
    );
}

#[test]
fn a_chain_that_was_touched_does_not_verify() {
    let events = chain(3);
    assert!(verify_chain(&[]).is_ok());
    assert!(verify_chain(&events[..2]).is_ok());
    assert!(matches!(
        verify_chain(&events[1..]),
        Err(ChainVerifyError::LinkBroken { index: 0 })
    ));
    let without = [events[0].clone(), events[2].clone()];
    assert!(matches!(verify_chain(&without), Err(ChainVerifyError::LinkBroken { index: 1 })));
    let mut bare = events.clone();
    bare[2].event_hash = None;
    assert!(matches!(verify_chain(&bare), Err(ChainVerifyError::MissingHash { index: 2 })));
    let mut other_space = events.clone();
    other_space[1].space_id = SpaceId::from_string("other");
    assert!(matches!(verify_chain(&other_space), Err(ChainVerifyError::HashMismatch { index: 1 })));
    let mut other_time = events.clone();
    other_time[1].timestamp = at(1, 0);
    assert!(matches!(verify_chain(&other_time), Err(ChainVerifyError::HashMismatch { index: 1 })));
}

#[test]
fn chain_error_texts() {
    let texts = [
        ChainVerifyError::MissingHash { index: 1 }.message(),
        ChainVerifyError::HashMismatch { index: 2 }.message(),
        ChainVerifyError::LinkBroken { index: 3 }.message(),
    ];
    assert!(texts[0].contains('1') && texts[1].contains('2') && texts[2].contains('3'));
    assert_ne!(texts[0], texts[1]);
}

#[test]
fn the_hashed_body_is_json_in_a_fixed_order() {
    let mut e = RecordEvent::new(
        SpaceId::from_string("spc"),
        PolicyId::from_string("pol"),
        Some(TaskId::from_string("tsk")),
        EventKind::Note { message: "say \"hi\"\n\u{1}\u{e9}".to_string() },
        at(1_700_000_000, 0),
    );
    e.prev_hash = Some("p".to_string());
    let body = hash_body(&e, "\"2023-11-14T22:13:20Z\"");
    let value: serde_json::Value = serde_json::from_str(&body).unwrap();
    assert_eq!(value["timestamp"], "2023-11-14T22:13:20Z");
    assert_eq!(value["space_id"], "spc");
    assert_eq!(value["policy_id"], "pol");
    assert_eq!(value["task_id"], "tsk");
    assert_eq!(value["prev_hash"], "p");
    assert_eq!(value["event"]["kind"], "note");
    assert_eq!(value["event"]["message"], "say \"hi\"\n\u{1}\u{e9}");
    assert_eq!(serde_json::to_string(&value["event"]["message"]).unwrap(), "\"say \\\"hi\\\"\\n\\u0001\u{e9}\"");
    assert!(body.contains("\"say \\\"hi\\\"\\n\\u0001\u{e9}\""));
}

#[test]
fn the_hash_is_that_of_the_body_with_the_written_time() {
    for (t, written) in [
        (at(1_700_000_000, 0), "\"2023-11-14T22:13:20Z\""),
        (at(0, 0), "\"1970-01-01T00:00:00Z\""),
        (at(1_700_000_000, 123_000_000), "\"2023-11-14T22:13:20.123Z\""),
        (at(1_700_000_000, 123_456_789), "\"2023-11-14T22:13:20.123456789Z\""),
        (at(-1, 500_000_000), "\"1969-12-31T23:59:59.500Z\""),
    ] {
        let mut e = note("x");
        e.timestamp = t;
        e.prev_hash = Some(GENESIS_PREV.to_string());
        let hash = compute_event_hash(&e).unwrap();
        assert_eq!(hash, content_sha256(hash_body(&e, written).as_bytes()), "{written}");
    }
    let mut beyond = note("x");
    beyond.timestamp = at(i64::MAX, 0);
    assert!(compute_event_hash(&beyond).is_err());
}

#[test]
fn every_kind_of_entry_has_its_json() {
    let s = |t: &str| t.to_string();
    let cases: Vec<(EventKind, &str)> = vec![
        (
            EventKind::SpaceCreated { backend: s("null"), label: None },
            r#"{"kind":"space_created","backend":"null","label":null}"#,
        ),
        (
            EventKind::SpaceDestroyed { reason: s("explicit") },
            r#"{"kind":"space_destroyed","reason":"explicit"}"#,
        ),
        (
            EventKind::PolicyBound { label: Some(s("w")) },
            r#"{"kind":"policy_bound","label":"w"}"#,
        ),
        (
            EventKind::FsAccess {
                path: s("/a"),
                operation: s("check_read"),
                allowed: true,
                content_sha256: None,
            },
            r#"{"kind":"fs_access","path":"/a","operation":"check_read","allowed":true}"#,
        ),
        (
            EventKind::FsAccess {
                path: s("/a"),
                operation: s("write"),
                allowed: false,
                content_sha256: Some(s("00")),
            },
            r#"{"kind":"fs_access","path":"/a","operation":"write","allowed":false,"content_sha256":"00"}"#,
        ),
        (
            EventKind::NetDial { host: s("h"), port: Some(80), allowed: true },
            r#"{"kind":"net_dial","host":"h","port":80,"allowed":true}"#,
        ),
        (
            EventKind::NetDial { host: s("h"), port: None, allowed: true },
            r#"{"kind":"net_dial","host":"h","port":null,"allowed":true}"#,
        ),
        (
            EventKind::Exec {
                program: s("p"),
                args: vec![s("a"), s("b")],
                allowed: true,
                args_redacted: false,
            },
            r#"{"kind":"exec","program":"p","args":["a","b"],"allowed":true,"args_redacted":false}"#,
        ),
        (
            EventKind::ExecFinished {
                program: s("p"),
                exit_code: Some(-1),
                duration_ms: 18_446_744_073_709_551_615,
                termination_reason: s("exited"),
                signal: None,
            },
            r#"{"kind":"exec_finished","program":"p","exit_code":-1,"duration_ms":18446744073709551615,"termination_reason":"exited"}"#,
        ),
        (
            EventKind::ExecFinished {
                program: s("p"),
                exit_code: None,
                duration_ms: 0,
                termination_reason: s("signal"),
                signal: Some(9),
            },
            r#"{"kind":"exec_finished","program":"p","duration_ms":0,"termination_reason":"signal","signal":9}"#,
        ),
        (
            EventKind::CredentialIssued { name: s("n") },
            r#"{"kind":"credential_issued","name":"n"}"#,
        ),
        (
            EventKind::CredentialRevoked { name: s("n") },
            r#"{"kind":"credential_revoked","name":"n"}"#,
        ),
        (
            EventKind::Violation { operation: s("o"), target: s("t"), detail: None },
            r#"{"kind":"violation","operation":"o","target":"t","detail":null}"#,
        ),
        (EventKind::Note { message: s("m") }, r#"{"kind":"note","message":"m"}"#),
    ];
    for (kind, json) in cases {
        assert_eq!(kind.to_json(), json);
    }
}

#[test]
fn trails_are_read_line_by_line() {
    let lines = trail_lines("a\n\n  \nb\r\nc");
    let shown: Vec<(usize, &str)> = lines.iter().map(|l| (l.number, l.text.trim())).collect();
    assert_eq!(shown, vec![(1, "a"), (4, "b"), (5, "c")]);
}

#[test]
fn a_trail_is_verified_or_says_where_it_fails() {
    let read = |events: Vec<RecordEvent>| -> Vec<ReadLine> {
        events
            .into_iter()
            .enumerate()
            .map(|(i, e)| ReadLine { number: i + 1, entry: Ok(e) })
            .collect()
    };
    let events = chain(3);
    assert_eq!(verify_jsonl(read(events.clone())).unwrap().len(), 3);
    let mut bad = events.clone();
    bad[1].prev_hash = Some("x".to_string());
    assert!(verify_jsonl(read(bad)).is_err());
    let mut lines = read(events);
    lines[2].entry = Err("eof".to_string());
    let message = verify_jsonl(lines).unwrap_err();
    assert!(message.contains('3') && message.contains("eof"), "{message}");
}

#[test]
fn every_instant_has_a_hash_of_its_own() {
    let mut hashes: Vec<String> = Vec::new();
    for t in [
        at(1_700_000_000, 0),
        at(1_700_000_000, 1),
        at(1_700_000_000, 1_000),
        at(1_700_000_000, 1_000_000),
        at(1_700_000_001, 0),
        at(59, 0),
        at(59, 1_000_000_000),
        at(60, 0),
        at(-1, 0),
        at(-62_167_219_201, 0),
        at(253_402_300_800, 0),
    ] {
        let mut e = note("same");
        e.timestamp = t;
        let h = compute_event_hash(&e).unwrap();
        assert!(!hashes.contains(&h));
        hashes.push(h);
    }
    let mut outside = note("same");
    outside.timestamp = at(58, 1_000_000_000);
    assert!(compute_event_hash(&outside).is_err());
}
