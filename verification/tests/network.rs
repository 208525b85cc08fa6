use keel::child_net::{
    blocked_syscalls, filter_program, ChildFilter, Instruction, NetSyscall, ALLOW, JUMP_IF_EQUAL,
    LOAD_WORD, REFUSE, RETURN,
};
use keel::egress::{allowlist_ports, check_egress, host_matches, EgressDecision};
use keel::egress_proxy::{
    bad_gateway, ends_headers, env_vars, handle_request, http_error, proxy_url, tunnel_established,
    ProxyAction, EGRESS_PROXY_PORT_ENV,
};
use keel::ip;
use keel::net::{NetworkPolicy, NetworkRule};

fn list(rules: Vec<NetworkRule>) -> NetworkPolicy {
    NetworkPolicy::Allowlist(rules)
}

fn reason(p: &NetworkPolicy, host: &str, port: u16) -> String {
    match check_egress(p, host, port) {
        EgressDecision::Allow => panic!("{host}:{port} is permitted"),
        EgressDecision::Deny { reason } => reason,
    }
}

#[test]
fn unrestricted_allows() {
    assert!(check_egress(&NetworkPolicy::Unrestricted, "example.com", 443).is_allowed());
}

#[test]
fn deny_all_blocks() {
    assert!(!check_egress(&NetworkPolicy::DenyAll, "example.com", 443).is_allowed());
}

#[test]
fn allowlist_exact() {
    let p = list(vec![NetworkRule::host_port("api.x.ai", 443)]);
    assert!(check_egress(&p, "api.x.ai", 443).is_allowed());
    assert!(!check_egress(&p, "api.x.ai", 80).is_allowed());
    assert!(!check_egress(&p, "evil.com", 443).is_allowed());
}

#[test]
fn allowlist_any_port() {
    let p = list(vec![NetworkRule::host("api.x.ai")]);
    assert!(check_egress(&p, "api.x.ai", 443).is_allowed());
    assert!(check_egress(&p, "api.x.ai", 80).is_allowed());
}

#[test]
fn wildcard_subdomain() {
    let p = list(vec![NetworkRule::host("*.github.com")]);
    assert!(check_egress(&p, "api.github.com", 443).is_allowed());
    assert!(!check_egress(&p, "raw.githubusercontent.com", 443).is_allowed());
    assert!(!check_egress(&p, "github.com", 443).is_allowed());
}

#[test]
fn metadata_always_denied() {
    let p = NetworkPolicy::Unrestricted;
    assert!(!check_egress(&p, "169.254.169.254", 80).is_allowed());
    assert!(!check_egress(&p, "metadata.google.internal", 80).is_allowed());
}

#[test]
fn star_allows_any_non_metadata() {
    let p = list(vec![NetworkRule::host("*")]);
    assert!(check_egress(&p, "example.com", 443).is_allowed());
    assert!(!check_egress(&p, "169.254.169.254", 80).is_allowed());
}

#[test]
fn patterns_are_read_without_case_dots_and_brackets() {
    assert!(host_matches("API.x.ai.", "api.x.ai"));
    assert!(host_matches("[::1]", "::1"));
    assert!(host_matches("*.A.com", "x.y.a.com"));
    assert!(!host_matches("*.a.com", "a.com"));
    assert!(!host_matches("*.a.com", "xa.com"));
    assert!(host_matches("*", "anything"));
    assert!(!host_matches("a.com", "b.com"));
}

#[test]
fn an_address_of_the_local_link_is_denied_in_every_spelling() {
    let p = NetworkPolicy::Unrestricted;
    for host in [
        "169.254.1.1",
        "[fe80::1]",
        "fe80::1",
        "::ffff:169.254.169.254",
        "[::ffff:a9fe:a9fe]",
        "METADATA.google.internal.",
    ] {
        assert!(!check_egress(&p, host, 80).is_allowed(), "{host}");
    }
    for host in ["169.253.1.1", "10.0.0.1", "[2001:db8::1]", "::1"] {
        assert!(check_egress(&p, host, 80).is_allowed(), "{host}");
    }
}

#[test]
fn denials_say_why() {
    let open = NetworkPolicy::Unrestricted;
    assert_eq!(reason(&open, " . ", 443), "empty host");
    assert_eq!(
        reason(&open, "Metadata.google.internal", 80),
        "host metadata.google.internal is a cloud metadata endpoint"
    );
    assert_eq!(
        reason(&open, "[FE80::0:1]", 80),
        "IP fe80::1 is link-local (metadata / rebinding protection)"
    );
    assert_eq!(reason(&NetworkPolicy::DenyAll, "example.com", 443), "network policy is deny-all");
    assert_eq!(reason(&list(vec![]), "a.com", 80), "empty allowlist");
    let p = list(vec![NetworkRule::host("a.com")]);
    assert_eq!(reason(&p, "B.com", 80), "host b.com:80 is not in the egress allowlist");
}

#[test]
fn ports_of_an_allowlist_are_sorted_once() {
    let rules = vec![
        NetworkRule::host_port("a", 443),
        NetworkRule::host("b"),
        NetworkRule::host_port("c", 80),
        NetworkRule::host_port("d", 443),
    ];
    assert_eq!(allowlist_ports(&rules), vec![80, 443]);
    assert!(allowlist_ports(&vec![NetworkRule::host("b")]).is_empty());
}

#[test]
fn addresses_are_read_and_written() {
    for (text, shown) in [
        ("127.0.0.1", "127.0.0.1"),
        ("2001:DB8:0:0:0:0:0:1", "2001:db8::1"),
        ("::", "::"),
        ("::1", "::1"),
        ("1:0:0:2:0:0:0:3", "1:0:0:2::3"),
        ("::ffff:1.2.3.4", "::ffff:1.2.3.4"),
        ("fe80::", "fe80::"),
    ] {
        assert_eq!(ip::parse(text).unwrap().to_text(), shown);
    }
    for bad in [
        "", "1.2.3", "1.2.3.4.5", "256.0.0.1", "01.2.3.4", "a.b.c.d", ":", ":::", "1::2::3",
        "12345::", "1:2:3:4:5:6:7:8:9", "::1.2.3", "1:2:3:4:5:6:7:8::",
    ] {
        let got = ip::parse(bad).map(|a| a.to_text());
        assert!(got.is_none(), "{bad} is {got:?}");
    }
}

#[test]
fn addresses_agree_with_the_standard_library() {
    let samples = [
        "0.0.0.0", "255.255.255.255", "1.2.3.4", "1.2.3.04", "+1.2.3.4", "1..2.3", "::ffff:0:0",
        "1:2:3:4:5:6:7:8", "1:2:3:4:5:6:7::", "::2:3:4:5:6:7:8", "1::8", "::1:2", "g::", "1:2:3",
        "1:2:3:4:5:6:1.2.3.4", "1::1.2.3.4", "::1.2.3.4", "fe80::1%eth0", "[::1]", "::0001",
        "::00001", "1:2:3:4:5:6:7:8::", "::1:2:3:4:5:6:7:8",
    ];
    for s in samples {
        let std = s.parse::<core::net::IpAddr>().ok().map(|a| a.to_string());
        let own = ip::parse(s).map(|a| a.to_text());
        assert_eq!(own, std, "{s}");
    }
}

// ---------------------------------------------------------------------------
// Proxy
// ---------------------------------------------------------------------------
fn rejected(network: &NetworkPolicy, line: &str) -> (u16, String) {
    match handle_request(network, line) {
        ProxyAction::Reject { code, message } => (code, message),
        other => panic!("{other:?}"),
    }
}

#[test]
fn connect_denied_for_metadata() {
    let (code, message) = rejected(
        &NetworkPolicy::Unrestricted,
        "CONNECT 169.254.169.254:80 HTTP/1.1\r\n",
    );
    let resp = http_error(code, &message);
    assert!(resp.contains("403"), "resp={resp}");
}

#[test]
fn egress_proxy_denies_metadata_allows_listed() {
    let policy = list(vec![NetworkRule::host_port("example.com", 80)]);
    let (code, message) = rejected(
        &NetworkPolicy::Unrestricted,
        "CONNECT 169.254.169.254:80 HTTP/1.1\r\n",
    );
    let resp = http_error(code, &message);
    assert!(resp.contains("403"), "{resp}");
    assert!(matches!(
        handle_request(&policy, "CONNECT example.com:80 HTTP/1.1\r\n"),
        ProxyAction::Tunnel { host, port: 80 } if host == "example.com"
    ));
}

#[test]
fn a_connect_without_a_port_means_tls() {
    match handle_request(&NetworkPolicy::Unrestricted, "connect example.com HTTP/1.1\r\n") {
        ProxyAction::Tunnel { host, port } => {
            assert_eq!((host.as_str(), port), ("example.com", 443));
        }
        other => panic!("{other:?}"),
    }
    match handle_request(&NetworkPolicy::Unrestricted, "CONNECT [2001:db8::1]:8443 HTTP/1.1\r\n") {
        ProxyAction::Tunnel { host, port } => {
            assert_eq!((host.as_str(), port), ("2001:db8::1", 8443));
        }
        other => panic!("{other:?}"),
    }
}

#[test]
fn plain_requests_are_rewritten_for_the_origin() {
    match handle_request(&NetworkPolicy::Unrestricted, "GET http://example.com/a?b=c HTTP/1.1\r\n") {
        ProxyAction::Forward { host, port, intro } => {
            assert_eq!((host.as_str(), port), ("example.com", 80));
            assert_eq!(
                intro,
                "GET /a?b=c HTTP/1.1\r\nHost: example.com\r\nConnection: close\r\n\r\n"
            );
        }
        other => panic!("{other:?}"),
    }
}

#[test]
fn requests_that_are_none_are_refused() {
    let open = NetworkPolicy::Unrestricted;
    assert_eq!(rejected(&open, "GET\r\n"), (400, "Bad Request".to_string()));
    assert_eq!(
        rejected(&open, "GET /relative HTTP/1.1\r\n"),
        (400, "Absolute URI or CONNECT required".to_string())
    );
    assert!(matches!(handle_request(&open, ""), ProxyAction::Close));
    assert_eq!(rejected(&NetworkPolicy::DenyAll, "GET http://a.com/ HTTP/1.1\r\n").0, 403);
}

#[test]
fn proxy_texts() {
    assert_eq!(proxy_url(4711), "http://127.0.0.1:4711");
    assert_eq!(EGRESS_PROXY_PORT_ENV, "KEEL_EGRESS_PROXY_PORT");
    let vars = env_vars(4711);
    assert!(vars.contains(&("HTTP_PROXY".to_string(), "http://127.0.0.1:4711".to_string())));
    assert!(vars.contains(&("https_proxy".to_string(), "http://127.0.0.1:4711".to_string())));
    assert!(vars.contains(&("KEEL_EGRESS_PROXY_PORT".to_string(), "4711".to_string())));
    assert_eq!(vars.len(), 9);
    assert!(vars.contains(&("NO_PROXY".to_string(), String::new())));
    assert_eq!(tunnel_established(), "HTTP/1.1 200 Connection Established\r\n\r\n");
    assert_eq!(
        http_error(403, "no"),
        "HTTP/1.1 403 Error\r\nContent-Type: text/plain\r\nContent-Length: 3\r\nConnection: close\r\n\r\nno\n"
    );
    assert!(http_error(403, "\u{e9}").contains("Content-Length: 3\r\n"));
    assert!(ends_headers("\r\n"));
    assert!(ends_headers("\n"));
    assert!(ends_headers(""));
    assert!(!ends_headers("Host: x\r\n"));
    match bad_gateway("refused") {
        ProxyAction::Reject { code, message } => {
            assert_eq!((code, message.as_str()), (502, "Bad Gateway: refused"));
        }
        other => panic!("{other:?}"),
    }
}

// ---------------------------------------------------------------------------
// Network filter of child processes
// ---------------------------------------------------------------------------
/// What the filter answers for a system call.
fn answer(program: &[Instruction], nr: u32) -> u32 {
    let mut at = 0;
    loop {
        let i = program[at];
        match i.code {
            LOAD_WORD => at += 1,
            JUMP_IF_EQUAL => {
                at += 1 + if nr == i.k { i.jt } else { i.jf } as usize;
            }
            RETURN => return i.k,
            other => panic!("{other}"),
        }
    }
}

#[test]
fn the_filter_refuses_what_is_blocked_and_nothing_else() {
    let program = filter_program(&[42, 49, 50]);
    for nr in 0..500 {
        let want = if [42, 49, 50].contains(&nr) { REFUSE } else { ALLOW };
        assert_eq!(answer(&program, nr), want, "{nr}");
    }
    let open = filter_program(&[]);
    assert_eq!(answer(&open, 42), ALLOW);
}

#[test]
fn the_server_filter_leaves_connections_open() {
    let all = blocked_syscalls(ChildFilter::All);
    let server = blocked_syscalls(ChildFilter::Server);
    assert!(all.contains(&NetSyscall::Connect));
    assert!(all.contains(&NetSyscall::Sendto));
    assert!(!server.contains(&NetSyscall::Connect));
    assert!(!server.contains(&NetSyscall::Sendto));
    assert!(server.contains(&NetSyscall::Bind));
    assert!(server.contains(&NetSyscall::Listen));
    assert!(server.contains(&NetSyscall::Accept4));
    assert!(server.iter().all(|s| all.contains(s)));
}

#[test]
fn a_host_may_be_written_in_several_ways() {
    let policies = [
        list(vec![NetworkRule::host("api.x.ai")]),
        list(vec![NetworkRule::host("*.github.com")]),
        NetworkPolicy::Unrestricted,
        NetworkPolicy::DenyAll,
    ];
    for p in &policies {
        for host in ["api.x.ai", "api.github.com", "evil.com", "::1", "metadata.goog", "169.254.169.254"] {
            let want = format!("{:?}", check_egress(p, host, 443));
            for other in [
                host.to_uppercase(),
                format!("{host}."),
                format!("[{host}]"),
                format!("  {host}\t"),
            ] {
                assert_eq!(format!("{:?}", check_egress(p, &other, 443)), want, "{other}");
            }
        }
    }
}
