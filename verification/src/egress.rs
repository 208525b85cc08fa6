//! Whether a connection to a host and port is permitted.
//!
//! Cloud metadata endpoints and link-local addresses are refused under every
//! policy.
use crate::ip;
use crate::net::{NetworkPolicy, NetworkPolicyView, NetworkRule, NetworkRuleView};
use crate::number;
use crate::text;
use crate::text::CharClass;
use vstd::prelude::*;
use vstd::string::*;

verus! {

/// The answer to a request to connect.
#[derive(Debug)]
pub enum EgressDecision {
    Allow,
    Deny { reason: String },
}

#[verifier::ext_equal]
pub enum EgressDecisionView {
    Allow,
    Deny { reason: Seq<char> },
}

impl View for EgressDecision {
    type V = EgressDecisionView;

    open spec fn view(&self) -> EgressDecisionView {
        match self {
            EgressDecision::Allow => EgressDecisionView::Allow,
            EgressDecision::Deny { reason } => EgressDecisionView::Deny { reason: reason@ },
        }
    }
}

impl EgressDecision {
    pub fn is_allowed(&self) -> (r: bool)
        ensures
            r == (self@ is Allow),
    {
        matches!(self, EgressDecision::Allow)
    }

    fn deny(reason: &str) -> (r: Self)
        ensures
            r@ == (EgressDecisionView::Deny { reason: reason@ }),
    {
        EgressDecision::Deny { reason: reason.to_owned() }
    }
}

/// A host name or pattern in the form in which names are compared: without
/// surrounding white space, brackets and trailing dots, in lower case.
pub open spec fn normal_host(host: Seq<char>) -> Seq<char> {
    text::lowered(
        text::trimmed_end(
            text::trimmed(text::trimmed(host, CharClass::Space), CharClass::Bracket),
            CharClass::Dot,
        ),
    )
}

/// The names of cloud metadata endpoints.
pub open spec fn metadata_host(host: Seq<char>) -> bool {
    host == "metadata.google.internal"@ || host == "metadata.goog"@ || host == "metadata"@
}

/// The host pattern matches `host`, which is in normal form.
pub open spec fn pattern_matches(pattern: Seq<char>, host: Seq<char>) -> bool {
    let p = normal_host(pattern);
    if p == "*"@ {
        true
    } else if "*."@.is_prefix_of(p) {
        let domain = p.subrange(2, p.len() as int);
        host != domain && ("."@ + domain).is_suffix_of(host)
    } else {
        host == p
    }
}

/// The rule covers a connection to `host`, which is in normal form, at `port`.
pub open spec fn rule_covers(rule: NetworkRuleView, host: Seq<char>, port: u16) -> bool {
    (rule.port is None || rule.port == Some(port)) && pattern_matches(rule.host, host)
}

/// Some rule covers the connection.
pub open spec fn listed(rules: Seq<NetworkRuleView>, host: Seq<char>, port: u16) -> bool {
    exists|i: int| 0 <= i < rules.len() && rule_covers(#[trigger] rules[i], host, port)
}

/// The host in normal form that no policy can permit, with the reason.
pub open spec fn hard_denial(host: Seq<char>) -> Option<Seq<char>> {
    if host.len() == 0 {
        Some("empty host"@)
    } else if metadata_host(host) {
        Some("host "@ + host + " is a cloud metadata endpoint"@)
    } else {
        match ip::address(host) {
            Some(a) => if ip::link_local(a) {
                Some(
                    "IP "@ + ip::address_text(a)
                        + " is link-local (metadata / rebinding protection)"@,
                )
            } else {
                None
            },
            None => None,
        }
    }
}

/// The answer to a request to connect to `host` at `port`.
pub open spec fn decision(network: NetworkPolicyView, host: Seq<char>, port: u16)
    -> EgressDecisionView {
    let h = normal_host(host);
    match hard_denial(h) {
        Some(reason) => EgressDecisionView::Deny { reason },
        None => match network {
            NetworkPolicyView::Unrestricted => EgressDecisionView::Allow,
            NetworkPolicyView::DenyAll => EgressDecisionView::Deny {
                reason: "network policy is deny-all"@,
            },
            NetworkPolicyView::Allowlist(rules) => if rules.len() == 0 {
                EgressDecisionView::Deny { reason: "empty allowlist"@ }
            } else if listed(rules, h, port) {
                EgressDecisionView::Allow
            } else {
                EgressDecisionView::Deny {
                    reason: "host "@ + h + ":"@ + number::decimal(port as nat)
                        + " is not in the egress allowlist"@,
                }
            },
        },
    }
}

fn normalize_host(host: &str) -> (r: String)
    ensures
        r@ == normal_host(host@),
{
    let h = text::trim(text::trim(host, CharClass::Space), CharClass::Bracket);
    text::lower(text::trim_end(h, CharClass::Dot))
}

/// A host pattern whose normal form is its own normal form. One that is not, such
/// as `x.ai].`, takes two rounds of trimming to settle.
pub open spec fn settled(pattern: Seq<char>) -> bool {
    normal_host(normal_host(pattern)) == normal_host(pattern)
}

/// Whether the normal form of the pattern is its own normal form.
pub fn is_settled(pattern: &str) -> (r: bool)
    ensures
        r == settled(pattern@),
{
    let once = normalize_host(pattern);
    let twice = normalize_host(once.as_str());
    text::same(twice.as_str(), once.as_str())
}

fn is_denied_metadata_host(host: &str) -> (r: bool)
    ensures
        r == metadata_host(host@),
{
    text::same(host, "metadata.google.internal") || text::same(host, "metadata.goog") || text::same(
        host,
        "metadata",
    )
}

/// Whether the pattern matches `host`, which is in normal form.
///
/// `*` matches any host, `*.example.com` the names below `example.com`, and any
/// other pattern itself.
pub fn host_matches(pattern: &str, host: &str) -> (r: bool)
    ensures
        r == pattern_matches(pattern@, host@),
{
    let pattern = normalize_host(pattern);
    if text::same(pattern.as_str(), "*") {
        return true;
    }
    proof {
        reveal_strlit("*.");
    }
    match text::strip_prefix(pattern.as_str(), "*.") {
        Some(domain) => {
            if text::same(host, domain) {
                return false;
            }
            let dotted = ".".to_owned().concat(domain);
            text::ends_with(host, dotted.as_str())
        },
        None => text::same(host, pattern.as_str()),
    }
}

fn rule_matches(rule: &NetworkRule, host: &str, port: u16) -> (r: bool)
    ensures
        r == rule_covers(rule@, host@, port),
{
    if let Some(rp) = rule.port {
        if rp != port {
            return false;
        }
    }
    host_matches(rule.host.as_str(), host)
}

fn any_rule_matches(rules: &Vec<NetworkRule>, host: &str, port: u16) -> (r: bool)
    ensures
        r == listed(rules.deep_view(), host@, port),
{
    let ghost m = rules.deep_view();
    let mut i: usize = 0;
    while i < rules.len()
        invariant
            m == rules.deep_view(),
            i <= rules.len(),
            forall|k: int| 0 <= k < i ==> !rule_covers(#[trigger] m[k], host@, port),
        decreases rules.len() - i,
    {
        assert(m[i as int] == rules@[i as int]@);
        if rule_matches(&rules[i], host, port) {
            return true;
        }
        i += 1;
    }
    false
}

/// Whether a connection to `host` at `port` is permitted.
///
/// `host` is a name or an IP address. A rule without a port covers every port
/// of its hosts.
pub fn check_egress(policy: &NetworkPolicy, host: &str, port: u16) -> (r: EgressDecision)
    ensures
        r@ == decision(policy@, host@, port),
{
    let host = normalize_host(host);
    let host = host.as_str();
    if host.is_empty() {
        return EgressDecision::deny("empty host");
    }
    if is_denied_metadata_host(host) {
        let reason = "host ".to_owned().concat(host).concat(" is a cloud metadata endpoint");
        return EgressDecision::Deny { reason };
    }
    if let Some(a) = ip::parse(host) {
        if a.is_link_local() {
            let reason = "IP ".to_owned().concat(a.to_text().as_str()).concat(
                " is link-local (metadata / rebinding protection)",
            );
            return EgressDecision::Deny { reason };
        }
    }
    match policy {
        NetworkPolicy::Unrestricted => EgressDecision::Allow,
        NetworkPolicy::DenyAll => EgressDecision::deny("network policy is deny-all"),
        NetworkPolicy::Allowlist(rules) => {
            if rules.len() == 0 {
                return EgressDecision::deny("empty allowlist");
            }
            if any_rule_matches(rules, host, port) {
                EgressDecision::Allow
            } else {
                let reason = "host ".to_owned().concat(host).concat(":").concat(
                    number::to_decimal(port as u64).as_str(),
                ).concat(" is not in the egress allowlist");
                EgressDecision::Deny { reason }
            }
        },
    }
}

/// `ports` goes strictly upwards.
pub open spec fn increasing(ports: Seq<u16>) -> bool {
    forall|i: int, j: int| 0 <= i < j < ports.len() ==> ports[i] < ports[j]
}

/// The ports that the rules name, each once, in increasing order.
pub fn allowlist_ports(rules: &Vec<NetworkRule>) -> (r: Vec<u16>)
    ensures
        increasing(r@),
        forall|p: u16|
            r@.contains(p) <==> exists|i: int|
                0 <= i < rules@.len() && (#[trigger] rules@[i]).port == Some(p),
{
    let mut r: Vec<u16> = Vec::new();
    let mut i: usize = 0;
    while i < rules.len()
        invariant
            i <= rules.len(),
            increasing(r@),
            forall|p: u16|
                r@.contains(p) <==> exists|k: int|
                    0 <= k < i && (#[trigger] rules@[k]).port == Some(p),
        decreases rules.len() - i,
    {
        let ghost before = r@;
        if let Some(p) = rules[i].port {
            insert_port(&mut r, p);
        }
        i += 1;
        proof {
            assert forall|p: u16|
                r@.contains(p) <==> exists|k: int|
                    0 <= k < i && (#[trigger] rules@[k]).port == Some(p) by {
                if r@.contains(p) {
                    if before.contains(p) {
                        let k = choose|k: int| 0 <= k < i - 1 && (#[trigger] rules@[k]).port == Some(p);
                        assert(rules@[k].port == Some(p));
                    } else {
                        assert(rules@[i - 1].port == Some(p));
                    }
                }
                if exists|k: int| 0 <= k < i && (#[trigger] rules@[k]).port == Some(p) {
                    let k = choose|k: int| 0 <= k < i && (#[trigger] rules@[k]).port == Some(p);
                    if k < i - 1 {
                        assert(before.contains(p));
                    }
                }
            }
        }
    }
    r
}

/// Adds `p` to an increasing list that may hold it already.
fn insert_port(ports: &mut Vec<u16>, p: u16)
    requires
        increasing(old(ports)@),
    ensures
        increasing(final(ports)@),
        forall|q: u16| final(ports)@.contains(q) <==> old(ports)@.contains(q) || q == p,
{
    let ghost before = ports@;
    let mut i: usize = 0;
    while i < ports.len() && ports[i] < p
        invariant
            ports@ == before,
            i <= ports.len(),
            forall|k: int| 0 <= k < i ==> before[k] < p,
        ensures
            ports@ == before,
            i <= ports.len(),
            forall|k: int| 0 <= k < i ==> before[k] < p,
            i < ports.len() ==> before[i as int] >= p,
        decreases ports.len() - i,
    {
        i += 1;
    }
    if i < ports.len() && ports[i] == p {
        return;
    }
    ports.insert(i, p);
    proof {
        assert(ports@ =~= before.insert(i as int, p));
        assert(ports@[i as int] == p);
        assert forall|q: u16| ports@.contains(q) <==> before.contains(q) || q == p by {
            if before.contains(q) {
                let k = choose|k: int| 0 <= k < before.len() && before[k] == q;
                if k < i {
                    assert(ports@[k] == q);
                } else {
                    assert(ports@[k + 1] == q);
                }
            }
            if ports@.contains(q) {
                let k = choose|k: int| 0 <= k < ports@.len() && ports@[k] == q;
                if k < i {
                    assert(before[k] == q);
                } else if k > i {
                    assert(before[k - 1] == q);
                }
            }
        }
    }
}

// ---------------------------------------------------------------------------
// Laws
// ---------------------------------------------------------------------------
/// Metadata endpoints and link-local addresses are refused under every policy.
pub proof fn metadata_always_denied(network: NetworkPolicyView, host: Seq<char>, port: u16)
    requires
        hard_denial(normal_host(host)) is Some,
    ensures
        decision(network, host, port) is Deny,
{
}

/// What one policy permits, the unrestricted policy permits too.
pub proof fn unrestricted_is_widest(network: NetworkPolicyView, host: Seq<char>, port: u16)
    requires
        decision(network, host, port) is Allow,
    ensures
        decision(NetworkPolicyView::Unrestricted, host, port) is Allow,
{
}

/// The deny-all policy permits nothing.
pub proof fn deny_all_denies(host: Seq<char>, port: u16)
    ensures
        decision(NetworkPolicyView::DenyAll, host, port) is Deny,
{
}

/// The answer does not depend on the case of the host.
pub proof fn case_does_not_matter(
    network: NetworkPolicyView,
    a: Seq<char>,
    b: Seq<char>,
    port: u16,
)
    requires
        text::lowered(a) == text::lowered(b),
    ensures
        decision(network, a, port) == decision(network, b, port),
{
    let x = text::trimmed(a, CharClass::Space);
    let y = text::trimmed(b, CharClass::Space);
    text::trimmed_case(a, b, CharClass::Space);
    text::trimmed_case(x, y, CharClass::Bracket);
    text::trimmed_end_case(
        text::trimmed(x, CharClass::Bracket),
        text::trimmed(y, CharClass::Bracket),
        CharClass::Dot,
    );
}

/// The answer does not depend on white space around the host.
pub proof fn white_space_does_not_matter(
    network: NetworkPolicyView,
    before: Seq<char>,
    host: Seq<char>,
    after: Seq<char>,
    port: u16,
)
    requires
        text::all_of(before, CharClass::Space),
        text::all_of(after, CharClass::Space),
    ensures
        decision(network, before + host + after, port) == decision(network, host, port),
{
    text::trimmed_around(before, host, after, CharClass::Space);
}

/// The answer does not depend on brackets around a host that is not between white
/// space.
pub proof fn brackets_do_not_matter(network: NetworkPolicyView, host: Seq<char>, port: u16)
    requires
        text::trimmed(host, CharClass::Space) == host,
    ensures
        decision(network, seq!['['] + host + seq![']'], port) == decision(network, host, port),
{
    let all = seq!['['] + host + seq![']'];
    assert(all[0] == '[' && all.last() == ']');
    assert(text::trimmed_start(all, CharClass::Space) == all);
    assert(text::trimmed(all, CharClass::Space) == all);
    text::trimmed_around(seq!['['], host, seq![']'], CharClass::Bracket);
}

/// The answer does not depend on a final dot behind a host that ends in neither
/// white space nor a bracket.
pub proof fn a_final_dot_does_not_matter(network: NetworkPolicyView, host: Seq<char>, port: u16)
    requires
        host.len() > 0 ==> !CharClass::Space.has(host.last()) && !CharClass::Bracket.has(
            host.last(),
        ),
    ensures
        decision(network, host.push('.'), port) == decision(network, host, port),
{
    text::trimmed_behind(host, '.', CharClass::Space);
    let a = text::trimmed(host, CharClass::Space);
    text::trimmed_behind(a, '.', CharClass::Bracket);
    let b = text::trimmed(a, CharClass::Bracket);
    assert(b.push('.').drop_last() =~= b);
}

/// Under an allowlist a connection is permitted if and only if the host is not
/// refused under every policy and some rule names it: a rule for this port or for
/// any port, whose host is `*`, the host itself, or `*.` and a domain that the
/// host lies below.
pub proof fn an_allowlist_permits_what_its_rules_name(
    rules: Seq<NetworkRuleView>,
    host: Seq<char>,
    port: u16,
)
    ensures
        ({
            let h = normal_host(host);
            decision(NetworkPolicyView::Allowlist(rules), host, port) is Allow <==> decision(
                NetworkPolicyView::Unrestricted,
                host,
                port,
            ) is Allow && exists|i: int|
                0 <= i < rules.len() && ({
                    let p = normal_host((#[trigger] rules[i]).host);
                    &&& rules[i].port is None || rules[i].port == Some(port)
                    &&& p == seq!['*'] || p == h || (p.len() >= 2 && p[0] == '*' && p[1] == '.'
                        && h.len() >= p.len() - 1 && h.subrange(
                        h.len() - (p.len() - 1),
                        h.len() as int,
                    ) == p.subrange(1, p.len() as int))
                })
        }),
{
    let h = normal_host(host);
    assert forall|i: int| 0 <= i < rules.len() implies rule_covers(
        #[trigger] rules[i],
        h,
        port,
    ) == ({
        let p = normal_host(rules[i].host);
        &&& rules[i].port is None || rules[i].port == Some(port)
        &&& p == seq!['*'] || p == h || (p.len() >= 2 && p[0] == '*' && p[1] == '.' && h.len()
            >= p.len() - 1 && h.subrange(h.len() - (p.len() - 1), h.len() as int) == p.subrange(
            1,
            p.len() as int,
        ))
    }) by {
        pattern_by_characters(rules[i].host, h);
    }
    if decision(NetworkPolicyView::Allowlist(rules), host, port) is Allow {
        let i = choose|i: int| 0 <= i < rules.len() && rule_covers(#[trigger] rules[i], h, port);
        assert(rule_covers(rules[i], h, port));
    }
}

/// What a host pattern matches, character by character.
pub proof fn pattern_by_characters(pattern: Seq<char>, h: Seq<char>)
    ensures
        ({
            let p = normal_host(pattern);
            pattern_matches(pattern, h) <==> p == seq!['*'] || p == h || (p.len() >= 2 && p[0]
                == '*' && p[1] == '.' && h.len() >= p.len() - 1 && h.subrange(
                h.len() - (p.len() - 1),
                h.len() as int,
            ) == p.subrange(1, p.len() as int))
        }),
{
    reveal_strlit("*");
    reveal_strlit("*.");
    reveal_strlit(".");
    let p = normal_host(pattern);
    assert("*"@ =~= seq!['*']);
    if p.len() >= 2 && p[0] == '*' && p[1] == '.' {
        assert(p.subrange(0, 2) =~= "*."@);
        assert("*."@.is_prefix_of(p));
        let domain = p.subrange(2, p.len() as int);
        assert("."@ + domain =~= p.subrange(1, p.len() as int));
        if p == h {
            assert(h.subrange(1, h.len() as int) =~= "."@ + domain);
            assert(("."@ + domain).is_suffix_of(h));
        }
    } else if "*."@.is_prefix_of(p) {
        assert(p.subrange(0, 2)[0] == p[0]);
        assert(p.subrange(0, 2)[1] == p[1]);
    }
}

/// Whatever the network policy, a connection is refused if and only if the host is
/// empty, one of the names of a metadata service, or a link-local address:
/// 169.254.0.0/16, fe80::/10, or the former carried in an IPv6 address. Nothing else
/// is refused where the network is unrestricted.
pub proof fn nothing_else_is_refused_everywhere(host: Seq<char>, port: u16)
    ensures
        ({
            let h = normal_host(host);
            decision(NetworkPolicyView::Unrestricted, host, port) is Deny <==> h.len() == 0 || h
                == "metadata.google.internal"@ || h == "metadata.goog"@ || h == "metadata"@ || (
            match ip::address(h) {
                Some(ip::IpAddressView::V4(o)) => o[0] == 169 && o[1] == 254,
                Some(ip::IpAddressView::V6(g)) => (0xfe80 <= g[0] && g[0] < 0xfec0) || (g[0] == 0
                    && g[1] == 0 && g[2] == 0 && g[3] == 0 && g[4] == 0 && g[5] == 0xffff && g[6]
                    == 0xa9fe),
                None => false,
            })
        }),
{
    let h = normal_host(host);
    match ip::address(h) {
        Some(ip::IpAddressView::V6(g)) => {
            ip::addresses_are_whole(h);
            assert(ip::pair(169, 254) == 0xa9fe);
            assert(g.take(5) =~= ip::zeros(5) <==> g[0] == 0 && g[1] == 0 && g[2] == 0 && g[3] == 0
                && g[4] == 0) by {
                let t = g.take(5);
                assert(t[0] == g[0] && t[1] == g[1] && t[2] == g[2] && t[3] == g[3] && t[4] == g[4]);
                if t == ip::zeros(5) {
                    assert(ip::zeros(5)[0] == 0 && ip::zeros(5)[1] == 0 && ip::zeros(5)[2] == 0
                        && ip::zeros(5)[3] == 0 && ip::zeros(5)[4] == 0);
                }
            }
        },
        _ => {},
    }
}

/// What is refused everywhere is refused under every policy, and under a policy
/// without network everything is.
pub proof fn no_policy_permits_more_than_none(
    network: NetworkPolicyView,
    host: Seq<char>,
    port: u16,
)
    ensures
        decision(NetworkPolicyView::Unrestricted, host, port) is Deny ==> decision(
            network,
            host,
            port,
        ) == decision(NetworkPolicyView::Unrestricted, host, port),
        network is DenyAll ==> decision(network, host, port) is Deny,
        network == NetworkPolicyView::Allowlist(Seq::empty()) ==> decision(network, host, port)
            is Deny,
{
}

/// A host in lower case, with no space or bracket around it and no dot behind it,
/// is compared as it stands.
pub proof fn a_plain_host_is_compared_as_it_stands(host: Seq<char>)
    requires
        forall|i: int| 0 <= i < host.len() ==> !('A' <= #[trigger] host[i] && host[i] <= 'Z'),
        host.len() > 0 ==> !text::is_space(host[0]) && !text::is_space(host.last()) && host[0]
            != '[' && host[0] != ']' && host.last() != '[' && host.last() != ']' && host.last()
            != '.',
    ensures
        normal_host(host) == host,
{
    if host.len() > 0 {
        assert(text::trimmed(host, CharClass::Space) == host);
        assert(text::trimmed(host, CharClass::Bracket) == host);
        assert(text::trimmed_end(host, CharClass::Dot) == host);
    }
    assert(text::lowered(host) =~= host);
}

/// Why a connection is denied: what is said of a host that no policy permits, and of one
/// that this policy does not.
pub proof fn why_connections_are_denied(network: NetworkPolicyView, host: Seq<char>, port: u16)
    requires
        decision(network, host, port) is Deny,
    ensures
        ({
            let h = normal_host(host);
            let why = decision(network, host, port)->reason;
            let anywhere = decision(NetworkPolicyView::Unrestricted, host, port) is Deny;
            let known = h == "metadata.google.internal"@ || h == "metadata.goog"@ || h
                == "metadata"@;
            &&& anywhere && h.len() == 0 ==> why == "empty host"@
            &&& anywhere && h.len() > 0 && known ==> why == "host "@ + h
                + " is a cloud metadata endpoint"@
            &&& anywhere && h.len() > 0 && !known ==> ip::address(h) is Some && why == "IP "@
                + ip::address_text(ip::address(h)->0)
                + " is link-local (metadata / rebinding protection)"@
            &&& !anywhere && network is DenyAll ==> why == "network policy is deny-all"@
            &&& !anywhere && network is Allowlist && network->0.len() == 0 ==> why
                == "empty allowlist"@
            &&& !anywhere && network is Allowlist && network->0.len() > 0 ==> why == "host "@ + h
                + ":"@ + number::decimal(port as nat) + " is not in the egress allowlist"@
        }),
{
    nothing_else_is_refused_everywhere(host, port);
}

} // verus!
