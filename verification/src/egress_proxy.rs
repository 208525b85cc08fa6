//! The local proxy through which an allowlist is enforced: what it answers to a
//! request.
use crate::egress;
use crate::egress::{check_egress, EgressDecision, EgressDecisionView};
use crate::net::{NetworkPolicy, NetworkPolicyView};
use crate::number;
use crate::text;
use crate::text::CharClass;
use vstd::prelude::*;
use vstd::string::*;
use vstd::utf8::*;

verus! {

/// The environment variable in which a child finds the port of the proxy.
pub const EGRESS_PROXY_PORT_ENV: &'static str = "KEEL_EGRESS_PROXY_PORT";

/// The address of a proxy at the given port.
pub open spec fn url(port: u16) -> Seq<char> {
    "http://127.0.0.1:"@ + number::decimal(port as nat)
}

pub fn proxy_url(port: u16) -> (r: String)
    ensures
        r@ == url(port),
{
    "http://127.0.0.1:".to_owned().concat(number::to_decimal(port as u64).as_str())
}

/// The variables that make tools use the proxy.
pub open spec fn variables(port: u16) -> Seq<(Seq<char>, Seq<char>)> {
    seq![
        ("HTTP_PROXY"@, url(port)),
        ("HTTPS_PROXY"@, url(port)),
        ("ALL_PROXY"@, url(port)),
        ("http_proxy"@, url(port)),
        ("https_proxy"@, url(port)),
        ("all_proxy"@, url(port)),
        ("NO_PROXY"@, Seq::empty()),
        ("no_proxy"@, Seq::empty()),
        (EGRESS_PROXY_PORT_ENV@, number::decimal(port as nat)),
    ]
}

/// The variables that make tools use the proxy at the port.
pub fn env_vars(port: u16) -> (r: Vec<(String, String)>)
    ensures
        r.deep_view() == variables(port),
{
    let u = proxy_url(port);
    let mut v: Vec<(String, String)> = Vec::new();
    v.push(("HTTP_PROXY".to_owned(), u.clone()));
    v.push(("HTTPS_PROXY".to_owned(), u.clone()));
    v.push(("ALL_PROXY".to_owned(), u.clone()));
    v.push(("http_proxy".to_owned(), u.clone()));
    v.push(("https_proxy".to_owned(), u.clone()));
    v.push(("all_proxy".to_owned(), u.clone()));
    v.push(("NO_PROXY".to_owned(), String::new()));
    v.push(("no_proxy".to_owned(), String::new()));
    v.push((EGRESS_PROXY_PORT_ENV.to_owned(), number::to_decimal(port as u64)));
    assert(v.deep_view() =~= variables(port));
    v
}

// ---------------------------------------------------------------------------
// Reading a request
// ---------------------------------------------------------------------------
/// The runs of characters between white space.
pub open spec fn words(s: Seq<char>) -> Seq<Seq<char>>
    decreases s.len(),
{
    if s.len() == 0 {
        Seq::empty()
    } else {
        let before = words(s.drop_last());
        if text::is_space(s.last()) {
            before
        } else if s.len() > 1 && !text::is_space(s[s.len() - 2]) {
            before.drop_last().push(before.last().push(s.last()))
        } else {
            before.push(seq![s.last()])
        }
    }
}

fn split_words(s: &str) -> (r: Vec<String>)
    ensures
        r.deep_view() == words(s@),
{
    let v = text::chars_of(s);
    let mut done: Vec<String> = Vec::new();
    let mut cur = String::new();
    let mut i: usize = 0;
    assert(s@.take(0) =~= Seq::<char>::empty());
    assert(done.deep_view() =~= words(s@.take(0)));
    while i < v.len()
        invariant
            v@ == s@,
            i <= v.len(),
            i > 0 && !text::is_space(s@[i - 1]) ==> cur@.len() > 0,
            i == 0 || text::is_space(s@[i - 1]) ==> cur@.len() == 0,
            words(s@.take(i as int)) == (if cur@.len() > 0 {
                done.deep_view().push(cur@)
            } else {
                done.deep_view()
            }),
        decreases v.len() - i,
    {
        let ghost t = s@.take(i + 1);
        assert(t.drop_last() =~= s@.take(i as int));
        assert(t.last() == s@[i as int]);
        if i > 0 {
            assert(t[t.len() - 2] == s@[i - 1]);
        }
        let c = v[i];
        let ghost d = done.deep_view();
        let ghost w = cur@;
        if text::white_space(c) {
            if !cur.as_str().is_empty() {
                done.push(cur);
                cur = String::new();
                assert(done.deep_view() =~= d.push(w));
            }
        } else {
            cur.push(c);
            assert(d.push(w).drop_last() =~= d);
            assert(d.push(w).last() == w);
            assert(w.len() == 0 ==> cur@ =~= seq![c]);
        }
        i += 1;
    }
    let ghost d = done.deep_view();
    let ghost w = cur@;
    if !cur.as_str().is_empty() {
        done.push(cur);
        assert(done.deep_view() =~= d.push(w));
    }
    assert(s@.take(s@.len() as int) =~= s@);
    done
}

/// The ASCII lower-case letters become upper-case.
pub open spec fn upper_char(c: char) -> char {
    if 'a' <= c && c <= 'z' {
        ((c as u8) - 32) as char
    } else {
        c
    }
}

pub open spec fn uppered(s: Seq<char>) -> Seq<char> {
    s.map_values(|c: char| upper_char(c))
}

fn upper(s: &str) -> (r: String)
    ensures
        r@ == uppered(s@),
{
    let v = text::chars_of(s);
    let mut r = String::new();
    let mut i: usize = 0;
    while i < v.len()
        invariant
            v@ == s@,
            i <= v.len(),
            r@ == uppered(s@).take(i as int),
        decreases v.len() - i,
    {
        let c = v[i];
        if 'a' <= c && c <= 'z' {
            r.push(((c as u8) - 32) as char);
        } else {
            r.push(c);
        }
        i += 1;
        assert(r@ =~= uppered(s@).take(i as int));
    }
    assert(uppered(s@).take(v.len() as int) =~= uppered(s@));
    r
}

/// Host and port of a target; what follows the last colon is the port if it is
/// the numeral of one.
pub open spec fn host_port(target: Seq<char>, default_port: u16) -> (Seq<char>, u16) {
    let c = text::last_index(target, ':');
    let port = number::u16_numeral(target.subrange(c + 1, target.len() as int));
    if c >= 0 && port is Some {
        (text::trimmed(target.subrange(0, c), CharClass::Bracket), port->0)
    } else {
        (target, default_port)
    }
}

fn parse_host_port(target: &str, default_port: u16) -> (r: (String, u16))
    ensures
        (r.0@, r.1) == host_port(target@, default_port),
{
    if let Some(c) = text::rfind_char(target, ':') {
        let n: usize = target.unicode_len();
        if let Some(port) = number::parse_u16(target.substring_char(c + 1, n)) {
            return (
                text::trim(target.substring_char(0, c), CharClass::Bracket).to_owned(),
                port,
            );
        }
    }
    (target.to_owned(), default_port)
}

/// What follows the scheme of an absolute URI, and the port of the scheme.
pub open spec fn after_scheme(uri: Seq<char>) -> Option<(Seq<char>, u16)> {
    if "https://"@.is_prefix_of(uri) {
        Some((uri.subrange("https://"@.len() as int, uri.len() as int), 443))
    } else if "http://"@.is_prefix_of(uri) {
        Some((uri.subrange("http://"@.len() as int, uri.len() as int), 80))
    } else {
        None
    }
}

/// Host and port of an absolute URI.
pub open spec fn uri_target(uri: Seq<char>) -> Option<(Seq<char>, u16)> {
    match after_scheme(uri) {
        Some((rest, port)) => Some(
            host_port(rest.subrange(0, text::first_index(rest, '/')), port),
        ),
        None => None,
    }
}

/// The path of an absolute URI, from its first slash on.
pub open spec fn uri_path(uri: Seq<char>) -> Seq<char> {
    let rest = match after_scheme(uri) {
        Some((rest, _)) => rest,
        None => uri,
    };
    let i = text::first_index(rest, '/');
    if i < rest.len() {
        rest.subrange(i, rest.len() as int)
    } else {
        "/"@
    }
}

fn split_scheme<'a>(uri: &'a str) -> (r: Option<(&'a str, u16)>)
    ensures
        match r {
            Some((rest, port)) => after_scheme(uri@) == Some((rest@, port)),
            None => after_scheme(uri@) is None,
        },
{
    if let Some(rest) = text::strip_prefix(uri, "https://") {
        Some((rest, 443))
    } else if let Some(rest) = text::strip_prefix(uri, "http://") {
        Some((rest, 80))
    } else {
        None
    }
}

fn parse_absolute_http_uri(uri: &str) -> (r: Option<(String, u16)>)
    ensures
        match r {
            Some((host, port)) => uri_target(uri@) == Some((host@, port)),
            None => uri_target(uri@) is None,
        },
{
    match split_scheme(uri) {
        Some((rest, port)) => {
            let n: usize = rest.unicode_len();
            let end: usize = match text::find_char(rest, '/') {
                Some(i) => i,
                None => n,
            };
            Some(parse_host_port(rest.substring_char(0, end), port))
        },
        None => None,
    }
}

fn absolute_uri_path(uri: &str) -> (r: String)
    ensures
        r@ == uri_path(uri@),
{
    let rest = match split_scheme(uri) {
        Some((rest, _)) => rest,
        None => uri,
    };
    let n: usize = rest.unicode_len();
    match text::find_char(rest, '/') {
        Some(i) => rest.substring_char(i, n).to_owned(),
        None => "/".to_owned(),
    }
}

/// Whether the line ends the headers of a request.
pub fn ends_headers(line: &str) -> (r: bool)
    ensures
        r == (line@ == "\r\n"@ || line@ == "\n"@ || line@.len() == 0),
{
    text::same(line, "\r\n") || text::same(line, "\n") || line.is_empty()
}

// ---------------------------------------------------------------------------
// Answering
// ---------------------------------------------------------------------------
/// What the proxy does with a request.
#[derive(Debug)]
pub enum ProxyAction {
    /// Nothing was asked.
    Close,
    /// Answer with an error.
    Reject { code: u16, message: String },
    /// Connect, say so, and pass everything on.
    Tunnel { host: String, port: u16 },
    /// Connect, send `intro`, and pass everything on.
    Forward { host: String, port: u16, intro: String },
}

#[verifier::ext_equal]
pub enum ProxyActionView {
    Close,
    Reject { code: u16, message: Seq<char> },
    Tunnel { host: Seq<char>, port: u16 },
    Forward { host: Seq<char>, port: u16, intro: Seq<char> },
}

impl View for ProxyAction {
    type V = ProxyActionView;

    open spec fn view(&self) -> ProxyActionView {
        match self {
            ProxyAction::Close => ProxyActionView::Close,
            ProxyAction::Reject { code, message } => ProxyActionView::Reject {
                code: *code,
                message: message@,
            },
            ProxyAction::Tunnel { host, port } => ProxyActionView::Tunnel {
                host: host@,
                port: *port,
            },
            ProxyAction::Forward { host, port, intro } => ProxyActionView::Forward {
                host: host@,
                port: *port,
                intro: intro@,
            },
        }
    }
}

/// The request that is sent on in place of one for an absolute URI.
pub open spec fn intro(method: Seq<char>, target: Seq<char>, host: Seq<char>) -> Seq<char> {
    method + " "@ + uri_path(target) + " HTTP/1.1\r\nHost: "@ + host
        + "\r\nConnection: close\r\n\r\n"@
}

/// What the proxy does with a request, given its first line.
pub open spec fn action(network: NetworkPolicyView, line: Seq<char>) -> ProxyActionView {
    let w = words(line);
    if line.len() == 0 {
        ProxyActionView::Close
    } else if w.len() < 2 {
        ProxyActionView::Reject { code: 400, message: "Bad Request"@ }
    } else {
        let method = uppered(w[0]);
        let connect = method == "CONNECT"@;
        let target = if connect {
            Some(host_port(w[1], 443))
        } else {
            uri_target(w[1])
        };
        match target {
            None => ProxyActionView::Reject {
                code: 400,
                message: "Absolute URI or CONNECT required"@,
            },
            Some((host, port)) => match egress::decision(network, host, port) {
                EgressDecisionView::Deny { reason } => ProxyActionView::Reject {
                    code: 403,
                    message: reason,
                },
                EgressDecisionView::Allow => if connect {
                    ProxyActionView::Tunnel { host, port }
                } else {
                    ProxyActionView::Forward { host, port, intro: intro(method, w[1], host) }
                },
            },
        }
    }
}

/// What the proxy does with a request, given its first line.
pub fn handle_request(network: &NetworkPolicy, line: &str) -> (r: ProxyAction)
    ensures
        r@ == action(network@, line@),
{
    if line.is_empty() {
        return ProxyAction::Close;
    }
    let w = split_words(line);
    let ghost wm = words(line@);
    if w.len() < 2 {
        return ProxyAction::Reject { code: 400, message: "Bad Request".to_owned() };
    }
    assert(wm[0] == w@[0]@ && wm[1] == w@[1]@);
    let method = upper(w[0].as_str());
    let connect = text::same(method.as_str(), "CONNECT");
    let target = if connect {
        Some(parse_host_port(w[1].as_str(), 443))
    } else {
        parse_absolute_http_uri(w[1].as_str())
    };
    let (host, port) = match target {
        Some(t) => t,
        None => return ProxyAction::Reject {
            code: 400,
            message: "Absolute URI or CONNECT required".to_owned(),
        },
    };
    match check_egress(network, host.as_str(), port) {
        EgressDecision::Deny { reason } => ProxyAction::Reject { code: 403, message: reason },
        EgressDecision::Allow => if connect {
            ProxyAction::Tunnel { host, port }
        } else {
            let intro = method.concat(" ").concat(
                absolute_uri_path(w[1].as_str()).as_str(),
            ).concat(" HTTP/1.1\r\nHost: ").concat(host.as_str()).concat(
                "\r\nConnection: close\r\n\r\n",
            );
            ProxyAction::Forward { host, port, intro }
        },
    }
}

/// The answer to a request that is allowed to tunnel.
pub fn tunnel_established() -> (r: String)
    ensures
        r@ == "HTTP/1.1 200 Connection Established\r\n\r\n"@,
{
    "HTTP/1.1 200 Connection Established\r\n\r\n".to_owned()
}

/// The message for a host that could not be reached.
pub fn bad_gateway(error: &str) -> (r: ProxyAction)
    ensures
        r@ == (ProxyActionView::Reject { code: 502, message: "Bad Gateway: "@ + error@ }),
{
    ProxyAction::Reject { code: 502, message: "Bad Gateway: ".to_owned().concat(error) }
}

/// An error as an HTTP response; the length is that of the body in bytes.
pub open spec fn error_response(code: u16, message: Seq<char>) -> Seq<char> {
    "HTTP/1.1 "@ + number::decimal(code as nat)
        + " Error\r\nContent-Type: text/plain\r\nContent-Length: "@ + number::decimal(
        encode_utf8(message + "\n"@).len(),
    ) + "\r\nConnection: close\r\n\r\n"@ + (message + "\n"@)
}

/// The error as an HTTP response.
pub fn http_error(code: u16, message: &str) -> (r: String)
    ensures
        r@ == error_response(code, message@),
{
    let body = message.to_owned().concat("\n");
    let n: usize = body.as_str().as_bytes().len();
    "HTTP/1.1 ".to_owned().concat(number::to_decimal(code as u64).as_str()).concat(
        " Error\r\nContent-Type: text/plain\r\nContent-Length: ",
    ).concat(number::to_decimal(n as u64).as_str()).concat("\r\nConnection: close\r\n\r\n").concat(
        body.as_str(),
    )
}

// ---------------------------------------------------------------------------
// Laws
// ---------------------------------------------------------------------------
/// The proxy connects to nothing that the policy does not permit.
pub proof fn proxy_connects_only_where_permitted(network: NetworkPolicyView, line: Seq<char>)
    ensures
        match action(network, line) {
            ProxyActionView::Tunnel { host, port } => egress::decision(
                network,
                host,
                port,
            ) is Allow,
            ProxyActionView::Forward { host, port, .. } => egress::decision(
                network,
                host,
                port,
            ) is Allow,
            _ => true,
        },
{
}

/// A well-formed request for something that the policy does not permit is
/// answered with the reason.
pub proof fn denied_requests_are_told_why(
    network: NetworkPolicyView,
    line: Seq<char>,
    reason: Seq<char>,
)
    requires
        words(line).len() >= 2,
        uppered(words(line)[0]) == "CONNECT"@,
        egress::decision(
            network,
            host_port(words(line)[1], 443).0,
            host_port(words(line)[1], 443).1,
        ) == (EgressDecisionView::Deny { reason }),
    ensures
        action(network, line) == (ProxyActionView::Reject { code: 403, message: reason }),
{
}

/// The words of a line are what stands between its white space.
pub proof fn words_stand_between_white_space(a: Seq<char>, c: char, b: Seq<char>)
    requires
        text::is_space(c),
    ensures
        words(a.push(c) + b) == words(a) + words(b),
        b.len() > 0 && (forall|i: int| 0 <= i < b.len() ==> !text::is_space(#[trigger] b[i]))
            ==> words(b) == seq![b],
        words(Seq::empty()).len() == 0,
    decreases b.len(),
{
    if b.len() == 0 {
        assert(a.push(c) + b =~= a.push(c));
        assert(a.push(c).drop_last() =~= a);
        assert(words(a.push(c)) =~= words(a) + words(b));
    } else {
        let f = b.drop_last();
        words_stand_between_white_space(a, c, f);
        let s = a.push(c) + b;
        assert(s.drop_last() =~= a.push(c) + f);
        let x = words(a);
        let y = words(f);
        assert(s.last() == b.last());
        if b.len() > 1 {
            assert(s[s.len() - 2] == b[b.len() - 2]);
            if !text::is_space(b[b.len() - 2]) {
                open_word(f);
                assert((x + y).drop_last() =~= x + y.drop_last());
                assert((x + y).last() == y.last());
            }
        } else {
            assert(s[s.len() - 2] == c);
            assert(f =~= Seq::<char>::empty());
        }
        assert(words(s) =~= x + words(b));
        if forall|i: int| 0 <= i < b.len() ==> !text::is_space(#[trigger] b[i]) {
            assert forall|i: int| 0 <= i < f.len() implies !text::is_space(#[trigger] f[i]) by {
                assert(f[i] == b[i]);
            }
            assert(!text::is_space(b[b.len() - 1]));
            if b.len() > 1 {
                assert(!text::is_space(b[b.len() - 2]));
                assert(seq![f].drop_last() =~= Seq::<Seq<char>>::empty());
                assert(f.push(b.last()) =~= b);
                assert(words(b) =~= seq![b]);
            } else {
                assert(seq![b.last()] =~= b);
                assert(words(b) =~= seq![b]);
            }
        }
    }
}

proof fn open_word(s: Seq<char>)
    requires
        s.len() > 0,
        !text::is_space(s.last()),
    ensures
        words(s).len() > 0,
{
}

/// A target names its port behind its last colon and its host in front of it, without
/// the brackets of an address; a target without a colon has the usual port.
pub proof fn targets_name_host_and_port(host: Seq<char>, port: u16, default_port: u16)
    ensures
        host_port(host.push(':') + number::decimal(port as nat), default_port) == (
            text::trimmed(host, CharClass::Bracket),
            port,
        ),
        !host.contains(':') ==> host_port(host, default_port) == (host, default_port),
{
    let d = number::decimal(port as nat);
    let t = host.push(':') + d;
    number::u16_numerals_read_back(port);
    digits_only(port as nat);
    text::last_index_is_last(t, ':');
    let c = text::last_index(t, ':');
    assert(t[host.len() as int] == ':');
    assert(c == host.len()) by {
        if c > host.len() {
            assert(t[c] == d[c - host.len() - 1]);
        }
    }
    assert(t.subrange(0, c) =~= host);
    assert(t.subrange(c + 1, t.len() as int) =~= d);
    text::last_index_is_last(host, ':');
    if !host.contains(':') {
        let k = text::last_index(host, ':');
        if k >= 0 {
            assert(host[k] == ':');
        }
    }
}

proof fn digits_only(n: nat)
    ensures
        forall|i: int|
            0 <= i < number::decimal(n).len() ==> #[trigger] number::decimal(n)[i] != ':',
    decreases n,
{
    let s = number::decimal(n);
    if n >= 10 {
        let before = number::decimal(n / 10);
        digits_only(n / 10);
        assert forall|i: int| 0 <= i < s.len() implies #[trigger] s[i] != ':' by {
            if i < before.len() {
                assert(s[i] == before[i]);
            }
        }
    }
}

/// Which requests are let through: a CONNECT request becomes a tunnel to its target,
/// any other is sent on to the host of its absolute address, if the policy permits that
/// host and port; else the reason of the policy is the answer.
pub proof fn which_requests_are_let_through(network: NetworkPolicyView, line: Seq<char>)
    requires
        words(line).len() >= 2,
    ensures
        ({
            let a = action(network, line);
            let method = uppered(words(line)[0]);
            let target = words(line)[1];
            let (h, p) = host_port(target, 443);
            let u = uri_target(target);
            let to = u->0;
            &&& method == "CONNECT"@ && egress::decision(network, h, p) is Allow ==> a == (
            ProxyActionView::Tunnel { host: h, port: p })
            &&& method == "CONNECT"@ && egress::decision(network, h, p) is Deny ==> a == (
            ProxyActionView::Reject {
                code: 403,
                message: egress::decision(network, h, p)->reason,
            })
            &&& method != "CONNECT"@ && u is None ==> a == (ProxyActionView::Reject {
                code: 400,
                message: "Absolute URI or CONNECT required"@,
            })
            &&& method != "CONNECT"@ && u is Some && egress::decision(network, to.0, to.1) is Allow
                ==> a == (ProxyActionView::Forward {
                host: to.0,
                port: to.1,
                intro: method + " "@ + uri_path(target) + " HTTP/1.1\r\nHost: "@ + to.0
                    + "\r\nConnection: close\r\n\r\n"@,
            })
            &&& method != "CONNECT"@ && u is Some && egress::decision(network, to.0, to.1) is Deny
                ==> a == (ProxyActionView::Reject {
                code: 403,
                message: egress::decision(network, to.0, to.1)->reason,
            })
        }),
{
    if line.len() == 0 {
        assert(words(line).len() == 0);
    }
}

/// A line without two words is no request, and an empty one ends the connection.
pub proof fn which_lines_are_no_requests(network: NetworkPolicyView, line: Seq<char>)
    ensures
        action(network, line) is Close <==> line.len() == 0,
        line.len() > 0 && words(line).len() < 2 ==> action(network, line) == (
        ProxyActionView::Reject { code: 400, message: "Bad Request"@ }),
{
}

/// An address on the web names its host, with the usual port of its scheme, and the
/// path on it.
pub proof fn web_addresses_name_host_and_path(host: Seq<char>, rest: Seq<char>)
    requires
        !host.contains('/'),
        !host.contains(':'),
    ensures
        uri_target("http://"@ + host) == Some((host, 80u16)),
        uri_target("https://"@ + host) == Some((host, 443u16)),
        uri_target("http://"@ + host + seq!['/'] + rest) == Some((host, 80u16)),
        uri_target("https://"@ + host + seq!['/'] + rest) == Some((host, 443u16)),
        uri_path("http://"@ + host) == seq!['/'],
        uri_path("http://"@ + host + seq!['/'] + rest) == seq!['/'] + rest,
        uri_path("https://"@ + host + seq!['/'] + rest) == seq!['/'] + rest,
        forall|s: Seq<char>|
            !"http://"@.is_prefix_of(s) && !"https://"@.is_prefix_of(s) ==> #[trigger] uri_target(
                s,
            ) is None,
{
    reveal_strlit("http://");
    reveal_strlit("https://");
    reveal_strlit("/");
    assert("/"@ =~= seq!['/']);
    targets_name_host_and_port(host, 0, 80);
    targets_name_host_and_port(host, 0, 443);
    let h = "http://"@;
    let hs = "https://"@;
    let tail = seq!['/'] + rest;
    assert((h + host).subrange(7, (h + host).len() as int) =~= host);
    assert((hs + host).subrange(8, (hs + host).len() as int) =~= host);
    let a = h + host + seq!['/'] + rest;
    let b = hs + host + seq!['/'] + rest;
    assert(a.subrange(7, a.len() as int) =~= host + tail);
    assert(b.subrange(8, b.len() as int) =~= host + tail);
    assert((h + host)[4] == ':' && a[4] == ':');
    assert(hs[4] == 's');
    assert(h.is_prefix_of(h + host)) by {
        assert((h + host).subrange(0, 7) =~= h);
    }
    assert(h.is_prefix_of(a)) by {
        assert(a.subrange(0, 7) =~= h);
    }
    assert(hs.is_prefix_of(hs + host)) by {
        assert((hs + host).subrange(0, 8) =~= hs);
    }
    assert(hs.is_prefix_of(b)) by {
        assert(b.subrange(0, 8) =~= hs);
    }
    assert(!hs.is_prefix_of(h + host)) by {
        if hs.is_prefix_of(h + host) {
            assert((h + host).subrange(0, 8)[4] == hs[4]);
        }
    }
    assert(!hs.is_prefix_of(a)) by {
        if hs.is_prefix_of(a) {
            assert(a.subrange(0, 8)[4] == hs[4]);
        }
    }
    text::first_index_is_first(host, '/');
    text::first_index_is_first(host + tail, '/');
    let k = text::first_index(host, '/');
    assert(k == host.len()) by {
        if k < host.len() {
            assert(host[k] == '/');
        }
    }
    let j = text::first_index(host + tail, '/');
    assert((host + tail)[host.len() as int] == '/');
    assert(j == host.len()) by {
        if j < host.len() {
            assert((host + tail)[j] == host[j]);
        }
    }
    assert(host.subrange(0, k) =~= host);
    assert((host + tail).subrange(0, j) =~= host);
    assert((host + tail).subrange(j, (host + tail).len() as int) =~= tail);
}

/// What tools are told of the proxy: its address, under every name by which they look
/// for one, that no host goes past it, and its port.
pub proof fn what_tools_are_told(port: u16, name: Seq<char>, value: Seq<char>)
    ensures
        variables(port).contains((name, value)) <==> {
            ||| (name == "HTTP_PROXY"@ || name == "HTTPS_PROXY"@ || name == "ALL_PROXY"@ || name
                == "http_proxy"@ || name == "https_proxy"@ || name == "all_proxy"@) && value
                == "http://127.0.0.1:"@ + number::decimal(port as nat)
            ||| (name == "NO_PROXY"@ || name == "no_proxy"@) && value == Seq::<char>::empty()
            ||| name == "KEEL_EGRESS_PROXY_PORT"@ && value == number::decimal(port as nat)
        },
{
    let v = variables(port);
    assert(v[0].0 == "HTTP_PROXY"@ && v[1].0 == "HTTPS_PROXY"@ && v[2].0 == "ALL_PROXY"@);
    assert(v[3].0 == "http_proxy"@ && v[4].0 == "https_proxy"@ && v[5].0 == "all_proxy"@);
    assert(v[6].0 == "NO_PROXY"@ && v[7].0 == "no_proxy"@);
    assert(v[8].0 == EGRESS_PROXY_PORT_ENV@);
    if v.contains((name, value)) {
        let i = choose|i: int| 0 <= i < v.len() && v[i] == (name, value);
        assert(i == 0 || i == 1 || i == 2 || i == 3 || i == 4 || i == 5 || i == 6 || i == 7 || i
            == 8);
    }
    if value == Seq::<char>::empty() && name == "NO_PROXY"@ {
        assert(v[6] == (name, value));
    }
}

/// Methods are compared without regard to case: small ASCII letters count as capital
/// ones.
pub proof fn methods_are_without_case(s: Seq<char>, i: int)
    requires
        0 <= i < s.len(),
    ensures
        uppered(s).len() == s.len(),
        'a' <= s[i] && s[i] <= 'z' ==> uppered(s)[i] as u32 + 32 == s[i] as u32,
        !('a' <= s[i] && s[i] <= 'z') ==> uppered(s)[i] == s[i],
{
}

/// How a refusal is written: with its code, the length of its text in bytes, and the
/// text as one line.
pub proof fn how_refusals_are_written(code: u16, message: Seq<char>)
    ensures
        error_response(code, message) == "HTTP/1.1 "@ + number::decimal(code as nat)
            + " Error\r\nContent-Type: text/plain\r\nContent-Length: "@ + number::decimal(
            encode_utf8(message.push('\n')).len(),
        ) + "\r\nConnection: close\r\n\r\n"@ + message.push('\n'),
{
    reveal_strlit("\n");
    assert(message + "\n"@ =~= message.push('\n'));
}

} // verus!
