//! Network reach of an execution space.
use vstd::prelude::*;

verus! {

/// Network reach for the execution space.
#[derive(Debug)]
pub enum NetworkPolicy {
    /// No restriction at the boundary of the space.
    Unrestricted,
    /// No outbound network for child processes.
    DenyAll,
    /// Only the listed destinations.
    Allowlist(Vec<NetworkRule>),
}

/// One destination of an allowlist.
#[derive(Debug)]
pub struct NetworkRule {
    /// Hostname, IP, `*` (any host) or `*.example.com` (subdomains).
    ///
    /// Matching ignores the case of ASCII letters. Cloud metadata hosts and
    /// link-local addresses are refused even if they are listed.
    pub host: String,
    /// `None` means any port on that host.
    pub port: Option<u16>,
}

#[verifier::ext_equal]
pub struct NetworkRuleView {
    pub host: Seq<char>,
    pub port: Option<u16>,
}

#[verifier::ext_equal]
pub enum NetworkPolicyView {
    Unrestricted,
    DenyAll,
    Allowlist(Seq<NetworkRuleView>),
}

impl View for NetworkRule {
    type V = NetworkRuleView;

    open spec fn view(&self) -> NetworkRuleView {
        NetworkRuleView { host: self.host@, port: self.port }
    }
}

impl DeepView for NetworkRule {
    type V = NetworkRuleView;

    open spec fn deep_view(&self) -> NetworkRuleView {
        self@
    }
}

impl View for NetworkPolicy {
    type V = NetworkPolicyView;

    open spec fn view(&self) -> NetworkPolicyView {
        match self {
            NetworkPolicy::Unrestricted => NetworkPolicyView::Unrestricted,
            NetworkPolicy::DenyAll => NetworkPolicyView::DenyAll,
            NetworkPolicy::Allowlist(rules) => NetworkPolicyView::Allowlist(rules.deep_view()),
        }
    }
}

impl DeepView for NetworkPolicy {
    type V = NetworkPolicyView;

    open spec fn deep_view(&self) -> NetworkPolicyView {
        self@
    }
}

impl Default for NetworkPolicy {
    fn default() -> (r: Self)
        ensures
            r@ == NetworkPolicyView::Unrestricted,
    {
        NetworkPolicy::Unrestricted
    }
}

impl NetworkRule {
    /// Any port on `host`.
    pub fn host(host: &str) -> (r: Self)
        ensures
            r@ == (NetworkRuleView { host: host@, port: None }),
    {
        NetworkRule { host: host.to_owned(), port: None }
    }

    /// One port on `host`.
    pub fn host_port(host: &str, port: u16) -> (r: Self)
        ensures
            r@ == (NetworkRuleView { host: host@, port: Some(port) }),
    {
        NetworkRule { host: host.to_owned(), port: Some(port) }
    }
}

impl Clone for NetworkRule {
    fn clone(&self) -> (r: Self)
        ensures
            r@ == self@,
    {
        NetworkRule { host: self.host.clone(), port: self.port }
    }
}

impl Clone for NetworkPolicy {
    fn clone(&self) -> (r: Self)
        ensures
            r@ == self@,
    {
        match self {
            NetworkPolicy::Unrestricted => NetworkPolicy::Unrestricted,
            NetworkPolicy::DenyAll => NetworkPolicy::DenyAll,
            NetworkPolicy::Allowlist(rules) => {
                let copy = rules.clone();
                assert(copy.deep_view() =~= rules.deep_view());
                NetworkPolicy::Allowlist(copy)
            },
        }
    }
}

} // verus!
