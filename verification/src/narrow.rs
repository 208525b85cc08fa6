//! Narrowing a policy for a subtask: a child policy may only reduce reach.
use crate::credentials;
use crate::credentials::{
    source_lookup, CredentialSourceKindView, SourceLookup, SourceLookupView,
};
use crate::egress;
use crate::error::{PolicyError, PolicyErrorView, PolicyResult};
use crate::ids::{PolicyId, TaskId};
use crate::native;
use crate::native::Style;
use crate::net::{NetworkPolicy, NetworkPolicyView, NetworkRule, NetworkRuleView};
use crate::number;
use crate::path;
use crate::paths::{FsAccess, FsRule, FsRuleView};
use crate::policy;
use crate::policy::{CredentialGrant, CredentialGrantView, Policy, PolicyView};
use crate::process_guard;
use crate::text;
use crate::text::CharClass;
use crate::time::{Span, Timestamp};
use vstd::prelude::*;
use vstd::string::*;

verus! {

/// What a subtask asks for. Every field but the task is an optional tightening;
/// whatever would widen the reach of the parent policy is refused.
#[derive(Debug)]
pub struct TaskSpec {
    pub task_id: TaskId,
    pub label: Option<String>,
    /// Another network reach, within that of the parent.
    pub network: Option<NetworkPolicy>,
    /// More denied paths.
    pub extra_deny: Vec<String>,
    /// The credentials to keep, by name; `None` keeps all of them.
    pub credential_names: Option<Vec<String>>,
    /// A lifetime from now on.
    pub ttl: Option<Span>,
    /// Another workspace root, at or below that of the parent.
    pub workspace: Option<String>,
}

#[verifier::ext_equal]
pub struct TaskSpecView {
    pub task_id: Seq<char>,
    pub label: Option<Seq<char>>,
    pub network: Option<NetworkPolicyView>,
    pub extra_deny: Seq<Seq<char>>,
    pub credential_names: Option<Seq<Seq<char>>>,
    pub ttl: Option<Span>,
    pub workspace: Option<Seq<char>>,
}

impl View for TaskSpec {
    type V = TaskSpecView;

    open spec fn view(&self) -> TaskSpecView {
        TaskSpecView {
            task_id: self.task_id@,
            label: self.label.deep_view(),
            network: self.network.deep_view(),
            extra_deny: self.extra_deny.deep_view(),
            credential_names: self.credential_names.deep_view(),
            ttl: self.ttl,
            workspace: self.workspace.deep_view(),
        }
    }
}

impl TaskSpec {
    /// A subtask that keeps the reach of its parent.
    pub fn new(task_id: TaskId) -> (r: Self)
        ensures
            r@ == (TaskSpecView {
                task_id: task_id@,
                label: None,
                network: None,
                extra_deny: Seq::empty(),
                credential_names: None,
                ttl: None,
                workspace: None,
            }),
    {
        let r = TaskSpec {
            task_id,
            label: None,
            network: None,
            extra_deny: Vec::new(),
            credential_names: None,
            ttl: None,
            workspace: None,
        };
        assert(r@.extra_deny =~= Seq::empty());
        r
    }
}

/// The rule `p` covers every connection that the rule `c` permits: it has the same
/// host pattern, or a settled one that matches the pattern of `c`.
pub open spec fn covers(p: NetworkRuleView, c: NetworkRuleView) -> bool {
    &&& (egress::settled(p.host) && egress::pattern_matches(p.host, c.host)) || p.host == c.host
    &&& p.port is None || p.port == c.port
}

/// Some rule of the parent covers `c`.
pub open spec fn covered(rules: Seq<NetworkRuleView>, c: NetworkRuleView) -> bool {
    exists|i: int| 0 <= i < rules.len() && covers(#[trigger] rules[i], c)
}

/// The first rule of the child that no rule of the parent covers.
pub open spec fn first_uncovered(
    rules: Seq<NetworkRuleView>,
    child: Seq<NetworkRuleView>,
) -> Option<NetworkRuleView>
    decreases child.len(),
{
    if child.len() == 0 {
        None
    } else if first_uncovered(rules, child.drop_last()) is Some {
        first_uncovered(rules, child.drop_last())
    } else if covered(rules, child.last()) {
        None
    } else {
        Some(child.last())
    }
}

/// A port as it is shown in messages; `*` for any port.
pub open spec fn port_text(port: Option<u16>) -> Seq<char> {
    match port {
        Some(p) => number::decimal(p as nat),
        None => "*"@,
    }
}

/// Why the network reach `child` is refused under `parent`.
pub open spec fn network_refusal(parent: NetworkPolicyView, child: NetworkPolicyView) -> Option<
    Seq<char>,
> {
    match (parent, child) {
        (NetworkPolicyView::Unrestricted, _) => None,
        (_, NetworkPolicyView::DenyAll) => None,
        (NetworkPolicyView::DenyAll, _) => Some(
            "child cannot expand network beyond parent DenyAll"@,
        ),
        (NetworkPolicyView::Allowlist(_), NetworkPolicyView::Unrestricted) => Some(
            "child cannot expand network to Unrestricted"@,
        ),
        (NetworkPolicyView::Allowlist(p), NetworkPolicyView::Allowlist(c)) => match first_uncovered(
            p,
            c,
        ) {
            Some(r) => Some(
                "child allowlist rule "@ + r.host + ":"@ + port_text(r.port)
                    + " is not covered by parent"@,
            ),
            None => None,
        },
    }
}

/// The workspace `child` lies at or below `parent`, as it is written and with `..`
/// worked out.
pub open spec fn inside(style: Style, parent: Seq<char>, child: Seq<char>) -> bool {
    native::under(style, native::parts(style, child), native::parts(style, parent)) && native::under(
        style,
        path::normal(native::parts(style, child)),
        path::normal(native::parts(style, parent)),
    )
}

/// Why the workspace `child` is refused under `parent`.
pub open spec fn workspace_refusal(style: Style, parent: Seq<char>, child: Seq<char>) -> Option<
    Seq<char>,
> {
    if inside(style, parent, child) {
        None
    } else {
        Some("child workspace "@ + child + " is not under parent workspace "@ + parent)
    }
}

/// The workspace of the subtask.
pub open spec fn child_workspace(parent: PolicyView, task: TaskSpecView) -> Seq<char> {
    match task.workspace {
        Some(w) => w,
        None => parent.workspace,
    }
}

/// The file system rules of the subtask: those of its parent, and more denials.
pub open spec fn child_rules(parent: PolicyView, task: TaskSpecView) -> Seq<FsRuleView> {
    parent.fs + denials_of(task.extra_deny)
}

/// The workspace of the subtask is another directory than that of its parent.
pub open spec fn moved(parent: PolicyView, task: TaskSpecView) -> bool {
    !native::same_path(parent.style, child_workspace(parent, task), parent.workspace)
}

/// The plain rule denies what lies at `np`.
pub open spec fn shuts(
    style: Style,
    rule: FsRuleView,
    workspace: Seq<char>,
    np: Seq<Seq<char>>,
) -> bool {
    &&& !rule.glob
    &&& rule.access == FsAccess::Deny
    &&& native::under(style, np, native::resolved(style, workspace, rule.path))
}

/// Some plain rule denies what lies at `np`.
pub open spec fn shut(
    style: Style,
    fs: Seq<FsRuleView>,
    workspace: Seq<char>,
    np: Seq<Seq<char>>,
) -> bool {
    exists|i: int| 0 <= i < fs.len() && shuts(style, #[trigger] fs[i], workspace, np)
}

/// The plain rule grants something that no plain rule takes away again.
pub open spec fn effective(
    style: Style,
    fs: Seq<FsRuleView>,
    workspace: Seq<char>,
    rule: FsRuleView,
) -> bool {
    &&& !rule.glob
    &&& rule.access != FsAccess::Deny
    &&& !shut(style, fs, workspace, native::resolved(style, workspace, rule.path))
}

/// The rule, inherited from `parent`, grants from `workspace` what `parent` does
/// not grant.
pub open spec fn grants_more(
    parent: PolicyView,
    fs: Seq<FsRuleView>,
    workspace: Seq<char>,
    rule: FsRuleView,
) -> bool {
    &&& effective(parent.style, fs, workspace, rule)
    &&& !process_guard::path_granted(
        parent,
        native::resolved(parent.style, workspace, rule.path),
        rule.access == FsAccess::ReadWrite,
    )
}

/// One of two paths lies at or below the other.
pub open spec fn overlap(style: Style, a: Seq<Seq<char>>, b: Seq<Seq<char>>) -> bool {
    native::under(style, a, b) || native::under(style, b, a)
}

/// Something at or below `np`, or above it, is granted from `workspace`.
pub open spec fn reached(
    style: Style,
    fs: Seq<FsRuleView>,
    workspace: Seq<char>,
    np: Seq<Seq<char>>,
) -> bool {
    exists|i: int|
        0 <= i < fs.len() && effective(style, fs, workspace, #[trigger] fs[i]) && overlap(
            style,
            native::resolved(style, workspace, fs[i].path),
            np,
        )
}

/// The rule, inherited from `parent`, leaves open from `workspace` what it denies
/// for `parent`.
pub open spec fn denies_less(
    parent: PolicyView,
    fs: Seq<FsRuleView>,
    workspace: Seq<char>,
    rule: FsRuleView,
) -> bool {
    let np = native::resolved(parent.style, parent.workspace, rule.path);
    &&& !rule.glob
    &&& rule.access == FsAccess::Deny
    &&& !shut(parent.style, fs, workspace, np)
    &&& parent.default_read || reached(parent.style, fs, workspace, np)
}

/// The rule, inherited from `parent`, would reach further from `workspace`.
pub open spec fn widens(
    parent: PolicyView,
    fs: Seq<FsRuleView>,
    workspace: Seq<char>,
    rule: FsRuleView,
) -> bool {
    grants_more(parent, fs, workspace, rule) || denies_less(parent, fs, workspace, rule)
}

/// The path of the first of `rules` that would reach further from `workspace`.
pub open spec fn first_widening(
    parent: PolicyView,
    fs: Seq<FsRuleView>,
    workspace: Seq<char>,
    rules: Seq<FsRuleView>,
) -> Option<Seq<char>>
    decreases rules.len(),
{
    if rules.len() == 0 {
        None
    } else if first_widening(parent, fs, workspace, rules.drop_last()) is Some {
        first_widening(parent, fs, workspace, rules.drop_last())
    } else if widens(parent, fs, workspace, rules.last()) {
        Some(rules.last().path)
    } else {
        None
    }
}

/// The path of the first inherited rule that would reach further in the subtask
/// than in its parent.
pub open spec fn rule_widened(parent: PolicyView, task: TaskSpecView) -> Option<Seq<char>> {
    first_widening(
        parent,
        child_rules(parent, task),
        child_workspace(parent, task),
        parent.fs,
    )
}

/// The first grant with the given name.
pub open spec fn grant_named(grants: Seq<CredentialGrantView>, name: Seq<char>) -> Option<
    CredentialGrantView,
>
    decreases grants.len(),
{
    if grants.len() == 0 {
        None
    } else if grant_named(grants.drop_last(), name) is Some {
        grant_named(grants.drop_last(), name)
    } else if grants.last().name == name {
        Some(grants.last())
    } else {
        None
    }
}

/// The first name that no grant has.
pub open spec fn first_ungranted(grants: Seq<CredentialGrantView>, names: Seq<Seq<char>>) -> Option<
    Seq<char>,
>
    decreases names.len(),
{
    if names.len() == 0 {
        None
    } else if first_ungranted(grants, names.drop_last()) is Some {
        first_ungranted(grants, names.drop_last())
    } else if grant_named(grants, names.last()) is None {
        Some(names.last())
    } else {
        None
    }
}

/// The grants with the given names, in the order of the names.
pub open spec fn grants_named(grants: Seq<CredentialGrantView>, names: Seq<Seq<char>>) -> Seq<
    CredentialGrantView,
> {
    names.map_values(|n: Seq<char>| grant_named(grants, n)->0)
}

/// The grants that the subtask keeps.
pub open spec fn kept(parent: PolicyView, task: TaskSpecView) -> Seq<CredentialGrantView> {
    match task.credential_names {
        Some(names) => grants_named(parent.credentials, names),
        None => parent.credentials,
    }
}

/// The secret of the grant comes from another file, seen from `to`, than seen from
/// `from`.
pub open spec fn file_moves(
    style: Style,
    grant: CredentialGrantView,
    from: Seq<char>,
    to: Seq<char>,
) -> bool {
    match (credentials::lookup(style, grant, from), credentials::lookup(style, grant, to)) {
        (SourceLookupView::File(a), SourceLookupView::File(b)) => !native::same_path(style, a, b),
        _ => false,
    }
}

/// The name of the first grant whose secret comes from another file, seen from
/// `to`, than seen from `from`.
pub open spec fn first_file_moved(
    style: Style,
    grants: Seq<CredentialGrantView>,
    from: Seq<char>,
    to: Seq<char>,
) -> Option<Seq<char>>
    decreases grants.len(),
{
    if grants.len() == 0 {
        None
    } else if first_file_moved(style, grants.drop_last(), from, to) is Some {
        first_file_moved(style, grants.drop_last(), from, to)
    } else if file_moves(style, grants.last(), from, to) {
        Some(grants.last().name)
    } else {
        None
    }
}

/// The name of the first credential that the subtask would read from another file
/// than its parent.
pub open spec fn credential_moved(parent: PolicyView, task: TaskSpecView) -> Option<Seq<char>> {
    first_file_moved(
        parent.style,
        kept(parent, task),
        parent.workspace,
        child_workspace(parent, task),
    )
}

/// Why the subtask is refused before its lifetime is looked at.
pub open spec fn reach_refusal(parent: PolicyView, task: TaskSpecView) -> Option<Seq<char>> {
    if task.workspace is Some && workspace_refusal(
        parent.style,
        parent.workspace,
        task.workspace->0,
    ) is Some {
        workspace_refusal(parent.style, parent.workspace, task.workspace->0)
    } else if rule_widened(parent, task) is Some {
        Some(
            "rule "@ + rule_widened(parent, task)->0
                + " of the parent would reach further in child workspace "@ + child_workspace(
                parent,
                task,
            ),
        )
    } else if task.network is Some && network_refusal(parent.network, task.network->0) is Some {
        network_refusal(parent.network, task.network->0)
    } else if task.credential_names is Some && first_ungranted(
        parent.credentials,
        task.credential_names->0,
    ) is Some {
        Some(
            "credential '"@ + first_ungranted(parent.credentials, task.credential_names->0)->0
                + "' is not granted by the parent policy"@,
        )
    } else if credential_moved(parent, task) is Some {
        Some(
            "credential '"@ + credential_moved(parent, task)->0
                + "' would come from another file in child workspace "@ + child_workspace(
                parent,
                task,
            ),
        )
    } else {
        None
    }
}

/// Denials of the given paths.
pub open spec fn denials_of(paths: Seq<Seq<char>>) -> Seq<FsRuleView> {
    paths.map_values(
        |p: Seq<char>| FsRuleView { path: p, access: FsAccess::Deny, glob: false },
    )
}

/// The child policy that the subtask asks for. It inherits rules and credentials as
/// they are; only deny globs are still seen from where its parent sees them.
pub open spec fn narrowed(
    parent: PolicyView,
    task: TaskSpecView,
    id: Seq<char>,
    now: Timestamp,
) -> PolicyView {
    PolicyView {
        id,
        task_id: Some(task.task_id),
        label: if task.label is Some {
            task.label
        } else {
            parent.label
        },
        fs: child_rules(parent, task),
        network: match task.network {
            Some(n) => n,
            None => parent.network,
        },
        credentials: kept(parent, task),
        created_at: now,
        expires_at: match task.ttl {
            Some(t) => Some(now.after(t)),
            None => parent.expires_at,
        },
        workspace: child_workspace(parent, task),
        glob_root: if moved(parent, task) {
            Some(parent.glob_base())
        } else {
            parent.glob_root
        },
        ..parent
    }
}

/// Why the subtask is refused, if it is.
pub open spec fn refusal(
    parent: PolicyView,
    task: TaskSpecView,
    id: Seq<char>,
    now: Timestamp,
) -> Option<Seq<char>> {
    if reach_refusal(parent, task) is Some {
        reach_refusal(parent, task)
    } else if task.ttl is Some && parent.expires_at is Some && now.after(
        task.ttl->0,
    ).later_than(parent.expires_at->0) {
        Some("child TTL cannot expire after the parent policy"@)
    } else {
        narrowed(parent, task, id, now).problem()
    }
}

fn rule_covers(p: &NetworkRule, c: &NetworkRule) -> (r: bool)
    ensures
        r == covers(p@, c@),
{
    if !((egress::is_settled(p.host.as_str()) && egress::host_matches(
        p.host.as_str(),
        c.host.as_str(),
    )) || text::same(p.host.as_str(), c.host.as_str())) {
        return false;
    }
    match (p.port, c.port) {
        (None, _) => true,
        (Some(_), None) => false,
        (Some(a), Some(b)) => a == b,
    }
}

fn allowlist_covers(rules: &Vec<NetworkRule>, c: &NetworkRule) -> (r: bool)
    ensures
        r == covered(rules.deep_view(), c@),
{
    let ghost m = rules.deep_view();
    let mut i: usize = 0;
    while i < rules.len()
        invariant
            m == rules.deep_view(),
            i <= rules.len(),
            forall|k: int| 0 <= k < i ==> !covers(#[trigger] m[k], c@),
        decreases rules.len() - i,
    {
        assert(m[i as int] == rules@[i as int]@);
        if rule_covers(&rules[i], c) {
            return true;
        }
        i += 1;
    }
    false
}

proof fn uncovered_stays(rules: Seq<NetworkRuleView>, child: Seq<NetworkRuleView>, n: int)
    requires
        0 <= n <= child.len(),
        first_uncovered(rules, child.take(n)) is Some,
    ensures
        first_uncovered(rules, child) == first_uncovered(rules, child.take(n)),
    decreases child.len() - n,
{
    if n < child.len() {
        assert(child.take(n + 1).drop_last() =~= child.take(n));
        uncovered_stays(rules, child, n + 1);
    } else {
        assert(child.take(n) =~= child);
    }
}

proof fn ungranted_stays(grants: Seq<CredentialGrantView>, names: Seq<Seq<char>>, n: int)
    requires
        0 <= n <= names.len(),
        first_ungranted(grants, names.take(n)) is Some,
    ensures
        first_ungranted(grants, names) == first_ungranted(grants, names.take(n)),
    decreases names.len() - n,
{
    if n < names.len() {
        assert(names.take(n + 1).drop_last() =~= names.take(n));
        ungranted_stays(grants, names, n + 1);
    } else {
        assert(names.take(n) =~= names);
    }
}

proof fn grant_stays(grants: Seq<CredentialGrantView>, name: Seq<char>, n: int)
    requires
        0 <= n <= grants.len(),
        grant_named(grants.take(n), name) is Some,
    ensures
        grant_named(grants, name) == grant_named(grants.take(n), name),
    decreases grants.len() - n,
{
    if n < grants.len() {
        assert(grants.take(n + 1).drop_last() =~= grants.take(n));
        grant_stays(grants, name, n + 1);
    } else {
        assert(grants.take(n) =~= grants);
    }
}

fn ensure_network_subseteq(parent: &NetworkPolicy, child: &NetworkPolicy) -> (r: PolicyResult<()>)
    ensures
        match r {
            Ok(_) => network_refusal(parent@, child@) is None,
            Err(e) => network_refusal(parent@, child@) is Some && e@ == PolicyErrorView::Invalid(
                network_refusal(parent@, child@)->0,
            ),
        },
{
    match (parent, child) {
        (NetworkPolicy::Unrestricted, _) => Ok(()),
        (_, NetworkPolicy::DenyAll) => Ok(()),
        (NetworkPolicy::DenyAll, _) => Err(
            PolicyError::invalid("child cannot expand network beyond parent DenyAll"),
        ),
        (NetworkPolicy::Allowlist(_), NetworkPolicy::Unrestricted) => Err(
            PolicyError::invalid("child cannot expand network to Unrestricted"),
        ),
        (NetworkPolicy::Allowlist(p), NetworkPolicy::Allowlist(c)) => {
            let ghost pm = p.deep_view();
            let ghost cm = c.deep_view();
            let mut i: usize = 0;
            assert(cm.take(0) =~= Seq::<NetworkRuleView>::empty());
            while i < c.len()
                invariant
                    pm == p.deep_view(),
                    cm == c.deep_view(),
                    parent@ == NetworkPolicyView::Allowlist(pm),
                    child@ == NetworkPolicyView::Allowlist(cm),
                    i <= c.len(),
                    first_uncovered(pm, cm.take(i as int)) is None,
                decreases c.len() - i,
            {
                assert(cm[i as int] == c@[i as int]@);
                assert(cm.take(i + 1).drop_last() =~= cm.take(i as int));
                if !allowlist_covers(p, &c[i]) {
                    proof {
                        uncovered_stays(pm, cm, i + 1);
                    }
                    let port = match c[i].port {
                        Some(n) => number::to_decimal(n as u64),
                        None => "*".to_owned(),
                    };
                    let m = "child allowlist rule ".to_owned().concat(c[i].host.as_str()).concat(
                        ":",
                    ).concat(port.as_str()).concat(" is not covered by parent");
                    return Err(PolicyError::Invalid(m));
                }
                i += 1;
            }
            assert(cm.take(cm.len() as int) =~= cm);
            Ok(())
        },
    }
}

fn ensure_workspace_under_parent(style: Style, parent: &str, child: &str) -> (r: PolicyResult<()>)
    ensures
        match r {
            Ok(_) => workspace_refusal(style, parent@, child@) is None,
            Err(e) => workspace_refusal(style, parent@, child@) is Some && e@
                == PolicyErrorView::Invalid(workspace_refusal(style, parent@, child@)->0),
        },
{
    if native::starts_with(style, child, parent) && native::is_under(
        style,
        &native::normal_components(style, child),
        &native::normal_components(style, parent),
    ) {
        return Ok(());
    }
    let m = "child workspace ".to_owned().concat(child).concat(
        " is not under parent workspace ",
    ).concat(parent);
    Err(PolicyError::Invalid(m))
}

/// Where rules apply, seen from `workspace`.
spec fn places_of(style: Style, fs: Seq<FsRuleView>, workspace: Seq<char>) -> Seq<Seq<Seq<char>>> {
    fs.map_values(|r: FsRuleView| native::resolved(style, workspace, r.path))
}

fn places(style: Style, fs: &Vec<FsRule>, workspace: &str) -> (r: Vec<Vec<String>>)
    ensures
        r.deep_view() == places_of(style, fs.deep_view(), workspace@),
{
    let ghost goal = places_of(style, fs.deep_view(), workspace@);
    let mut r: Vec<Vec<String>> = Vec::new();
    let mut i: usize = 0;
    assert(r.deep_view() =~= goal.take(0));
    while i < fs.len()
        invariant
            goal == places_of(style, fs.deep_view(), workspace@),
            i <= fs.len(),
            r.deep_view() == goal.take(i as int),
        decreases fs.len() - i,
    {
        let ghost before = r.deep_view();
        assert(fs.deep_view()[i as int] == fs@[i as int]@);
        let np = native::normal_components(
            style,
            native::join(style, workspace, fs[i].path.as_str()).as_str(),
        );
        r.push(np);
        i += 1;
        assert(r.deep_view() =~= before.push(goal[i - 1]));
        assert(r.deep_view() =~= goal.take(i as int));
    }
    assert(goal.take(goal.len() as int) =~= goal);
    r
}

/// Rules, seen from a workspace, with where they apply.
struct Rules<'a> {
    style: Style,
    fs: &'a Vec<FsRule>,
    workspace: &'a str,
    places: Vec<Vec<String>>,
}

impl<'a> Rules<'a> {
    spec fn ok(self) -> bool {
        self.places.deep_view() == places_of(self.style, self.fs.deep_view(), self.workspace@)
    }

    fn new(style: Style, fs: &'a Vec<FsRule>, workspace: &'a str) -> (r: Self)
        ensures
            r.ok(),
            r.style == style,
            r.fs == fs,
            r.workspace == workspace,
    {
        let places = places(style, fs, workspace);
        Rules { style, fs, workspace, places }
    }

    fn is_shut(&self, np: &Vec<String>) -> (r: bool)
        requires
            self.ok(),
        ensures
            r == shut(self.style, self.fs.deep_view(), self.workspace@, np.deep_view()),
    {
        let ghost m = self.fs.deep_view();
        let mut i: usize = 0;
        while i < self.fs.len()
            invariant
                self.ok(),
                m == self.fs.deep_view(),
                i <= self.fs.len(),
                forall|k: int|
                    0 <= k < i ==> !shuts(
                        self.style,
                        #[trigger] m[k],
                        self.workspace@,
                        np.deep_view(),
                    ),
            decreases self.fs.len() - i,
        {
            assert(m[i as int] == self.fs@[i as int]@);
            assert(self.places.deep_view().len() == m.len());
            assert(self.places.deep_view()[i as int] == self.places@[i as int].deep_view());
            if !self.fs[i].glob && self.fs[i].access == FsAccess::Deny && native::is_under(
                self.style,
                np,
                &self.places[i],
            ) {
                assert(shuts(self.style, m[i as int], self.workspace@, np.deep_view()));
                return true;
            }
            i += 1;
        }
        false
    }

    fn is_effective(&self, i: usize) -> (r: bool)
        requires
            self.ok(),
            i < self.fs@.len(),
        ensures
            r == effective(
                self.style,
                self.fs.deep_view(),
                self.workspace@,
                self.fs.deep_view()[i as int],
            ),
    {
        assert(self.places.deep_view().len() == self.fs.deep_view().len());
        assert(self.places.deep_view()[i as int] == self.places@[i as int].deep_view());
        assert(self.fs.deep_view()[i as int] == self.fs@[i as int]@);
        !self.fs[i].glob && self.fs[i].access != FsAccess::Deny && !self.is_shut(&self.places[i])
    }

    fn is_reached(&self, np: &Vec<String>) -> (r: bool)
        requires
            self.ok(),
        ensures
            r == reached(self.style, self.fs.deep_view(), self.workspace@, np.deep_view()),
    {
        let ghost m = self.fs.deep_view();
        let mut i: usize = 0;
        while i < self.fs.len()
            invariant
                self.ok(),
                m == self.fs.deep_view(),
                i <= self.fs.len(),
                forall|k: int|
                    0 <= k < i ==> !(effective(self.style, m, self.workspace@, #[trigger] m[k])
                        && overlap(
                        self.style,
                        native::resolved(self.style, self.workspace@, m[k].path),
                        np.deep_view(),
                    )),
            decreases self.fs.len() - i,
        {
            assert(m[i as int] == self.fs@[i as int]@);
            assert(self.places.deep_view().len() == m.len());
            assert(self.places.deep_view()[i as int] == self.places@[i as int].deep_view());
            if (native::is_under(self.style, &self.places[i], np) || native::is_under(
                self.style,
                np,
                &self.places[i],
            ))
                && self.is_effective(i) {
                assert(effective(self.style, m, self.workspace@, m[i as int]));
                return true;
            }
            i += 1;
        }
        false
    }

    fn grants(&self, np: &Vec<String>, write: bool) -> (r: bool)
        requires
            self.ok(),
        ensures
            r == exists|i: int|
                0 <= i < self.fs.deep_view().len() && process_guard::rule_grants(
                    self.style,
                    #[trigger] self.fs.deep_view()[i],
                    self.workspace@,
                    np.deep_view(),
                    write,
                ),
    {
        let ghost m = self.fs.deep_view();
        let mut i: usize = 0;
        while i < self.fs.len()
            invariant
                self.ok(),
                m == self.fs.deep_view(),
                i <= self.fs.len(),
                forall|k: int|
                    0 <= k < i ==> !process_guard::rule_grants(
                        self.style,
                        #[trigger] m[k],
                        self.workspace@,
                        np.deep_view(),
                        write,
                    ),
            decreases self.fs.len() - i,
        {
            assert(m[i as int] == self.fs@[i as int]@);
            assert(self.places.deep_view().len() == m.len());
            assert(self.places.deep_view()[i as int] == self.places@[i as int].deep_view());
            let rule = &self.fs[i];
            if !rule.glob && (rule.access == FsAccess::ReadWrite || (!write && rule.access
                == FsAccess::Read)) && native::is_under(self.style, np, &self.places[i]) {
                assert(process_guard::rule_grants(
                    self.style,
                    m[i as int],
                    self.workspace@,
                    np.deep_view(),
                    write,
                ));
                return true;
            }
            i += 1;
        }
        false
    }
}

proof fn widening_stays(
    parent: PolicyView,
    fs: Seq<FsRuleView>,
    workspace: Seq<char>,
    rules: Seq<FsRuleView>,
    n: int,
)
    requires
        0 <= n <= rules.len(),
        first_widening(parent, fs, workspace, rules.take(n)) is Some,
    ensures
        first_widening(parent, fs, workspace, rules) == first_widening(
            parent,
            fs,
            workspace,
            rules.take(n),
        ),
    decreases rules.len() - n,
{
    if n < rules.len() {
        assert(rules.take(n + 1).drop_last() =~= rules.take(n));
        widening_stays(parent, fs, workspace, rules, n + 1);
    } else {
        assert(rules.take(n) =~= rules);
    }
}

/// Checks that no rule of `parent` reaches further among the rules `fs`, which
/// begin with those of `parent`, from `workspace`.
fn ensure_rules_reach_no_further(parent: &Policy, fs: &Vec<FsRule>, workspace: &str) -> (r:
    PolicyResult<()>)
    requires
        parent@.fs.is_prefix_of(fs.deep_view()),
    ensures
        ({
            let w = first_widening(parent@, fs.deep_view(), workspace@, parent@.fs);
            match r {
                Ok(_) => w is None,
                Err(e) => w is Some && e@ == PolicyErrorView::Invalid(
                    "rule "@ + w->0 + " of the parent would reach further in child workspace "@
                        + workspace@,
                ),
            }
        }),
{
    let style = parent.style;
    let ours = Rules::new(style, &parent.fs, parent.workspace.as_str());
    let theirs = Rules::new(style, fs, workspace);
    let ghost m = parent@.fs;
    let ghost c = fs.deep_view();
    let ghost w = workspace@;
    let mut i: usize = 0;
    assert(m.take(0) =~= Seq::<FsRuleView>::empty());
    assert(m.len() <= c.len());
    while i < parent.fs.len()
        invariant
            style == parent@.style,
            m == parent@.fs,
            m == parent.fs.deep_view(),
            c == fs.deep_view(),
            w == workspace@,
            m.is_prefix_of(c),
            m.len() <= c.len(),
            ours.ok(),
            ours.style == style,
            ours.fs == parent.fs,
            ours.workspace@ == parent@.workspace,
            theirs.ok(),
            theirs.style == style,
            theirs.fs == fs,
            theirs.workspace@ == w,
            i <= parent.fs.len(),
            first_widening(parent@, c, w, m.take(i as int)) is None,
        decreases parent.fs.len() - i,
    {
        assert(m.take(i + 1).drop_last() =~= m.take(i as int));
        assert(m[i as int] == parent.fs@[i as int]@);
        assert(c.subrange(0, m.len() as int)[i as int] == c[i as int]);
        assert(ours.places.deep_view().len() == m.len());
        assert(theirs.places.deep_view().len() == c.len());
        assert(ours.places.deep_view()[i as int] == ours.places@[i as int].deep_view());
        assert(theirs.places.deep_view()[i as int] == theirs.places@[i as int].deep_view());
        let rule = &parent.fs[i];
        let write = rule.access == FsAccess::ReadWrite;
        let more = theirs.is_effective(i) && !((!write && parent.default_read) || ours.grants(
            &theirs.places[i],
            write,
        ));
        let less = !rule.glob && rule.access == FsAccess::Deny && !theirs.is_shut(&ours.places[i])
            && (parent.default_read || theirs.is_reached(&ours.places[i]));
        assert(more == grants_more(parent@, c, w, m[i as int]));
        assert(less == denies_less(parent@, c, w, m[i as int]));
        if more || less {
            proof {
                widening_stays(parent@, c, w, m, i + 1);
            }
            let t = "rule ".to_owned().concat(rule.path.as_str()).concat(
                " of the parent would reach further in child workspace ",
            ).concat(workspace);
            return Err(PolicyError::Invalid(t));
        }
        i += 1;
    }
    assert(m.take(m.len() as int) =~= m);
    Ok(())
}

proof fn file_moved_stays(
    style: Style,
    grants: Seq<CredentialGrantView>,
    from: Seq<char>,
    to: Seq<char>,
    n: int,
)
    requires
        0 <= n <= grants.len(),
        first_file_moved(style, grants.take(n), from, to) is Some,
    ensures
        first_file_moved(style, grants, from, to) == first_file_moved(
            style,
            grants.take(n),
            from,
            to,
        ),
    decreases grants.len() - n,
{
    if n < grants.len() {
        assert(grants.take(n + 1).drop_last() =~= grants.take(n));
        file_moved_stays(style, grants, from, to, n + 1);
    } else {
        assert(grants.take(n) =~= grants);
    }
}

/// Checks that the secrets of the grants come from the same files, seen from `to`,
/// as seen from `from`.
fn ensure_files_stay(style: Style, grants: &Vec<CredentialGrant>, from: &str, to: &str) -> (r:
    PolicyResult<()>)
    ensures
        ({
            let moved = first_file_moved(style, grants.deep_view(), from@, to@);
            match r {
                Ok(_) => moved is None,
                Err(e) => moved is Some && e@ == PolicyErrorView::Invalid(
                    "credential '"@ + moved->0
                        + "' would come from another file in child workspace "@ + to@,
                ),
            }
        }),
{
    let ghost m = grants.deep_view();
    let mut i: usize = 0;
    assert(m.take(0) =~= Seq::<CredentialGrantView>::empty());
    while i < grants.len()
        invariant
            m == grants.deep_view(),
            i <= grants.len(),
            first_file_moved(style, m.take(i as int), from@, to@) is None,
        decreases grants.len() - i,
    {
        assert(m[i as int] == grants@[i as int]@);
        assert(m.take(i + 1).drop_last() =~= m.take(i as int));
        let moves = match (
            source_lookup(style, &grants[i], from),
            source_lookup(style, &grants[i], to),
        ) {
            (SourceLookup::File(a), SourceLookup::File(b)) => !native::same(
                style,
                a.as_str(),
                b.as_str(),
            ),
            _ => false,
        };
        if moves {
            proof {
                file_moved_stays(style, m, from@, to@, i + 1);
            }
            let t = "credential '".to_owned().concat(grants[i].name.as_str()).concat(
                "' would come from another file in child workspace ",
            ).concat(to);
            return Err(PolicyError::Invalid(t));
        }
        i += 1;
    }
    assert(m.take(m.len() as int) =~= m);
    Ok(())
}

fn find_grant(grants: &Vec<CredentialGrant>, name: &str) -> (r: Option<CredentialGrant>)
    ensures
        r.deep_view() == grant_named(grants.deep_view(), name@),
{
    let ghost m = grants.deep_view();
    let mut i: usize = 0;
    assert(m.take(0) =~= Seq::<CredentialGrantView>::empty());
    while i < grants.len()
        invariant
            m == grants.deep_view(),
            i <= grants.len(),
            grant_named(m.take(i as int), name@) is None,
        decreases grants.len() - i,
    {
        assert(m[i as int] == grants@[i as int]@);
        assert(m.take(i + 1).drop_last() =~= m.take(i as int));
        if text::same(grants[i].name.as_str(), name) {
            proof {
                grant_stays(m, name@, i + 1);
            }
            return Some(grants[i].clone());
        }
        i += 1;
    }
    assert(m.take(m.len() as int) =~= m);
    None
}

fn select_grants(grants: &Vec<CredentialGrant>, names: &Vec<String>) -> (r: PolicyResult<
    Vec<CredentialGrant>,
>)
    ensures
        match r {
            Ok(g) => first_ungranted(grants.deep_view(), names.deep_view()) is None
                && g.deep_view() == grants_named(grants.deep_view(), names.deep_view()),
            Err(e) => first_ungranted(grants.deep_view(), names.deep_view()) is Some && e@
                == PolicyErrorView::Invalid(
                "credential '"@ + first_ungranted(grants.deep_view(), names.deep_view())->0
                    + "' is not granted by the parent policy"@,
            ),
        },
{
    let ghost gm = grants.deep_view();
    let ghost nm = names.deep_view();
    let mut r: Vec<CredentialGrant> = Vec::new();
    let mut i: usize = 0;
    assert(nm.take(0) =~= Seq::<Seq<char>>::empty());
    while i < names.len()
        invariant
            gm == grants.deep_view(),
            nm == names.deep_view(),
            i <= names.len(),
            first_ungranted(gm, nm.take(i as int)) is None,
            r.deep_view() == grants_named(gm, nm).take(i as int),
        decreases names.len() - i,
    {
        assert(nm[i as int] == names@[i as int]@);
        assert(nm.take(i + 1).drop_last() =~= nm.take(i as int));
        let ghost before = r.deep_view();
        match find_grant(grants, names[i].as_str()) {
            Some(g) => {
                r.push(g);
                assert(r.deep_view() =~= before.push(g@));
                assert(r.deep_view() =~= grants_named(gm, nm).take(i + 1));
            },
            None => {
                proof {
                    ungranted_stays(gm, nm, i + 1);
                }
                let m = "credential '".to_owned().concat(names[i].as_str()).concat(
                    "' is not granted by the parent policy",
                );
                return Err(PolicyError::Invalid(m));
            },
        }
        i += 1;
    }
    assert(nm.take(nm.len() as int) =~= nm);
    assert(grants_named(gm, nm).take(nm.len() as int) =~= grants_named(gm, nm));
    Ok(r)
}

fn push_denials(fs: &mut Vec<FsRule>, paths: &Vec<String>)
    ensures
        final(fs).deep_view() == old(fs).deep_view() + denials_of(paths.deep_view()),
{
    let ghost before = fs.deep_view();
    let ghost m = denials_of(paths.deep_view());
    let mut i: usize = 0;
    assert(fs.deep_view() =~= before + m.take(0));
    while i < paths.len()
        invariant
            m == denials_of(paths.deep_view()),
            i <= paths.len(),
            fs.deep_view() == before + m.take(i as int),
        decreases paths.len() - i,
    {
        let ghost now = fs.deep_view();
        assert(paths.deep_view()[i as int] == paths@[i as int]@);
        fs.push(FsRule::deny(paths[i].as_str()));
        i += 1;
        assert(fs.deep_view() =~= now.push(m[i - 1]));
        assert(fs.deep_view() =~= before + m.take(i as int));
    }
    assert(m.take(m.len() as int) =~= m);
}

/// The policy of a subtask under `parent`, with the identifier `id`, at `now`.
/// Refused if it would reach further than `parent`.
pub fn narrow_policy(parent: &Policy, task: TaskSpec, id: PolicyId, now: Timestamp) -> (r:
    PolicyResult<Policy>)
    requires
        reach_refusal(parent@, task@) is None && task.ttl is Some ==> now.ordinary()
            && task.ttl->0.well_formed() && now.reaches(task.ttl->0),
    ensures
        match r {
            Ok(child) => refusal(parent@, task@, id@, now) is None && child@ == narrowed(
                parent@,
                task@,
                id@,
                now,
            ),
            Err(e) => refusal(parent@, task@, id@, now) is Some && e@ == PolicyErrorView::Invalid(
                refusal(parent@, task@, id@, now)->0,
            ),
        },
{
    let ghost goal = narrowed(parent@, task@, id@, now);
    let mut child = parent.clone();
    child.id = id;
    child.created_at = now;
    push_denials(&mut child.fs, &task.extra_deny);
    assert(child.fs.deep_view() == child_rules(parent@, task@));
    proof {
        if task.workspace is None {
            assert forall|i: int|
                0 <= i < parent@.fs.len() && !(#[trigger] parent@.fs[i]).glob implies moves_inward(
                parent@,
                parent@.fs[i],
                parent@.workspace,
            ) by {
                stays_put(parent@, parent@.fs[i], parent@.workspace);
            }
            rules_that_move_inward_reach_no_further(parent@, task@);
        }
        assert(parent@.fs.is_prefix_of(child.fs.deep_view())) by {
            let n = parent@.fs.len() as int;
            assert(child.fs.deep_view().subrange(0, n) =~= parent@.fs);
        }
    }
    if let Some(ws) = &task.workspace {
        if let Err(e) = ensure_workspace_under_parent(
            parent.style,
            parent.workspace.as_str(),
            ws.as_str(),
        ) {
            return Err(e);
        }
        if let Err(e) = ensure_rules_reach_no_further(parent, &child.fs, ws.as_str()) {
            return Err(e);
        }
        if !native::same(parent.style, ws.as_str(), parent.workspace.as_str()) {
            child.glob_root = Some(parent.glob_base().to_owned());
        }
        child.workspace = ws.clone();
    }
    if let Some(net) = &task.network {
        if let Err(e) = ensure_network_subseteq(&parent.network, net) {
            return Err(e);
        }
        child.network = net.clone();
    }
    if let Some(names) = &task.credential_names {
        match select_grants(&parent.credentials, names) {
            Ok(g) => {
                child.credentials = g;
            },
            Err(e) => return Err(e),
        }
    }
    assert(child.credentials.deep_view() == kept(parent@, task@));
    if let Some(ws) = &task.workspace {
        if let Err(e) = ensure_files_stay(
            parent.style,
            &child.credentials,
            parent.workspace.as_str(),
            ws.as_str(),
        ) {
            return Err(e);
        }
    } else {
        proof {
            files_that_stay_do_not_move(parent@.style, kept(parent@, task@), parent@.workspace);
        }
    }
    assert(reach_refusal(parent@, task@) is None);
    if let Some(ttl) = task.ttl {
        let expires = now.plus(ttl);
        if let Some(limit) = parent.expires_at {
            if expires.is_later_than(limit) {
                return Err(PolicyError::invalid("child TTL cannot expire after the parent policy"));
            }
        }
        child.expires_at = Some(expires);
    }
    if task.label.is_some() {
        child.label = task.label;
    }
    child.task_id = Some(task.task_id);
    assert(child@ =~= goal);
    match child.validate() {
        Ok(_) => Ok(child),
        Err(e) => Err(e),
    }
}

// ---------------------------------------------------------------------------
// Laws
// ---------------------------------------------------------------------------
/// A settled normal form ends in no character that normalisation takes away,
/// and is in lower case.
proof fn settled_end(host: Seq<char>)
    requires
        egress::settled(host),
        egress::normal_host(host).len() > 0,
    ensures
        ({
            let p = egress::normal_host(host);
            &&& !CharClass::Space.has(p.last())
            &&& !CharClass::Bracket.has(p.last())
            &&& !CharClass::Dot.has(p.last())
            &&& text::lowered(p) == p
        }),
{
    let p = egress::normal_host(host);
    let a = text::trimmed(p, CharClass::Space);
    let b = text::trimmed(a, CharClass::Bracket);
    let c = text::trimmed_end(b, CharClass::Dot);
    text::trimmed_shrinks(p, CharClass::Space);
    text::trimmed_shrinks(a, CharClass::Bracket);
    text::trimmed_shrinks(b, CharClass::Dot);
    assert(text::lowered(c).len() == c.len());
    assert(text::lowered(c) == p);
}

/// The normal form of a name below `domain` is below `domain` too.
proof fn normal_below(host: Seq<char>, domain: Seq<char>)
    requires
        domain.len() > 0,
        ("."@ + domain).is_suffix_of(host),
        !CharClass::Space.has(domain.last()),
        !CharClass::Bracket.has(domain.last()),
        !CharClass::Dot.has(domain.last()),
        text::lowered(domain) == domain,
    ensures
        ("."@ + domain).is_suffix_of(egress::normal_host(host)),
{
    reveal_strlit(".");
    let tail = "."@ + domain;
    let i = host.len() - tail.len();
    assert(host.subrange(i, host.len() as int) == tail);
    assert(host[i] == tail[0]);
    assert(host.last() == tail.last());
    let k = text::trimmed_start_stops(host, CharClass::Space, i);
    let a = host.subrange(k, host.len() as int);
    assert(a.last() == host.last());
    assert(text::trimmed(host, CharClass::Space) == a);
    assert(a[i - k] == host[i]);
    let j = text::trimmed_start_stops(a, CharClass::Bracket, i - k);
    let b = a.subrange(j, a.len() as int);
    assert(b.last() == host.last());
    assert(text::trimmed(a, CharClass::Bracket) == b);
    assert(text::trimmed_end(b, CharClass::Dot) == b);
    let c = text::lowered(b);
    assert(c == egress::normal_host(host));
    let n = c.len() - tail.len();
    assert forall|m: int| 0 <= m < tail.len() implies c.subrange(n, c.len() as int)[m]
        == tail[m] by {
        assert(c[n + m] == text::lower_char(b[n + m]));
        assert(b[n + m] == host[i + m]);
        assert(host.subrange(i, host.len() as int)[m] == host[i + m]);
        if m > 0 {
            assert(tail[m] == domain[m - 1]);
            assert(text::lowered(domain)[m - 1] == text::lower_char(domain[m - 1]));
        }
    }
    assert(c.subrange(n, c.len() as int) =~= tail);
}

/// What a covered child pattern matches, a settled parent pattern matches.
proof fn covering_pattern(parent: Seq<char>, child: Seq<char>, host: Seq<char>)
    requires
        egress::settled(parent),
        egress::pattern_matches(parent, child),
        egress::pattern_matches(child, host),
    ensures
        egress::pattern_matches(parent, host),
{
    reveal_strlit("*");
    reveal_strlit("*.");
    reveal_strlit(".");
    let p = egress::normal_host(parent);
    let c = egress::normal_host(child);
    if p == "*"@ {
    } else if "*."@.is_prefix_of(p) {
        let domain = p.subrange(2, p.len() as int);
        settled_end(parent);
        assert(p[0] == "*."@[0] && p[1] == "*."@[1]) by {
            assert(p.subrange(0, 2) == "*."@);
            assert(p.subrange(0, 2)[0] == p[0] && p.subrange(0, 2)[1] == p[1]);
        }
        assert(domain.len() > 0);
        assert(domain.last() == p.last());
        assert(text::lowered(domain) =~= domain) by {
            assert forall|m: int| 0 <= m < domain.len() implies text::lower_char(domain[m])
                == domain[m] by {
                assert(text::lowered(p)[m + 2] == text::lower_char(p[m + 2]));
            }
        }
        normal_below(child, domain);
        let tail = "."@ + domain;
        assert(c.subrange(c.len() - tail.len(), c.len() as int) == tail);
        assert(c[c.len() - tail.len()] == '.') by {
            assert(c.subrange(c.len() - tail.len(), c.len() as int)[0] == tail[0]);
        }
        if "*."@.is_prefix_of(c) {
            let e = c.subrange(2, c.len() as int);
            assert(c.subrange(0, 2)[0] == c[0]);
            let de = "."@ + e;
            assert(host.subrange(host.len() - de.len(), host.len() as int) == de);
            assert(de.subrange(de.len() - tail.len(), de.len() as int) =~= tail) by {
                if e.len() + 1 == tail.len() {
                    assert(e =~= domain) by {
                        assert forall|m: int| 0 <= m < e.len() implies e[m] == domain[m] by {
                            assert(e[m] == c[m + 2]);
                            assert(c.subrange(c.len() - tail.len(), c.len() as int)[m + 1] == tail[m
                                + 1]);
                        }
                    }
                } else {
                    assert forall|m: int| 0 <= m < tail.len() implies de.subrange(
                        de.len() - tail.len(),
                        de.len() as int,
                    )[m] == tail[m] by {
                        assert(c.subrange(c.len() - tail.len(), c.len() as int)[m] == tail[m]);
                    }
                }
            }
            assert(host.subrange(host.len() - tail.len(), host.len() as int) =~= tail) by {
                assert forall|m: int| 0 <= m < tail.len() implies host.subrange(
                    host.len() - tail.len(),
                    host.len() as int,
                )[m] == tail[m] by {
                    assert(de.subrange(de.len() - tail.len(), de.len() as int)[m] == tail[m]);
                    assert(host.subrange(host.len() - de.len(), host.len() as int)[de.len()
                        - tail.len() + m] == de[de.len() - tail.len() + m]);
                }
            }
            assert(tail.is_suffix_of(host));
        } else {
            assert(c != "*"@);
            assert(host == c);
        }
        assert(host.len() > domain.len());
    } else {
        assert(child == p);
        assert(c == p);
    }
}

/// The child reaches no host and port that its parent does not reach.
pub proof fn narrowing_never_widens_network(
    parent: PolicyView,
    task: TaskSpecView,
    id: Seq<char>,
    now: Timestamp,
    host: Seq<char>,
    port: u16,
)
    requires
        refusal(parent, task, id, now) is None,
        egress::decision(narrowed(parent, task, id, now).network, host, port) is Allow,
    ensures
        egress::decision(parent.network, host, port) is Allow,
{
    let h = egress::normal_host(host);
    if task.network is Some {
        match (parent.network, task.network->0) {
            (NetworkPolicyView::Allowlist(p), NetworkPolicyView::Allowlist(c)) => {
                let j = choose|j: int|
                    0 <= j < c.len() && egress::rule_covers(#[trigger] c[j], h, port);
                all_covered(p, c, j);
                let i = choose|i: int| 0 <= i < p.len() && covers(#[trigger] p[i], c[j]);
                if p[i].host != c[j].host {
                    covering_pattern(p[i].host, c[j].host, h);
                }
                assert(egress::rule_covers(p[i], h, port));
            },
            _ => {},
        }
    }
}

proof fn all_covered(rules: Seq<NetworkRuleView>, child: Seq<NetworkRuleView>, j: int)
    requires
        first_uncovered(rules, child) is None,
        0 <= j < child.len(),
    ensures
        covered(rules, child[j]),
    decreases child.len(),
{
    if j < child.len() - 1 {
        all_covered(rules, child.drop_last(), j);
    }
}

/// The child's workspace lies in that of its parent.
pub proof fn narrowing_keeps_the_workspace_inside(
    parent: PolicyView,
    task: TaskSpecView,
    id: Seq<char>,
    now: Timestamp,
)
    requires
        refusal(parent, task, id, now) is None,
    ensures
        inside(parent.style, parent.workspace, narrowed(parent, task, id, now).workspace),
{
    let w = native::key(parent.style, native::parts(parent.style, parent.workspace));
    let n = native::key(
        parent.style,
        path::normal(native::parts(parent.style, parent.workspace)),
    );
    assert(w.subrange(0, w.len() as int) =~= w);
    assert(n.subrange(0, n.len() as int) =~= n);
}

/// The child inherits the rules of its parent as they are, and denies what the
/// subtask adds.
pub proof fn narrowing_keeps_the_rules(
    parent: PolicyView,
    task: TaskSpecView,
    id: Seq<char>,
    now: Timestamp,
)
    ensures
        narrowed(parent, task, id, now).fs == parent.fs + denials_of(task.extra_deny),
{
}

/// From `workspace` the plain rule, inherited from `parent`, denies at least what it
/// denies for `parent`, or grants at most what it grants for `parent`.
pub open spec fn moves_inward(parent: PolicyView, rule: FsRuleView, workspace: Seq<char>) -> bool {
    let before = native::resolved(parent.style, parent.workspace, rule.path);
    let after = native::resolved(parent.style, workspace, rule.path);
    if rule.access == FsAccess::Deny {
        native::under(parent.style, before, after)
    } else {
        native::under(parent.style, after, before)
    }
}

/// A subtask is not refused on account of rules that move inward. Among these are
/// all rules with absolute paths, which do not move, and all rules if the subtask
/// has no workspace of its own.
pub proof fn rules_that_move_inward_reach_no_further(parent: PolicyView, task: TaskSpecView)
    requires
        forall|i: int|
            0 <= i < parent.fs.len() && !(#[trigger] parent.fs[i]).glob ==> moves_inward(
                parent,
                parent.fs[i],
                child_workspace(parent, task),
            ),
    ensures
        rule_widened(parent, task) is None,
{
    let fs = child_rules(parent, task);
    let w = child_workspace(parent, task);
    assert forall|i: int| 0 <= i < parent.fs.len() implies !widens(
        parent,
        fs,
        w,
        #[trigger] parent.fs[i],
    ) by {
        let rule = parent.fs[i];
        let np = native::resolved(parent.style, w, rule.path);
        assert(fs[i] == rule);
        if !rule.glob {
            assert(moves_inward(parent, parent.fs[i], w));
            if rule.access == FsAccess::Deny {
                let before = native::resolved(parent.style, parent.workspace, rule.path);
                assert(shuts(parent.style, fs[i], w, before));
            } else {
                assert(process_guard::rule_grants(
                    parent.style,
                    parent.fs[i],
                    parent.workspace,
                    np,
                    rule.access == FsAccess::ReadWrite,
                ));
            }
        }
    }
    none_widens(parent, fs, w, parent.fs);
}

/// A subtask that names the directory of its parent in another way, such as with a
/// slash behind it, is not refused for it. Under Windows this holds of absolute
/// workspaces.
pub proof fn naming_the_same_directory_is_no_move(parent: PolicyView, task: TaskSpecView)
    requires
        parent.workspace.len() > 0,
        child_workspace(parent, task).len() > 0,
        parent.style == Style::Windows ==> native::absolute(parent.style, parent.workspace),
        !moved(parent, task),
    ensures
        workspace_refusal(
            parent.style,
            parent.workspace,
            child_workspace(parent, task),
        ) is None,
        rule_widened(parent, task) is None,
        credential_moved(parent, task) is None,
{
    let style = parent.style;
    let w = child_workspace(parent, task);
    let ps = native::key(style, native::parts(style, w));
    let n = path::normal(ps);
    native::key_of_normal(style, w);
    native::key_of_normal(style, parent.workspace);
    assert(ps.subrange(0, ps.len() as int) =~= ps);
    assert(n.subrange(0, n.len() as int) =~= n);
    assert forall|i: int|
        0 <= i < parent.fs.len() && !(
        #[trigger] parent.fs[i]).glob implies moves_inward(parent, parent.fs[i], w) by {
        native::seen_from_the_same_place(style, parent.workspace, w, parent.fs[i].path);
        stays_put(parent, parent.fs[i], w);
    }
    rules_that_move_inward_reach_no_further(parent, task);
    files_stay_in_the_same_place(style, kept(parent, task), parent.workspace, w);
}

proof fn files_stay_in_the_same_place(
    style: Style,
    grants: Seq<CredentialGrantView>,
    from: Seq<char>,
    to: Seq<char>,
)
    requires
        from.len() > 0,
        to.len() > 0,
        style == Style::Windows ==> native::absolute(style, from),
        native::same_path(style, from, to),
    ensures
        first_file_moved(style, grants, from, to) is None,
    decreases grants.len(),
{
    if grants.len() > 0 {
        files_stay_in_the_same_place(style, grants.drop_last(), from, to);
        match credentials::source_kind(grants.last().source) {
            CredentialSourceKindView::File(p) => {
                native::seen_from_the_same_place(style, from, to, p);
            },
            _ => {},
        }
    }
}

/// A rule that does not move moves inward.
proof fn stays_put(parent: PolicyView, rule: FsRuleView, workspace: Seq<char>)
    requires
        native::key(parent.style, native::resolved(parent.style, workspace, rule.path))
            == native::key(
            parent.style,
            native::resolved(parent.style, parent.workspace, rule.path),
        ),
    ensures
        moves_inward(parent, rule, workspace),
{
    let np = native::key(
        parent.style,
        native::resolved(parent.style, workspace, rule.path),
    );
    assert(np.subrange(0, np.len() as int) =~= np);
}

proof fn none_widens(
    parent: PolicyView,
    fs: Seq<FsRuleView>,
    workspace: Seq<char>,
    rules: Seq<FsRuleView>,
)
    requires
        forall|i: int|
            0 <= i < rules.len() ==> !widens(parent, fs, workspace, #[trigger] rules[i]),
    ensures
        first_widening(parent, fs, workspace, rules) is None,
    decreases rules.len(),
{
    if rules.len() > 0 {
        let front = rules.drop_last();
        assert forall|i: int| 0 <= i < front.len() implies !widens(
            parent,
            fs,
            workspace,
            #[trigger] front[i],
        ) by {
            assert(front[i] == rules[i]);
        }
        none_widens(parent, fs, workspace, front);
        assert(!widens(parent, fs, workspace, rules[rules.len() - 1]));
    }
}

/// No inherited rule reaches further for the child than for its parent.
pub proof fn no_inherited_rule_widens(
    parent: PolicyView,
    task: TaskSpecView,
    id: Seq<char>,
    now: Timestamp,
    i: int,
)
    requires
        refusal(parent, task, id, now) is None,
        0 <= i < parent.fs.len(),
    ensures
        ({
            let child = narrowed(parent, task, id, now);
            &&& !grants_more(parent, child.fs, child.workspace, parent.fs[i])
            &&& !denies_less(parent, child.fs, child.workspace, parent.fs[i])
        }),
{
    each_widens_not(
        parent,
        child_rules(parent, task),
        child_workspace(parent, task),
        parent.fs,
        i,
    );
}

proof fn each_widens_not(
    parent: PolicyView,
    fs: Seq<FsRuleView>,
    workspace: Seq<char>,
    rules: Seq<FsRuleView>,
    i: int,
)
    requires
        first_widening(parent, fs, workspace, rules) is None,
        0 <= i < rules.len(),
    ensures
        !widens(parent, fs, workspace, rules[i]),
    decreases rules.len(),
{
    if i < rules.len() - 1 {
        each_widens_not(parent, fs, workspace, rules.drop_last(), i);
    }
}

/// The child's deadline is not later than its parent's.
pub proof fn narrowing_never_extends_deadline(
    parent: PolicyView,
    task: TaskSpecView,
    id: Seq<char>,
    now: Timestamp,
    later: Timestamp,
)
    requires
        refusal(parent, task, id, now) is None,
        parent.expired(later),
    ensures
        narrowed(parent, task, id, now).expired(later),
{
}

/// Every credential of the child is a credential of its parent, as it is, and its
/// secret comes from the same place.
pub proof fn narrowing_never_adds_credentials(
    parent: PolicyView,
    task: TaskSpecView,
    id: Seq<char>,
    now: Timestamp,
    i: int,
)
    requires
        refusal(parent, task, id, now) is None,
        0 <= i < narrowed(parent, task, id, now).credentials.len(),
    ensures
        ({
            let child = narrowed(parent, task, id, now);
            &&& parent.credentials.contains(child.credentials[i])
            &&& !file_moves(
                parent.style,
                child.credentials[i],
                parent.workspace,
                child.workspace,
            )
        }),
{
    if task.credential_names is Some {
        let names = task.credential_names->0;
        all_granted(parent.credentials, names, i);
        grant_is_member(parent.credentials, names[i]);
    } else {
        assert(parent.credentials[i] == kept(parent, task)[i]);
    }
    each_file_stays(
        parent.style,
        kept(parent, task),
        parent.workspace,
        child_workspace(parent, task),
        i,
    );
}

proof fn each_file_stays(
    style: Style,
    grants: Seq<CredentialGrantView>,
    from: Seq<char>,
    to: Seq<char>,
    i: int,
)
    requires
        first_file_moved(style, grants, from, to) is None,
        0 <= i < grants.len(),
    ensures
        !file_moves(style, grants[i], from, to),
    decreases grants.len(),
{
    if i < grants.len() - 1 {
        each_file_stays(style, grants.drop_last(), from, to, i);
    }
}

proof fn files_that_stay_do_not_move(
    style: Style,
    grants: Seq<CredentialGrantView>,
    workspace: Seq<char>,
)
    ensures
        first_file_moved(style, grants, workspace, workspace) is None,
    decreases grants.len(),
{
    if grants.len() > 0 {
        files_that_stay_do_not_move(style, grants.drop_last(), workspace);
    }
}

proof fn all_granted(grants: Seq<CredentialGrantView>, names: Seq<Seq<char>>, i: int)
    requires
        first_ungranted(grants, names) is None,
        0 <= i < names.len(),
    ensures
        grant_named(grants, names[i]) is Some,
    decreases names.len(),
{
    if i < names.len() - 1 {
        all_granted(grants, names.drop_last(), i);
    }
}

proof fn grant_is_member(grants: Seq<CredentialGrantView>, name: Seq<char>)
    requires
        grant_named(grants, name) is Some,
    ensures
        grants.contains(grant_named(grants, name)->0),
    decreases grants.len(),
{
    if grant_named(grants.drop_last(), name) is Some {
        grant_is_member(grants.drop_last(), name);
        let g = grant_named(grants, name)->0;
        let i = choose|i: int| 0 <= i < grants.drop_last().len() && grants.drop_last()[i] == g;
        assert(grants[i] == g);
    } else {
        assert(grants[grants.len() - 1] == grant_named(grants, name)->0);
    }
}

/// The child neither gains the right to run programs nor readability by default.
pub proof fn narrowing_keeps_exec_and_default_read(
    parent: PolicyView,
    task: TaskSpecView,
    id: Seq<char>,
    now: Timestamp,
)
    ensures
        narrowed(parent, task, id, now).exec_policy == parent.exec_policy,
        narrowed(parent, task, id, now).default_read == parent.default_read,
{
}

/// The child is what the task asks for: the network that the task names, the
/// credentials that it names in their order, a deadline its lifetime from now, its
/// workspace, its task and its label. What the task says nothing of is as it is for
/// the parent.
pub proof fn narrowing_does_what_the_task_asks(
    parent: PolicyView,
    task: TaskSpecView,
    id: Seq<char>,
    now: Timestamp,
)
    ensures
        ({
            let child = narrowed(parent, task, id, now);
            &&& child.id == id
            &&& child.task_id == Some(task.task_id)
            &&& child.created_at == now
            &&& task.label is Some ==> child.label == task.label
            &&& task.label is None ==> child.label == parent.label
            &&& task.network is Some ==> Some(child.network) == task.network
            &&& task.network is None ==> child.network == parent.network
            &&& task.workspace is Some ==> Some(child.workspace) == task.workspace
            &&& task.workspace is None ==> child.workspace == parent.workspace && child.glob_root
                == parent.glob_root
            &&& task.ttl is None ==> child.expires_at == parent.expires_at
            &&& task.ttl is Some ==> child.expires_at is Some && (now.ordinary() && (
            task.ttl->0).nanos < 1_000_000_000 && now.reaches(task.ttl->0) ==> {
                let end = child.expires_at->0;
                &&& end.nanos < 1_000_000_000
                &&& end.seconds * 1_000_000_000 + end.nanos == now.seconds * 1_000_000_000
                    + now.nanos + (task.ttl->0).seconds * 1_000_000_000 + (task.ttl->0).nanos
            })
            &&& task.credential_names is None ==> child.credentials == parent.credentials
            &&& child.default_read == parent.default_read
            &&& child.exec_policy == parent.exec_policy
            &&& child.style == parent.style
            &&& child.fs.len() == parent.fs.len() + task.extra_deny.len()
            &&& forall|i: int|
                0 <= i < parent.fs.len() ==> #[trigger] child.fs[i] == parent.fs[i]
            &&& forall|i: int|
                0 <= i < task.extra_deny.len() ==> {
                    let rule = child.fs[parent.fs.len() + i];
                    &&& rule.path == #[trigger] task.extra_deny[i]
                    &&& rule.access == FsAccess::Deny
                    &&& !rule.glob
                }
        }),
{
    if task.ttl is Some && now.ordinary() && now.reaches(task.ttl->0) {
        crate::time::after_is_that_much_later(now, task.ttl->0);
    }
}

/// The credentials that a task names are those of the parent with these names, in
/// the order of the names; of several with one name, the first.
pub proof fn named_credentials_are_handed_on(
    parent: PolicyView,
    task: TaskSpecView,
    id: Seq<char>,
    now: Timestamp,
    i: int,
)
    requires
        refusal(parent, task, id, now) is None,
        task.credential_names is Some,
        0 <= i < task.credential_names->0.len(),
    ensures
        ({
            let child = narrowed(parent, task, id, now);
            let names = task.credential_names->0;
            &&& child.credentials.len() == names.len()
            &&& child.credentials[i].name == names[i]
            &&& exists|k: int|
                0 <= k < parent.credentials.len() && #[trigger] parent.credentials[k]
                    == child.credentials[i] && forall|j: int|
                    0 <= j < k ==> (#[trigger] parent.credentials[j]).name != names[i]
        }),
{
    let names = task.credential_names->0;
    all_granted(parent.credentials, names, i);
    first_grant(parent.credentials, names[i]);
}

proof fn first_grant(grants: Seq<CredentialGrantView>, name: Seq<char>)
    ensures
        match grant_named(grants, name) {
            Some(g) => g.name == name && exists|k: int|
                0 <= k < grants.len() && #[trigger] grants[k] == g && forall|j: int|
                    0 <= j < k ==> (#[trigger] grants[j]).name != name,
            None => forall|j: int| 0 <= j < grants.len() ==> (#[trigger] grants[j]).name != name,
        },
    decreases grants.len(),
{
    if grants.len() > 0 {
        let front = grants.drop_last();
        first_grant(front, name);
        match grant_named(front, name) {
            Some(g) => {
                let k = choose|k: int|
                    0 <= k < front.len() && #[trigger] front[k] == g && forall|j: int|
                        0 <= j < k ==> (#[trigger] front[j]).name != name;
                assert(grants[k] == g);
                assert forall|j: int| 0 <= j < k implies (#[trigger] grants[j]).name != name by {
                    assert(front[j] == grants[j]);
                }
            },
            None => {
                assert forall|j: int| 0 <= j < grants.len() - 1 implies (
                #[trigger] grants[j]).name != name by {
                    assert(front[j] == grants[j]);
                }
                if grants.last().name == name {
                    assert(grants[grants.len() - 1] == grants.last());
                }
            },
        }
    }
}

/// What a task must not ask for is refused: a workspace that does not lie in that
/// of the parent, a network where the parent has none, no limit to the network
/// where the parent has one, a connection that the parent does not permit, a
/// credential that the parent does not hold, a deadline later than that of the
/// parent.
pub proof fn what_reaches_further_is_refused(
    parent: PolicyView,
    task: TaskSpecView,
    id: Seq<char>,
    now: Timestamp,
    host: Seq<char>,
    port: u16,
)
    requires
        ({
            ||| task.workspace is Some && !native::under(
                parent.style,
                native::parts(parent.style, task.workspace->0),
                native::parts(parent.style, parent.workspace),
            )
            ||| task.workspace is Some && !native::under(
                parent.style,
                path::normal(native::parts(parent.style, task.workspace->0)),
                path::normal(native::parts(parent.style, parent.workspace)),
            )
            ||| parent.network is DenyAll && task.network is Some && !(task.network->0 is DenyAll)
            ||| parent.network is Allowlist && task.network is Some
                && task.network->0 is Unrestricted
            ||| task.network is Some && egress::decision(task.network->0, host, port) is Allow
                && egress::decision(parent.network, host, port) is Deny
            ||| task.credential_names is Some && exists|i: int|
                0 <= i < task.credential_names->0.len() && forall|j: int|
                    0 <= j < parent.credentials.len() ==> (#[trigger] parent.credentials[j]).name
                        != #[trigger] task.credential_names->0[i]
            ||| task.ttl is Some && parent.expires_at is Some && now.after(
                task.ttl->0,
            ).seconds > (parent.expires_at->0).seconds
            ||| task.ttl is Some && parent.expires_at is Some && now.after(task.ttl->0).seconds
                == (parent.expires_at->0).seconds && now.after(task.ttl->0).nanos > (
            parent.expires_at->0).nanos
        }),
    ensures
        refusal(parent, task, id, now) is Some,
{
    if refusal(parent, task, id, now) is None {
        if task.network is Some && egress::decision(task.network->0, host, port) is Allow {
            narrowing_never_widens_network(parent, task, id, now, host, port);
        }
        if task.credential_names is Some {
            let names = task.credential_names->0;
            if exists|i: int|
                0 <= i < names.len() && forall|j: int|
                    0 <= j < parent.credentials.len() ==> (#[trigger] parent.credentials[j]).name
                        != #[trigger] names[i] {
                let i = choose|i: int|
                    0 <= i < names.len() && forall|j: int|
                        0 <= j < parent.credentials.len() ==> (
                        #[trigger] parent.credentials[j]).name != #[trigger] names[i];
                all_granted(parent.credentials, names, i);
                first_grant(parent.credentials, names[i]);
            }
        }
    }
}

/// What stays within the parent is granted: a task without a workspace of its own,
/// whose network is that of the parent, none, any under a parent without limits, or
/// made of rules of the parent; whose credentials the parent holds; and whose
/// lifetime ends no later than that of the parent.
pub proof fn what_stays_within_the_parent_is_granted(
    parent: PolicyView,
    task: TaskSpecView,
    id: Seq<char>,
    now: Timestamp,
)
    requires
        parent.problem() is None,
        task.workspace is None,
        match task.network {
            None => true,
            Some(NetworkPolicyView::DenyAll) => true,
            Some(NetworkPolicyView::Unrestricted) => parent.network is Unrestricted,
            Some(NetworkPolicyView::Allowlist(c)) => {
                &&& c.len() > 0
                &&& forall|i: int| 0 <= i < c.len() ==> !policy::blank((#[trigger] c[i]).host)
                &&& match parent.network {
                    NetworkPolicyView::Unrestricted => true,
                    NetworkPolicyView::DenyAll => false,
                    NetworkPolicyView::Allowlist(p) => forall|i: int|
                        0 <= i < c.len() ==> p.contains(#[trigger] c[i]),
                }
            },
        },
        task.credential_names is Some ==> forall|i: int|
            0 <= i < task.credential_names->0.len() ==> exists|j: int|
                0 <= j < parent.credentials.len() && (#[trigger] parent.credentials[j]).name
                    == #[trigger] task.credential_names->0[i],
        task.ttl is Some && parent.expires_at is Some ==> {
            let end = now.after(task.ttl->0);
            let limit = parent.expires_at->0;
            end.seconds < limit.seconds || (end.seconds == limit.seconds && end.nanos
                <= limit.nanos)
        },
    ensures
        refusal(parent, task, id, now) is None,
{
    let child = narrowed(parent, task, id, now);
    assert forall|i: int|
        0 <= i < parent.fs.len() && !(#[trigger] parent.fs[i]).glob implies moves_inward(
        parent,
        parent.fs[i],
        parent.workspace,
    ) by {
        stays_put(parent, parent.fs[i], parent.workspace);
    }
    rules_that_move_inward_reach_no_further(parent, task);
    files_that_stay_do_not_move(parent.style, kept(parent, task), parent.workspace);
    if let Some(NetworkPolicyView::Allowlist(c)) = task.network {
        if let NetworkPolicyView::Allowlist(p) = parent.network {
            rules_of_the_parent_are_covered(p, c);
        }
    }
    if task.credential_names is Some {
        let names = task.credential_names->0;
        held_names_are_granted(parent.credentials, names);
        assert forall|i: int| 0 <= i < child.credentials.len() implies !policy::blank(
            (#[trigger] child.credentials[i]).name,
        ) && !policy::blank(child.credentials[i].source) by {
            all_granted(parent.credentials, names, i);
            grant_is_member(parent.credentials, names[i]);
            let g = child.credentials[i];
            let k = choose|k: int| 0 <= k < parent.credentials.len() && parent.credentials[k] == g;
            assert(!policy::blank(parent.credentials[k].name));
        }
    }
    assert(child.problem() is None);
}

proof fn rules_of_the_parent_are_covered(p: Seq<NetworkRuleView>, c: Seq<NetworkRuleView>)
    requires
        forall|i: int| 0 <= i < c.len() ==> p.contains(#[trigger] c[i]),
    ensures
        first_uncovered(p, c) is None,
    decreases c.len(),
{
    if c.len() > 0 {
        let front = c.drop_last();
        assert forall|i: int| 0 <= i < front.len() implies p.contains(#[trigger] front[i]) by {
            assert(front[i] == c[i]);
        }
        rules_of_the_parent_are_covered(p, front);
        assert(p.contains(c[c.len() - 1]));
        let k = choose|k: int| 0 <= k < p.len() && p[k] == c.last();
        assert(covers(p[k], c.last()));
    }
}

proof fn held_names_are_granted(grants: Seq<CredentialGrantView>, names: Seq<Seq<char>>)
    requires
        forall|i: int|
            0 <= i < names.len() ==> exists|j: int|
                0 <= j < grants.len() && (#[trigger] grants[j]).name == #[trigger] names[i],
    ensures
        first_ungranted(grants, names) is None,
    decreases names.len(),
{
    if names.len() > 0 {
        let front = names.drop_last();
        assert forall|i: int| 0 <= i < front.len() implies exists|j: int|
            0 <= j < grants.len() && (#[trigger] grants[j]).name == #[trigger] front[i] by {
            assert(front[i] == names[i]);
        }
        held_names_are_granted(grants, front);
        let n = names[names.len() - 1];
        first_grant(grants, n);
    }
}

/// A child that is granted is a policy that can be used.
pub proof fn a_granted_child_has_no_problem(
    parent: PolicyView,
    task: TaskSpecView,
    id: Seq<char>,
    now: Timestamp,
)
    requires
        refusal(parent, task, id, now) is None,
    ensures
        narrowed(parent, task, id, now).problem() is None,
{
}

/// A subtask in a directory of the workspace is granted if the rules of its parent have
/// absolute paths, whatever else it leaves as it is.
pub proof fn a_task_in_a_directory_is_granted(
    parent: PolicyView,
    task: TaskSpecView,
    id: Seq<char>,
    now: Timestamp,
)
    requires
        parent.style == Style::Unix,
        parent.problem() is None,
        parent.credentials.len() == 0,
        task.workspace is Some,
        task.network is None,
        task.credential_names is None,
        task.ttl is None,
        path::parts(parent.workspace).is_prefix_of(path::parts(task.workspace->0)),
        path::normal(path::parts(parent.workspace)).is_prefix_of(
            path::normal(path::parts(task.workspace->0)),
        ),
        task.workspace->0.len() > 0,
        forall|i: int|
            0 <= i < parent.fs.len() && !(#[trigger] parent.fs[i]).glob ==> parent.fs[i].path.len()
                > 0 && parent.fs[i].path[0] == '/',
    ensures
        refusal(parent, task, id, now) is None,
{
    let w = task.workspace->0;
    assert forall|i: int|
        0 <= i < parent.fs.len() && !(#[trigger] parent.fs[i]).glob implies moves_inward(
        parent,
        parent.fs[i],
        w,
    ) by {
        let p = parent.fs[i].path;
        assert(native::joined(Style::Unix, w, p) == p);
        assert(native::joined(Style::Unix, parent.workspace, p) == p);
        stays_put(parent, parent.fs[i], w);
    }
    rules_that_move_inward_reach_no_further(parent, task);
    assert(kept(parent, task).len() == 0);
}

/// What is said of a subtask that reaches further.
pub proof fn what_is_said_of_a_wider_network(
    parent: Seq<NetworkRuleView>,
    rule: NetworkRuleView,
    wide: NetworkPolicyView,
)
    requires
        !covered(parent, rule),
    ensures
        network_refusal(
            NetworkPolicyView::Allowlist(parent),
            NetworkPolicyView::Allowlist(seq![rule]),
        ) == Some(
            "child allowlist rule "@ + rule.host + ":"@ + (match rule.port {
                Some(p) => number::decimal(p as nat),
                None => "*"@,
            }) + " is not covered by parent"@,
        ),
        network_refusal(NetworkPolicyView::Allowlist(parent), NetworkPolicyView::Unrestricted)
            == Some("child cannot expand network to Unrestricted"@),
        !(wide is DenyAll) ==> network_refusal(NetworkPolicyView::DenyAll, wide) == Some(
            "child cannot expand network beyond parent DenyAll"@,
        ),
{
    let one = seq![rule];
    assert(one.drop_last() =~= Seq::<NetworkRuleView>::empty());
    assert(first_uncovered(parent, one.drop_last()) is None);
    assert(first_uncovered(parent, one) == Some(rule));
}

/// When one rule of the parent covers a rule of the child: it has no port or the same
/// one, and the same host, or a pattern that matches the host and does not change when
/// it is brought to normal form twice.
pub proof fn when_rules_cover(p: NetworkRuleView, c: NetworkRuleView)
    ensures
        ({
            let n = egress::normal_host(p.host);
            network_refusal(
                NetworkPolicyView::Allowlist(seq![p]),
                NetworkPolicyView::Allowlist(seq![c]),
            ) is None <==> {
                &&& p.port is None || p.port == c.port
                &&& p.host == c.host || (egress::normal_host(n) == n && (n == seq!['*'] || n
                    == c.host || (n.len() >= 2 && n[0] == '*' && n[1] == '.' && c.host.len()
                    >= n.len() - 1 && c.host.subrange(
                    c.host.len() - (n.len() - 1),
                    c.host.len() as int,
                ) == n.subrange(1, n.len() as int))))
            }
        }),
{
    let one = seq![c];
    let all = seq![p];
    assert(one.drop_last() =~= Seq::<NetworkRuleView>::empty());
    assert(first_uncovered(all, one.drop_last()) is None);
    egress::pattern_by_characters(p.host, c.host);
    assert(all[0] == p);
    assert(covered(all, c) <==> covers(p, c)) by {
        if covers(p, c) {
            assert(covers(all[0], c));
        }
    }
}

} // verus!
