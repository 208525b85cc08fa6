//! What an agent space may reach.
//!
//! A policy is bound before the agent runs, and the agent cannot widen it.
use crate::baseline;
use crate::baseline::baseline_deny_rules;
use crate::error::{PolicyError, PolicyErrorView, PolicyResult};
use crate::ids::{PolicyId, TaskId};
use crate::native::Style;
use crate::net::{NetworkPolicy, NetworkPolicyView, NetworkRuleView};
use crate::paths::{FsAccess, FsRule, FsRuleView};
use crate::text;
use crate::text::CharClass;
use crate::time::{Span, Timestamp};
use vstd::prelude::*;

verus! {

/// Whether the agent may start subprocesses.
#[derive(Clone, Copy, Debug, PartialEq, Eq, Structural)]
pub enum ExecPolicy {
    /// No subprocesses.
    Deny,
    /// Subprocesses within the file system and network policy.
    Allow,
}

impl Default for ExecPolicy {
    fn default() -> (r: Self)
        ensures
            r == ExecPolicy::Allow,
    {
        ExecPolicy::Allow
    }
}

/// A credential that is handed to a child process when it starts.
#[derive(Debug)]
pub struct CredentialGrant {
    pub name: String,
    /// Where the secret comes from; never the secret itself.
    pub source: String,
    /// Name of the environment variable inside the space, if any.
    pub inject_as_env: Option<String>,
}

#[verifier::ext_equal]
pub struct CredentialGrantView {
    pub name: Seq<char>,
    pub source: Seq<char>,
    pub inject_as_env: Option<Seq<char>>,
}

impl View for CredentialGrant {
    type V = CredentialGrantView;

    open spec fn view(&self) -> CredentialGrantView {
        CredentialGrantView {
            name: self.name@,
            source: self.source@,
            inject_as_env: self.inject_as_env.deep_view(),
        }
    }
}

impl DeepView for CredentialGrant {
    type V = CredentialGrantView;

    open spec fn deep_view(&self) -> CredentialGrantView {
        self@
    }
}

impl Clone for CredentialGrant {
    fn clone(&self) -> (r: Self)
        ensures
            r@ == self@,
    {
        CredentialGrant {
            name: self.name.clone(),
            source: self.source.clone(),
            inject_as_env: self.inject_as_env.clone(),
        }
    }
}

/// A bound execution policy.
#[derive(Debug)]
pub struct Policy {
    pub id: PolicyId,
    /// The task this policy was issued for.
    pub task_id: Option<TaskId>,
    /// Human label, such as the profile name.
    pub label: Option<String>,
    /// Whether paths without a rule are readable.
    pub default_read: bool,
    /// File system rules; deny wins over allow.
    pub fs: Vec<FsRule>,
    pub network: NetworkPolicy,
    pub exec_policy: ExecPolicy,
    pub credentials: Vec<CredentialGrant>,
    pub created_at: Timestamp,
    /// From here on the space refuses new work.
    pub expires_at: Option<Timestamp>,
    /// The root that relative rules are anchored to.
    pub workspace: String,
    /// Where deny globs are seen from, if not from the workspace: in the policy of
    /// a subtask with a workspace of its own, the workspace that they came from.
    pub glob_root: Option<String>,
    /// How the paths of the policy, and those that are asked for, are written.
    pub style: Style,
}

#[verifier::ext_equal]
pub struct PolicyView {
    pub id: Seq<char>,
    pub task_id: Option<Seq<char>>,
    pub label: Option<Seq<char>>,
    pub default_read: bool,
    pub fs: Seq<FsRuleView>,
    pub network: NetworkPolicyView,
    pub exec_policy: ExecPolicy,
    pub credentials: Seq<CredentialGrantView>,
    pub created_at: Timestamp,
    pub expires_at: Option<Timestamp>,
    pub workspace: Seq<char>,
    pub glob_root: Option<Seq<char>>,
    pub style: Style,
}

impl View for Policy {
    type V = PolicyView;

    open spec fn view(&self) -> PolicyView {
        PolicyView {
            id: self.id@,
            task_id: self.task_id.deep_view(),
            label: self.label.deep_view(),
            default_read: self.default_read,
            fs: self.fs.deep_view(),
            network: self.network@,
            exec_policy: self.exec_policy,
            credentials: self.credentials.deep_view(),
            created_at: self.created_at,
            expires_at: self.expires_at,
            workspace: self.workspace@,
            glob_root: self.glob_root.deep_view(),
            style: self.style,
        }
    }
}

impl DeepView for Policy {
    type V = PolicyView;

    open spec fn deep_view(&self) -> PolicyView {
        self@
    }
}

/// `s` holds nothing but white space.
pub open spec fn blank(s: Seq<char>) -> bool {
    text::trimmed(s, CharClass::Space).len() == 0
}

/// The rules that are no globs and grant exactly `access`: their paths, in order.
pub open spec fn plain_paths(fs: Seq<FsRuleView>, access: FsAccess) -> Seq<Seq<char>>
    decreases fs.len(),
{
    if fs.len() == 0 {
        Seq::empty()
    } else if fs.last().access == access && !fs.last().glob {
        plain_paths(fs.drop_last(), access).push(fs.last().path)
    } else {
        plain_paths(fs.drop_last(), access)
    }
}

/// The deny rules, in order.
pub open spec fn denials(fs: Seq<FsRuleView>) -> Seq<FsRuleView>
    decreases fs.len(),
{
    if fs.len() == 0 {
        Seq::empty()
    } else if fs.last().access == FsAccess::Deny {
        denials(fs.drop_last()).push(fs.last())
    } else {
        denials(fs.drop_last())
    }
}

impl PolicyView {
    /// What makes the policy unusable, if anything does: the first that applies.
    pub open spec fn problem(self) -> Option<Seq<char>> {
        if self.workspace.len() == 0 {
            Some("workspace path is empty"@)
        } else if self.network == NetworkPolicyView::Allowlist(Seq::empty()) {
            Some("network allowlist must not be empty (use DenyAll or Unrestricted)"@)
        } else if self.network is Allowlist && exists|i: int|
            0 <= i < self.network->0.len() && blank((#[trigger] self.network->0[i]).host) {
            Some("network rule host must not be empty"@)
        } else if exists|i: int|
            0 <= i < self.credentials.len() && (blank((#[trigger] self.credentials[i]).name)
                || blank(self.credentials[i].source)) {
            Some("credential grant name/source must not be empty"@)
        } else {
            None
        }
    }

    /// Where deny globs are seen from.
    pub open spec fn glob_base(self) -> Seq<char> {
        match self.glob_root {
            Some(r) => r,
            None => self.workspace,
        }
    }

    /// The deadline has come.
    pub open spec fn expired(self, now: Timestamp) -> bool {
        match self.expires_at {
            Some(t) => !t.later_than(now),
            None => false,
        }
    }
}

fn is_blank(s: &str) -> (r: bool)
    ensures
        r == blank(s@),
{
    text::trim(s, CharClass::Space).is_empty()
}

impl Policy {
    /// Starts a policy for `workspace` under the identifier `id`.
    pub fn builder(workspace: &str, id: PolicyId) -> (r: PolicyBuilder)
        ensures
            r@ == PolicyBuilderView::fresh(workspace@, id@),
    {
        PolicyBuilder::new(workspace, id)
    }

    /// Where deny globs are seen from.
    pub fn glob_base(&self) -> (r: &str)
        ensures
            r@ == self@.glob_base(),
    {
        match &self.glob_root {
            Some(r) => r.as_str(),
            None => self.workspace.as_str(),
        }
    }

    /// Whether the deadline has come.
    pub fn is_expired(&self, now: Timestamp) -> (r: bool)
        ensures
            r == self@.expired(now),
    {
        match self.expires_at {
            Some(t) => !t.is_later_than(now),
            None => false,
        }
    }

    /// The paths of the plain rules that grant exactly `access`.
    fn paths_with(&self, access: FsAccess) -> (r: Vec<&String>)
        ensures
            r.deep_view() == plain_paths(self@.fs, access),
    {
        let ghost m = self.fs.deep_view();
        let mut r: Vec<&String> = Vec::new();
        let mut i: usize = 0;
        assert(m.take(0) =~= Seq::<FsRuleView>::empty());
        assert(r.deep_view() =~= plain_paths(m.take(0), access));
        while i < self.fs.len()
            invariant
                m == self.fs.deep_view(),
                i <= self.fs.len(),
                r.deep_view() == plain_paths(m.take(i as int), access),
            decreases self.fs.len() - i,
        {
            assert(m[i as int] == self.fs@[i as int]@);
            assert(m.take(i + 1).drop_last() =~= m.take(i as int));
            let ghost before = r.deep_view();
            if self.fs[i].access == access && !self.fs[i].glob {
                r.push(&self.fs[i].path);
                assert(r.deep_view() =~= before.push(m[i as int].path));
            }
            i += 1;
        }
        assert(m.take(m.len() as int) =~= m);
        r
    }

    /// The paths that may be read and written.
    pub fn read_write_paths(&self) -> (r: Vec<&String>)
        ensures
            r.deep_view() == plain_paths(self@.fs, FsAccess::ReadWrite),
    {
        self.paths_with(FsAccess::ReadWrite)
    }

    /// The paths that may be read only.
    pub fn read_only_paths(&self) -> (r: Vec<&String>)
        ensures
            r.deep_view() == plain_paths(self@.fs, FsAccess::Read),
    {
        self.paths_with(FsAccess::Read)
    }

    /// The deny rules.
    pub fn deny_paths(&self) -> (r: Vec<&FsRule>)
        ensures
            r.deep_view() == denials(self@.fs),
    {
        let ghost m = self.fs.deep_view();
        let mut r: Vec<&FsRule> = Vec::new();
        let mut i: usize = 0;
        assert(m.take(0) =~= Seq::<FsRuleView>::empty());
        assert(r.deep_view() =~= denials(m.take(0)));
        while i < self.fs.len()
            invariant
                m == self.fs.deep_view(),
                i <= self.fs.len(),
                r.deep_view() == denials(m.take(i as int)),
            decreases self.fs.len() - i,
        {
            assert(m[i as int] == self.fs@[i as int]@);
            assert(m.take(i + 1).drop_last() =~= m.take(i as int));
            let ghost before = r.deep_view();
            if self.fs[i].access == FsAccess::Deny {
                r.push(&self.fs[i]);
                assert(r.deep_view() =~= before.push(m[i as int]));
            }
            i += 1;
        }
        assert(m.take(m.len() as int) =~= m);
        r
    }

    /// Checks what a policy must hold on any platform.
    pub fn validate(&self) -> (r: PolicyResult<()>)
        ensures
            match r {
                Ok(_) => self@.problem() is None,
                Err(e) => self@.problem() is Some && e@ == PolicyErrorView::Invalid(
                    self@.problem()->0,
                ),
            },
    {
        if self.workspace.as_str().is_empty() {
            return Err(PolicyError::invalid("workspace path is empty"));
        }
        if let NetworkPolicy::Allowlist(rules) = &self.network {
            let ghost m = rules.deep_view();
            assert(self@.network == NetworkPolicyView::Allowlist(m));
            if rules.len() == 0 {
                assert(m =~= Seq::<NetworkRuleView>::empty());
                return Err(
                    PolicyError::invalid(
                        "network allowlist must not be empty (use DenyAll or Unrestricted)",
                    ),
                );
            }
            let mut i: usize = 0;
            while i < rules.len()
                invariant
                    m == rules.deep_view(),
                    0 < m.len(),
                    self@.network == NetworkPolicyView::Allowlist(m),
                    self@.workspace.len() > 0,
                    i <= rules.len(),
                    forall|k: int| 0 <= k < i ==> !blank((#[trigger] m[k]).host),
                decreases rules.len() - i,
            {
                assert(m[i as int] == rules@[i as int]@);
                if is_blank(rules[i].host.as_str()) {
                    assert(blank(self@.network->0[i as int].host));
                    return Err(PolicyError::invalid("network rule host must not be empty"));
                }
                i += 1;
            }
        }
        let ghost c = self.credentials.deep_view();
        let mut i: usize = 0;
        while i < self.credentials.len()
            invariant
                c == self.credentials.deep_view(),
                self@.workspace.len() > 0,
                self@.network != NetworkPolicyView::Allowlist(Seq::empty()),
                !(self@.network is Allowlist && exists|i: int|
                    0 <= i < self@.network->0.len() && blank((#[trigger] self@.network->0[i]).host)),
                i <= self.credentials.len(),
                forall|k: int|
                    0 <= k < i ==> !blank((#[trigger] c[k]).name) && !blank(c[k].source),
            decreases self.credentials.len() - i,
        {
            assert(c[i as int] == self.credentials@[i as int]@);
            if is_blank(self.credentials[i].name.as_str()) || is_blank(
                self.credentials[i].source.as_str(),
            ) {
                assert(blank(self@.credentials[i as int].name) || blank(
                    self@.credentials[i as int].source,
                ));
                return Err(
                    PolicyError::invalid("credential grant name/source must not be empty"),
                );
            }
            i += 1;
        }
        Ok(())
    }
}

impl Clone for Policy {
    fn clone(&self) -> (r: Self)
        ensures
            r@ == self@,
    {
        let fs = self.fs.clone();
        let credentials = self.credentials.clone();
        assert(fs.deep_view() =~= self.fs.deep_view());
        assert(credentials.deep_view() =~= self.credentials.deep_view());
        Policy {
            id: self.id.clone(),
            task_id: self.task_id.clone(),
            label: self.label.clone(),
            default_read: self.default_read,
            fs,
            network: self.network.clone(),
            exec_policy: self.exec_policy,
            credentials,
            created_at: self.created_at,
            expires_at: self.expires_at,
            workspace: self.workspace.clone(),
            glob_root: self.glob_root.clone(),
            style: self.style,
        }
    }
}

/// Puts a policy together, rule by rule.
#[derive(Debug)]
pub struct PolicyBuilder {
    id: PolicyId,
    task_id: Option<TaskId>,
    label: Option<String>,
    default_read: bool,
    fs: Vec<FsRule>,
    network: NetworkPolicy,
    exec_policy: ExecPolicy,
    credentials: Vec<CredentialGrant>,
    expires_at: Option<Timestamp>,
    workspace: String,
    style: Style,
    baseline: bool,
}

#[verifier::ext_equal]
pub struct PolicyBuilderView {
    pub id: Seq<char>,
    pub task_id: Option<Seq<char>>,
    pub label: Option<Seq<char>>,
    pub default_read: bool,
    pub fs: Seq<FsRuleView>,
    pub network: NetworkPolicyView,
    pub exec_policy: ExecPolicy,
    pub credentials: Seq<CredentialGrantView>,
    pub expires_at: Option<Timestamp>,
    pub workspace: Seq<char>,
    pub style: Style,
    /// Whether the baseline denials are added.
    pub baseline: bool,
}

impl View for PolicyBuilder {
    type V = PolicyBuilderView;

    closed spec fn view(&self) -> PolicyBuilderView {
        PolicyBuilderView {
            id: self.id@,
            task_id: self.task_id.deep_view(),
            label: self.label.deep_view(),
            default_read: self.default_read,
            fs: self.fs.deep_view(),
            network: self.network@,
            exec_policy: self.exec_policy,
            credentials: self.credentials.deep_view(),
            expires_at: self.expires_at,
            workspace: self.workspace@,
            style: self.style,
            baseline: self.baseline,
        }
    }
}

impl PolicyBuilderView {
    /// A builder on which nothing has been set.
    pub open spec fn fresh(workspace: Seq<char>, id: Seq<char>) -> Self {
        PolicyBuilderView {
            id,
            task_id: None,
            label: None,
            default_read: false,
            fs: Seq::empty(),
            network: NetworkPolicyView::Unrestricted,
            exec_policy: ExecPolicy::Allow,
            credentials: Seq::empty(),
            expires_at: None,
            workspace,
            style: Style::Unix,
            baseline: true,
        }
    }

    /// The builder with one more rule.
    pub open spec fn with_rule(self, rule: FsRuleView) -> Self {
        PolicyBuilderView { fs: self.fs.push(rule), ..self }
    }

    /// The policy that comes out at `now` for the home directory `home`.
    pub open spec fn policy(self, now: Timestamp, home: Seq<char>) -> PolicyView {
        PolicyView {
            id: self.id,
            task_id: self.task_id,
            label: self.label,
            default_read: self.default_read,
            fs: if self.baseline {
                self.fs + baseline::deny_rules(self.style, home)
            } else {
                self.fs
            },
            network: self.network,
            exec_policy: self.exec_policy,
            credentials: self.credentials,
            created_at: now,
            expires_at: self.expires_at,
            workspace: self.workspace,
            glob_root: None,
            style: self.style,
        }
    }
}

impl PolicyBuilder {
    pub fn new(workspace: &str, id: PolicyId) -> (r: Self)
        ensures
            r@ == PolicyBuilderView::fresh(workspace@, id@),
    {
        let r = PolicyBuilder {
            id,
            task_id: None,
            label: None,
            default_read: false,
            fs: Vec::new(),
            network: NetworkPolicy::Unrestricted,
            exec_policy: ExecPolicy::Allow,
            credentials: Vec::new(),
            expires_at: None,
            workspace: workspace.to_owned(),
            style: Style::Unix,
            baseline: true,
        };
        assert(r@ =~= PolicyBuilderView::fresh(workspace@, id@));
        r
    }

    pub fn id(self, id: PolicyId) -> (r: Self)
        ensures
            r@ == (PolicyBuilderView { id: id@, ..self@ }),
    {
        PolicyBuilder { id, ..self }
    }

    pub fn task_id(self, task_id: TaskId) -> (r: Self)
        ensures
            r@ == (PolicyBuilderView { task_id: Some(task_id@), ..self@ }),
    {
        PolicyBuilder { task_id: Some(task_id), ..self }
    }

    pub fn label(self, label: &str) -> (r: Self)
        ensures
            r@ == (PolicyBuilderView { label: Some(label@), ..self@ }),
    {
        PolicyBuilder { label: Some(label.to_owned()), ..self }
    }

    pub fn default_read(self, yes: bool) -> (r: Self)
        ensures
            r@ == (PolicyBuilderView { default_read: yes, ..self@ }),
    {
        PolicyBuilder { default_read: yes, ..self }
    }

    pub fn fs_rule(self, rule: FsRule) -> (r: Self)
        ensures
            r@ == self@.with_rule(rule@),
    {
        let ghost before = self.fs.deep_view();
        let mut fs = self.fs;
        fs.push(rule);
        assert(fs.deep_view() =~= before.push(rule@));
        PolicyBuilder { fs, ..self }
    }

    pub fn read_write(self, path: &str) -> (r: Self)
        ensures
            r@ == self@.with_rule(
                FsRuleView { path: path@, access: FsAccess::ReadWrite, glob: false },
            ),
    {
        self.fs_rule(FsRule::read_write(path))
    }

    pub fn read_only(self, path: &str) -> (r: Self)
        ensures
            r@ == self@.with_rule(FsRuleView { path: path@, access: FsAccess::Read, glob: false }),
    {
        self.fs_rule(FsRule::read(path))
    }

    pub fn deny(self, path: &str) -> (r: Self)
        ensures
            r@ == self@.with_rule(FsRuleView { path: path@, access: FsAccess::Deny, glob: false }),
    {
        self.fs_rule(FsRule::deny(path))
    }

    pub fn deny_glob(self, pattern: &str) -> (r: Self)
        ensures
            r@ == self@.with_rule(FsRuleView { path: pattern@, access: FsAccess::Deny, glob: true }),
    {
        self.fs_rule(FsRule::deny_glob(pattern))
    }

    pub fn network(self, network: NetworkPolicy) -> (r: Self)
        ensures
            r@ == (PolicyBuilderView { network: network@, ..self@ }),
    {
        PolicyBuilder { network, ..self }
    }

    pub fn exec_policy(self, exec_policy: ExecPolicy) -> (r: Self)
        ensures
            r@ == (PolicyBuilderView { exec_policy, ..self@ }),
    {
        PolicyBuilder { exec_policy, ..self }
    }

    pub fn credential(self, grant: CredentialGrant) -> (r: Self)
        ensures
            r@ == (PolicyBuilderView { credentials: self@.credentials.push(grant@), ..self@ }),
    {
        let ghost before = self.credentials.deep_view();
        let mut credentials = self.credentials;
        credentials.push(grant);
        assert(credentials.deep_view() =~= before.push(grant@));
        PolicyBuilder { credentials, ..self }
    }

    /// Lets the policy expire `ttl` after `now`.
    pub fn ttl(self, ttl: Span, now: Timestamp) -> (r: Self)
        requires
            now.ordinary(),
            ttl.well_formed(),
            now.reaches(ttl),
        ensures
            r@ == (PolicyBuilderView { expires_at: Some(now.after(ttl)), ..self@ }),
    {
        PolicyBuilder { expires_at: Some(now.plus(ttl)), ..self }
    }

    pub fn expires_at(self, at: Timestamp) -> (r: Self)
        ensures
            r@ == (PolicyBuilderView { expires_at: Some(at), ..self@ }),
    {
        PolicyBuilder { expires_at: Some(at), ..self }
    }

    /// Sets how paths are written; without it they are Unix paths.
    pub fn style(self, style: Style) -> (r: Self)
        ensures
            r@ == (PolicyBuilderView { style, ..self@ }),
    {
        PolicyBuilder { style, ..self }
    }

    /// Leaves out the denials that are otherwise added to every policy.
    pub fn without_baseline_denies(self) -> (r: Self)
        ensures
            r@ == (PolicyBuilderView { baseline: false, ..self@ }),
    {
        PolicyBuilder { baseline: false, ..self }
    }

    /// The policy, created at `now` for the home directory `home`.
    pub fn build(self, now: Timestamp, home: &str) -> (r: PolicyResult<Policy>)
        ensures
            match r {
                Ok(p) => p@ == self@.policy(now, home@) && p@.problem() is None,
                Err(e) => self@.policy(now, home@).problem() is Some && e@
                    == PolicyErrorView::Invalid(self@.policy(now, home@).problem()->0),
            },
    {
        let ghost own = self.fs.deep_view();
        let ghost goal = self@.policy(now, home@);
        let mut fs = self.fs;
        if self.baseline {
            let mut extra = baseline_deny_rules(self.style, home);
            let ghost more = extra.deep_view();
            fs.append(&mut extra);
            assert(fs.deep_view() =~= own + more);
        }
        let policy = Policy {
            id: self.id,
            task_id: self.task_id,
            label: self.label,
            default_read: self.default_read,
            fs,
            network: self.network,
            exec_policy: self.exec_policy,
            credentials: self.credentials,
            created_at: now,
            expires_at: self.expires_at,
            workspace: self.workspace,
            glob_root: None,
            style: self.style,
        };
        assert(policy@ =~= goal);
        match policy.validate() {
            Ok(_) => Ok(policy),
            Err(e) => Err(e),
        }
    }
}

// ---------------------------------------------------------------------------
// Laws
// ---------------------------------------------------------------------------
/// The paths with an access are those of the plain rules with exactly that access.
pub proof fn plain_paths_are_of_plain_rules(fs: Seq<FsRuleView>, access: FsAccess, path: Seq<char>)
    ensures
        plain_paths(fs, access).contains(path) <==> exists|k: int|
            0 <= k < fs.len() && (#[trigger] fs[k]).access == access && !fs[k].glob && fs[k].path
                == path,
        plain_paths(fs, access).len() <= fs.len(),
    decreases fs.len(),
{
    let all = plain_paths(fs, access);
    if fs.len() > 0 {
        let front = fs.drop_last();
        let before = plain_paths(front, access);
        plain_paths_are_of_plain_rules(front, access, path);
        if all.contains(path) {
            let j = choose|j: int| 0 <= j < all.len() && all[j] == path;
            if j < before.len() {
                assert(before[j] == path);
                let k = choose|k: int|
                    0 <= k < front.len() && (#[trigger] front[k]).access == access
                        && !front[k].glob && front[k].path == path;
                assert(fs[k] == front[k]);
            } else {
                assert(fs[fs.len() - 1].path == path);
            }
        }
        if exists|k: int|
            0 <= k < fs.len() && (#[trigger] fs[k]).access == access && !fs[k].glob && fs[k].path
                == path {
            let k = choose|k: int|
                0 <= k < fs.len() && (#[trigger] fs[k]).access == access && !fs[k].glob
                    && fs[k].path == path;
            if k < front.len() {
                assert(front[k] == fs[k]);
                assert(before.contains(path));
                let j = choose|j: int| 0 <= j < before.len() && before[j] == path;
                assert(all[j] == path);
            } else {
                assert(all[all.len() - 1] == path);
            }
        }
    }
}

/// Rules are taken one by one and in order: one more rule adds its path behind the
/// others, if it is plain and has the access, and changes nothing else.
pub proof fn paths_keep_the_order_of_the_rules(
    fs: Seq<FsRuleView>,
    rule: FsRuleView,
    access: FsAccess,
)
    ensures
        plain_paths(Seq::empty(), access).len() == 0,
        plain_paths(fs.push(rule), access) == (if rule.access == access && !rule.glob {
            plain_paths(fs, access).push(rule.path)
        } else {
            plain_paths(fs, access)
        }),
        denials(Seq::empty()).len() == 0,
        denials(fs.push(rule)) == (if rule.access == FsAccess::Deny {
            denials(fs).push(rule)
        } else {
            denials(fs)
        }),
{
    assert(fs.push(rule).drop_last() =~= fs);
}

/// A text is blank if all its characters are white space.
pub proof fn blank_is_all_white_space(s: Seq<char>)
    ensures
        blank(s) <==> forall|i: int| 0 <= i < s.len() ==> text::is_space(#[trigger] s[i]),
{
    if forall|i: int| 0 <= i < s.len() ==> text::is_space(#[trigger] s[i]) {
        assert(text::all_of(s, CharClass::Space));
        let none = Seq::<char>::empty();
        text::trimmed_around(s, none, none, CharClass::Space);
        assert(s + none + none =~= s);
    } else {
        let i = choose|i: int| 0 <= i < s.len() && !text::is_space(#[trigger] s[i]);
        text::trimmed_keeps(s, CharClass::Space, i);
    }
}

/// A policy can be used if and only if it has a workspace, an allowlist names at
/// least one host and no blank one, and every credential has a name and a source
/// that are not blank.
pub proof fn what_a_policy_must_hold(p: PolicyView)
    ensures
        p.problem() is None <==> {
            &&& p.workspace.len() > 0
            &&& match p.network {
                NetworkPolicyView::Allowlist(rules) => rules.len() > 0 && forall|i: int|
                    0 <= i < rules.len() ==> exists|k: int|
                        0 <= k < (#[trigger] rules[i]).host.len() && !text::is_space(
                            #[trigger] rules[i].host[k],
                        ),
                _ => true,
            }
            &&& forall|i: int|
                0 <= i < p.credentials.len() ==> (exists|k: int|
                    0 <= k < (#[trigger] p.credentials[i]).name.len() && !text::is_space(
                        #[trigger] p.credentials[i].name[k],
                    )) && (exists|k: int|
                    0 <= k < p.credentials[i].source.len() && !text::is_space(
                        #[trigger] p.credentials[i].source[k],
                    ))
        },
{
    if let NetworkPolicyView::Allowlist(rules) = p.network {
        if rules.len() == 0 {
            assert(rules =~= Seq::empty());
        }
        assert forall|i: int| 0 <= i < rules.len() implies blank((#[trigger] rules[i]).host) == !(
        exists|k: int|
            0 <= k < rules[i].host.len() && !text::is_space(#[trigger] rules[i].host[k])) by {
            blank_is_all_white_space(rules[i].host);
        }
    }
    assert forall|i: int| 0 <= i < p.credentials.len() implies blank(
        (#[trigger] p.credentials[i]).name,
    ) == !(exists|k: int|
        0 <= k < p.credentials[i].name.len() && !text::is_space(#[trigger] p.credentials[i].name[k]))
        && blank(p.credentials[i].source) == !(exists|k: int|
        0 <= k < p.credentials[i].source.len() && !text::is_space(
            #[trigger] p.credentials[i].source[k],
        )) by {
        blank_is_all_white_space(p.credentials[i].name);
        blank_is_all_white_space(p.credentials[i].source);
    }
}

/// A policy has expired once its deadline has come, and never without a deadline.
pub proof fn policies_expire_at_their_deadline(p: PolicyView, now: Timestamp)
    ensures
        p.expires_at is None ==> !p.expired(now),
        p.expires_at is Some ==> (p.expired(now) <==> (p.expires_at->0).seconds < now.seconds || ((
        p.expires_at->0).seconds == now.seconds && (p.expires_at->0).nanos <= now.nanos)),
{
}

/// A policy holds what its builder was told: its rules, with the denials that every
/// policy holds behind them unless they were left out, and everything else as it was
/// set.
pub proof fn policies_hold_what_was_built(b: PolicyBuilderView, now: Timestamp, home: Seq<char>)
    ensures
        ({
            let p = b.policy(now, home);
            &&& p.id == b.id && p.task_id == b.task_id && p.label == b.label
            &&& p.default_read == b.default_read && p.network == b.network && p.exec_policy
                == b.exec_policy
            &&& p.credentials == b.credentials && p.expires_at == b.expires_at && p.workspace
                == b.workspace && p.style == b.style
            &&& p.created_at == now && p.glob_base() == b.workspace
            &&& p.fs.len() >= b.fs.len() && p.fs.take(b.fs.len() as int) == b.fs
            &&& !b.baseline ==> p.fs == b.fs
            &&& b.baseline ==> p.fs.subrange(b.fs.len() as int, p.fs.len() as int)
                == baseline::deny_rules(b.style, home)
        }),
{
    let p = b.policy(now, home);
    assert(p.fs.take(b.fs.len() as int) =~= b.fs);
    if b.baseline {
        assert(p.fs.subrange(b.fs.len() as int, p.fs.len() as int) =~= baseline::deny_rules(
            b.style,
            home,
        ));
    }
}

/// A fresh builder permits nothing on the file system, anything on the network and
/// subprocesses, and adds the usual denials; rules are kept in the order in which
/// they are added.
pub proof fn builders_start_empty(workspace: Seq<char>, id: Seq<char>, rule: FsRuleView)
    ensures
        ({
            let b = PolicyBuilderView::fresh(workspace, id);
            &&& b.workspace == workspace && b.id == id
            &&& b.fs.len() == 0 && b.credentials.len() == 0 && !b.default_read
            &&& b.network is Unrestricted && b.exec_policy == ExecPolicy::Allow && b.baseline
            &&& b.task_id is None && b.label is None && b.expires_at is None
            &&& b.style == Style::Unix
        }),
        forall|b: PolicyBuilderView|
            (#[trigger] b.with_rule(rule)).fs == b.fs.push(rule) && b.with_rule(rule) == (
            PolicyBuilderView { fs: b.fs.push(rule), ..b }),
{
}

} // verus!
