//! Soft checks of file access: what a policy says of a path, from the text of
//! the path alone.
use crate::baseline;
use crate::deny_glob;
use crate::narrow;
use crate::narrow::TaskSpecView;
use crate::native;
use crate::native::Style;
use crate::path;
use crate::paths::{FsAccess, FsRuleView};
use crate::policy::{Policy, PolicyBuilderView, PolicyView};
use crate::text;
use crate::text::CharClass;
use crate::time::Timestamp;
use vstd::prelude::*;
use vstd::string::*;

pub use crate::native::normalize;

verus! {

/// The path as the policy sees it: relative to the workspace, normalised.
pub fn resolve_against_workspace(policy: &Policy, p: &str) -> (r: String)
    ensures
        r@ == native::rendered(
            policy@.style,
            native::resolved(policy@.style, policy@.workspace, p@),
        ),
{
    normalize(
        policy.style,
        native::join(policy.style, policy.workspace.as_str(), p).as_str(),
    )
}

/// A deny glob whose last segment starts with a dot or holds an asterisk also
/// denies every path that holds the rest of that segment anywhere.
pub open spec fn leaf_denies(pattern: Seq<char>, p: Seq<char>) -> bool {
    let leaf = text::split(pattern, '/').last();
    let cleaned = text::trimmed_start(leaf, CharClass::Star);
    &&& (leaf.len() > 0 && leaf[0] == '.') || leaf.contains('*')
    &&& cleaned.len() > 0
    &&& text::has_substring(p, cleaned)
}

/// The deny rule applies to the path with components `np`.
pub open spec fn rule_denies(
    style: Style,
    rule: FsRuleView,
    workspace: Seq<char>,
    np: Seq<Seq<char>>,
) -> bool {
    rule.access == FsAccess::Deny && if rule.glob {
        leaf_denies(rule.path, native::rendered(style, np))
    } else {
        native::under(style, np, native::resolved(style, workspace, rule.path))
    }
}

/// Some rule denies the path with components `np`, leaving glob matching aside.
pub open spec fn path_denied(policy: PolicyView, np: Seq<Seq<char>>) -> bool {
    exists|i: int|
        0 <= i < policy.fs.len() && rule_denies(
            policy.style,
            #[trigger] policy.fs[i],
            policy.workspace,
            np,
        )
}

/// The plain rule grants what is asked for the path with components `np`.
pub open spec fn rule_grants(
    style: Style,
    rule: FsRuleView,
    workspace: Seq<char>,
    np: Seq<Seq<char>>,
    write: bool,
) -> bool {
    &&& !rule.glob
    &&& rule.access == FsAccess::ReadWrite || (!write && rule.access == FsAccess::Read)
    &&& native::under(style, np, native::resolved(style, workspace, rule.path))
}

pub open spec fn path_granted(policy: PolicyView, np: Seq<Seq<char>>, write: bool) -> bool {
    (!write && policy.default_read) || exists|i: int|
        0 <= i < policy.fs.len() && rule_grants(
            policy.style,
            #[trigger] policy.fs[i],
            policy.workspace,
            np,
            write,
        )
}

/// The answer for a path, given whether a deny glob matches it.
pub open spec fn allowed_given(policy: PolicyView, p: Seq<char>, write: bool, glob_hit: bool)
    -> bool {
    let np = native::resolved(policy.style, policy.workspace, p);
    !path_denied(policy, np) && !glob_hit && path_granted(policy, np, write)
}

/// A deny glob of the policy matches the path.
pub open spec fn glob_hit(policy: PolicyView, p: Seq<char>) -> bool {
    deny_glob::glob_denied(
        policy.style,
        policy.fs,
        policy.glob_base(),
        native::rendered(policy.style, native::resolved(policy.style, policy.workspace, p)),
    )
}

/// The answer for a path.
pub open spec fn allowed(policy: PolicyView, p: Seq<char>, write: bool) -> bool {
    allowed_given(policy, p, write, glob_hit(policy, p))
}

/// The answer for what the components `np` stand for, whatever path leads there.
pub open spec fn allowed_at(policy: PolicyView, np: Seq<Seq<char>>, write: bool) -> bool {
    &&& !path_denied(policy, np)
    &&& !deny_glob::glob_denied(
        policy.style,
        policy.fs,
        policy.glob_base(),
        native::rendered(policy.style, np),
    )
    &&& path_granted(policy, np, write)
}

fn leaf_heuristic(pattern: &str, p: &str) -> (r: bool)
    ensures
        r == leaf_denies(pattern@, p@),
{
    let pieces = text::split_on(pattern, '/');
    let ghost m = text::split(pattern@, '/');
    proof {
        path::split_nonempty(pattern@, '/');
    }
    assert(m.last() == pieces@[pieces.len() - 1]@);
    let leaf = pieces[pieces.len() - 1].as_str();
    if !((leaf.unicode_len() > 0 && leaf.get_char(0) == '.') || text::contains_char(leaf, '*')) {
        return false;
    }
    let cleaned = text::trim_start(leaf, CharClass::Star);
    !cleaned.is_empty() && text::contains(p, cleaned)
}

/// Whether the policy permits the access, given whether one of its deny globs
/// matches the path.
///
/// A matching denial wins. Writing needs a read-write rule at or above the path;
/// reading needs a rule there or a policy under which paths are readable by
/// default.
pub fn fs_allowed_given(policy: &Policy, p: &str, write: bool, glob_hit: bool) -> (r: bool)
    ensures
        r == allowed_given(policy@, p@, write, glob_hit),
{
    let ws = policy.workspace.as_str();
    let style = policy.style;
    let np = native::normal_components(style, native::join(style, ws, p).as_str());
    let shown = native::render(style, &np);
    let ghost n = native::resolved(style, ws@, p@);
    let ghost m = policy@.fs;
    let mut i: usize = 0;
    while i < policy.fs.len()
        invariant
            m == policy.fs.deep_view(),
            ws@ == policy@.workspace,
            n == np.deep_view(),
            style == policy@.style,
            shown@ == native::rendered(style, n),
            i <= policy.fs.len(),
            forall|k: int| 0 <= k < i ==> !rule_denies(style, #[trigger] m[k], ws@, n),
            m == policy@.fs,
            n == native::resolved(policy@.style, policy@.workspace, p@),
        decreases policy.fs.len() - i,
    {
        assert(m[i as int] == policy.fs@[i as int]@);
        let rule = &policy.fs[i];
        if rule.access == FsAccess::Deny {
            let hit = if rule.glob {
                leaf_heuristic(rule.path.as_str(), shown.as_str())
            } else {
                native::is_under(
                    style,
                    &np,
                    &native::normal_components(
                        style,
                        native::join(style, ws, rule.path.as_str()).as_str(),
                    ),
                )
            };
            if hit {
                assert(rule_denies(style, policy@.fs[i as int], policy@.workspace, n));
                return false;
            }
        }
        i += 1;
    }
    if glob_hit {
        return false;
    }
    if !write && policy.default_read {
        return true;
    }
    let mut i: usize = 0;
    while i < policy.fs.len()
        invariant
            m == policy.fs.deep_view(),
            ws@ == policy@.workspace,
            n == np.deep_view(),
            i <= policy.fs.len(),
            style == policy@.style,
            forall|k: int| 0 <= k < i ==> !rule_grants(style, #[trigger] m[k], ws@, n, write),
            m == policy@.fs,
            n == native::resolved(policy@.style, policy@.workspace, p@),
            !path_denied(policy@, n),
            !glob_hit,
            !(!write && policy.default_read),
        decreases policy.fs.len() - i,
    {
        assert(m[i as int] == policy.fs@[i as int]@);
        let rule = &policy.fs[i];
        if !rule.glob && (rule.access == FsAccess::ReadWrite || (!write && rule.access
            == FsAccess::Read)) {
            if native::is_under(
                    style,
                &np,
                &native::normal_components(
                        style,
                        native::join(style, ws, rule.path.as_str()).as_str(),
                    ),
            ) {
                assert(rule_grants(style, policy@.fs[i as int], policy@.workspace, n, write));
                return true;
            }
        }
        i += 1;
    }
    false
}

/// Whether the policy permits reading, or with `write` writing, the path.
/// Relative paths are seen from the workspace.
pub fn soft_fs_allowed(policy: &Policy, p: &str, write: bool) -> (r: bool)
    ensures
        r == allowed(policy@, p@, write),
{
    let shown = resolve_against_workspace(policy, p);
    fs_allowed_given(policy, p, write, deny_glob::path_matches_deny_glob(policy, shown.as_str()))
}

// ---------------------------------------------------------------------------
// Resolving for input and output
// ---------------------------------------------------------------------------
/// What was found at a path.
#[derive(Debug)]
pub enum Probe {
    /// Nothing is there.
    Missing,
    /// Something is there; its canonical path, or why that could not be found.
    Found(Result<String, String>),
}

#[verifier::ext_equal]
pub enum ProbeView {
    Missing,
    Found(Result<Seq<char>, Seq<char>>),
}

impl View for Probe {
    type V = ProbeView;

    open spec fn view(&self) -> ProbeView {
        match self {
            Probe::Missing => ProbeView::Missing,
            Probe::Found(Ok(p)) => ProbeView::Found(Ok(p@)),
            Probe::Found(Err(m)) => ProbeView::Found(Err(m@)),
        }
    }
}

impl DeepView for Probe {
    type V = ProbeView;

    open spec fn deep_view(&self) -> ProbeView {
        self@
    }
}

/// The paths at which to look, in order, for components `np`: the path itself,
/// then the directories above it.
pub open spec fn lookups(style: Style, np: Seq<Seq<char>>) -> Seq<Seq<char>>
    decreases np.len(),
{
    if np.len() <= 1 || path::fixed(np.last()) {
        seq![native::rendered(style, np)]
    } else {
        seq![native::rendered(style, np)] + lookups(style, np.drop_last())
    }
}

/// The paths to probe before [`soft_fs_resolve`] can answer.
pub fn resolve_lookups(policy: &Policy, p: &str) -> (r: Vec<String>)
    ensures
        r.deep_view() == lookups(
            policy@.style,
            native::resolved(policy@.style, policy@.workspace, p@),
        ),
{
    let style = policy.style;
    let mut np = native::normal_components(
        style,
        native::join(style, policy.workspace.as_str(), p).as_str(),
    );
    let ghost n = np.deep_view();
    let mut r: Vec<String> = Vec::new();
    r.push(native::render(style, &np));
    assert(r.deep_view() =~= seq![native::rendered(style, n)]);
    let ghost mut k = n;
    while np.len() > 1 && !path::is_fixed(np[np.len() - 1].as_str())
        invariant
            k == np.deep_view(),
            r.deep_view() + lookups(style, k).drop_first() == lookups(style, n),
            r@.len() > 0,
        decreases np.len(),
    {
        let ghost before = r.deep_view();
        np.pop();
        proof {
            let next = k.drop_last();
            assert(np.deep_view() =~= next);
            assert(lookups(style, k).drop_first() =~= lookups(style, next));
            assert(lookups(style, next) =~= seq![native::rendered(style, next)] + lookups(
                style,
                next,
            ).drop_first());
            k = next;
        }
        r.push(native::render(style, &np));
        assert(r.deep_view() =~= before.push(native::rendered(style, k)));
        assert(r.deep_view() + lookups(style, k).drop_first() =~= before + lookups(style, k));
    }
    assert(lookups(style, k).drop_first() =~= Seq::<Seq<char>>::empty());
    assert(r.deep_view() + lookups(style, k).drop_first() =~= r.deep_view());
    r
}

/// The probe of the `i`-th lookup; nothing is known to be where nobody looked.
pub open spec fn probe_at(probes: Seq<ProbeView>, i: int) -> ProbeView {
    if 0 <= i < probes.len() {
        probes[i]
    } else {
        ProbeView::Missing
    }
}

/// Where a new path with components `np` goes, if nothing was found in the first
/// `i` lookups: below the canonical form of the nearest directory above it that
/// was found, or to the path as it stands where there is no such form.
pub open spec fn nearest(style: Style, np: Seq<Seq<char>>, probes: Seq<ProbeView>, i: int) -> Seq<
    char,
>
    decreases np.len() - i,
{
    if i < 1 || i >= np.len() || path::fixed(np[np.len() - i]) {
        native::rendered(style, np)
    } else {
        match probe_at(probes, i) {
            ProbeView::Found(Ok(c)) => native::rendered(
                style,
                path::normal(native::parts(style, c)) + np.subrange(np.len() - i, np.len() as int),
            ),
            ProbeView::Found(Err(_)) => native::rendered(style, np),
            ProbeView::Missing => nearest(style, np, probes, i + 1),
        }
    }
}

/// Where input and output for the path go, or why nowhere.
pub open spec fn resolution(style: Style, np: Seq<Seq<char>>, probes: Seq<ProbeView>) -> Result<
    Seq<char>,
    Seq<char>,
> {
    let shown = native::rendered(style, np);
    match probe_at(probes, 0) {
        ProbeView::Found(Ok(c)) => Ok(
            native::rendered(style, path::normal(native::parts(style, c))),
        ),
        ProbeView::Found(Err(m)) => Err("canonicalize "@ + shown + ": "@ + m),
        ProbeView::Missing => if np.len() == 0 || path::fixed(np.last()) {
            Err("invalid path: "@ + shown)
        } else {
            Ok(nearest(style, np, probes, 1))
        },
    }
}

/// The components of `c`, normalised, and the last `n` of `np`, as a path.
fn below(style: Style, c: &str, np: &Vec<String>, n: usize) -> (r: String)
    requires
        n <= np@.len(),
    ensures
        r@ == native::rendered(
            style,
            path::normal(native::parts(style, c@)) + np.deep_view().subrange(
                np@.len() - n,
                np@.len() as int,
            ),
        ),
{
    let ghost m = np.deep_view();
    let ghost head = path::normal(native::parts(style, c@));
    let first: usize = np.len() - n;
    let mut all = native::normal_components(style, c);
    let mut j: usize = first;
    assert(m.subrange(first as int, j as int) =~= Seq::<Seq<char>>::empty());
    assert(all.deep_view() =~= head + m.subrange(first as int, j as int));
    while j < np.len()
        invariant
            first <= j <= np.len(),
            m == np.deep_view(),
            all.deep_view() == head + m.subrange(first as int, j as int),
        decreases np.len() - j,
    {
        let ghost before = all.deep_view();
        assert(m[j as int] == np@[j as int]@);
        all.push(np[j].clone());
        j += 1;
        assert(all.deep_view() =~= before.push(m[j - 1]));
        assert(all.deep_view() =~= head + m.subrange(first as int, j as int));
    }
    native::render(style, &all)
}

/// Where input and output for the path go, from what was found at the paths of
/// [`resolve_lookups`]: the canonical path of what exists; for a new path the
/// nearest existing directory above it, and the rest of the path below that.
///
/// The result still has to be permitted by [`soft_fs_allowed`].
pub fn soft_fs_resolve(policy: &Policy, p: &str, probes: &Vec<Probe>) -> (r: Result<String, String>)
    ensures
        match r {
            Ok(t) => resolution(
                policy@.style,
                native::resolved(policy@.style, policy@.workspace, p@),
                probes.deep_view(),
            ) == Ok::<Seq<char>, Seq<char>>(t@),
            Err(m) => resolution(
                policy@.style,
                native::resolved(policy@.style, policy@.workspace, p@),
                probes.deep_view(),
            ) == Err::<Seq<char>, Seq<char>>(m@),
        },
{
    let style = policy.style;
    let np = native::normal_components(
        style,
        native::join(style, policy.workspace.as_str(), p).as_str(),
    );
    let ghost n = np.deep_view();
    let ghost pm = probes.deep_view();
    let shown = native::render(style, &np);
    if probes.len() > 0 {
        assert(pm[0] == probes@[0]@);
        match &probes[0] {
            Probe::Found(Ok(c)) => {
                return Ok(normalize(style, c.as_str()));
            },
            Probe::Found(Err(m)) => {
                return Err(
                    "canonicalize ".to_owned().concat(shown.as_str()).concat(": ").concat(
                        m.as_str(),
                    ),
                );
            },
            Probe::Missing => {},
        }
    }
    if np.len() == 0 {
        return Err("invalid path: ".to_owned().concat(shown.as_str()));
    }
    assert(n.last() == np@[np.len() - 1]@);
    if path::is_fixed(np[np.len() - 1].as_str()) {
        return Err("invalid path: ".to_owned().concat(shown.as_str()));
    }
    let mut i: usize = 1;
    while i < np.len()
        invariant
            1 <= i <= np.len(),
            n == np.deep_view(),
            pm == probes.deep_view(),
            shown@ == native::rendered(style, n),
            resolution(style, n, pm) == Ok::<Seq<char>, Seq<char>>(nearest(style, n, pm, i as int)),
            style == policy@.style,
            n == native::resolved(policy@.style, policy@.workspace, p@),
        decreases np.len() - i,
    {
        assert(n[n.len() - i] == np@[np.len() - i]@);
        if path::is_fixed(np[np.len() - i].as_str()) {
            return Ok(shown);
        }
        if i < probes.len() {
            assert(pm[i as int] == probes@[i as int]@);
            match &probes[i] {
                Probe::Found(Ok(c)) => {
                    return Ok(below(style, c.as_str(), &np, i));
                },
                Probe::Found(Err(_)) => {
                    return Ok(shown);
                },
                Probe::Missing => {},
            }
        }
        i += 1;
    }
    Ok(shown)
}

// ---------------------------------------------------------------------------
// Laws
// ---------------------------------------------------------------------------
/// Where no symbolic link was found, a path leads to itself. Of Windows paths this
/// is said of those that are absolute once they are seen from the workspace.
pub proof fn without_links_a_path_leads_to_itself(
    style: Style,
    workspace: Seq<char>,
    p: Seq<char>,
    probes: Seq<ProbeView>,
)
    requires
        native::resolved(style, workspace, p).len() > 0,
        !path::fixed(native::resolved(style, workspace, p).last()),
        style == Style::Windows ==> native::absolute(style, native::joined(style, workspace, p)),
        forall|i: int|
            0 <= i < probes.len() && (#[trigger] probes[i]) is Found ==> {
                let np = native::resolved(style, workspace, p);
                probes[i] == ProbeView::Found(Ok(native::rendered(style, np.take(np.len() - i))))
            },
        probes.len() <= native::resolved(style, workspace, p).len(),
    ensures
        resolution(style, native::resolved(style, workspace, p), probes) == Ok::<
            Seq<char>,
            Seq<char>,
        >(native::rendered(style, native::resolved(style, workspace, p))),
{
    let j = native::joined(style, workspace, p);
    let np = native::resolved(style, workspace, p);
    if probe_at(probes, 0) is Found {
        assert(probes[0] is Found);
        assert(np.take(np.len() - 0) =~= np);
        if style == Style::Windows {
            native::absolute_has_two(j);
        }
        native::resolved_reads_back(style, j, np.len() as int);
    } else {
        nearest_without_links(style, j, probes, 1);
    }
}

proof fn nearest_without_links(style: Style, j: Seq<char>, probes: Seq<ProbeView>, i: int)
    requires
        style == Style::Windows ==> native::absolute(style, j),
        1 <= i,
        forall|i: int|
            0 <= i < probes.len() && (#[trigger] probes[i]) is Found ==> {
                let np = path::normal(native::parts(style, j));
                probes[i] == ProbeView::Found(Ok(native::rendered(style, np.take(np.len() - i))))
            },
    ensures
        ({
            let np = path::normal(native::parts(style, j));
            nearest(style, np, probes, i) == native::rendered(style, np)
        }),
    decreases path::normal(native::parts(style, j)).len() - i,
{
    let np = path::normal(native::parts(style, j));
    if i < np.len() && !path::fixed(np[np.len() - i]) {
        if probe_at(probes, i) is Found {
            assert(probes[i] is Found);
            let head = np.take(np.len() - i);
            if style == Style::Windows {
                native::absolute_has_two(j);
            }
            native::resolved_reads_back(style, j, np.len() - i);
            assert(head + np.subrange(np.len() - i, np.len() as int) =~= np);
        } else {
            nearest_without_links(style, j, probes, i + 1);
        }
    }
}

/// Deny wins: no grant and no default lets a path through that lies at or below
/// a denied one.
pub proof fn deny_wins(policy: PolicyView, rule: int, p: Seq<char>, write: bool)
    requires
        0 <= rule < policy.fs.len(),
        policy.fs[rule].access == FsAccess::Deny,
        !policy.fs[rule].glob,
        native::under(
            policy.style,
            native::resolved(policy.style, policy.workspace, p),
            native::resolved(policy.style, policy.workspace, policy.fs[rule].path),
        ),
    ensures
        !allowed(policy, p, write),
{
    let np = native::resolved(policy.style, policy.workspace, p);
    assert(rule_denies(policy.style, policy.fs[rule], policy.workspace, np));
}

/// Deny globs win too: no grant and no default lets a path through that a deny
/// glob matches.
pub proof fn deny_globs_win(policy: PolicyView, rule: int, p: Seq<char>, write: bool)
    requires
        0 <= rule < policy.fs.len(),
        deny_glob::is_deny_glob(policy.fs[rule]),
        ({
            let shown = native::rendered(
                policy.style,
                native::resolved(policy.style, policy.workspace, p),
            );
            leaf_denies(policy.fs[rule].path, shown) || (deny_glob::usable_pattern(
                policy.fs[rule].path,
            ) && deny_glob::query_hits(
                policy.style,
                deny_glob::query_of(policy.style, policy.fs[rule], policy.glob_base(), shown),
                shown,
            ))
        }),
    ensures
        !allowed(policy, p, write),
{
    let np = native::resolved(policy.style, policy.workspace, p);
    let style = policy.style;
    let shown = native::rendered(style, np);
    if leaf_denies(policy.fs[rule].path, shown) {
        assert(rule_denies(style, policy.fs[rule], policy.workspace, np));
    } else {
        deny_glob::every_deny_glob_is_asked(style, policy.fs, policy.glob_base(), shown, rule);
        let all = deny_glob::queries(style, policy.fs, policy.glob_base(), shown);
        let q = deny_glob::query_of(style, policy.fs[rule], policy.glob_base(), shown);
        let i = choose|i: int| 0 <= i < all.len() && all[i] == q;
        assert(deny_glob::query_hits(style, all[i], shown));
    }
}

/// The policy with one more rule, at `at` among its rules.
pub open spec fn with_rule_at(policy: PolicyView, at: int, rule: FsRuleView) -> PolicyView {
    PolicyView { fs: policy.fs.insert(at, rule), ..policy }
}

/// One more denial, wherever it stands among the rules, permits nothing that was
/// not permitted without it.
pub proof fn one_more_denial_permits_nothing(
    policy: PolicyView,
    at: int,
    rule: FsRuleView,
    p: Seq<char>,
    write: bool,
)
    requires
        0 <= at <= policy.fs.len(),
        rule.access == FsAccess::Deny,
    ensures
        allowed(with_rule_at(policy, at, rule), p, write) ==> allowed(policy, p, write),
{
    let more = with_rule_at(policy, at, rule);
    let style = policy.style;
    let np = native::resolved(style, policy.workspace, p);
    let shown = native::rendered(style, np);
    if allowed(more, p, write) {
        if path_denied(policy, np) {
            let i = choose|i: int|
                0 <= i < policy.fs.len() && rule_denies(
                    style,
                    #[trigger] policy.fs[i],
                    policy.workspace,
                    np,
                );
            let k = behind_insertion(at, i);
            assert(more.fs[k] == policy.fs[i]);
            assert(rule_denies(style, more.fs[k], more.workspace, np));
        }
        if deny_glob::glob_denied(style, policy.fs, policy.glob_base(), shown) {
            let all = deny_glob::queries(style, policy.fs, policy.glob_base(), shown);
            let n = choose|n: int|
                0 <= n < all.len() && deny_glob::query_hits(style, #[trigger] all[n], shown);
            let i = deny_glob::every_query_is_of_a_deny_glob(
                style,
                policy.fs,
                policy.glob_base(),
                shown,
                n,
            );
            let k = behind_insertion(at, i);
            assert(more.fs[k] == policy.fs[i]);
            deny_globs_win(more, k, p, write);
        }
        if !(!write && policy.default_read) {
            let k = choose|k: int|
                0 <= k < more.fs.len() && rule_grants(
                    style,
                    #[trigger] more.fs[k],
                    more.workspace,
                    np,
                    write,
                );
            let i = if k < at {
                k
            } else {
                k - 1
            };
            assert(more.fs[k] == policy.fs[i]);
            assert(rule_grants(style, policy.fs[i], policy.workspace, np, write));
        }
    }
}

/// Where the `i`-th of some things is once another one is put in at `at`.
spec fn behind_insertion(at: int, i: int) -> int {
    if i < at {
        i
    } else {
        i + 1
    }
}

/// What may be written may be read.
pub proof fn writable_is_readable(policy: PolicyView, p: Seq<char>)
    ensures
        allowed(policy, p, true) ==> allowed(policy, p, false),
{
    if allowed(policy, p, true) {
        let np = native::resolved(policy.style, policy.workspace, p);
        let i = choose|i: int|
            0 <= i < policy.fs.len() && rule_grants(
                policy.style,
                #[trigger] policy.fs[i],
                policy.workspace,
                np,
                true,
            );
        assert(rule_grants(policy.style, policy.fs[i], policy.workspace, np, false));
    }
}

/// Writing needs a read-write rule: nothing else makes a path writable.
pub proof fn write_needs_a_rule(policy: PolicyView, p: Seq<char>)
    ensures
        allowed(policy, p, true) ==> exists|i: int|
            0 <= i < policy.fs.len() && (#[trigger] policy.fs[i]).access == FsAccess::ReadWrite
                && native::under(
                policy.style,
                native::resolved(policy.style, policy.workspace, p),
                native::resolved(policy.style, policy.workspace, policy.fs[i].path),
            ),
{
    if allowed(policy, p, true) {
        let np = native::resolved(policy.style, policy.workspace, p);
        let i = choose|i: int|
            0 <= i < policy.fs.len() && rule_grants(
                policy.style,
                #[trigger] policy.fs[i],
                policy.workspace,
                np,
                true,
            );
        assert(policy.fs[i].access == FsAccess::ReadWrite);
    }
}

/// The answer for a path is the answer for its normalised form.
pub proof fn answer_is_of_the_resolved_path(policy: PolicyView, p: Seq<char>, write: bool)
    requires
        native::absolute(policy.style, native::joined(policy.style, policy.workspace, p)),
    ensures
        allowed(
            policy,
            native::rendered(
                policy.style,
                native::resolved(policy.style, policy.workspace, p),
            ),
            write,
        ) == allowed(policy, p, write),
{
    let style = policy.style;
    let j = native::joined(style, policy.workspace, p);
    let np = native::resolved(style, policy.workspace, p);
    if style == Style::Windows {
        native::absolute_has_two(j);
    }
    native::resolved_reads_back(style, j, np.len() as int);
    assert(np.take(np.len() as int) =~= np);
    if style == Style::Unix {
        path::normal_keeps_root(j);
    }
    let shown = native::rendered(style, np);
    assert(native::joined(style, policy.workspace, shown) == shown);
}

/// The baseline denials hold in every policy from a builder that did not opt
/// out: the credential directories below the home directory are out of reach,
/// whatever else the policy grants.
pub proof fn baseline_is_out_of_reach(
    builder: PolicyBuilderView,
    now: Timestamp,
    home: Seq<char>,
    secret: int,
    p: Seq<char>,
    write: bool,
)
    requires
        builder.baseline,
        0 <= secret < baseline::credential_rules(builder.style, home).len(),
        native::under(
            builder.style,
            native::resolved(builder.style, builder.workspace, p),
            native::resolved(
                builder.style,
                builder.workspace,
                baseline::credential_rules(builder.style, home)[secret].path,
            ),
        ),
    ensures
        !allowed(builder.policy(now, home), p, write),
{
    let policy = builder.policy(now, home);
    let i = builder.fs.len() + secret;
    assert(policy.fs[i] == baseline::credential_rules(builder.style, home)[secret]);
    assert(!policy.fs[i].glob && policy.fs[i].access == FsAccess::Deny);
    deny_wins(policy, i, p, write);
}

/// The same holds of the names under which secrets are usually kept, wherever
/// they are found.
pub proof fn baseline_names_are_out_of_reach(
    builder: PolicyBuilderView,
    now: Timestamp,
    home: Seq<char>,
    secret: int,
    p: Seq<char>,
    write: bool,
)
    requires
        builder.baseline,
        0 <= secret < baseline::secret_patterns().len(),
        ({
            let shown = native::rendered(
                builder.style,
                native::resolved(builder.style, builder.workspace, p),
            );
            let pattern = baseline::secret_patterns()[secret];
            leaf_denies(pattern, shown) || deny_glob::query_hits(
                builder.style,
                deny_glob::query_of(
                    builder.style,
                    baseline::denial(pattern, true),
                    builder.workspace,
                    shown,
                ),
                shown,
            )
        }),
    ensures
        !allowed(builder.policy(now, home), p, write),
{
    let policy = builder.policy(now, home);
    let i = builder.fs.len() + baseline::credential_rules(builder.style, home).len() + secret;
    let pattern = baseline::secret_patterns()[secret];
    assert(baseline::secret_rules()[secret] == baseline::denial(pattern, true));
    assert(policy.fs[i] == baseline::denial(pattern, true));
    patterns_are_not_blank(secret);
    deny_globs_win(policy, i, p, write);
}

proof fn patterns_are_not_blank(secret: int)
    requires
        0 <= secret < baseline::secret_patterns().len(),
    ensures
        deny_glob::usable_pattern(baseline::secret_patterns()[secret]),
{
    reveal_strlit("**/.env");
    reveal_strlit("**/.env.*");
    reveal_strlit("**/.env.local");
    reveal_strlit("**/*.pem");
    reveal_strlit("**/*.key");
    reveal_strlit("**/*.p12");
    reveal_strlit("**/*.pfx");
    reveal_strlit("**/id_rsa");
    reveal_strlit("**/id_ed25519");
    reveal_strlit("**/id_ecdsa");
    reveal_strlit("**/credentials.json");
    reveal_strlit("**/.netrc");
    reveal_strlit("**/secrets.yaml");
    reveal_strlit("**/secrets.yml");
    let s = baseline::secret_patterns()[secret];
    assert(s.len() > 0 && s[0] == '*');
    assert(!CharClass::Space.has(s[0]));
    assert(text::trimmed_start(s, CharClass::Space) == s);
    assert(!CharClass::Space.has(s.last()));
}

/// The queries of a longer rule list hold those of the shorter one.
proof fn queries_grow(
    style: Style,
    fs: Seq<FsRuleView>,
    more: Seq<FsRuleView>,
    workspace: Seq<char>,
    p: Seq<char>,
)
    ensures
        deny_glob::queries(style, fs, workspace, p).is_prefix_of(
            deny_glob::queries(style, fs + more, workspace, p),
        ),
    decreases more.len(),
{
    if more.len() == 0 {
        assert(fs + more =~= fs);
    } else {
        queries_grow(style, fs, more.drop_last(), workspace, p);
        assert((fs + more).drop_last() =~= fs + more.drop_last());
        let a = deny_glob::queries(style, fs, workspace, p);
        let b = deny_glob::queries(style, fs + more.drop_last(), workspace, p);
        let c = deny_glob::queries(style, fs + more, workspace, p);
        assert(c.subrange(0, a.len() as int) =~= b.subrange(0, a.len() as int));
    }
}

/// Queries depend on the components of what they are seen from alone.
proof fn queries_from_the_same_place(
    style: Style,
    fs: Seq<FsRuleView>,
    a: Seq<char>,
    b: Seq<char>,
    p: Seq<char>,
)
    requires
        native::same_path(style, a, b),
    ensures
        deny_glob::queries(style, fs, a, p) == deny_glob::queries(style, fs, b, p),
    decreases fs.len(),
{
    if fs.len() > 0 {
        queries_from_the_same_place(style, fs.drop_last(), a, b, p);
    }
}

/// What a parent's deny globs match, its child's match too.
proof fn child_globs_hit(
    parent: PolicyView,
    task: TaskSpecView,
    id: Seq<char>,
    now: Timestamp,
    shown: Seq<char>,
)
    requires
        deny_glob::glob_denied(parent.style, parent.fs, parent.glob_base(), shown),
    ensures
        ({
            let child = narrow::narrowed(parent, task, id, now);
            deny_glob::glob_denied(child.style, child.fs, child.glob_base(), shown)
        }),
{
    let child = narrow::narrowed(parent, task, id, now);
    let more = narrow::denials_of(task.extra_deny);
    let base = parent.glob_base();
    let style = parent.style;
    assert(native::same_path(style, child.glob_base(), base));
    queries_from_the_same_place(style, child.fs, child.glob_base(), base, shown);
    queries_grow(style, parent.fs, more, base, shown);
    let a = deny_glob::queries(style, parent.fs, base, shown);
    let b = deny_glob::queries(style, child.fs, base, shown);
    let i = choose|i: int|
        0 <= i < a.len() && deny_glob::query_hits(style, #[trigger] a[i], shown);
    assert(b.subrange(0, a.len() as int)[i] == b[i]);
    assert(deny_glob::query_hits(style, b[i], shown));
}

/// What is shut off above a path is shut off at the path.
proof fn shut_above_is_denied(policy: PolicyView, np: Seq<Seq<char>>, at: Seq<Seq<char>>)
    requires
        native::under(policy.style, np, at),
        narrow::shut(policy.style, policy.fs, policy.workspace, at),
    ensures
        path_denied(policy, np),
{
    let k = choose|k: int|
        0 <= k < policy.fs.len() && narrow::shuts(
            policy.style,
            #[trigger] policy.fs[k],
            policy.workspace,
            at,
        );
    native::under_is_transitive(
        policy.style,
        np,
        at,
        native::resolved(policy.style, policy.workspace, policy.fs[k].path),
    );
    assert(rule_denies(policy.style, policy.fs[k], policy.workspace, np));
}

/// What the child may reach at `np`, the plain rules of the parent do not deny.
proof fn child_is_not_denied(
    parent: PolicyView,
    task: TaskSpecView,
    id: Seq<char>,
    now: Timestamp,
    np: Seq<Seq<char>>,
    write: bool,
)
    requires
        narrow::refusal(parent, task, id, now) is None,
        !path_denied(narrow::narrowed(parent, task, id, now), np),
        path_granted(narrow::narrowed(parent, task, id, now), np, write),
    ensures
        !path_denied(parent, np),
{
    let child = narrow::narrowed(parent, task, id, now);
    let style = parent.style;
    if path_denied(parent, np) {
        let i = choose|i: int|
            0 <= i < parent.fs.len() && rule_denies(
                parent.style,
                #[trigger] parent.fs[i],
                parent.workspace,
                np,
            );
        assert(child.fs[i] == parent.fs[i]);
        if parent.fs[i].glob {
            assert(rule_denies(style, child.fs[i], child.workspace, np));
        } else {
            let at = native::resolved(style, parent.workspace, parent.fs[i].path);
            narrow::no_inherited_rule_widens(parent, task, id, now, i);
            if narrow::shut(style, child.fs, child.workspace, at) {
                shut_above_is_denied(child, np, at);
            }
            let k = choose|k: int|
                0 <= k < child.fs.len() && rule_grants(
                    child.style,
                    #[trigger] child.fs[k],
                    child.workspace,
                    np,
                    write,
                );
            let from = native::resolved(style, child.workspace, child.fs[k].path);
            if narrow::shut(style, child.fs, child.workspace, from) {
                shut_above_is_denied(child, np, from);
            }
            native::directories_above_overlap(style, np, from, at);
            assert(narrow::effective(style, child.fs, child.workspace, child.fs[k]));
            assert(narrow::reached(style, child.fs, child.workspace, at));
        }
    }
}

/// What the child may reach at `np`, the parent grants.
proof fn child_is_granted(
    parent: PolicyView,
    task: TaskSpecView,
    id: Seq<char>,
    now: Timestamp,
    np: Seq<Seq<char>>,
    write: bool,
)
    requires
        narrow::refusal(parent, task, id, now) is None,
        !path_denied(narrow::narrowed(parent, task, id, now), np),
        path_granted(narrow::narrowed(parent, task, id, now), np, write),
    ensures
        path_granted(parent, np, write),
{
    let child = narrow::narrowed(parent, task, id, now);
    let style = parent.style;
    if !(!write && parent.default_read) {
        let k = choose|k: int|
            0 <= k < child.fs.len() && rule_grants(
                child.style,
                #[trigger] child.fs[k],
                child.workspace,
                np,
                write,
            );
        if k >= parent.fs.len() {
            assert(child.fs[k] == narrow::denials_of(task.extra_deny)[k - parent.fs.len()]);
        }
        assert(child.fs[k] == parent.fs[k]);
        let rule = child.fs[k];
        let from = native::resolved(style, child.workspace, rule.path);
        let writes = rule.access == FsAccess::ReadWrite;
        if narrow::shut(style, child.fs, child.workspace, from) {
            shut_above_is_denied(child, np, from);
        }
        narrow::no_inherited_rule_widens(parent, task, id, now, k);
        assert(path_granted(parent, from, writes));
        let j = choose|j: int|
            0 <= j < parent.fs.len() && rule_grants(
                parent.style,
                #[trigger] parent.fs[j],
                parent.workspace,
                from,
                writes,
            );
        native::under_is_transitive(
            style,
            np,
            from,
            native::resolved(style, parent.workspace, parent.fs[j].path),
        );
        assert(rule_grants(style, parent.fs[j], parent.workspace, np, write));
    }
}

/// The child of a policy may read and write nothing that its parent may not.
///
/// A path that is relative for the child is one that the parent sees from the
/// child's workspace. The second clause says this of the components that a path
/// stands for, and so of relative workspaces too.
pub proof fn narrowing_never_widens_file_access(
    parent: PolicyView,
    task: TaskSpecView,
    id: Seq<char>,
    now: Timestamp,
    p: Seq<char>,
    write: bool,
)
    requires
        narrow::refusal(parent, task, id, now) is None,
    ensures
        ({
            let child = narrow::narrowed(parent, task, id, now);
            let seen = native::joined(child.style, child.workspace, p);
            &&& native::absolute(child.style, seen) && allowed(child, p, write) ==> allowed(
                parent,
                seen,
                write,
            )
            &&& allowed(child, p, write) ==> allowed_at(
                parent,
                native::resolved(child.style, child.workspace, p),
                write,
            )
        }),
{
    let child = narrow::narrowed(parent, task, id, now);
    let np = native::resolved(child.style, child.workspace, p);
    let shown = native::rendered(child.style, np);
    if allowed(child, p, write) {
        child_is_not_denied(parent, task, id, now, np, write);
        child_is_granted(parent, task, id, now, np, write);
        if deny_glob::glob_denied(parent.style, parent.fs, parent.glob_base(), shown) {
            child_globs_hit(parent, task, id, now, shown);
        }
        assert(allowed_at(parent, np, write));
    }
}

/// An access is permitted if and only if three things hold. No plain denial lies at
/// or above the path. No deny glob denies the path: neither is what its last segment
/// ends in, behind asterisks, found in the path, if that segment holds an asterisk or
/// starts with a dot, nor does the glob match the path, whole or seen from where
/// globs are seen from. And a rule grants it: a plain read-write rule at or above the
/// path, or for reading a plain read rule or readability by default.
pub proof fn answers_follow_the_rules(policy: PolicyView, p: Seq<char>, write: bool)
    ensures
        ({
            let np = native::resolved(policy.style, policy.workspace, p);
            let shown = native::rendered(policy.style, np);
            let base = policy.glob_base();
            let seen = if native::under(
                policy.style,
                native::parts(policy.style, shown),
                native::parts(policy.style, base),
            ) {
                native::tail_text(
                    policy.style,
                    shown,
                    native::parts(policy.style, base).len() as int,
                )
            } else {
                shown
            };
            allowed(policy, p, write) <==> {
                &&& forall|i: int|
                    0 <= i < policy.fs.len() && (#[trigger] policy.fs[i]).access == FsAccess::Deny
                        && !policy.fs[i].glob ==> !native::under(
                        policy.style,
                        np,
                        native::resolved(policy.style, policy.workspace, policy.fs[i].path),
                    )
                &&& forall|i: int|
                    0 <= i < policy.fs.len() && (#[trigger] policy.fs[i]).access == FsAccess::Deny
                        && policy.fs[i].glob ==> {
                        let glob = policy.fs[i].path;
                        let leaf = text::split(glob, '/').last();
                        let end = text::trimmed_start(leaf, CharClass::Star);
                        let pattern = text::trimmed_start(glob, CharClass::Slash);
                        &&& !((leaf.contains('*') || (leaf.len() > 0 && leaf[0] == '.'))
                            && end.len() > 0 && exists|k: int|
                            0 <= k <= shown.len() - end.len() && #[trigger] shown.subrange(
                                k,
                                k + end.len(),
                            ) == end)
                        &&& text::trimmed(glob, CharClass::Space).len() == 0
                            || deny_glob::glob_error(pattern) is Some
                            || deny_glob::glob_set_error(pattern) is Some || !(
                        deny_glob::glob_matches(pattern, native::glob_text(policy.style, seen))
                            || deny_glob::glob_matches(
                            pattern,
                            native::glob_text(policy.style, shown),
                        ))
                    }
                &&& (!write && policy.default_read) || exists|i: int|
                    0 <= i < policy.fs.len() && !(#[trigger] policy.fs[i]).glob && (
                    policy.fs[i].access == FsAccess::ReadWrite || (policy.fs[i].access
                        == FsAccess::Read && !write)) && native::under(
                        policy.style,
                        np,
                        native::resolved(policy.style, policy.workspace, policy.fs[i].path),
                    )
            }
        }),
{
    let style = policy.style;
    let np = native::resolved(style, policy.workspace, p);
    let shown = native::rendered(style, np);
    let base = policy.glob_base();
    let all = deny_glob::queries(style, policy.fs, base, shown);
    if allowed(policy, p, write) {
        assert forall|i: int|
            0 <= i < policy.fs.len() && (#[trigger] policy.fs[i]).access
                == FsAccess::Deny implies !rule_denies(
            style,
            policy.fs[i],
            policy.workspace,
            np,
        ) && (policy.fs[i].glob ==> !(deny_glob::usable_pattern(policy.fs[i].path)
            && deny_glob::query_hits(
            style,
            deny_glob::query_of(style, policy.fs[i], base, shown),
            shown,
        ))) by {
            if policy.fs[i].glob && deny_glob::usable_pattern(policy.fs[i].path)
                && deny_glob::query_hits(
                style,
                deny_glob::query_of(style, policy.fs[i], base, shown),
                shown,
            ) {
                deny_globs_win(policy, i, p, write);
            }
        }
        if !(!write && policy.default_read) {
            let i = choose|i: int|
                0 <= i < policy.fs.len() && rule_grants(
                    style,
                    #[trigger] policy.fs[i],
                    policy.workspace,
                    np,
                    write,
                );
            assert(!policy.fs[i].glob);
        }
    } else {
        if path_denied(policy, np) {
            let i = choose|i: int|
                0 <= i < policy.fs.len() && rule_denies(
                    style,
                    #[trigger] policy.fs[i],
                    policy.workspace,
                    np,
                );
            assert(policy.fs[i].access == FsAccess::Deny);
        } else if deny_glob::glob_denied(style, policy.fs, base, shown) {
            let n = choose|n: int|
                0 <= n < all.len() && deny_glob::query_hits(style, #[trigger] all[n], shown);
            let i = deny_glob::every_query_is_of_a_deny_glob(style, policy.fs, base, shown, n);
            assert(policy.fs[i].access == FsAccess::Deny && policy.fs[i].glob);
        } else if write || !policy.default_read {
            assert forall|i: int| 0 <= i < policy.fs.len() implies !rule_grants(
                style,
                #[trigger] policy.fs[i],
                policy.workspace,
                np,
                write,
            ) by {}
        }
    }
}

/// A policy that denies nothing refuses nothing at or below what it lets be written.
pub proof fn without_denials_grants_hold(policy: PolicyView, rule: int, p: Seq<char>, write: bool)
    requires
        forall|i: int| 0 <= i < policy.fs.len() ==> (#[trigger] policy.fs[i]).access != FsAccess::Deny,
        0 <= rule < policy.fs.len(),
        !policy.fs[rule].glob,
        policy.fs[rule].access == FsAccess::ReadWrite,
        native::under(
            policy.style,
            native::resolved(policy.style, policy.workspace, p),
            native::resolved(policy.style, policy.workspace, policy.fs[rule].path),
        ),
    ensures
        allowed(policy, p, write),
{
    answers_follow_the_rules(policy, p, write);
}

/// One more grant, wherever it stands among the rules, refuses nothing that was
/// permitted without it; and what it covers is permitted unless it is denied.
pub proof fn one_more_grant_refuses_nothing(
    policy: PolicyView,
    at: int,
    rule: FsRuleView,
    p: Seq<char>,
    write: bool,
)
    requires
        0 <= at <= policy.fs.len(),
        rule.access != FsAccess::Deny,
    ensures
        allowed(policy, p, write) ==> allowed(with_rule_at(policy, at, rule), p, write),
{
    let more = with_rule_at(policy, at, rule);
    answers_follow_the_rules(policy, p, write);
    answers_follow_the_rules(more, p, write);
    if allowed(policy, p, write) {
        assert forall|k: int|
            0 <= k < more.fs.len() && (#[trigger] more.fs[k]).access == FsAccess::Deny implies
            exists|i: int| 0 <= i < policy.fs.len() && #[trigger] policy.fs[i] == more.fs[k] by {
            let i = if k < at {
                k
            } else {
                k - 1
            };
            assert(policy.fs[i] == more.fs[k]);
        }
        if !(!write && policy.default_read) {
            let np = native::resolved(policy.style, policy.workspace, p);
            let i = choose|i: int|
                0 <= i < policy.fs.len() && !(#[trigger] policy.fs[i]).glob && (
                policy.fs[i].access == FsAccess::ReadWrite || (policy.fs[i].access
                    == FsAccess::Read && !write)) && native::under(
                    policy.style,
                    np,
                    native::resolved(policy.style, policy.workspace, policy.fs[i].path),
                );
            let k = behind_insertion(at, i);
            assert(more.fs[k] == policy.fs[i]);
        }
    }
}

/// The answer without deny globs follows the plain rules and the last segments of
/// the globs; a glob that matches denies, and nothing else changes with it.
pub proof fn a_matching_glob_denies(policy: PolicyView, p: Seq<char>, write: bool)
    ensures
        !allowed_given(policy, p, write, true),
        allowed(policy, p, write) ==> allowed_given(policy, p, write, false),
        allowed_given(policy, p, write, false) ==> allowed(policy, p, write) || glob_hit(policy, p),
        glob_hit(policy, p) <==> exists|i: int|
            0 <= i < policy.fs.len() && (#[trigger] policy.fs[i]).access == FsAccess::Deny
                && policy.fs[i].glob && text::trimmed(policy.fs[i].path, CharClass::Space).len() > 0
                && deny_glob::query_hits(
                policy.style,
                deny_glob::query_of(
                    policy.style,
                    policy.fs[i],
                    policy.glob_base(),
                    native::rendered(
                        policy.style,
                        native::resolved(policy.style, policy.workspace, p),
                    ),
                ),
                native::rendered(
                    policy.style,
                    native::resolved(policy.style, policy.workspace, p),
                ),
            ),
{
    let style = policy.style;
    let shown = native::rendered(style, native::resolved(style, policy.workspace, p));
    let base = policy.glob_base();
    let all = deny_glob::queries(style, policy.fs, base, shown);
    if glob_hit(policy, p) {
        let n = choose|n: int|
            0 <= n < all.len() && deny_glob::query_hits(style, #[trigger] all[n], shown);
        let i = deny_glob::every_query_is_of_a_deny_glob(style, policy.fs, base, shown, n);
        assert(policy.fs[i].access == FsAccess::Deny);
    }
    assert forall|i: int|
        0 <= i < policy.fs.len() && (#[trigger] policy.fs[i]).access == FsAccess::Deny
            && policy.fs[i].glob && deny_glob::usable_pattern(policy.fs[i].path)
            && deny_glob::query_hits(
            style,
            deny_glob::query_of(style, policy.fs[i], base, shown),
            shown,
        ) implies glob_hit(policy, p) by {
        deny_glob::every_deny_glob_is_asked(style, policy.fs, base, shown, i);
        let q = deny_glob::query_of(style, policy.fs[i], base, shown);
        let n = choose|n: int| 0 <= n < all.len() && all[n] == q;
        assert(deny_glob::query_hits(style, all[n], shown));
    }
}

/// The paths to look at are the path itself and the directories above it, up to
/// the root.
pub proof fn lookups_climb_to_the_root(style: Style, np: Seq<Seq<char>>, i: int)
    requires
        0 <= i < lookups(style, np).len(),
    ensures
        i == 0 || i < np.len(),
        lookups(style, np)[i] == native::rendered(style, np.take(np.len() - i)),
        forall|k: int| 0 <= k < i ==> !path::fixed(#[trigger] np[np.len() - 1 - k]),
        i == lookups(style, np).len() - 1 ==> np.len() <= i + 1 || path::fixed(np[np.len() - 1 - i]),
    decreases np.len(),
{
    assert(np.take(np.len() as int) =~= np);
    if np.len() > 1 {
        assert(lookups(style, np.drop_last()).len() > 0);
    }
    if i > 0 {
        let up = np.drop_last();
        lookups_climb_to_the_root(style, up, i - 1);
        assert(up.take(up.len() - (i - 1)) =~= np.take(np.len() - i));
        assert forall|k: int| 0 <= k < i implies !path::fixed(#[trigger] np[np.len() - 1 - k]) by {
            if k > 0 {
                assert(up[up.len() - 1 - (k - 1)] == np[np.len() - 1 - k]);
            }
        }
        assert(i - 1 == lookups(style, up).len() - 1 ==> up.len() <= i || up[up.len() - 1 - (i - 1)]
            == np[np.len() - 1 - i]);
    }
}

/// What exists is used where it really is.
pub proof fn existing_paths_lead_where_they_are(
    style: Style,
    np: Seq<Seq<char>>,
    probes: Seq<ProbeView>,
)
    requires
        probes.len() > 0,
        probes[0] is Found,
    ensures
        match probes[0] {
            ProbeView::Found(Ok(c)) => resolution(style, np, probes) == Ok::<Seq<char>, Seq<char>>(
                native::rendered(style, path::normal(native::parts(style, c))),
            ),
            _ => resolution(style, np, probes) is Err,
        },
{
}

/// What does not exist yet goes below the nearest directory above it that does, where
/// that really is, with the rest of the path unchanged.
pub proof fn new_paths_go_below_the_nearest_directory(
    style: Style,
    np: Seq<Seq<char>>,
    probes: Seq<ProbeView>,
    k: int,
)
    requires
        1 <= k < np.len(),
        k < probes.len(),
        forall|i: int| 0 <= i < k ==> (#[trigger] probes[i]) is Missing,
        forall|i: int| 0 <= i < k ==> !path::fixed(#[trigger] np[np.len() - 1 - i]),
        probes[k] is Found,
    ensures
        match probes[k] {
            ProbeView::Found(Ok(c)) => resolution(style, np, probes) == Ok::<Seq<char>, Seq<char>>(
                native::rendered(
                    style,
                    path::normal(native::parts(style, c)) + np.subrange(
                        np.len() - k,
                        np.len() as int,
                    ),
                ),
            ),
            _ => resolution(style, np, probes) == Ok::<Seq<char>, Seq<char>>(
                native::rendered(style, np),
            ),
        },
{
    assert(!path::fixed(np[np.len() - 1 - 0]));
    assert(probes[0] is Missing);
    climb_to(style, np, probes, 1, k);
}

proof fn climb_to(style: Style, np: Seq<Seq<char>>, probes: Seq<ProbeView>, i: int, k: int)
    requires
        1 <= i <= k < np.len(),
        k < probes.len(),
        forall|i: int| 0 <= i < k ==> (#[trigger] probes[i]) is Missing,
        forall|i: int| 0 <= i < k ==> !path::fixed(#[trigger] np[np.len() - 1 - i]),
    ensures
        nearest(style, np, probes, i) == nearest(style, np, probes, k),
        !path::fixed(np[np.len() - k]),
    decreases k - i,
{
    assert(!path::fixed(np[np.len() - 1 - (k - 1)]));
    if i < k {
        assert(probes[i] is Missing);
        assert(!path::fixed(np[np.len() - 1 - (i - 1)]));
        climb_to(style, np, probes, i + 1, k);
    }
}

/// A path of which nothing exists goes where it says; the root, which is no new
/// path, nowhere.
pub proof fn paths_without_anything_stand(style: Style, np: Seq<Seq<char>>)
    ensures
        resolution(style, np, Seq::empty()) == (if np.len() == 0 || path::fixed(np.last()) {
            Err::<Seq<char>, Seq<char>>("invalid path: "@ + native::rendered(style, np))
        } else {
            Ok::<Seq<char>, Seq<char>>(native::rendered(style, np))
        }),
{
    nothing_found(style, np, 1);
}

proof fn nothing_found(style: Style, np: Seq<Seq<char>>, i: int)
    requires
        1 <= i,
    ensures
        nearest(style, np, Seq::empty(), i) == native::rendered(style, np),
    decreases np.len() - i,
{
    if i < np.len() {
        nothing_found(style, np, i + 1);
    }
}

/// What a subtask denies on top is out of its reach.
pub proof fn added_denials_hold(
    parent: PolicyView,
    task: TaskSpecView,
    id: Seq<char>,
    now: Timestamp,
    i: int,
    p: Seq<char>,
    write: bool,
)
    requires
        0 <= i < task.extra_deny.len(),
        ({
            let child = narrow::narrowed(parent, task, id, now);
            native::under(
                parent.style,
                native::resolved(parent.style, child.workspace, p),
                native::resolved(parent.style, child.workspace, task.extra_deny[i]),
            )
        }),
    ensures
        !allowed(narrow::narrowed(parent, task, id, now), p, write),
{
    let child = narrow::narrowed(parent, task, id, now);
    narrow::narrowing_does_what_the_task_asks(parent, task, id, now);
    let k = parent.fs.len() + i;
    assert(task.extra_deny[i] == child.fs[k].path);
    deny_wins(child, k, p, write);
}

} // verus!
