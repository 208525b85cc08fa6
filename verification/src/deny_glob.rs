//! Deny globs: matching, expansion and translation to regular expressions.
use crate::error::{EnforceError, EnforceErrorView, EnforceResult};
use crate::native;
use crate::native::Style;
use crate::order;
use crate::path;
use crate::paths::{FsAccess, FsRuleView};
use crate::policy::Policy;
use crate::text;
use crate::text::CharClass;
use vstd::prelude::*;
use vstd::string::*;

verus! {

/// The most paths that one glob may expand to.
pub const DENY_GLOB_MAX_MATCHES: usize = 10_000;

// ---------------------------------------------------------------------------
// Glob matching
// ---------------------------------------------------------------------------
/// A set of globs that are matched together.
#[verifier::external_type_specification]
#[verifier::external_body]
pub struct ExGlobSet(globset::GlobSet);

/// Why a glob cannot be used.
#[derive(Debug)]
pub enum GlobProblem {
    /// It is no glob; the parser's message.
    Parse(String),
    /// No matcher could be built for it; the builder's message.
    Build(String),
}

#[verifier::ext_equal]
pub enum GlobProblemView {
    Parse(Seq<char>),
    Build(Seq<char>),
}

impl View for GlobProblem {
    type V = GlobProblemView;

    open spec fn view(&self) -> GlobProblemView {
        match self {
            GlobProblem::Parse(m) => GlobProblemView::Parse(m@),
            GlobProblem::Build(m) => GlobProblemView::Build(m@),
        }
    }
}

/// The patterns that a set of globs was built from.
pub uninterp spec fn glob_set_patterns(set: globset::GlobSet) -> Seq<Seq<char>>;

/// The error of `Glob::new` on the pattern, if it is no glob.
pub uninterp spec fn glob_error(pattern: Seq<char>) -> Option<Seq<char>>;

/// The error of `GlobSetBuilder::build` for a set of this one pattern, if none
/// can be built.
pub uninterp spec fn glob_set_error(pattern: Seq<char>) -> Option<Seq<char>>;

/// Whether `globset` lets the pattern match the path text.
pub uninterp spec fn glob_matches(pattern: Seq<char>, text: Seq<char>) -> bool;

/// Why the pattern is unusable.
pub open spec fn glob_problem(pattern: Seq<char>) -> Option<GlobProblemView> {
    match (glob_error(pattern), glob_set_error(pattern)) {
        (Some(m), _) => Some(GlobProblemView::Parse(m)),
        (None, Some(m)) => Some(GlobProblemView::Build(m)),
        (None, None) => None,
    }
}

/// Calls `globset::Glob::new` on the pattern and builds a set of that one glob
/// with `globset::GlobSetBuilder`.
///
/// Whether this works, and the message if it does not, depend on the pattern
/// alone; the set holds the pattern and nothing else.
#[verifier::external_body]
fn compile(pattern: &str) -> (r: Result<globset::GlobSet, GlobProblem>)
    ensures
        match r {
            Ok(set) => {
                &&& glob_error(pattern@) is None
                &&& glob_set_error(pattern@) is None
                &&& glob_set_patterns(set) == seq![pattern@]
            },
            Err(GlobProblem::Parse(m)) => glob_error(pattern@) == Some(m@),
            Err(GlobProblem::Build(m)) => glob_error(pattern@) is None && glob_set_error(pattern@)
                == Some(m@),
        },
{
    match globset::Glob::new(pattern) {
        Ok(glob) => globset::GlobSetBuilder::new().add(glob).build().map_err(
            |e| GlobProblem::Build(e.to_string()),
        ),
        Err(e) => Err(GlobProblem::Parse(e.to_string())),
    }
}

/// Calls `globset::GlobSet::is_match` with the text as a path.
///
/// The set matches a text that one of its patterns matches, and that depends on
/// the pattern and the text alone.
#[verifier::external_body]
fn set_matches(set: &globset::GlobSet, text: &str) -> (r: bool)
    ensures
        r == (exists|i: int|
            0 <= i < glob_set_patterns(*set).len() && glob_matches(
                #[trigger] glob_set_patterns(*set)[i],
                text@,
            )),
{
    set.is_match(text)
}

/// Whether the one pattern of the set matches the text.
fn one_matches(set: &globset::GlobSet, text: &str, Ghost(pattern): Ghost<Seq<char>>) -> (r: bool)
    requires
        glob_set_patterns(*set) == seq![pattern],
    ensures
        r == glob_matches(pattern, text@),
{
    let r = set_matches(set, text);
    assert(glob_set_patterns(*set)[0] == pattern);
    r
}

// ---------------------------------------------------------------------------
// Soft matching
// ---------------------------------------------------------------------------
/// The rule is a deny glob.
pub open spec fn is_deny_glob(rule: FsRuleView) -> bool {
    rule.access == FsAccess::Deny && rule.glob
}

/// What a deny glob is matched against: its pattern without leading slashes,
/// and the path seen from the workspace if it lies in it.
#[derive(Debug)]
pub struct GlobQuery {
    pub pattern: String,
    pub relative: String,
}

#[verifier::ext_equal]
pub struct GlobQueryView {
    pub pattern: Seq<char>,
    pub relative: Seq<char>,
}

impl View for GlobQuery {
    type V = GlobQueryView;

    open spec fn view(&self) -> GlobQueryView {
        GlobQueryView { pattern: self.pattern@, relative: self.relative@ }
    }
}

impl DeepView for GlobQuery {
    type V = GlobQueryView;

    open spec fn deep_view(&self) -> GlobQueryView {
        self@
    }
}

/// The path as seen from `base`, if it lies below; else the path itself.
pub open spec fn seen_from(style: Style, base: Seq<char>, p: Seq<char>) -> Seq<char> {
    if native::under(style, native::parts(style, p), native::parts(style, base)) {
        native::tail_text(style, p, native::parts(style, base).len() as int)
    } else {
        p
    }
}

/// The pattern has something to match: it is not blank.
pub open spec fn usable_pattern(pattern: Seq<char>) -> bool {
    text::trimmed(pattern, CharClass::Space).len() > 0
}

/// The queries that the deny globs among the rules give rise to, in order.
pub open spec fn queries(
    style: Style,
    fs: Seq<FsRuleView>,
    workspace: Seq<char>,
    p: Seq<char>,
) -> Seq<GlobQueryView>
    decreases fs.len(),
{
    if fs.len() == 0 {
        Seq::empty()
    } else {
        let before = queries(style, fs.drop_last(), workspace, p);
        if is_deny_glob(fs.last()) && usable_pattern(fs.last().path) {
            before.push(
                GlobQueryView {
                    pattern: text::trimmed_start(fs.last().path, CharClass::Slash),
                    relative: native::glob_text(style, seen_from(style, workspace, p)),
                },
            )
        } else {
            before
        }
    }
}

/// The query matches: its pattern is a glob and matches the path, whole or
/// relative to the workspace.
pub open spec fn query_hits(style: Style, q: GlobQueryView, p: Seq<char>) -> bool {
    glob_problem(q.pattern) is None && (glob_matches(q.pattern, q.relative) || glob_matches(
        q.pattern,
        native::glob_text(style, p),
    ))
}

/// Some deny glob of the rules matches the path.
pub open spec fn glob_denied(
    style: Style,
    fs: Seq<FsRuleView>,
    workspace: Seq<char>,
    p: Seq<char>,
) -> bool {
    exists|i: int|
        0 <= i < queries(style, fs, workspace, p).len() && query_hits(
            style,
            #[trigger] queries(style, fs, workspace, p)[i],
            p,
        )
}

/// What the deny globs of the policy are matched against for `p`.
pub fn glob_queries(policy: &Policy, p: &str) -> (r: Vec<GlobQuery>)
    ensures
        r.deep_view() == queries(policy@.style, policy@.fs, policy@.glob_base(), p@),
{
    let ghost m = policy.fs.deep_view();
    let ghost ws = policy@.glob_base();
    let style = policy.style;
    let seen = match native::strip_prefix(style, p, policy.glob_base()) {
        Some(t) => t,
        None => p.to_owned(),
    };
    let relative = native::for_globs(style, seen.as_str());
    let mut r: Vec<GlobQuery> = Vec::new();
    let mut i: usize = 0;
    assert(m.take(0) =~= Seq::<FsRuleView>::empty());
    assert(r.deep_view() =~= queries(style, m.take(0), ws, p@));
    while i < policy.fs.len()
        invariant
            m == policy.fs.deep_view(),
            relative@ == native::glob_text(style, seen_from(style, ws, p@)),
            i <= policy.fs.len(),
            r.deep_view() == queries(style, m.take(i as int), ws, p@),
        decreases policy.fs.len() - i,
    {
        assert(m[i as int] == policy.fs@[i as int]@);
        assert(m.take(i + 1).drop_last() =~= m.take(i as int));
        let ghost before = r.deep_view();
        let rule = &policy.fs[i];
        if rule.access == FsAccess::Deny && rule.glob && !text::trim(
            rule.path.as_str(),
            CharClass::Space,
        ).is_empty() {
            let q = GlobQuery {
                pattern: text::trim_start(rule.path.as_str(), CharClass::Slash).to_owned(),
                relative: relative.clone(),
            };
            r.push(q);
            assert(r.deep_view() =~= before.push(q@));
        }
        i += 1;
    }
    assert(m.take(m.len() as int) =~= m);
    r
}

/// The query that a deny glob gives rise to.
pub open spec fn query_of(
    style: Style,
    rule: FsRuleView,
    workspace: Seq<char>,
    p: Seq<char>,
) -> GlobQueryView {
    GlobQueryView {
        pattern: text::trimmed_start(rule.path, CharClass::Slash),
        relative: native::glob_text(style, seen_from(style, workspace, p)),
    }
}

/// Every deny glob with something to match is asked.
pub proof fn every_deny_glob_is_asked(
    style: Style,
    fs: Seq<FsRuleView>,
    workspace: Seq<char>,
    p: Seq<char>,
    rule: int,
)
    requires
        0 <= rule < fs.len(),
        is_deny_glob(fs[rule]),
        usable_pattern(fs[rule].path),
    ensures
        queries(style, fs, workspace, p).contains(query_of(style, fs[rule], workspace, p)),
    decreases fs.len(),
{
    let all = queries(style, fs, workspace, p);
    let q = query_of(style, fs[rule], workspace, p);
    if rule == fs.len() - 1 {
        assert(all.last() == q);
        assert(all[all.len() - 1] == q);
    } else {
        let front = queries(style, fs.drop_last(), workspace, p);
        every_deny_glob_is_asked(style, fs.drop_last(), workspace, p, rule);
        let i = choose|i: int| 0 <= i < front.len() && front[i] == q;
        assert(all[i] == q);
    }
}

/// Every query is that of a deny glob with something to match.
pub proof fn every_query_is_of_a_deny_glob(
    style: Style,
    fs: Seq<FsRuleView>,
    workspace: Seq<char>,
    p: Seq<char>,
    n: int,
) -> (rule: int)
    requires
        0 <= n < queries(style, fs, workspace, p).len(),
    ensures
        0 <= rule < fs.len(),
        is_deny_glob(fs[rule]),
        usable_pattern(fs[rule].path),
        queries(style, fs, workspace, p)[n] == query_of(style, fs[rule], workspace, p),
    decreases fs.len(),
{
    let front = queries(style, fs.drop_last(), workspace, p);
    if n < front.len() {
        every_query_is_of_a_deny_glob(style, fs.drop_last(), workspace, p, n)
    } else {
        fs.len() - 1
    }
}

/// Whether some deny glob of the policy matches the path.
pub fn path_matches_deny_glob(policy: &Policy, p: &str) -> (r: bool)
    ensures
        r == glob_denied(policy@.style, policy@.fs, policy@.glob_base(), p@),
{
    let qs = glob_queries(policy, p);
    let whole = native::for_globs(policy.style, p);
    let ghost m = queries(policy@.style, policy@.fs, policy@.glob_base(), p@);
    let mut i: usize = 0;
    while i < qs.len()
        invariant
            m == qs.deep_view(),
            m == queries(policy@.style, policy@.fs, policy@.glob_base(), p@),
            i <= qs.len(),
            whole@ == native::glob_text(policy@.style, p@),
            forall|k: int| 0 <= k < i ==> !query_hits(policy@.style, #[trigger] m[k], p@),
        decreases qs.len() - i,
    {
        assert(m[i as int] == qs@[i as int]@);
        let q = &qs[i];
        if let Ok(set) = compile(q.pattern.as_str()) {
            if one_matches(&set, q.relative.as_str(), Ghost(q.pattern@)) || one_matches(
                &set,
                whole.as_str(),
                Ghost(q.pattern@),
            ) {
                assert(query_hits(policy@.style, m[i as int], p@));
                return true;
            }
        }
        i += 1;
    }
    false
}

// ---------------------------------------------------------------------------
// Expansion
// ---------------------------------------------------------------------------
/// Where a deny glob is expanded: the directory to walk, and the pattern that
/// is matched against what is found, seen from there.
#[derive(Debug)]
pub struct GlobWalk {
    /// The glob as the policy has it.
    pub glob: String,
    pub base: String,
    pub pattern: String,
}

#[verifier::ext_equal]
pub struct GlobWalkView {
    pub glob: Seq<char>,
    pub base: Seq<char>,
    pub pattern: Seq<char>,
}

impl View for GlobWalk {
    type V = GlobWalkView;

    open spec fn view(&self) -> GlobWalkView {
        GlobWalkView { glob: self.glob@, base: self.base@, pattern: self.pattern@ }
    }
}

impl DeepView for GlobWalk {
    type V = GlobWalkView;

    open spec fn deep_view(&self) -> GlobWalkView {
        self@
    }
}

/// Absolute globs are expanded from the root, others from the workspace.
pub open spec fn walk_of(glob: Seq<char>, workspace: Seq<char>) -> GlobWalkView {
    if path::absolute(glob) {
        GlobWalkView {
            glob,
            base: "/"@,
            pattern: text::trimmed_start(glob, CharClass::Slash),
        }
    } else {
        GlobWalkView { glob, base: workspace, pattern: glob }
    }
}

/// One walk per deny glob, in order.
pub open spec fn walks(fs: Seq<FsRuleView>, workspace: Seq<char>) -> Seq<GlobWalkView>
    decreases fs.len(),
{
    if fs.len() == 0 {
        Seq::empty()
    } else if is_deny_glob(fs.last()) {
        walks(fs.drop_last(), workspace).push(walk_of(fs.last().path, workspace))
    } else {
        walks(fs.drop_last(), workspace)
    }
}

/// The directories to walk for the deny globs of the policy.
pub fn glob_walks(policy: &Policy) -> (r: Vec<GlobWalk>)
    ensures
        r.deep_view() == walks(policy@.fs, policy@.glob_base()),
{
    let ghost m = policy.fs.deep_view();
    let ghost ws = policy@.glob_base();
    let mut r: Vec<GlobWalk> = Vec::new();
    let mut i: usize = 0;
    assert(m.take(0) =~= Seq::<FsRuleView>::empty());
    assert(r.deep_view() =~= walks(m.take(0), ws));
    while i < policy.fs.len()
        invariant
            m == policy.fs.deep_view(),
            ws == policy@.glob_base(),
            i <= policy.fs.len(),
            r.deep_view() == walks(m.take(i as int), ws),
        decreases policy.fs.len() - i,
    {
        assert(m[i as int] == policy.fs@[i as int]@);
        assert(m.take(i + 1).drop_last() =~= m.take(i as int));
        let ghost before = r.deep_view();
        let rule = &policy.fs[i];
        if rule.access == FsAccess::Deny && rule.glob {
            let glob = rule.path.as_str();
            let w = if path::is_absolute(glob) {
                GlobWalk {
                    glob: glob.to_owned(),
                    base: "/".to_owned(),
                    pattern: text::trim_start(glob, CharClass::Slash).to_owned(),
                }
            } else {
                GlobWalk {
                    glob: glob.to_owned(),
                    base: policy.glob_base().to_owned(),
                    pattern: glob.to_owned(),
                }
            };
            r.push(w);
            assert(r.deep_view() =~= before.push(w@));
        }
        i += 1;
    }
    assert(m.take(m.len() as int) =~= m);
    r
}

/// The entry is one that the glob stands for.
pub open spec fn entry_hits(style: Style, w: GlobWalkView, entry: Seq<char>) -> bool {
    native::under(style, native::parts(style, entry), native::parts(style, w.base)) && glob_matches(
        w.pattern,
        native::glob_text(
            style,
            native::tail_text(style, entry, native::parts(style, w.base).len() as int),
        ),
    )
}

/// The entries that the glob stands for, in order.
pub open spec fn hits(style: Style, w: GlobWalkView, entries: Seq<Seq<char>>) -> Seq<Seq<char>>
    decreases entries.len(),
{
    if entries.len() == 0 {
        Seq::empty()
    } else if entry_hits(style, w, entries.last()) {
        hits(style, w, entries.drop_last()).push(entries.last())
    } else {
        hits(style, w, entries.drop_last())
    }
}

/// Why the glob cannot be expanded over the entries, if it cannot.
pub open spec fn walk_refusal(style: Style, w: GlobWalkView, entries: Seq<Seq<char>>) -> Option<
    Seq<char>,
> {
    match glob_problem(w.pattern) {
        Some(GlobProblemView::Parse(m)) => Some(
            "invalid deny glob '"@ + w.glob + "': "@ + m,
        ),
        Some(GlobProblemView::Build(m)) => Some("globset build: "@ + m),
        None => if hits(style, w, entries).len() > DENY_GLOB_MAX_MATCHES {
            Some("deny glob '"@ + w.glob + "' exceeded 10000 matches"@)
        } else {
            None
        },
    }
}

proof fn hits_grow(style: Style, w: GlobWalkView, entries: Seq<Seq<char>>, n: int)
    requires
        0 <= n <= entries.len(),
    ensures
        hits(style, w, entries.take(n)).len() <= hits(style, w, entries).len(),
    decreases entries.len() - n,
{
    if n < entries.len() {
        assert(entries.take(n + 1).drop_last() =~= entries.take(n));
        hits_grow(style, w, entries, n + 1);
    } else {
        assert(entries.take(n) =~= entries);
    }
}

/// The entries of one walk that its glob stands for.
pub fn expand_one(style: Style, w: &GlobWalk, entries: &Vec<String>) -> (r: EnforceResult<
    Vec<String>,
>)
    ensures
        match r {
            Ok(h) => walk_refusal(style, w@, entries.deep_view()) is None && h.deep_view() == hits(
                style,
                w@,
                entries.deep_view(),
            ),
            Err(e) => walk_refusal(style, w@, entries.deep_view()) is Some && e@
                == EnforceErrorView::ApplyFailed(walk_refusal(style, w@, entries.deep_view())->0),
        },
{
    let ghost m = entries.deep_view();
    let set = match compile(w.pattern.as_str()) {
        Ok(set) => set,
        Err(GlobProblem::Parse(e)) => {
            let t = "invalid deny glob '".to_owned().concat(w.glob.as_str()).concat("': ").concat(
                e.as_str(),
            );
            return Err(EnforceError::ApplyFailed(t));
        },
        Err(GlobProblem::Build(e)) => {
            return Err(EnforceError::ApplyFailed("globset build: ".to_owned().concat(e.as_str())));
        },
    };
    let mut r: Vec<String> = Vec::new();
    let mut i: usize = 0;
    assert(m.take(0) =~= Seq::<Seq<char>>::empty());
    assert(r.deep_view() =~= hits(style, w@, m.take(0)));
    while i < entries.len()
        invariant
            m == entries.deep_view(),
            glob_set_patterns(set) == seq![w@.pattern],
            glob_problem(w@.pattern) is None,
            i <= entries.len(),
            r.len() <= DENY_GLOB_MAX_MATCHES,
            r.deep_view() == hits(style, w@, m.take(i as int)),
        decreases entries.len() - i,
    {
        assert(m[i as int] == entries@[i as int]@);
        assert(m.take(i + 1).drop_last() =~= m.take(i as int));
        let ghost before = r.deep_view();
        if let Some(rel) = native::strip_prefix(style, entries[i].as_str(), w.base.as_str()) {
            let rel = native::for_globs(style, rel.as_str());
            if one_matches(&set, rel.as_str(), Ghost(w@.pattern)) {
                r.push(entries[i].clone());
                assert(r.deep_view() =~= before.push(m[i as int]));
                if r.len() > DENY_GLOB_MAX_MATCHES {
                    proof {
                        hits_grow(style, w@, m, i + 1);
                    }
                    let t = "deny glob '".to_owned().concat(w.glob.as_str()).concat(
                        "' exceeded 10000 matches",
                    );
                    return Err(EnforceError::ApplyFailed(t));
                }
            }
        }
        i += 1;
    }
    assert(m.take(m.len() as int) =~= m);
    Ok(r)
}

/// The first walk that is refused: why.
pub open spec fn expansion_refusal(
    style: Style,
    ws: Seq<GlobWalkView>,
    found: Seq<Seq<Seq<char>>>,
) -> Option<Seq<char>>
    decreases ws.len(),
{
    if ws.len() == 0 {
        None
    } else if expansion_refusal(style, ws.drop_last(), found) is Some {
        expansion_refusal(style, ws.drop_last(), found)
    } else {
        walk_refusal(style, ws.last(), found[ws.len() - 1])
    }
}

/// What all walks together stand for, in order.
pub open spec fn all_hits(style: Style, ws: Seq<GlobWalkView>, found: Seq<Seq<Seq<char>>>) -> Seq<
    Seq<char>,
>
    decreases ws.len(),
{
    if ws.len() == 0 {
        Seq::empty()
    } else {
        all_hits(style, ws.drop_last(), found) + hits(style, ws.last(), found[ws.len() - 1])
    }
}

proof fn refusal_stays(style: Style, ws: Seq<GlobWalkView>, found: Seq<Seq<Seq<char>>>, n: int)
    requires
        0 <= n <= ws.len(),
        expansion_refusal(style, ws.take(n), found) is Some,
    ensures
        expansion_refusal(style, ws, found) == expansion_refusal(style, ws.take(n), found),
    decreases ws.len() - n,
{
    if n < ws.len() {
        assert(ws.take(n + 1).drop_last() =~= ws.take(n));
        refusal_stays(style, ws, found, n + 1);
    } else {
        assert(ws.take(n) =~= ws);
    }
}

/// The paths that the deny globs of the policy stand for, in order and each
/// once. `found` holds what was found below the base of each walk.
pub fn expand_deny_globs(policy: &Policy, found: &Vec<Vec<String>>) -> (r: EnforceResult<
    Vec<String>,
>)
    requires
        found@.len() == walks(policy@.fs, policy@.glob_base()).len(),
    ensures
        match r {
            Ok(paths) => {
                &&& expansion_refusal(
                    policy@.style,
                    walks(policy@.fs, policy@.glob_base()),
                    found.deep_view(),
                ) is None
                &&& order::sorted_once(
                    policy@.style,
                    paths.deep_view(),
                    all_hits(
                        policy@.style,
                        walks(policy@.fs, policy@.glob_base()),
                        found.deep_view(),
                    ),
                )
            },
            Err(e) => {
                let refusal = expansion_refusal(
                    policy@.style,
                    walks(policy@.fs, policy@.glob_base()),
                    found.deep_view(),
                );
                refusal is Some && e@ == EnforceErrorView::ApplyFailed(refusal->0)
            },
        },
{
    let style = policy.style;
    let ws = glob_walks(policy);
    let ghost w = ws.deep_view();
    let ghost f = found.deep_view();
    let mut all: Vec<String> = Vec::new();
    let mut i: usize = 0;
    assert(w.take(0) =~= Seq::<GlobWalkView>::empty());
    assert(all.deep_view() =~= all_hits(style, w.take(0), f));
    while i < ws.len()
        invariant
            w == ws.deep_view(),
            w == walks(policy@.fs, policy@.glob_base()),
            style == policy@.style,
            f == found.deep_view(),
            found@.len() == w.len(),
            i <= ws.len(),
            expansion_refusal(style, w.take(i as int), f) is None,
            all.deep_view() == all_hits(style, w.take(i as int), f),
        decreases ws.len() - i,
    {
        assert(w[i as int] == ws@[i as int]@);
        assert(f[i as int] == found@[i as int].deep_view());
        assert(w.take(i + 1).drop_last() =~= w.take(i as int));
        match expand_one(style, &ws[i], &found[i]) {
            Ok(h) => {
                let mut h = h;
                let ghost before = all.deep_view();
                let ghost more = h.deep_view();
                all.append(&mut h);
                assert(all.deep_view() =~= before + more);
            },
            Err(e) => {
                proof {
                    refusal_stays(style, w, f, i + 1);
                }
                return Err(e);
            },
        }
        i += 1;
    }
    assert(w.take(w.len() as int) =~= w);
    Ok(order::sort_once(style, &all))
}

// ---------------------------------------------------------------------------
// Regular expressions
// ---------------------------------------------------------------------------
/// The characters that a regular expression gives a meaning of their own and
/// that no glob uses.
pub open spec fn is_special(c: char) -> bool {
    c == '.' || c == '+' || c == '(' || c == ')' || c == '|' || c == '^' || c == '$' || c == '{'
        || c == '}' || c == '[' || c == ']' || c == '\\'
}

pub open spec fn escaped_char(c: char) -> Seq<char> {
    if is_special(c) {
        seq!['\\', c]
    } else {
        seq![c]
    }
}

/// `s` with a backslash in front of every special character.
pub open spec fn escaped(s: Seq<char>) -> Seq<char>
    decreases s.len(),
{
    if s.len() == 0 {
        Seq::empty()
    } else {
        escaped(s.drop_last()) + escaped_char(s.last())
    }
}

/// The regular expression of a glob: `*` stands for any characters but a slash,
/// `?` for one of these, `**` for anything, and `**/` for any directories.
pub open spec fn glob_regex(s: Seq<char>) -> Seq<char>
    decreases s.len(),
{
    if s.len() == 0 {
        Seq::empty()
    } else if s[0] == '*' && s.len() > 1 && s[1] == '*' {
        if s.len() > 2 && s[2] == '/' {
            "(.*/)?"@ + glob_regex(s.subrange(3, s.len() as int))
        } else {
            ".*"@ + glob_regex(s.subrange(2, s.len() as int))
        }
    } else if s[0] == '*' {
        "[^/]*"@ + glob_regex(s.subrange(1, s.len() as int))
    } else if s[0] == '?' {
        "[^/]"@ + glob_regex(s.subrange(1, s.len() as int))
    } else {
        escaped_char(s[0]) + glob_regex(s.subrange(1, s.len() as int))
    }
}

/// The anchored regular expression of a glob; a relative one is below the
/// workspace.
pub open spec fn seatbelt_regex(workspace: Seq<char>, pattern: Seq<char>) -> Seq<char> {
    let p = text::trimmed(pattern, CharClass::Space);
    let head = if path::absolute(p) {
        "^"@
    } else {
        "^"@ + escaped(text::trimmed_end(workspace, CharClass::Slash)) + "/"@
    };
    head + glob_regex(p) + "$"@
}

fn push_escaped(out: &mut String, c: char)
    ensures
        final(out)@ == old(out)@ + escaped_char(c),
{
    let ghost before = out@;
    if c == '.' || c == '+' || c == '(' || c == ')' || c == '|' || c == '^' || c == '$' || c == '{'
        || c == '}' || c == '[' || c == ']' || c == '\\' {
        out.push('\\');
    }
    out.push(c);
    assert(out@ =~= before + escaped_char(c));
}

fn regex_escape(s: &str) -> (r: String)
    ensures
        r@ == escaped(s@),
{
    let v = text::chars_of(s);
    let mut r = String::new();
    let mut i: usize = 0;
    assert(s@.take(0) =~= Seq::<char>::empty());
    while i < v.len()
        invariant
            v@ == s@,
            i <= v.len(),
            r@ == escaped(s@.take(i as int)),
        decreases v.len() - i,
    {
        assert(s@.take(i + 1).drop_last() =~= s@.take(i as int));
        push_escaped(&mut r, v[i]);
        i += 1;
    }
    assert(s@.take(s@.len() as int) =~= s@);
    r
}

/// Adds what the next characters of the glob stand for; how many these are.
fn push_next(out: &mut String, v: &Vec<char>, i: usize) -> (step: usize)
    requires
        i < v@.len(),
    ensures
        1 <= step <= v@.len() - i,
        final(out)@ + glob_regex(v@.subrange(i + step, v@.len() as int)) == old(out)@ + glob_regex(
            v@.subrange(i as int, v@.len() as int),
        ),
{
    let ghost done = out@;
    let n: usize = v.len();
    let ghost rest = v@.subrange(i as int, n as int);
    assert(rest[0] == v@[i as int]);
    let ghost piece: Seq<char>;
    let step: usize;
    if v[i] == '*' && i + 1 < n && v[i + 1] == '*' {
        assert(rest[1] == v@[i + 1]);
        if i + 2 < n && v[i + 2] == '/' {
            assert(rest[2] == v@[i + 2]);
            out.append("(.*/)?");
            step = 3;
            proof {
                piece = "(.*/)?"@;
            }
        } else {
            if i + 2 < n {
                assert(rest[2] == v@[i + 2]);
            }
            out.append(".*");
            step = 2;
            proof {
                piece = ".*"@;
            }
        }
    } else if v[i] == '*' {
        if i + 1 < n {
            assert(rest[1] == v@[i + 1]);
        }
        out.append("[^/]*");
        step = 1;
        proof {
            piece = "[^/]*"@;
        }
    } else if v[i] == '?' {
        out.append("[^/]");
        step = 1;
        proof {
            piece = "[^/]"@;
        }
    } else {
        push_escaped(out, v[i]);
        step = 1;
        proof {
            piece = escaped_char(v@[i as int]);
        }
    }
    proof {
        let left = v@.subrange(i + step, n as int);
        assert(rest.subrange(step as int, rest.len() as int) =~= left);
        assert(out@ == done + piece);
        assert(glob_regex(rest) == piece + glob_regex(left));
        assert(done + (piece + glob_regex(left)) =~= (done + piece) + glob_regex(left));
    }
    step
}

/// The regular expression of a deny glob.
///
/// `*` is one path segment, `**` any segments, `?` one character but `/`; every
/// other character stands for itself.
pub fn glob_to_seatbelt_regex(workspace: &str, pattern: &str) -> (r: EnforceResult<String>)
    ensures
        match r {
            Ok(re) => usable_pattern(pattern@) && re@ == seatbelt_regex(workspace@, pattern@),
            Err(e) => !usable_pattern(pattern@) && e@ == EnforceErrorView::ApplyFailed(
                "empty deny glob"@,
            ),
        },
{
    let pattern = text::trim(pattern, CharClass::Space);
    if pattern.is_empty() {
        return Err(EnforceError::ApplyFailed("empty deny glob".to_owned()));
    }
    let mut re = "^".to_owned();
    if !path::is_absolute(pattern) {
        re.append(regex_escape(text::trim_end(workspace, CharClass::Slash)).as_str());
        re.append("/");
    }
    let ghost head = re@;
    let v = text::chars_of(pattern);
    let ghost p = pattern@;
    let n: usize = v.len();
    let mut i: usize = 0;
    assert(p.subrange(0, p.len() as int) =~= p);
    assert(re@ + glob_regex(p) =~= head + glob_regex(p));
    while i < n
        invariant
            v@ == p,
            n == p.len(),
            i <= n,
            re@ + glob_regex(p.subrange(i as int, n as int)) == head + glob_regex(p),
        decreases n - i,
    {
        let step: usize = push_next(&mut re, &v, i);
        i += step;
    }
    assert(p.subrange(n as int, n as int) =~= Seq::<char>::empty());
    assert(re@ + glob_regex(p.subrange(n as int, n as int)) =~= re@);
    re.append("$");
    Ok(re)
}

/// Which globs are walked: the deny globs of the policy, each from the root if it is
/// absolute and else from the workspace.
pub proof fn which_globs_are_walked(fs: Seq<FsRuleView>, workspace: Seq<char>, w: GlobWalkView)
    ensures
        walks(fs, workspace).contains(w) <==> exists|k: int|
            0 <= k < fs.len() && (#[trigger] fs[k]).access == FsAccess::Deny && fs[k].glob && w.glob
                == fs[k].path && (if fs[k].path.len() > 0 && fs[k].path[0] == '/' {
                w.base == "/"@ && w.pattern == text::trimmed_start(fs[k].path, CharClass::Slash)
            } else {
                w.base == workspace && w.pattern == fs[k].path
            }),
    decreases fs.len(),
{
    if fs.len() > 0 {
        let front = fs.drop_last();
        which_globs_are_walked(front, workspace, w);
        let before = walks(front, workspace);
        let all = walks(fs, workspace);
        if all.contains(w) {
            let i = choose|i: int| 0 <= i < all.len() && all[i] == w;
            if i < before.len() {
                assert(before[i] == w);
                let k = choose|k: int|
                    0 <= k < front.len() && (#[trigger] front[k]).access == FsAccess::Deny
                        && front[k].glob && w.glob == front[k].path && (if front[k].path.len() > 0
                        && front[k].path[0] == '/' {
                        w.base == "/"@ && w.pattern == text::trimmed_start(
                            front[k].path,
                            CharClass::Slash,
                        )
                    } else {
                        w.base == workspace && w.pattern == front[k].path
                    });
                assert(fs[k] == front[k]);
            } else {
                assert(fs[fs.len() - 1] == fs.last());
            }
        }
        if exists|k: int|
            0 <= k < fs.len() && (#[trigger] fs[k]).access == FsAccess::Deny && fs[k].glob && w.glob
                == fs[k].path && (if fs[k].path.len() > 0 && fs[k].path[0] == '/' {
                w.base == "/"@ && w.pattern == text::trimmed_start(fs[k].path, CharClass::Slash)
            } else {
                w.base == workspace && w.pattern == fs[k].path
            }) {
            let k = choose|k: int|
                0 <= k < fs.len() && (#[trigger] fs[k]).access == FsAccess::Deny && fs[k].glob
                    && w.glob == fs[k].path && (if fs[k].path.len() > 0 && fs[k].path[0] == '/' {
                    w.base == "/"@ && w.pattern == text::trimmed_start(fs[k].path, CharClass::Slash)
                } else {
                    w.base == workspace && w.pattern == fs[k].path
                });
            if k < front.len() {
                assert(front[k] == fs[k]);
                let i = choose|i: int| 0 <= i < before.len() && before[i] == w;
                assert(all[i] == w);
            } else {
                assert(all[before.len() as int] == w);
            }
        }
    }
}

/// What a walk hits: the entries below its base whose path from there the glob matches,
/// and no others.
pub proof fn what_a_walk_hits(
    style: Style,
    w: GlobWalkView,
    entries: Seq<Seq<char>>,
    p: Seq<char>,
)
    ensures
        hits(style, w, entries).contains(p) <==> entries.contains(p) && native::under(
            style,
            native::parts(style, p),
            native::parts(style, w.base),
        ) && glob_matches(
            w.pattern,
            native::glob_text(
                style,
                native::tail_text(style, p, native::parts(style, w.base).len() as int),
            ),
        ),
        hits(style, w, entries).len() <= entries.len(),
    decreases entries.len(),
{
    if entries.len() > 0 {
        let front = entries.drop_last();
        what_a_walk_hits(style, w, front, p);
        let before = hits(style, w, front);
        let all = hits(style, w, entries);
        if all.contains(p) {
            let i = choose|i: int| 0 <= i < all.len() && all[i] == p;
            if i < before.len() {
                assert(before[i] == p);
                let k = choose|k: int| 0 <= k < front.len() && front[k] == p;
                assert(entries[k] == p);
            } else {
                assert(entries[entries.len() - 1] == p);
            }
        }
        if entries.contains(p) && entry_hits(style, w, p) {
            let k = choose|k: int| 0 <= k < entries.len() && entries[k] == p;
            if k < front.len() {
                assert(front[k] == p);
                let i = choose|i: int| 0 <= i < before.len() && before[i] == p;
                assert(all[i] == p);
            } else {
                assert(all[before.len() as int] == p);
            }
        }
    }
}

/// What all walks hit together is what each of them hits.
pub proof fn what_all_walks_hit(
    style: Style,
    ws: Seq<GlobWalkView>,
    found: Seq<Seq<Seq<char>>>,
    p: Seq<char>,
)
    ensures
        all_hits(style, ws, found).contains(p) <==> exists|k: int|
            0 <= k < ws.len() && hits(style, #[trigger] ws[k], found[k]).contains(p),
    decreases ws.len(),
{
    if ws.len() > 0 {
        let front = ws.drop_last();
        what_all_walks_hit(style, front, found, p);
        let before = all_hits(style, front, found);
        let mine = hits(style, ws.last(), found[ws.len() - 1]);
        let all = all_hits(style, ws, found);
        if all.contains(p) {
            let i = choose|i: int| 0 <= i < all.len() && all[i] == p;
            if i < before.len() {
                assert(before[i] == p);
                let k = choose|k: int|
                    0 <= k < front.len() && hits(style, #[trigger] front[k], found[k]).contains(p);
                assert(ws[k] == front[k]);
            } else {
                assert(mine[i - before.len()] == p);
                assert(ws[ws.len() - 1] == ws.last());
            }
        }
        if exists|k: int|
            0 <= k < ws.len() && hits(style, #[trigger] ws[k], found[k]).contains(p) {
            let k = choose|k: int|
                0 <= k < ws.len() && hits(style, #[trigger] ws[k], found[k]).contains(p);
            if k < front.len() {
                assert(front[k] == ws[k]);
                let i = choose|i: int| 0 <= i < before.len() && before[i] == p;
                assert(all[i] == p);
            } else {
                let i = choose|i: int| 0 <= i < mine.len() && mine[i] == p;
                assert(all[before.len() + i] == p);
            }
        }
    }
}

/// When an expansion is refused: if the glob of some walk is no glob, or hits more than
/// ten thousand entries.
pub proof fn when_expansions_are_refused(
    style: Style,
    ws: Seq<GlobWalkView>,
    found: Seq<Seq<Seq<char>>>,
)
    ensures
        expansion_refusal(style, ws, found) is None <==> forall|k: int|
            0 <= k < ws.len() ==> glob_error((#[trigger] ws[k]).pattern) is None && glob_set_error(
                ws[k].pattern,
            ) is None && hits(style, ws[k], found[k]).len() <= 10000,
    decreases ws.len(),
{
    if ws.len() > 0 {
        let front = ws.drop_last();
        when_expansions_are_refused(style, front, found);
        if expansion_refusal(style, ws, found) is None {
            assert forall|k: int| 0 <= k < ws.len() implies glob_error((#[trigger] ws[k]).pattern)
                is None && glob_set_error(ws[k].pattern) is None && hits(
                style,
                ws[k],
                found[k],
            ).len() <= 10000 by {
                if k < front.len() {
                    assert(front[k] == ws[k]);
                }
            }
        }
        if forall|k: int|
            0 <= k < ws.len() ==> glob_error((#[trigger] ws[k]).pattern) is None && glob_set_error(
                ws[k].pattern,
            ) is None && hits(style, ws[k], found[k]).len() <= 10000 {
            assert forall|k: int| 0 <= k < front.len() implies glob_error(
                (#[trigger] front[k]).pattern,
            ) is None && glob_set_error(front[k].pattern) is None && hits(
                style,
                front[k],
                found[k],
            ).len() <= 10000 by {
                assert(ws[k] == front[k]);
            }
            assert(glob_error(ws[ws.len() - 1].pattern) is None);
        }
    }
}

/// How globs become regular expressions: two stars match anything, with a slash behind
/// them any directories or none; one star anything but a slash; a question mark one
/// such character; a character that means something in a regular expression itself,
/// behind a backslash; any other itself.
pub proof fn how_globs_become_regexes(s: Seq<char>, c: char)
    ensures
        glob_regex(Seq::empty()).len() == 0,
        glob_regex(seq!['*', '*', '/'] + s) == "(.*/)?"@ + glob_regex(s),
        s.len() == 0 || s[0] != '/' ==> glob_regex(seq!['*', '*'] + s) == ".*"@ + glob_regex(s),
        s.len() == 0 || s[0] != '*' ==> glob_regex(seq!['*'] + s) == "[^/]*"@ + glob_regex(s),
        glob_regex(seq!['?'] + s) == "[^/]"@ + glob_regex(s),
        c == '.' || c == '+' || c == '(' || c == ')' || c == '|' || c == '^' || c == '$' || c == '{'
            || c == '}' || c == '[' || c == ']' || c == '\\' ==> glob_regex(seq![c] + s) == seq![
            '\\',
            c,
        ] + glob_regex(s) && escaped(s.push(c)) == escaped(s) + seq!['\\', c],
        !(c == '.' || c == '+' || c == '(' || c == ')' || c == '|' || c == '^' || c == '$' || c
            == '{' || c == '}' || c == '[' || c == ']' || c == '\\') ==> escaped(s.push(c))
            == escaped(s) + seq![c],
        !(c == '.' || c == '+' || c == '(' || c == ')' || c == '|' || c == '^' || c == '$' || c
            == '{' || c == '}' || c == '[' || c == ']' || c == '\\' || c == '*' || c == '?')
            ==> glob_regex(seq![c] + s) == seq![c] + glob_regex(s),
{
    let a = seq!['*', '*', '/'] + s;
    let b = seq!['*', '*'] + s;
    let d = seq!['*'] + s;
    let q = seq!['?'] + s;
    let e = seq![c] + s;
    assert(a.subrange(3, a.len() as int) =~= s);
    assert(b.subrange(2, b.len() as int) =~= s);
    assert(d.subrange(1, d.len() as int) =~= s);
    assert(q.subrange(1, q.len() as int) =~= s);
    assert(e.subrange(1, e.len() as int) =~= s);
    assert(a[0] == '*' && a[1] == '*' && a[2] == '/');
    assert(b[0] == '*' && b[1] == '*');
    assert(s.len() > 0 ==> b[2] == s[0] && d[1] == s[0]);
    assert(d[0] == '*' && q[0] == '?' && e[0] == c);
    assert(s.push(c).drop_last() =~= s);
}

/// The regular expression of a deny glob covers whole paths: an absolute glob from the
/// root, any other from the workspace.
pub proof fn regexes_cover_whole_paths(workspace: Seq<char>, pattern: Seq<char>)
    ensures
        ({
            let p = text::trimmed(pattern, CharClass::Space);
            &&& p.len() > 0 && p[0] == '/' ==> seatbelt_regex(workspace, pattern) == "^"@
                + glob_regex(p) + "$"@
            &&& !(p.len() > 0 && p[0] == '/') ==> seatbelt_regex(workspace, pattern) == "^"@
                + escaped(text::trimmed_end(workspace, CharClass::Slash)) + "/"@ + glob_regex(p)
                + "$"@
        }),
{
}

/// A path in the workspace is seen from there as what follows behind it; one elsewhere
/// is seen as it is.
pub proof fn how_paths_are_seen(base: Seq<char>, rest: Seq<char>, p: Seq<char>)
    requires
        base.len() > 0,
        rest.len() > 0,
        text::split(rest, '/')[0].len() > 0,
        text::split(rest, '/')[0] != seq!['.'],
        text::split(rest, '/').last().len() > 0,
        text::split(rest, '/').last() != seq!['.'],
        !path::under(path::parts(p), path::parts(base)),
    ensures
        seen_from(Style::Unix, base, base + seq!['/'] + rest) == rest,
        seen_from(Style::Unix, base, p) == p,
{
    assert(base.push('/') + rest =~= base + seq!['/'] + rest);
    path::what_follows_a_directory(base, rest);
}

} // verus!
