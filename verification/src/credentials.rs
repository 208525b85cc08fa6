//! Credentials that are resolved when a child starts.
//!
//! A policy names where secrets come from, never the secrets. They are handed to
//! the child in its environment and are not written to the audit trail.
use crate::error::{EnforceError, EnforceErrorView, EnforceResult};
use crate::native;
use crate::native::Style;
use crate::policy::{CredentialGrant, CredentialGrantView, Policy};
use crate::text;
use crate::text::CharClass;
use vstd::prelude::*;
use vstd::string::*;

verus! {

/// What the source of a grant means.
#[derive(Debug)]
pub enum CredentialSourceKind {
    /// `env:NAME` or a bare `NAME`: an environment variable.
    Env(String),
    /// `file:PATH` or a path: the contents of a file.
    File(String),
    /// Something else.
    Unsupported(String),
}

#[verifier::ext_equal]
pub enum CredentialSourceKindView {
    Env(Seq<char>),
    File(Seq<char>),
    Unsupported(Seq<char>),
}

impl View for CredentialSourceKind {
    type V = CredentialSourceKindView;

    open spec fn view(&self) -> CredentialSourceKindView {
        match self {
            CredentialSourceKind::Env(s) => CredentialSourceKindView::Env(s@),
            CredentialSourceKind::File(s) => CredentialSourceKindView::File(s@),
            CredentialSourceKind::Unsupported(s) => CredentialSourceKindView::Unsupported(s@),
        }
    }
}

/// What a source means.
pub open spec fn source_kind(source: Seq<char>) -> CredentialSourceKindView {
    let s = text::trimmed(source, CharClass::Space);
    if "env:"@.is_prefix_of(s) {
        CredentialSourceKindView::Env(s.subrange("env:"@.len() as int, s.len() as int))
    } else if "file:"@.is_prefix_of(s) {
        CredentialSourceKindView::File(s.subrange("file:"@.len() as int, s.len() as int))
    } else if !s.contains(':') && !s.contains('/') {
        CredentialSourceKindView::Env(s)
    } else if "/"@.is_prefix_of(s) || "./"@.is_prefix_of(s) || "../"@.is_prefix_of(s) {
        CredentialSourceKindView::File(s)
    } else {
        CredentialSourceKindView::Unsupported(s)
    }
}

impl CredentialSourceKind {
    pub fn parse(source: &str) -> (r: Self)
        ensures
            r@ == source_kind(source@),
    {
        let s = text::trim(source, CharClass::Space);
        if let Some(rest) = text::strip_prefix(s, "env:") {
            return CredentialSourceKind::Env(rest.to_owned());
        }
        if let Some(rest) = text::strip_prefix(s, "file:") {
            return CredentialSourceKind::File(rest.to_owned());
        }
        if !text::contains_char(s, ':') && !text::contains_char(s, '/') {
            return CredentialSourceKind::Env(s.to_owned());
        }
        if text::starts_with(s, "/") || text::starts_with(s, "./") || text::starts_with(s, "../") {
            return CredentialSourceKind::File(s.to_owned());
        }
        CredentialSourceKind::Unsupported(s.to_owned())
    }
}

/// The grant that is written `NAME=SOURCE`; `None` if there is no `=`.
pub fn parse_grant(written: &str) -> (r: Option<CredentialGrant>)
    ensures
        ({
            let at = text::first_index(written@, '=');
            match r {
                Some(g) => at < written@.len() && g@ == (CredentialGrantView {
                    name: written@.subrange(0, at),
                    source: written@.subrange(at + 1, written@.len() as int),
                    inject_as_env: None,
                }),
                None => at == written@.len(),
            }
        }),
{
    let n: usize = written.unicode_len();
    match text::find_char(written, '=') {
        Some(at) => Some(
            CredentialGrant {
                name: written.substring_char(0, at).to_owned(),
                source: written.substring_char(at + 1, n).to_owned(),
                inject_as_env: None,
            },
        ),
        None => None,
    }
}

/// A secret, ready to be handed to a child. It cannot be printed.
pub struct ResolvedCredential {
    pub name: String,
    pub env_key: String,
    pub value: String,
}

#[verifier::ext_equal]
pub struct ResolvedCredentialView {
    pub name: Seq<char>,
    pub env_key: Seq<char>,
    pub value: Seq<char>,
}

impl View for ResolvedCredential {
    type V = ResolvedCredentialView;

    open spec fn view(&self) -> ResolvedCredentialView {
        ResolvedCredentialView { name: self.name@, env_key: self.env_key@, value: self.value@ }
    }
}

impl DeepView for ResolvedCredential {
    type V = ResolvedCredentialView;

    open spec fn deep_view(&self) -> ResolvedCredentialView {
        self@
    }
}

/// Where the secret of a grant has to be looked up.
#[derive(Debug)]
pub enum SourceLookup {
    /// In this environment variable.
    Env(String),
    /// In this file.
    File(String),
    /// Nowhere.
    Nothing,
}

#[verifier::ext_equal]
pub enum SourceLookupView {
    Env(Seq<char>),
    File(Seq<char>),
    Nothing,
}

impl View for SourceLookup {
    type V = SourceLookupView;

    open spec fn view(&self) -> SourceLookupView {
        match self {
            SourceLookup::Env(s) => SourceLookupView::Env(s@),
            SourceLookup::File(s) => SourceLookupView::File(s@),
            SourceLookup::Nothing => SourceLookupView::Nothing,
        }
    }
}

/// What a lookup found.
pub enum SourceValue {
    /// The value of the environment variable, if it is set.
    Env(Option<String>),
    /// The contents of the file, or the system's message.
    File(Result<String, String>),
    Nothing,
}

#[verifier::ext_equal]
pub enum SourceValueView {
    Env(Option<Seq<char>>),
    File(Result<Seq<char>, Seq<char>>),
    Nothing,
}

impl View for SourceValue {
    type V = SourceValueView;

    open spec fn view(&self) -> SourceValueView {
        match self {
            SourceValue::Env(v) => SourceValueView::Env(v.deep_view()),
            SourceValue::File(Ok(v)) => SourceValueView::File(Ok(v@)),
            SourceValue::File(Err(m)) => SourceValueView::File(Err(m@)),
            SourceValue::Nothing => SourceValueView::Nothing,
        }
    }
}

impl DeepView for SourceValue {
    type V = SourceValueView;

    open spec fn deep_view(&self) -> SourceValueView {
        self@
    }
}

/// Where the secret of a grant has to be looked up; relative files are seen from
/// the workspace.
pub open spec fn lookup(style: Style, grant: CredentialGrantView, workspace: Seq<char>)
    -> SourceLookupView {
    match source_kind(grant.source) {
        CredentialSourceKindView::Env(v) => SourceLookupView::Env(v),
        CredentialSourceKindView::File(p) => SourceLookupView::File(
            native::joined(style, workspace, p),
        ),
        CredentialSourceKindView::Unsupported(_) => SourceLookupView::Nothing,
    }
}

/// Where the secret of the grant has to be looked up.
pub fn source_lookup(style: Style, grant: &CredentialGrant, workspace: &str) -> (r: SourceLookup)
    ensures
        r@ == lookup(style, grant@, workspace@),
{
    match CredentialSourceKind::parse(grant.source.as_str()) {
        CredentialSourceKind::Env(v) => SourceLookup::Env(v),
        CredentialSourceKind::File(p) => SourceLookup::File(
            native::join(style, workspace, p.as_str()),
        ),
        CredentialSourceKind::Unsupported(_) => SourceLookup::Nothing,
    }
}

/// What was found belongs to the kind of source.
pub open spec fn fits(grant: CredentialGrantView, found: SourceValueView) -> bool {
    match source_kind(grant.source) {
        CredentialSourceKindView::Env(_) => found is Env,
        CredentialSourceKindView::File(_) => found is File,
        CredentialSourceKindView::Unsupported(_) => true,
    }
}

/// The name under which the secret of a grant is handed to a child.
pub open spec fn env_key(grant: CredentialGrantView) -> Seq<char> {
    match grant.inject_as_env {
        Some(k) => k,
        None => grant.name,
    }
}

/// `s` without trailing line ends.
pub open spec fn without_line_ends(s: Seq<char>) -> Seq<char>
    decreases s.len(),
{
    if s.len() > 0 && (s.last() == '\r' || s.last() == '\n') {
        without_line_ends(s.drop_last())
    } else {
        s
    }
}

/// The secret of a grant, if there is one.
pub open spec fn secret(found: SourceValueView) -> Option<Seq<char>> {
    let v = match found {
        SourceValueView::Env(Some(v)) => v,
        SourceValueView::File(Ok(v)) => without_line_ends(v),
        _ => Seq::empty(),
    };
    if v.len() == 0 {
        None
    } else {
        Some(v)
    }
}

/// Why a grant cannot be resolved, if it cannot.
pub open spec fn failure(grant: CredentialGrantView, found: SourceValueView) -> Option<
    EnforceErrorView,
> {
    if env_key(grant).len() == 0 {
        Some(EnforceErrorView::Denied("credential env key is empty"@))
    } else {
        match source_kind(grant.source) {
            CredentialSourceKindView::Unsupported(s) => Some(
                EnforceErrorView::Denied(
                    "unsupported credential source '"@ + s + "' (use env:NAME or file:PATH)"@,
                ),
            ),
            CredentialSourceKindView::File(_) => match found {
                SourceValueView::File(Err(m)) => Some(EnforceErrorView::Io(m)),
                _ => None,
            },
            CredentialSourceKindView::Env(_) => None,
        }
    }
}

/// The credential of a grant, if it has a secret.
pub open spec fn resolved(grant: CredentialGrantView, found: SourceValueView) -> Option<
    ResolvedCredentialView,
> {
    match secret(found) {
        Some(value) => Some(
            ResolvedCredentialView { name: grant.name, env_key: env_key(grant), value },
        ),
        None => None,
    }
}

fn trim_line_ends(s: &str) -> (r: String)
    ensures
        r@ == without_line_ends(s@),
{
    let v = text::chars_of(s);
    let mut j: usize = v.len();
    assert(s@.subrange(0, j as int) =~= s@);
    while 0 < j && (v[j - 1] == '\r' || v[j - 1] == '\n')
        invariant
            v@ == s@,
            j <= v.len(),
            without_line_ends(s@) == without_line_ends(s@.subrange(0, j as int)),
        ensures
            j <= v.len(),
            without_line_ends(s@) == s@.subrange(0, j as int),
        decreases j,
    {
        assert(s@.subrange(0, j as int).drop_last() =~= s@.subrange(0, j - 1));
        j -= 1;
    }
    s.substring_char(0, j).to_owned()
}

/// The credential of the grant, from what was found at its source; `None` if
/// there is no secret.
pub fn resolve_one(grant: &CredentialGrant, found: &SourceValue) -> (r: EnforceResult<
    Option<ResolvedCredential>,
>)
    requires
        fits(grant@, found@),
    ensures
        match r {
            Ok(c) => failure(grant@, found@) is None && c.deep_view() == resolved(grant@, found@),
            Err(e) => failure(grant@, found@) == Some(e@),
        },
{
    let env_key = match &grant.inject_as_env {
        Some(k) => k.clone(),
        None => grant.name.clone(),
    };
    if env_key.as_str().is_empty() {
        return Err(EnforceError::Denied("credential env key is empty".to_owned()));
    }
    if let CredentialSourceKind::Unsupported(s) = CredentialSourceKind::parse(
        grant.source.as_str(),
    ) {
        return Err(
            EnforceError::Denied(
                "unsupported credential source '".to_owned().concat(s.as_str()).concat(
                    "' (use env:NAME or file:PATH)",
                ),
            ),
        );
    }
    let value = match found {
        SourceValue::Env(Some(v)) => v.clone(),
        SourceValue::Env(None) => return Ok(None),
        SourceValue::File(Ok(v)) => trim_line_ends(v.as_str()),
        SourceValue::File(Err(m)) => return Err(EnforceError::Io(m.clone())),
        SourceValue::Nothing => return Ok(None),
    };
    if value.as_str().is_empty() {
        return Ok(None);
    }
    Ok(Some(ResolvedCredential { name: grant.name.clone(), env_key, value }))
}

/// Why the grants cannot all be resolved under strict rules, if they cannot: the
/// first one that fails or has no secret.
pub open spec fn strict_refusal(
    grants: Seq<CredentialGrantView>,
    found: Seq<SourceValueView>,
) -> Option<EnforceErrorView>
    decreases grants.len(),
{
    if grants.len() == 0 {
        None
    } else if strict_refusal(grants.drop_last(), found) is Some {
        strict_refusal(grants.drop_last(), found)
    } else {
        let g = grants.last();
        let f = found[grants.len() - 1];
        if failure(g, f) is Some {
            failure(g, f)
        } else if resolved(g, f) is None {
            Some(
                EnforceErrorView::Denied(
                    "credential '"@ + g.name + "' source empty or missing: "@ + g.source,
                ),
            )
        } else {
            None
        }
    }
}

/// The credentials of the grants that have one, in order.
pub open spec fn all_resolved(
    grants: Seq<CredentialGrantView>,
    found: Seq<SourceValueView>,
) -> Seq<ResolvedCredentialView>
    decreases grants.len(),
{
    if grants.len() == 0 {
        Seq::empty()
    } else {
        let before = all_resolved(grants.drop_last(), found);
        let g = grants.last();
        let f = found[grants.len() - 1];
        if failure(g, f) is None && resolved(g, f) is Some {
            before.push(resolved(g, f)->0)
        } else {
            before
        }
    }
}

proof fn strict_refusal_stays(
    grants: Seq<CredentialGrantView>,
    found: Seq<SourceValueView>,
    n: int,
)
    requires
        0 <= n <= grants.len(),
        strict_refusal(grants.take(n), found) is Some,
    ensures
        strict_refusal(grants, found) == strict_refusal(grants.take(n), found),
    decreases grants.len() - n,
{
    if n < grants.len() {
        assert(grants.take(n + 1).drop_last() =~= grants.take(n));
        strict_refusal_stays(grants, found, n + 1);
    } else {
        assert(grants.take(n) =~= grants);
    }
}

/// The credentials of the policy, from what was found at their sources.
///
/// Grants that fail or have no secret are left out, or with `strict` refused.
pub fn resolve_credentials(policy: &Policy, found: &Vec<SourceValue>, strict: bool) -> (r:
    EnforceResult<Vec<ResolvedCredential>>)
    requires
        found@.len() == policy@.credentials.len(),
        forall|i: int|
            0 <= i < found@.len() ==> fits(policy@.credentials[i], (#[trigger] found@[i])@),
    ensures
        match r {
            Ok(c) => {
                &&& strict ==> strict_refusal(policy@.credentials, found.deep_view()) is None
                &&& c.deep_view() == all_resolved(policy@.credentials, found.deep_view())
            },
            Err(e) => strict && strict_refusal(policy@.credentials, found.deep_view()) == Some(e@),
        },
{
    let ghost g = policy@.credentials;
    let ghost f = found.deep_view();
    let mut out: Vec<ResolvedCredential> = Vec::new();
    let mut i: usize = 0;
    assert(g.take(0) =~= Seq::<CredentialGrantView>::empty());
    assert(out.deep_view() =~= all_resolved(g.take(0), f));
    while i < policy.credentials.len()
        invariant
            g == policy.credentials.deep_view(),
            g == policy@.credentials,
            f == found.deep_view(),
            found@.len() == g.len(),
            forall|i: int| 0 <= i < found@.len() ==> fits(g[i], (#[trigger] found@[i])@),
            i <= policy.credentials.len(),
            strict ==> strict_refusal(g.take(i as int), f) is None,
            out.deep_view() == all_resolved(g.take(i as int), f),
        decreases policy.credentials.len() - i,
    {
        assert(g[i as int] == policy.credentials@[i as int]@);
        assert(f[i as int] == found@[i as int]@);
        assert(g.take(i + 1).drop_last() =~= g.take(i as int));
        let ghost before = out.deep_view();
        let grant = &policy.credentials[i];
        match resolve_one(grant, &found[i]) {
            Ok(Some(c)) => {
                out.push(c);
                assert(out.deep_view() =~= before.push(c@));
            },
            Ok(None) => {
                if strict {
                    proof {
                        strict_refusal_stays(g, f, i + 1);
                    }
                    return Err(
                        EnforceError::Denied(
                            "credential '".to_owned().concat(grant.name.as_str()).concat(
                                "' source empty or missing: ",
                            ).concat(grant.source.as_str()),
                        ),
                    );
                }
            },
            Err(e) => {
                if strict {
                    proof {
                        strict_refusal_stays(g, f, i + 1);
                    }
                    return Err(e);
                }
            },
        }
        i += 1;
    }
    assert(g.take(g.len() as int) =~= g);
    Ok(out)
}

/// The environment has a variable with the given name.
pub open spec fn has_key(env: Seq<(Seq<char>, Seq<char>)>, key: Seq<char>) -> bool {
    exists|i: int| 0 <= i < env.len() && (#[trigger] env[i]).0 == key
}

/// The environment after the credentials were added, and the names of those that
/// were: a variable that is there is not overwritten.
pub open spec fn injected(
    env: Seq<(Seq<char>, Seq<char>)>,
    creds: Seq<ResolvedCredentialView>,
) -> (Seq<(Seq<char>, Seq<char>)>, Seq<Seq<char>>)
    decreases creds.len(),
{
    if creds.len() == 0 {
        (env, Seq::empty())
    } else {
        let (e, names) = injected(env, creds.drop_last());
        let c = creds.last();
        if has_key(e, c.env_key) {
            (e, names)
        } else {
            (e.push((c.env_key, c.value)), names.push(c.name))
        }
    }
}

/// Whether the environment has a variable with the given name.
pub fn env_has_key(env: &Vec<(String, String)>, key: &str) -> (r: bool)
    ensures
        r == has_key(env.deep_view(), key@),
{
    let ghost m = env.deep_view();
    let mut i: usize = 0;
    while i < env.len()
        invariant
            m == env.deep_view(),
            i <= env.len(),
            forall|k: int| 0 <= k < i ==> (#[trigger] m[k]).0 != key@,
        decreases env.len() - i,
    {
        assert(m[i as int] == env@[i as int].deep_view());
        if text::same(env[i].0.as_str(), key) {
            assert(m[i as int].0 == key@);
            return true;
        }
        i += 1;
    }
    false
}

/// Adds the credentials to the environment of a child and says which were added.
pub fn inject_into_env(env: &mut Vec<(String, String)>, creds: &[ResolvedCredential]) -> (r: Vec<
    String,
>)
    ensures
        (final(env).deep_view(), r.deep_view()) == injected(
            old(env).deep_view(),
            creds.deep_view(),
        ),
{
    let ghost start = env.deep_view();
    let ghost m = creds.deep_view();
    let mut issued: Vec<String> = Vec::new();
    let mut i: usize = 0;
    assert(m.take(0) =~= Seq::<ResolvedCredentialView>::empty());
    assert(issued.deep_view() =~= Seq::<Seq<char>>::empty());
    while i < creds.len()
        invariant
            m == creds.deep_view(),
            i <= creds.len(),
            (env.deep_view(), issued.deep_view()) == injected(start, m.take(i as int)),
        decreases creds.len() - i,
    {
        assert(m[i as int] == creds@[i as int]@);
        assert(m.take(i + 1).drop_last() =~= m.take(i as int));
        let ghost e = env.deep_view();
        let ghost names = issued.deep_view();
        let c = &creds[i];
        if !env_has_key(env, c.env_key.as_str()) {
            env.push((c.env_key.clone(), c.value.clone()));
            issued.push(c.name.clone());
            assert(env.deep_view() =~= e.push((c@.env_key, c@.value)));
            assert(issued.deep_view() =~= names.push(c@.name));
        }
        i += 1;
    }
    assert(m.take(m.len() as int) =~= m);
    issued
}

/// Takes the secrets out of the credentials.
pub fn revoke_resolved(creds: &mut Vec<ResolvedCredential>)
    ensures
        final(creds)@.len() == old(creds)@.len(),
        forall|i: int|
            0 <= i < old(creds)@.len() ==> {
                &&& (#[trigger] final(creds)@[i])@.name == old(creds)@[i]@.name
                &&& final(creds)@[i]@.env_key == old(creds)@[i]@.env_key
                &&& final(creds)@[i]@.value == Seq::<char>::empty()
            },
{
    let ghost before = creds@;
    let n: usize = creds.len();
    let mut i: usize = 0;
    while i < n
        invariant
            n == creds.len(),
            creds@.len() == before.len(),
            i <= n,
            forall|k: int|
                0 <= k < n ==> {
                    &&& (#[trigger] creds@[k])@.name == before[k]@.name
                    &&& creds@[k]@.env_key == before[k]@.env_key
                    &&& k < i ==> creds@[k]@.value == Seq::<char>::empty()
                },
        decreases n - i,
    {
        creds[i].value = String::new();
        i += 1;
    }
}

/// The names of the grants, in order.
pub fn grant_names(policy: &Policy) -> (r: Vec<String>)
    ensures
        r.deep_view() == policy@.credentials.map_values(|c: CredentialGrantView| c.name),
{
    let ghost g = policy@.credentials;
    let ghost goal = g.map_values(|c: CredentialGrantView| c.name);
    let mut r: Vec<String> = Vec::new();
    let mut i: usize = 0;
    while i < policy.credentials.len()
        invariant
            g == policy.credentials.deep_view(),
            goal == g.map_values(|c: CredentialGrantView| c.name),
            i <= policy.credentials.len(),
            r.deep_view() == goal.take(i as int),
        decreases policy.credentials.len() - i,
    {
        assert(g[i as int] == policy.credentials@[i as int]@);
        let ghost before = r.deep_view();
        r.push(policy.credentials[i].name.clone());
        i += 1;
        assert(r.deep_view() =~= before.push(goal[i - 1]));
        assert(r.deep_view() =~= goal.take(i as int));
    }
    assert(goal.take(goal.len() as int) =~= goal);
    r
}

/// The sources by name; of grants with the same name the last one.
pub open spec fn sources(grants: Seq<CredentialGrantView>) -> Map<Seq<char>, Seq<char>>
    decreases grants.len(),
{
    if grants.len() == 0 {
        Map::empty()
    } else {
        sources(grants.drop_last()).insert(grants.last().name, grants.last().source)
    }
}

/// The pairs as a map; no key occurs twice.
pub open spec fn pairs_map(pairs: Seq<(Seq<char>, Seq<char>)>) -> Map<Seq<char>, Seq<char>>
    decreases pairs.len(),
{
    if pairs.len() == 0 {
        Map::empty()
    } else {
        pairs_map(pairs.drop_last()).insert(pairs.last().0, pairs.last().1)
    }
}

pub open spec fn distinct_keys(pairs: Seq<(Seq<char>, Seq<char>)>) -> bool {
    forall|i: int, j: int|
        0 <= i < j < pairs.len() ==> (#[trigger] pairs[i]).0 != (#[trigger] pairs[j]).0
}

proof fn pairs_map_update(pairs: Seq<(Seq<char>, Seq<char>)>, at: int, value: Seq<char>)
    requires
        distinct_keys(pairs),
        0 <= at < pairs.len(),
    ensures
        distinct_keys(pairs.update(at, (pairs[at].0, value))),
        pairs_map(pairs.update(at, (pairs[at].0, value))) == pairs_map(pairs).insert(
            pairs[at].0,
            value,
        ),
    decreases pairs.len(),
{
    let u = pairs.update(at, (pairs[at].0, value));
    assert forall|i: int, j: int| 0 <= i < j < u.len() implies (#[trigger] u[i]).0 != (
    #[trigger] u[j]).0 by {
        assert(u[i].0 == pairs[i].0);
        assert(u[j].0 == pairs[j].0);
    }
    let front = pairs.drop_last();
    assert(distinct_keys(front));
    if at < pairs.len() - 1 {
        pairs_map_update(front, at, value);
        assert(u.drop_last() =~= front.update(at, (front[at].0, value)));
        assert(u.last() == pairs.last());
        assert(pairs[at].0 != pairs[pairs.len() - 1].0);
        assert(pairs_map(u) =~= pairs_map(pairs).insert(pairs[at].0, value));
    } else {
        assert(u.drop_last() =~= front);
        assert(pairs_map(u) =~= pairs_map(pairs).insert(pairs[at].0, value));
    }
}

/// The sources of the grants by name, for diagnosis.
pub fn grant_sources(policy: &Policy) -> (r: Vec<(String, String)>)
    ensures
        distinct_keys(r.deep_view()),
        pairs_map(r.deep_view()) == sources(policy@.credentials),
{
    let ghost g = policy@.credentials;
    let mut r: Vec<(String, String)> = Vec::new();
    let mut i: usize = 0;
    assert(g.take(0) =~= Seq::<CredentialGrantView>::empty());
    while i < policy.credentials.len()
        invariant
            g == policy.credentials.deep_view(),
            i <= policy.credentials.len(),
            distinct_keys(r.deep_view()),
            pairs_map(r.deep_view()) == sources(g.take(i as int)),
        decreases policy.credentials.len() - i,
    {
        assert(g[i as int] == policy.credentials@[i as int]@);
        assert(g.take(i + 1).drop_last() =~= g.take(i as int));
        let c = &policy.credentials[i];
        let ghost m = r.deep_view();
        let mut k: usize = 0;
        while k < r.len() && !text::same(r[k].0.as_str(), c.name.as_str())
            invariant
                m == r.deep_view(),
                k <= r.len(),
                forall|j: int| 0 <= j < k ==> (#[trigger] m[j]).0 != c@.name,
            ensures
                m == r.deep_view(),
                k <= r.len(),
                forall|j: int| 0 <= j < k ==> (#[trigger] m[j]).0 != c@.name,
                k < r.len() ==> m[k as int].0 == c@.name,
            decreases r.len() - k,
        {
            assert(m[k as int] == r@[k as int].deep_view());
            k += 1;
        }
        if k < r.len() {
            proof {
                pairs_map_update(m, k as int, c@.source);
            }
            r.set(k, (c.name.clone(), c.source.clone()));
            assert(r.deep_view() =~= m.update(k as int, (c@.name, c@.source)));
        } else {
            r.push((c.name.clone(), c.source.clone()));
            assert(r.deep_view() =~= m.push((c@.name, c@.source)));
            assert(r.deep_view().drop_last() =~= m);
        }
        i += 1;
    }
    assert(g.take(g.len() as int) =~= g);
    r
}

// ---------------------------------------------------------------------------
// Laws
// ---------------------------------------------------------------------------
/// Handing out credentials keeps every variable that was set, with its value.
pub proof fn injection_keeps_the_environment(
    env: Seq<(Seq<char>, Seq<char>)>,
    creds: Seq<ResolvedCredentialView>,
)
    ensures
        env.is_prefix_of(injected(env, creds).0),
    decreases creds.len(),
{
    if creds.len() > 0 {
        injection_keeps_the_environment(env, creds.drop_last());
        let before = injected(env, creds.drop_last()).0;
        let after = injected(env, creds).0;
        assert(after.subrange(0, env.len() as int) =~= before.subrange(0, env.len() as int));
    } else {
        assert(env.subrange(0, env.len() as int) =~= env);
    }
}

/// Only grants of the policy are resolved, each under its own name.
pub proof fn only_grants_are_resolved(
    grants: Seq<CredentialGrantView>,
    found: Seq<SourceValueView>,
    i: int,
)
    requires
        0 <= i < all_resolved(grants, found).len(),
    ensures
        exists|k: int|
            0 <= k < grants.len() && (#[trigger] grants[k]).name == all_resolved(
                grants,
                found,
            )[i].name,
    decreases grants.len(),
{
    let before = all_resolved(grants.drop_last(), found);
    let all = all_resolved(grants, found);
    if i < before.len() {
        only_grants_are_resolved(grants.drop_last(), found, i);
        let k = choose|k: int|
            0 <= k < grants.drop_last().len() && (#[trigger] grants.drop_last()[k]).name
                == before[i].name;
        assert(grants[k].name == all[i].name);
    } else {
        assert(grants[grants.len() - 1].name == all[i].name);
    }
}

/// `v` is `s` without the line ends behind it.
pub open spec fn ends_cut(s: Seq<char>, v: Seq<char>) -> bool {
    &&& v.len() <= s.len()
    &&& s.take(v.len() as int) == v
    &&& forall|i: int| v.len() <= i < s.len() ==> #[trigger] s[i] == '\r' || s[i] == '\n'
    &&& v.len() > 0 ==> v.last() != '\r' && v.last() != '\n'
}

/// Line ends behind a secret in a file are cut off, and nothing else is.
pub proof fn line_ends_are_cut(s: Seq<char>)
    ensures
        ends_cut(s, without_line_ends(s)),
    decreases s.len(),
{
    if s.len() > 0 && (s.last() == '\r' || s.last() == '\n') {
        line_ends_are_cut(s.drop_last());
        let v = without_line_ends(s);
        assert(s.take(v.len() as int) =~= s.drop_last().take(v.len() as int));
        assert forall|i: int| v.len() <= i < s.len() implies #[trigger] s[i] == '\r' || s[i]
            == '\n' by {
            if i < s.len() - 1 {
                assert(s.drop_last()[i] == s[i]);
            }
        }
    } else {
        assert(s.take(s.len() as int) =~= s);
    }
}

/// Where a source says that the secret is: `env:` and `file:` name a variable and a
/// file; a text without a colon or slash names a variable; one that begins as a path
/// names a file; nothing else names anything. White space around it does not count.
pub proof fn sources_say_where_secrets_are(source: Seq<char>)
    ensures
        ({
            let s = text::trimmed(source, CharClass::Space);
            let env = s.len() >= 4 && s[0] == 'e' && s[1] == 'n' && s[2] == 'v' && s[3] == ':';
            let file = s.len() >= 5 && s[0] == 'f' && s[1] == 'i' && s[2] == 'l' && s[3] == 'e'
                && s[4] == ':';
            let bare = !env && !file && forall|i: int|
                0 <= i < s.len() ==> #[trigger] s[i] != ':' && s[i] != '/';
            let here = !env && !file && !bare && ((s.len() >= 1 && s[0] == '/') || (s.len() >= 2
                && s[0] == '.' && s[1] == '/') || (s.len() >= 3 && s[0] == '.' && s[1] == '.'
                && s[2] == '/'));
            &&& env ==> source_kind(source) == CredentialSourceKindView::Env(
                s.subrange(4, s.len() as int),
            )
            &&& file ==> source_kind(source) == CredentialSourceKindView::File(
                s.subrange(5, s.len() as int),
            )
            &&& bare ==> source_kind(source) == CredentialSourceKindView::Env(s)
            &&& here ==> source_kind(source) == CredentialSourceKindView::File(s)
            &&& !env && !file && !bare && !here ==> source_kind(source)
                == CredentialSourceKindView::Unsupported(s)
        }),
{
    reveal_strlit("env:");
    reveal_strlit("file:");
    reveal_strlit("/");
    reveal_strlit("./");
    reveal_strlit("../");
    let s = text::trimmed(source, CharClass::Space);
    begins_with(s, "env:"@);
    begins_with(s, "file:"@);
    begins_with(s, "/"@);
    begins_with(s, "./"@);
    begins_with(s, "../"@);
    assert(s.contains(':') == exists|i: int| 0 <= i < s.len() && #[trigger] s[i] == ':');
    assert(s.contains('/') == exists|i: int| 0 <= i < s.len() && #[trigger] s[i] == '/');
    assert("env:"@[0] == 'e' && "env:"@[1] == 'n' && "env:"@[2] == 'v' && "env:"@[3] == ':');
    assert("file:"@[0] == 'f' && "file:"@[1] == 'i' && "file:"@[2] == 'l' && "file:"@[3] == 'e'
        && "file:"@[4] == ':');
    assert("/"@[0] == '/');
    assert("./"@[0] == '.' && "./"@[1] == '/');
    assert("../"@[0] == '.' && "../"@[1] == '.' && "../"@[2] == '/');
}

proof fn begins_with(s: Seq<char>, p: Seq<char>)
    ensures
        p.is_prefix_of(s) <==> p.len() <= s.len() && forall|i: int|
            0 <= i < p.len() ==> s[i] == #[trigger] p[i],
{
    if p.len() <= s.len() {
        if p.is_prefix_of(s) {
            assert forall|i: int| 0 <= i < p.len() implies s[i] == #[trigger] p[i] by {
                assert(s.subrange(0, p.len() as int)[i] == s[i]);
            }
        } else if forall|i: int| 0 <= i < p.len() ==> s[i] == #[trigger] p[i] {
            assert(s.subrange(0, p.len() as int) =~= p);
        }
    }
}

/// A secret is looked up where its source says: in a variable, or in a file that is
/// seen from the workspace.
pub proof fn secrets_are_looked_up_where_they_are(
    style: Style,
    grant: CredentialGrantView,
    workspace: Seq<char>,
)
    ensures
        match source_kind(grant.source) {
            CredentialSourceKindView::Env(v) => lookup(style, grant, workspace)
                == SourceLookupView::Env(v),
            CredentialSourceKindView::File(p) => lookup(style, grant, workspace)
                == SourceLookupView::File(native::joined(style, workspace, p)),
            CredentialSourceKindView::Unsupported(_) => lookup(style, grant, workspace)
                == SourceLookupView::Nothing,
        },
{
}

/// What a grant hands out: its name, the variable that it names or else its own name,
/// and the secret that was found, a variable as it is and a file without the line ends
/// behind it. It hands out nothing if the secret is empty or was not found.
pub proof fn grants_hand_out_what_was_found(grant: CredentialGrantView, found: SourceValueView)
    ensures
        match resolved(grant, found) {
            Some(c) => {
                &&& c.name == grant.name
                &&& grant.inject_as_env is Some ==> c.env_key == grant.inject_as_env->0
                &&& grant.inject_as_env is None ==> c.env_key == grant.name
                &&& c.value.len() > 0
                &&& match found {
                    SourceValueView::Env(Some(v)) => c.value == v,
                    SourceValueView::File(Ok(v)) => ends_cut(v, c.value),
                    _ => false,
                }
            },
            None => match found {
                SourceValueView::Env(Some(v)) => v.len() == 0,
                SourceValueView::File(Ok(v)) => forall|i: int|
                    0 <= i < v.len() ==> #[trigger] v[i] == '\r' || v[i] == '\n',
                _ => true,
            },
        },
{
    if let SourceValueView::File(Ok(v)) = found {
        line_ends_are_cut(v);
    }
}

/// When resolving a grant fails: it has no variable to go to, its source is none that
/// is known, or its file could not be read.
pub proof fn why_grants_fail(grant: CredentialGrantView, found: SourceValueView)
    ensures
        failure(grant, found) is Some <==> {
            ||| grant.inject_as_env is Some && grant.inject_as_env->0.len() == 0
            ||| grant.inject_as_env is None && grant.name.len() == 0
            ||| source_kind(grant.source) is Unsupported
            ||| source_kind(grant.source) is File && found is File && found->File_0 is Err
        },
        failure(grant, found) is Some ==> failure(grant, found)->0 is Denied || (
        source_kind(grant.source) is File && found is File && failure(grant, found) == Some(
            EnforceErrorView::Io(found->File_0->Err_0),
        )),
{
}

/// Where every credential is needed, either all of them are handed out, one for each
/// grant and in order, or the reason of the first that cannot be is given.
pub proof fn all_or_the_first_reason(
    grants: Seq<CredentialGrantView>,
    found: Seq<SourceValueView>,
)
    ensures
        strict_refusal(grants, found) is None <==> forall|k: int|
            0 <= k < grants.len() ==> failure(#[trigger] grants[k], found[k]) is None && resolved(
                grants[k],
                found[k],
            ) is Some,
        strict_refusal(grants, found) is None ==> all_resolved(grants, found).len() == grants.len()
            && forall|k: int|
            0 <= k < grants.len() ==> Some(all_resolved(grants, found)[k]) == resolved(
                #[trigger] grants[k],
                found[k],
            ),
    decreases grants.len(),
{
    if grants.len() > 0 {
        let front = grants.drop_last();
        all_or_the_first_reason(front, found);
        let n = grants.len() - 1;
        if strict_refusal(grants, found) is None {
            assert forall|k: int| 0 <= k < grants.len() implies failure(
                #[trigger] grants[k],
                found[k],
            ) is None && resolved(grants[k], found[k]) is Some && Some(
                all_resolved(grants, found)[k],
            ) == resolved(grants[k], found[k]) by {
                if k < n {
                    assert(front[k] == grants[k]);
                }
            }
        } else if forall|k: int|
            0 <= k < grants.len() ==> failure(#[trigger] grants[k], found[k]) is None && resolved(
                grants[k],
                found[k],
            ) is Some {
            assert forall|k: int| 0 <= k < front.len() implies failure(
                #[trigger] front[k],
                found[k],
            ) is None && resolved(front[k], found[k]) is Some by {
                assert(front[k] == grants[k]);
            }
            assert(failure(grants[n], found[n]) is None);
        }
    }
}

/// Where not every credential is needed, those are handed out that can be: each that
/// does not fail and was found.
pub proof fn what_can_be_handed_out_is(
    grants: Seq<CredentialGrantView>,
    found: Seq<SourceValueView>,
    k: int,
)
    requires
        0 <= k < grants.len(),
        failure(grants[k], found[k]) is None,
        resolved(grants[k], found[k]) is Some,
    ensures
        all_resolved(grants, found).contains(resolved(grants[k], found[k])->0),
    decreases grants.len(),
{
    let all = all_resolved(grants, found);
    let c = resolved(grants[k], found[k])->0;
    if k < grants.len() - 1 {
        let before = all_resolved(grants.drop_last(), found);
        what_can_be_handed_out_is(grants.drop_last(), found, k);
        let j = choose|j: int| 0 <= j < before.len() && before[j] == c;
        assert(all[j] == c);
    } else {
        assert(all[all.len() - 1] == c);
    }
}

/// Nothing is handed out that a grant does not hand out.
pub proof fn nothing_else_is_handed_out(
    grants: Seq<CredentialGrantView>,
    found: Seq<SourceValueView>,
    i: int,
)
    requires
        0 <= i < all_resolved(grants, found).len(),
    ensures
        exists|k: int|
            0 <= k < grants.len() && failure(#[trigger] grants[k], found[k]) is None && resolved(
                grants[k],
                found[k],
            ) == Some(all_resolved(grants, found)[i]),
    decreases grants.len(),
{
    let all = all_resolved(grants, found);
    let front = grants.drop_last();
    let before = all_resolved(front, found);
    if i < before.len() {
        nothing_else_is_handed_out(front, found, i);
        let k = choose|k: int|
            0 <= k < front.len() && failure(#[trigger] front[k], found[k]) is None && resolved(
                front[k],
                found[k],
            ) == Some(before[i]);
        assert(grants[k] == front[k]);
    } else {
        assert(failure(grants[grants.len() - 1], found[grants.len() - 1]) is None);
    }
}

/// Every credential reaches the environment under its variable, unless the variable
/// was set already or another credential came first; what was added is reported by
/// name, one name for each variable.
pub proof fn credentials_reach_the_environment(
    env: Seq<(Seq<char>, Seq<char>)>,
    creds: Seq<ResolvedCredentialView>,
    i: int,
)
    requires
        0 <= i < creds.len(),
    ensures
        ({
            let (e, names) = injected(env, creds);
            &&& exists|k: int| 0 <= k < e.len() && (#[trigger] e[k]).0 == creds[i].env_key
            &&& (forall|k: int| 0 <= k < env.len() ==> (#[trigger] env[k]).0 != creds[i].env_key)
                && (forall|j: int|
                0 <= j < i ==> (#[trigger] creds[j]).env_key != creds[i].env_key) ==> e.contains(
                (creds[i].env_key, creds[i].value),
            ) && names.contains(creds[i].name)
            &&& e.len() == env.len() + names.len()
        }),
    decreases creds.len(),
{
    let front = creds.drop_last();
    let (b, bn) = injected(env, front);
    let (e, names) = injected(env, creds);
    let c = creds[i];
    injected_len(env, creds);
    if i < creds.len() - 1 {
        credentials_reach_the_environment(env, front, i);
        assert(front[i] == c);
        let k = choose|k: int| 0 <= k < b.len() && (#[trigger] b[k]).0 == c.env_key;
        assert(e[k].0 == c.env_key);
        if (forall|k: int| 0 <= k < env.len() ==> (#[trigger] env[k]).0 != c.env_key) && (forall|
            j: int,
        |
            0 <= j < i ==> (#[trigger] creds[j]).env_key != c.env_key) {
            assert forall|j: int| 0 <= j < i implies (#[trigger] front[j]).env_key != c.env_key by {
                assert(front[j] == creds[j]);
            }
            let x = choose|x: int| 0 <= x < b.len() && b[x] == (c.env_key, c.value);
            assert(e[x] == (c.env_key, c.value));
            let y = choose|y: int| 0 <= y < bn.len() && bn[y] == c.name;
            assert(names[y] == c.name);
        }
    } else {
        if has_key(b, c.env_key) {
            let k = choose|k: int| 0 <= k < b.len() && (#[trigger] b[k]).0 == c.env_key;
            assert(e[k].0 == c.env_key);
            only_from_credentials(env, front, k);
            if forall|j: int| 0 <= j < i ==> (#[trigger] creds[j]).env_key != c.env_key {
                if exists|j: int|
                    0 <= j < front.len() && b[k] == ((#[trigger] front[j]).env_key, front[j].value) {
                    let j = choose|j: int|
                        0 <= j < front.len() && b[k] == (
                            (#[trigger] front[j]).env_key,
                            front[j].value,
                        );
                    assert(creds[j] == front[j]);
                }
            }
        } else {
            assert(e[e.len() - 1] == (c.env_key, c.value));
            assert(names[names.len() - 1] == c.name);
        }
    }
}

proof fn injected_len(env: Seq<(Seq<char>, Seq<char>)>, creds: Seq<ResolvedCredentialView>)
    ensures
        injected(env, creds).0.len() == env.len() + injected(env, creds).1.len(),
    decreases creds.len(),
{
    if creds.len() > 0 {
        injected_len(env, creds.drop_last());
    }
}

/// Every variable was set before or is that of a credential, with its secret.
pub proof fn only_from_credentials(
    env: Seq<(Seq<char>, Seq<char>)>,
    creds: Seq<ResolvedCredentialView>,
    k: int,
)
    requires
        0 <= k < injected(env, creds).0.len(),
    ensures
        ({
            let e = injected(env, creds).0;
            &&& k < env.len() ==> e[k] == env[k]
            &&& k >= env.len() ==> exists|j: int|
                0 <= j < creds.len() && e[k] == ((#[trigger] creds[j]).env_key, creds[j].value)
        }),
    decreases creds.len(),
{
    if creds.len() > 0 {
        let front = creds.drop_last();
        let b = injected(env, front).0;
        let e = injected(env, creds).0;
        injection_keeps_the_environment(env, front);
        assert(b.subrange(0, env.len() as int) == env);
        if k < b.len() {
            only_from_credentials(env, front, k);
            if k >= env.len() {
                let j = choose|j: int|
                    0 <= j < front.len() && b[k] == ((#[trigger] front[j]).env_key, front[j].value);
                assert(creds[j] == front[j]);
            }
        } else {
            assert(e[k] == (creds[creds.len() - 1].env_key, creds[creds.len() - 1].value));
        }
    }
}

/// Where a name occurs in several grants, the last of them says where its secret is.
pub proof fn the_last_grant_of_a_name_counts(
    grants: Seq<CredentialGrantView>,
    more: CredentialGrantView,
    name: Seq<char>,
)
    ensures
        sources(grants.push(more))[more.name] == more.source,
        name != more.name ==> sources(grants.push(more)).dom().contains(name) == sources(
            grants,
        ).dom().contains(name) && sources(grants.push(more))[name] == sources(grants)[name],
        sources(grants).dom().contains(name) <==> exists|i: int|
            0 <= i < grants.len() && (#[trigger] grants[i]).name == name,
    decreases grants.len(),
{
    assert(grants.push(more).drop_last() =~= grants);
    if grants.len() > 0 {
        let front = grants.drop_last();
        the_last_grant_of_a_name_counts(front, more, name);
        if exists|i: int| 0 <= i < front.len() && (#[trigger] front[i]).name == name {
            let i = choose|i: int| 0 <= i < front.len() && (#[trigger] front[i]).name == name;
            assert(grants[i].name == name);
        }
        if exists|i: int| 0 <= i < grants.len() && (#[trigger] grants[i]).name == name {
            let i = choose|i: int| 0 <= i < grants.len() && (#[trigger] grants[i]).name == name;
            if i < front.len() {
                assert(front[i].name == name);
            }
        }
        assert(grants[grants.len() - 1] == grants.last());
    }
}

} // verus!
