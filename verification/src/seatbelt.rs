//! Denials for the sandbox of macOS.
use crate::deny_glob;
use crate::deny_glob::glob_to_seatbelt_regex;
use crate::error::{EnforceError, EnforceErrorView, EnforceResult};
use crate::path;
use crate::paths::{FsAccess, FsRuleView};
use crate::policy::Policy;
use crate::text;
use vstd::prelude::*;
use vstd::string::*;

verus! {

/// A character inside a quoted string of a sandbox profile.
pub open spec fn quoted_char(c: char) -> Seq<char> {
    if c == '\\' {
        seq!['\\', '\\']
    } else if c == '"' {
        seq!['\\', '"']
    } else {
        seq![c]
    }
}

/// `s` with a backslash in front of every backslash and double quote.
pub open spec fn quoted(s: Seq<char>) -> Seq<char>
    decreases s.len(),
{
    if s.len() == 0 {
        Seq::empty()
    } else {
        quoted(s.drop_last()) + quoted_char(s.last())
    }
}

/// The control characters.
pub open spec fn is_control(c: char) -> bool {
    (c as u32) < 0x20 || 0x7f <= c as u32 <= 0x9f
}

pub open spec fn has_control(s: Seq<char>) -> bool {
    exists|i: int| 0 <= i < s.len() && is_control(#[trigger] s[i])
}

/// The string with backslashes and double quotes escaped.
pub fn escape_sexp_string(s: &str) -> (r: String)
    ensures
        r@ == quoted(s@),
{
    let v = text::chars_of(s);
    let mut r = String::new();
    let mut i: usize = 0;
    assert(s@.take(0) =~= Seq::<char>::empty());
    while i < v.len()
        invariant
            v@ == s@,
            i <= v.len(),
            r@ == quoted(s@.take(i as int)),
        decreases v.len() - i,
    {
        assert(s@.take(i + 1).drop_last() =~= s@.take(i as int));
        let ghost before = r@;
        let c = v[i];
        if c == '\\' || c == '"' {
            r.push('\\');
        }
        r.push(c);
        assert(r@ =~= before + quoted_char(c));
        i += 1;
    }
    assert(s@.take(s@.len() as int) =~= s@);
    r
}

/// The path for use in a profile; `None` if it holds a control character.
pub fn escape_seatbelt_path(p: &str) -> (r: Option<String>)
    ensures
        match r {
            Some(s) => !has_control(p@) && s@ == quoted(p@),
            None => has_control(p@),
        },
{
    let v = text::chars_of(p);
    let mut i: usize = 0;
    while i < v.len()
        invariant
            v@ == p@,
            i <= v.len(),
            forall|k: int| 0 <= k < i ==> !is_control(#[trigger] p@[k]),
        decreases v.len() - i,
    {
        let n: u32 = v[i] as u32;
        if n < 0x20 || (0x7f <= n && n <= 0x9f) {
            assert(is_control(p@[i as int]));
            return None;
        }
        i += 1;
    }
    Some(escape_sexp_string(p))
}

/// The rest of `s` behind `prefix`, if it is empty or starts a new component.
pub open spec fn below(s: Seq<char>, prefix: Seq<char>) -> Option<Seq<char>> {
    let rest = s.subrange(prefix.len() as int, s.len() as int);
    if prefix.is_prefix_of(s) && (rest.len() == 0 || rest[0] == '/') {
        Some(rest)
    } else {
        None
    }
}

/// The other name of a path in one of the directories that exist twice.
pub open spec fn other_name(s: Seq<char>, dir: Seq<char>) -> Option<Seq<char>> {
    match below(s, "/private/"@ + dir) {
        Some(rest) => Some("/"@ + dir + rest),
        None => match below(s, "/"@ + dir) {
            Some(rest) => Some("/private/"@ + dir + rest),
            None => None,
        },
    }
}

/// The other name of a path: `/tmp`, `/var` and `/etc` also lie in `/private`.
pub open spec fn alias(s: Seq<char>) -> Option<Seq<char>> {
    if other_name(s, "tmp"@) is Some {
        other_name(s, "tmp"@)
    } else if other_name(s, "var"@) is Some {
        other_name(s, "var"@)
    } else {
        other_name(s, "etc"@)
    }
}

fn find_below(s: &str, prefix: &str) -> (r: Option<String>)
    ensures
        r.deep_view() == below(s@, prefix@),
{
    match text::strip_prefix(s, prefix) {
        Some(rest) => if rest.unicode_len() == 0 || rest.get_char(0) == '/' {
            Some(rest.to_owned())
        } else {
            None
        },
        None => None,
    }
}

fn find_other_name(s: &str, dir: &str) -> (r: Option<String>)
    ensures
        r.deep_view() == other_name(s@, dir@),
{
    let private = "/private/".to_owned().concat(dir);
    if let Some(rest) = find_below(s, private.as_str()) {
        return Some("/".to_owned().concat(dir).concat(rest.as_str()));
    }
    let plain = "/".to_owned().concat(dir);
    if let Some(rest) = find_below(s, plain.as_str()) {
        return Some(private.concat(rest.as_str()));
    }
    None
}

/// The other name of the path, if it has one.
pub fn toggle_private_prefix(p: &str) -> (r: Option<String>)
    ensures
        r.deep_view() == alias(p@),
{
    if let Some(t) = find_other_name(p, "tmp") {
        return Some(t);
    }
    if let Some(t) = find_other_name(p, "var") {
        return Some(t);
    }
    find_other_name(p, "etc")
}

/// Some of the paths has the components of `p`.
pub open spec fn has_path(paths: Seq<Seq<char>>, p: Seq<char>) -> bool {
    exists|i: int| 0 <= i < paths.len() && path::parts(#[trigger] paths[i]) == path::parts(p)
}

/// `forms` with the other name of `of` added, unless it is there.
pub open spec fn with_alias(forms: Seq<Seq<char>>, of: Seq<char>) -> Seq<Seq<char>> {
    match alias(of) {
        Some(a) => if has_path(forms, a) {
            forms
        } else {
            forms.push(a)
        },
        None => forms,
    }
}

/// The names under which a path has to be denied: as it is written, its
/// canonical form, and the other names of both.
pub open spec fn deny_forms(p: Seq<char>, canonical: Seq<char>) -> Seq<Seq<char>> {
    if path::parts(canonical) == path::parts(p) {
        with_alias(seq![p], p)
    } else {
        with_alias(with_alias(seq![p, canonical], p), canonical)
    }
}

fn contains_path(paths: &Vec<String>, p: &str) -> (r: bool)
    ensures
        r == has_path(paths.deep_view(), p@),
{
    let ghost m = paths.deep_view();
    let mut i: usize = 0;
    while i < paths.len()
        invariant
            m == paths.deep_view(),
            i <= paths.len(),
            forall|k: int| 0 <= k < i ==> path::parts(#[trigger] m[k]) != path::parts(p@),
        decreases paths.len() - i,
    {
        assert(m[i as int] == paths@[i as int]@);
        if path::same(paths[i].as_str(), p) {
            assert(path::parts(m[i as int]) == path::parts(p@));
            return true;
        }
        i += 1;
    }
    false
}

fn add_alias(forms: &mut Vec<String>, of: &str)
    ensures
        final(forms).deep_view() == with_alias(old(forms).deep_view(), of@),
{
    let ghost before = forms.deep_view();
    if let Some(a) = toggle_private_prefix(of) {
        if !contains_path(forms, a.as_str()) {
            let ghost added = a@;
            forms.push(a);
            assert(forms.deep_view() =~= before.push(added));
        }
    }
}

/// The names under which the path has to be denied.
pub fn macos_deny_aliases(p: &str, canonical: &str) -> (r: Vec<String>)
    ensures
        r.deep_view() == deny_forms(p@, canonical@),
{
    let mut forms: Vec<String> = Vec::new();
    forms.push(p.to_owned());
    if path::same(canonical, p) {
        assert(forms.deep_view() =~= seq![p@]);
        add_alias(&mut forms, p);
    } else {
        forms.push(canonical.to_owned());
        assert(forms.deep_view() =~= seq![p@, canonical@]);
        add_alias(&mut forms, p);
        add_alias(&mut forms, canonical);
    }
    forms
}

/// The write operations that are denied one by one, so that the denial wins over
/// a broader grant.
pub open spec fn write_actions() -> Seq<Seq<char>> {
    seq![
        "file-write-data"@,
        "file-write-create"@,
        "file-write-unlink"@,
        "file-write-mode"@,
        "file-write-owner"@,
        "file-write-flags"@,
        "file-write-times"@,
        "file-write-setugid"@,
    ]
}

/// The denial of one operation.
pub open spec fn denial(action: Seq<char>, filter: Seq<char>) -> Seq<char> {
    "(deny "@ + action + " "@ + filter + ")"@
}

/// The denials of reading and writing what the filter matches.
pub open spec fn denials(filter: Seq<char>) -> Seq<Seq<char>> {
    (seq!["file-read*"@, "file-write*"@] + write_actions()).map_values(
        |a: Seq<char>| denial(a, filter),
    )
}

fn write_denial(action: &str, filter: &str) -> (r: String)
    ensures
        r@ == denial(action@, filter@),
{
    "(deny ".to_owned().concat(action).concat(" ").concat(filter).concat(")")
}

/// The denials of reading and writing what the filter matches.
pub fn seatbelt_denials(filter: &str) -> (r: Vec<String>)
    ensures
        r.deep_view() == denials(filter@),
{
    let mut v: Vec<String> = Vec::new();
    v.push(write_denial("file-read*", filter));
    v.push(write_denial("file-write*", filter));
    v.push(write_denial("file-write-data", filter));
    v.push(write_denial("file-write-create", filter));
    v.push(write_denial("file-write-unlink", filter));
    v.push(write_denial("file-write-mode", filter));
    v.push(write_denial("file-write-owner", filter));
    v.push(write_denial("file-write-flags", filter));
    v.push(write_denial("file-write-times", filter));
    v.push(write_denial("file-write-setugid", filter));
    assert(v.deep_view() =~= denials(filter@));
    v
}

/// The filter for a path: everything below it, or just it.
pub open spec fn path_filter(p: Seq<char>, subpath: bool) -> Seq<char> {
    (if subpath {
        "(subpath \""@
    } else {
        "(literal \""@
    }) + quoted(p) + "\")"@
}

/// The first form that cannot be written in a profile.
pub open spec fn first_unwritable(forms: Seq<Seq<char>>) -> Option<Seq<char>>
    decreases forms.len(),
{
    if forms.len() == 0 {
        None
    } else if first_unwritable(forms.drop_last()) is Some {
        first_unwritable(forms.drop_last())
    } else if has_control(forms.last()) {
        Some(forms.last())
    } else {
        None
    }
}

/// The denials of all forms, in order.
pub open spec fn form_denials(forms: Seq<Seq<char>>, subpath: bool) -> Seq<Seq<char>>
    decreases forms.len(),
{
    if forms.len() == 0 {
        Seq::empty()
    } else {
        form_denials(forms.drop_last(), subpath) + denials(path_filter(forms.last(), subpath))
    }
}

proof fn unwritable_stays(forms: Seq<Seq<char>>, n: int)
    requires
        0 <= n <= forms.len(),
        first_unwritable(forms.take(n)) is Some,
    ensures
        first_unwritable(forms) == first_unwritable(forms.take(n)),
    decreases forms.len() - n,
{
    if n < forms.len() {
        assert(forms.take(n + 1).drop_last() =~= forms.take(n));
        unwritable_stays(forms, n + 1);
    } else {
        assert(forms.take(n) =~= forms);
    }
}

/// The profile rules that deny the path, given its canonical form and whether it
/// is a directory.
pub fn macos_deny_rules(p: &str, canonical: &str, directory: bool) -> (r: EnforceResult<
    Vec<String>,
>)
    ensures
        match r {
            Ok(rules) => first_unwritable(deny_forms(p@, canonical@)) is None && rules.deep_view()
                == form_denials(deny_forms(p@, canonical@), directory),
            Err(e) => first_unwritable(deny_forms(p@, canonical@)) is Some && e@
                == EnforceErrorView::ApplyFailed(
                "cannot escape deny path "@ + first_unwritable(deny_forms(p@, canonical@))->0
                    + " for Seatbelt"@,
            ),
        },
{
    let forms = macos_deny_aliases(p, canonical);
    let ghost m = deny_forms(p@, canonical@);
    let mut out: Vec<String> = Vec::new();
    let mut i: usize = 0;
    assert(m.take(0) =~= Seq::<Seq<char>>::empty());
    assert(out.deep_view() =~= form_denials(m.take(0), directory));
    while i < forms.len()
        invariant
            m == forms.deep_view(),
            m == deny_forms(p@, canonical@),
            i <= forms.len(),
            first_unwritable(m.take(i as int)) is None,
            out.deep_view() == form_denials(m.take(i as int), directory),
        decreases forms.len() - i,
    {
        assert(m[i as int] == forms@[i as int]@);
        assert(m.take(i + 1).drop_last() =~= m.take(i as int));
        let form = forms[i].as_str();
        match escape_seatbelt_path(form) {
            Some(s) => {
                let head = if directory {
                    "(subpath \""
                } else {
                    "(literal \""
                };
                let filter = head.to_owned().concat(s.as_str()).concat("\")");
                let mut more = seatbelt_denials(filter.as_str());
                let ghost before = out.deep_view();
                let ghost added = more.deep_view();
                out.append(&mut more);
                assert(out.deep_view() =~= before + added);
            },
            None => {
                proof {
                    unwritable_stays(m, i + 1);
                }
                return Err(
                    EnforceError::ApplyFailed(
                        "cannot escape deny path ".to_owned().concat(form).concat(
                            " for Seatbelt",
                        ),
                    ),
                );
            },
        }
        i += 1;
    }
    assert(m.take(m.len() as int) =~= m);
    Ok(out)
}

/// The filter for a glob.
pub open spec fn glob_filter(workspace: Seq<char>, pattern: Seq<char>) -> Seq<char> {
    "(regex \""@ + quoted(deny_glob::seatbelt_regex(workspace, pattern)) + "\")"@
}

/// Every deny glob of the rules has something to match.
pub open spec fn globs_usable(fs: Seq<FsRuleView>) -> bool {
    forall|i: int|
        0 <= i < fs.len() && deny_glob::is_deny_glob(#[trigger] fs[i])
            ==> deny_glob::usable_pattern(fs[i].path)
}

/// The denials of all deny globs, in order.
pub open spec fn glob_denials(fs: Seq<FsRuleView>, workspace: Seq<char>) -> Seq<Seq<char>>
    decreases fs.len(),
{
    if fs.len() == 0 {
        Seq::empty()
    } else if deny_glob::is_deny_glob(fs.last()) {
        glob_denials(fs.drop_last(), workspace) + denials(glob_filter(workspace, fs.last().path))
    } else {
        glob_denials(fs.drop_last(), workspace)
    }
}

/// The profile rules that deny what the deny globs of the policy match.
pub fn apply_deny_globs_seatbelt(policy: &Policy) -> (r: EnforceResult<Vec<String>>)
    ensures
        match r {
            Ok(rules) => globs_usable(policy@.fs) && rules.deep_view() == glob_denials(
                policy@.fs,
                policy@.glob_base(),
            ),
            Err(e) => !globs_usable(policy@.fs) && e@ == EnforceErrorView::ApplyFailed(
                "empty deny glob"@,
            ),
        },
{
    let ghost m = policy.fs.deep_view();
    let ghost ws = policy@.glob_base();
    let mut out: Vec<String> = Vec::new();
    let mut i: usize = 0;
    assert(m.take(0) =~= Seq::<FsRuleView>::empty());
    assert(out.deep_view() =~= glob_denials(m.take(0), ws));
    while i < policy.fs.len()
        invariant
            m == policy.fs.deep_view(),
            m == policy@.fs,
            ws == policy@.glob_base(),
            i <= policy.fs.len(),
            forall|k: int|
                0 <= k < i && deny_glob::is_deny_glob(#[trigger] m[k])
                    ==> deny_glob::usable_pattern(m[k].path),
            out.deep_view() == glob_denials(m.take(i as int), ws),
        decreases policy.fs.len() - i,
    {
        assert(m[i as int] == policy.fs@[i as int]@);
        assert(m.take(i + 1).drop_last() =~= m.take(i as int));
        let rule = &policy.fs[i];
        if rule.access == FsAccess::Deny && rule.glob {
            match glob_to_seatbelt_regex(policy.glob_base(), rule.path.as_str()) {
                Ok(re) => {
                    let filter = "(regex \"".to_owned().concat(
                        escape_sexp_string(re.as_str()).as_str(),
                    ).concat("\")");
                    let mut more = seatbelt_denials(filter.as_str());
                    let ghost before = out.deep_view();
                    let ghost added = more.deep_view();
                    out.append(&mut more);
                    assert(out.deep_view() =~= before + added);
                },
                Err(e) => {
                    assert(deny_glob::is_deny_glob(m[i as int]));
                    return Err(e);
                },
            }
        }
        i += 1;
    }
    assert(m.take(m.len() as int) =~= m);
    Ok(out)
}

// ---------------------------------------------------------------------------
// Laws
// ---------------------------------------------------------------------------
/// A path is quoted by a backslash in front of each of its quotes and backslashes; one
/// without any stands as it is.
pub proof fn how_paths_are_quoted(s: Seq<char>, c: char)
    ensures
        quoted(s.push(c)) == quoted(s) + (if c == '"' || c == '\\' {
            seq!['\\', c]
        } else {
            seq![c]
        }),
        quoted(Seq::empty()).len() == 0,
        !s.contains('"') && !s.contains('\\') ==> quoted(s) == s,
    decreases s.len(),
{
    assert(s.push(c).drop_last() =~= s);
    if s.len() > 0 {
        let f = s.drop_last();
        how_paths_are_quoted(f, c);
        if !s.contains('"') && !s.contains('\\') {
            assert forall|x: char| f.contains(x) implies s.contains(x) by {
                let i = choose|i: int| 0 <= i < f.len() && f[i] == x;
                assert(s[i] == x);
            }
            assert(s.contains(s[s.len() - 1]));
            assert(f + seq![s.last()] =~= s);
        }
    }
}

/// What is denied of a path: to read it and to write it, and each way of writing it by
/// itself.
pub proof fn what_is_denied_of_a_path(filter: Seq<char>, line: Seq<char>)
    ensures
        denials(filter).len() == 10,
        denials(filter).contains("(deny file-read* "@ + filter + ")"@),
        denials(filter).contains("(deny file-write* "@ + filter + ")"@),
        denials(filter).contains(line) ==> exists|a: Seq<char>|
            line == #[trigger] denial(a, filter) && (a == "file-read*"@ || a == "file-write*"@ || a
                == "file-write-data"@ || a == "file-write-create"@ || a == "file-write-unlink"@ || a
                == "file-write-mode"@ || a == "file-write-owner"@ || a == "file-write-flags"@ || a
                == "file-write-times"@ || a == "file-write-setugid"@),
        forall|a: Seq<char>|
            (a == "file-write-data"@ || a == "file-write-create"@ || a == "file-write-unlink"@ || a
                == "file-write-mode"@ || a == "file-write-owner"@ || a == "file-write-flags"@ || a
                == "file-write-times"@ || a == "file-write-setugid"@) ==> denials(filter).contains(
                #[trigger] denial(a, filter),
            ),
        forall|a: Seq<char>| #[trigger]
            denial(a, filter) == "(deny "@ + a + " "@ + filter + ")"@,
{
    let acts = seq!["file-read*"@, "file-write*"@] + write_actions();
    let d = denials(filter);
    let w = write_actions();
    assert(w[0] == "file-write-data"@ && w[1] == "file-write-create"@ && w[2]
        == "file-write-unlink"@ && w[3] == "file-write-mode"@ && w[4] == "file-write-owner"@ && w[5]
        == "file-write-flags"@ && w[6] == "file-write-times"@ && w[7] == "file-write-setugid"@);
    assert(acts[0] == "file-read*"@ && acts[1] == "file-write*"@);
    assert forall|i: int| 0 <= i < 8 implies acts[i + 2] == #[trigger] w[i] by {}
    reveal_strlit("(deny ");
    reveal_strlit(" ");
    reveal_strlit("file-read*");
    reveal_strlit("file-write*");
    reveal_strlit("(deny file-read* ");
    reveal_strlit("(deny file-write* ");
    assert("(deny "@ + "file-read*"@ + " "@ =~= "(deny file-read* "@);
    assert("(deny "@ + "file-write*"@ + " "@ =~= "(deny file-write* "@);
    assert(d[0] == denial("file-read*"@, filter));
    assert(d[1] == denial("file-write*"@, filter));
    if d.contains(line) {
        let i = choose|i: int| 0 <= i < d.len() && d[i] == line;
        assert(d[i] == denial(acts[i], filter));
        if i >= 2 {
            assert(acts[i] == w[i - 2]);
        }
    }
    assert forall|a: Seq<char>|
        (a == "file-write-data"@ || a == "file-write-create"@ || a == "file-write-unlink"@ || a
            == "file-write-mode"@ || a == "file-write-owner"@ || a == "file-write-flags"@ || a
            == "file-write-times"@ || a == "file-write-setugid"@) implies denials(filter).contains(
        #[trigger] denial(a, filter),
    ) by {
        let i: int = if a == w[0] {
            0
        } else if a == w[1] {
            1
        } else if a == w[2] {
            2
        } else if a == w[3] {
            3
        } else if a == w[4] {
            4
        } else if a == w[5] {
            5
        } else if a == w[6] {
            6
        } else {
            7
        };
        assert(acts[i + 2] == w[i]);
        assert(d[i + 2] == denial(a, filter));
    }
}

/// Under which names a path is denied: as it is written, as it is on disk, and with
/// `/private` in front of `/tmp`, `/var` and `/etc` or without. Nothing else.
pub proof fn under_which_names_a_path_is_denied(p: Seq<char>, canonical: Seq<char>, f: Seq<char>)
    ensures
        deny_forms(p, canonical).contains(p),
        has_path(deny_forms(p, canonical), canonical),
        alias(p) is Some ==> has_path(deny_forms(p, canonical), alias(p)->0),
        path::parts(p) != path::parts(canonical) && alias(canonical) is Some ==> has_path(
            deny_forms(p, canonical),
            alias(canonical)->0,
        ),
        deny_forms(p, canonical).contains(f) ==> f == p || f == canonical || alias(p) == Some(f)
            || alias(canonical) == Some(f),
{
    let all = deny_forms(p, canonical);
    if path::parts(canonical) == path::parts(p) {
        let one = seq![p];
        assert(one[0] == p);
        grown(one, p);
        assert(with_alias(one, p)[0] == p);
        assert(all[0] == p);
        if all.contains(f) {
            let i = choose|i: int| 0 <= i < all.len() && all[i] == f;
            assert(i == 0 || i == 1);
        }
    } else {
        let two = seq![p, canonical];
        grown(two, p);
        let three = with_alias(two, p);
        grown(three, canonical);
        assert(two[0] == p && two[1] == canonical);
        assert(three[0] == p && three[1] == canonical);
        assert(all[0] == p && all[1] == canonical);
        if alias(p) is Some {
            let k = choose|i: int|
                0 <= i < three.len() && path::parts(#[trigger] three[i]) == path::parts(alias(p)->0);
            assert(all[k] == three[k]);
        }
        if all.contains(f) {
            let i = choose|i: int| 0 <= i < all.len() && all[i] == f;
            if i >= three.len() {
                assert(alias(canonical) == Some(f));
            } else if i >= 2 {
                assert(three[i] == f);
            }
        }
    }
}

proof fn grown(forms: Seq<Seq<char>>, of: Seq<char>)
    ensures
        ({
            let all = with_alias(forms, of);
            &&& forms.len() <= all.len() <= forms.len() + 1
            &&& forall|i: int| 0 <= i < forms.len() ==> all[i] == #[trigger] forms[i]
            &&& all.len() > forms.len() ==> alias(of) == Some(all.last())
            &&& alias(of) is Some ==> has_path(all, alias(of)->0)
        }),
{
    let all = with_alias(forms, of);
    if alias(of) is Some && !has_path(forms, alias(of)->0) {
        assert(all[forms.len() as int] == alias(of)->0);
    }
}

/// What is below `/tmp`, `/var` or `/etc` is also below `/private`, and the other way
/// round.
pub proof fn directories_with_two_names(dir: Seq<char>, rest: Seq<char>)
    requires
        dir == "tmp"@ || dir == "var"@ || dir == "etc"@,
        rest.len() == 0 || rest[0] == '/',
    ensures
        alias("/"@ + dir + rest) == Some("/private/"@ + dir + rest),
        alias("/private/"@ + dir + rest) == Some("/"@ + dir + rest),
{
    reveal_strlit("tmp");
    reveal_strlit("var");
    reveal_strlit("etc");
    two_names(dir, "tmp"@, rest);
    two_names(dir, "var"@, rest);
    two_names(dir, "etc"@, rest);
}

proof fn two_names(dir: Seq<char>, tried: Seq<char>, rest: Seq<char>)
    requires
        dir == "tmp"@ || dir == "var"@ || dir == "etc"@,
        tried == "tmp"@ || tried == "var"@ || tried == "etc"@,
        rest.len() == 0 || rest[0] == '/',
    ensures
        dir != tried ==> other_name("/"@ + dir + rest, tried) is None && other_name(
            "/private/"@ + dir + rest,
            tried,
        ) is None,
        dir == tried ==> other_name("/"@ + dir + rest, tried) == Some("/private/"@ + dir + rest)
            && other_name("/private/"@ + dir + rest, tried) == Some("/"@ + dir + rest),
{
    reveal_strlit("tmp");
    reveal_strlit("var");
    reveal_strlit("etc");
    reveal_strlit("/");
    reveal_strlit("/private/");
    let s = "/"@ + dir + rest;
    let l = "/private/"@ + dir + rest;
    let a = "/private/"@ + tried;
    let b = "/"@ + tried;
    assert(dir.len() == 3 && tried.len() == 3);
    assert(s[0] == '/' && s[1] == dir[0]);
    assert(a[0] == '/' && a[1] == 'p' && a[9] == tried[0] && b[1] == tried[0]);
    assert(l[1] == 'p' && l[9] == dir[0]);
    if a.is_prefix_of(s) {
        assert(s.subrange(0, a.len() as int)[1] == a[1]);
    }
    if b.is_prefix_of(l) {
        assert(l.subrange(0, b.len() as int)[1] == b[1]);
    }
    if dir != tried {
        assert(dir[0] != tried[0]);
        if b.is_prefix_of(s) {
            assert(s.subrange(0, b.len() as int)[1] == b[1]);
        }
        if a.is_prefix_of(l) {
            assert(l.subrange(0, a.len() as int)[9] == a[9]);
        }
    } else {
        assert(s.subrange(0, b.len() as int) =~= b);
        assert(l.subrange(0, a.len() as int) =~= a);
        assert(s.subrange(b.len() as int, s.len() as int) =~= rest);
        assert(l.subrange(a.len() as int, l.len() as int) =~= rest);
    }
}

/// Every name of a denied path is denied in full, and in order; names with control
/// characters are refused.
pub proof fn every_name_is_denied(forms: Seq<Seq<char>>, subpath: bool, k: int, line: Seq<char>)
    requires
        0 <= k < forms.len(),
        denials(
            (if subpath {
                "(subpath \""@
            } else {
                "(literal \""@
            }) + quoted(forms[k]) + "\")"@,
        ).contains(line),
    ensures
        form_denials(forms, subpath).contains(line),
        first_unwritable(forms) is None ==> forall|i: int|
            0 <= i < forms[k].len() ==> (#[trigger] forms[k][i]) as u32 >= 0x20 && !(0x7f
                <= forms[k][i] as u32 && forms[k][i] as u32 <= 0x9f),
    decreases forms.len(),
{
    let front = forms.drop_last();
    let before = form_denials(front, subpath);
    let mine = denials(path_filter(forms.last(), subpath));
    let all = form_denials(forms, subpath);
    if k < forms.len() - 1 {
        assert(front[k] == forms[k]);
        every_name_is_denied(front, subpath, k, line);
        let i = choose|i: int| 0 <= i < before.len() && before[i] == line;
        assert(all[i] == line);
    } else {
        let i = choose|i: int| 0 <= i < mine.len() && mine[i] == line;
        assert(all[before.len() + i] == line);
        if first_unwritable(forms) is None {
            assert(!has_control(forms[k]));
            assert forall|i: int| 0 <= i < forms[k].len() implies (#[trigger] forms[k][i]) as u32
                >= 0x20 && !(0x7f <= forms[k][i] as u32 && forms[k][i] as u32 <= 0x9f) by {
                assert(!is_control(forms[k][i]));
            }
        }
    }
}

/// A path is refused only if it has a control character, and then it is the first of
/// its kind.
pub proof fn what_cannot_be_written(forms: Seq<Seq<char>>)
    ensures
        first_unwritable(forms) is Some ==> exists|k: int, i: int|
            0 <= k < forms.len() && first_unwritable(forms) == Some(#[trigger] forms[k]) && 0 <= i
                < forms[k].len() && is_control(#[trigger] forms[k][i]) && forall|j: int|
                0 <= j < k ==> !has_control(#[trigger] forms[j]),
    decreases forms.len(),
{
    if forms.len() > 0 && first_unwritable(forms) is Some {
        let front = forms.drop_last();
        if first_unwritable(front) is Some {
            what_cannot_be_written(front);
            let (k, i) = choose|k: int, i: int|
                0 <= k < front.len() && first_unwritable(front) == Some(#[trigger] front[k]) && 0
                    <= i < front[k].len() && is_control(#[trigger] front[k][i]) && forall|j: int|
                    0 <= j < k ==> !has_control(#[trigger] front[j]);
            assert(forms[k] == front[k]);
            assert(is_control(forms[k][i]));
            assert forall|j: int| 0 <= j < k implies !has_control(#[trigger] forms[j]) by {
                assert(forms[j] == front[j]);
            }
        } else {
            let k = forms.len() - 1;
            let i = choose|i: int| 0 <= i < forms[k].len() && is_control(#[trigger] forms[k][i]);
            assert(is_control(forms[k][i]));
            assert forall|j: int| 0 <= j < k implies !has_control(#[trigger] forms[j]) by {
                assert(front[j] == forms[j]);
                all_writable(front, j);
            }
        }
    }
}

proof fn all_writable(forms: Seq<Seq<char>>, j: int)
    requires
        first_unwritable(forms) is None,
        0 <= j < forms.len(),
    ensures
        !has_control(forms[j]),
    decreases forms.len(),
{
    if j < forms.len() - 1 {
        assert(forms.drop_last()[j] == forms[j]);
        all_writable(forms.drop_last(), j);
    }
}

/// Every deny glob of a policy is denied in full, and nothing else is.
pub proof fn every_glob_is_denied(fs: Seq<FsRuleView>, workspace: Seq<char>, line: Seq<char>)
    ensures
        glob_denials(fs, workspace).contains(line) <==> exists|k: int|
            0 <= k < fs.len() && (#[trigger] fs[k]).access == FsAccess::Deny && fs[k].glob
                && denials(
                "(regex \""@ + quoted(deny_glob::seatbelt_regex(workspace, fs[k].path)) + "\")"@,
            ).contains(line),
    decreases fs.len(),
{
    if fs.len() > 0 {
        let front = fs.drop_last();
        every_glob_is_denied(front, workspace, line);
        let before = glob_denials(front, workspace);
        let all = glob_denials(fs, workspace);
        let mine = denials(glob_filter(workspace, fs.last().path));
        let here = fs.last().access == FsAccess::Deny && fs.last().glob;
        if all.contains(line) {
            let i = choose|i: int| 0 <= i < all.len() && all[i] == line;
            if i < before.len() {
                assert(before[i] == line);
                let k = choose|k: int|
                    0 <= k < front.len() && (#[trigger] front[k]).access == FsAccess::Deny
                        && front[k].glob && denials(
                        "(regex \""@ + quoted(deny_glob::seatbelt_regex(workspace, front[k].path))
                            + "\")"@,
                    ).contains(line);
                assert(fs[k] == front[k]);
            } else {
                assert(mine[i - before.len()] == line);
                assert(fs[fs.len() - 1] == fs.last());
            }
        }
        if exists|k: int|
            0 <= k < fs.len() && (#[trigger] fs[k]).access == FsAccess::Deny && fs[k].glob
                && denials(
                "(regex \""@ + quoted(deny_glob::seatbelt_regex(workspace, fs[k].path)) + "\")"@,
            ).contains(line) {
            let k = choose|k: int|
                0 <= k < fs.len() && (#[trigger] fs[k]).access == FsAccess::Deny && fs[k].glob
                    && denials(
                    "(regex \""@ + quoted(deny_glob::seatbelt_regex(workspace, fs[k].path))
                        + "\")"@,
                ).contains(line);
            if k < front.len() {
                assert(front[k] == fs[k]);
                let i = choose|i: int| 0 <= i < before.len() && before[i] == line;
                assert(all[i] == line);
            } else {
                let i = choose|i: int| 0 <= i < mine.len() && mine[i] == line;
                assert(all[before.len() + i] == line);
            }
        }
    }
}

} // verus!
