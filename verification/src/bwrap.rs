//! Bubblewrap: hiding denied paths from a child on Linux by mounting something
//! unreadable over them.
use crate::error::{EnforceError, EnforceErrorView, EnforceResult};
use crate::number;
use crate::path;
use crate::paths::{FsAccess, FsRuleView};
use crate::policy::Policy;
use crate::text;
use vstd::prelude::*;
use vstd::string::*;

verus! {

/// Set in the environment of everything that runs inside bubblewrap.
pub const BWRAP_MARKER: &'static str = "__KEEL_INSIDE_BWRAP";

/// Whether this process runs inside bubblewrap, given the value of the marker.
pub fn is_inside_bwrap(marker: Option<&str>) -> (r: bool)
    ensures
        r == (marker is Some),
{
    marker.is_some()
}

/// The places at which to look for bubblewrap: the one that is set, then each
/// directory of the search path.
pub open spec fn candidates(set: Option<Seq<char>>, search: Option<Seq<char>>) -> Seq<Seq<char>> {
    let own = match set {
        Some(p) => seq![p],
        None => Seq::empty(),
    };
    match search {
        Some(s) => own + text::split(s, ':').map_values(
            |d: Seq<char>| path::joined(d, "bwrap"@),
        ),
        None => own,
    }
}

pub open spec fn opt(s: Option<&str>) -> Option<Seq<char>> {
    match s {
        Some(t) => Some(t@),
        None => None,
    }
}

/// The places at which to look for bubblewrap, for the given values of
/// `KEEL_BWRAP` and `PATH`.
pub fn bwrap_candidates(set: Option<&str>, search: Option<&str>) -> (r: Vec<String>)
    ensures
        r.deep_view() == candidates(opt(set), opt(search)),
{
    let mut r: Vec<String> = Vec::new();
    if let Some(p) = set {
        r.push(p.to_owned());
    }
    let ghost own = r.deep_view();
    assert(own =~= candidates(opt(set), None));
    if let Some(s) = search {
        let dirs = text::split_on(s, ':');
        let ghost m = text::split(s@, ':').map_values(|d: Seq<char>| path::joined(d, "bwrap"@));
        let mut i: usize = 0;
        assert(r.deep_view() =~= own + m.take(0));
        while i < dirs.len()
            invariant
                dirs.deep_view() == text::split(s@, ':'),
                m == text::split(s@, ':').map_values(|d: Seq<char>| path::joined(d, "bwrap"@)),
                i <= dirs.len(),
                r.deep_view() == own + m.take(i as int),
            decreases dirs.len() - i,
        {
            let ghost now = r.deep_view();
            assert(dirs.deep_view()[i as int] == dirs@[i as int]@);
            r.push(path::join(dirs[i].as_str(), "bwrap"));
            i += 1;
            assert(r.deep_view() =~= now.push(m[i - 1]));
            assert(r.deep_view() =~= own + m.take(i as int));
        }
        assert(m.take(m.len() as int) =~= m);
    }
    r
}

/// The first index at which a file was found.
pub open spec fn first_file(is_file: Seq<bool>) -> Option<int>
    decreases is_file.len(),
{
    if is_file.len() == 0 {
        None
    } else if first_file(is_file.drop_last()) is Some {
        first_file(is_file.drop_last())
    } else if is_file.last() {
        Some(is_file.len() - 1)
    } else {
        None
    }
}

proof fn first_file_stays(is_file: Seq<bool>, n: int)
    requires
        0 <= n <= is_file.len(),
        first_file(is_file.take(n)) is Some,
    ensures
        first_file(is_file) == first_file(is_file.take(n)),
    decreases is_file.len() - n,
{
    if n < is_file.len() {
        assert(is_file.take(n + 1).drop_last() =~= is_file.take(n));
        first_file_stays(is_file, n + 1);
    } else {
        assert(is_file.take(n) =~= is_file);
    }
}

/// Bubblewrap: the first of the candidates that is a file.
pub fn which_bwrap(candidates: &Vec<String>, is_file: &Vec<bool>) -> (r: Option<String>)
    requires
        candidates@.len() == is_file@.len(),
    ensures
        match first_file(is_file@) {
            Some(i) => 0 <= i < candidates@.len() && r is Some && r->0@ == candidates@[i]@,
            None => r is None,
        },
{
    let mut i: usize = 0;
    assert(is_file@.take(0) =~= Seq::<bool>::empty());
    while i < is_file.len()
        invariant
            candidates@.len() == is_file@.len(),
            i <= is_file.len(),
            first_file(is_file@.take(i as int)) is None,
        decreases is_file.len() - i,
    {
        assert(is_file@.take(i + 1).drop_last() =~= is_file@.take(i as int));
        if is_file[i] {
            proof {
                first_file_stays(is_file@, i + 1);
            }
            return Some(candidates[i].clone());
        }
        i += 1;
    }
    assert(is_file@.take(is_file@.len() as int) =~= is_file@);
    None
}

/// Whether one of the candidates is a file.
pub fn bwrap_available(candidates: &Vec<String>, is_file: &Vec<bool>) -> (r: bool)
    requires
        candidates@.len() == is_file@.len(),
    ensures
        r == (first_file(is_file@) is Some),
{
    which_bwrap(candidates, is_file).is_some()
}

/// The denied paths that are no globs, seen from the workspace, in order.
pub open spec fn plain_denials(fs: Seq<FsRuleView>, workspace: Seq<char>) -> Seq<Seq<char>>
    decreases fs.len(),
{
    if fs.len() == 0 {
        Seq::empty()
    } else if fs.last().access == FsAccess::Deny && !fs.last().glob {
        plain_denials(fs.drop_last(), workspace).push(path::joined(workspace, fs.last().path))
    } else {
        plain_denials(fs.drop_last(), workspace)
    }
}

/// The paths that bubblewrap has to hide, leaving globs aside.
pub fn deny_paths_for_bwrap(policy: &Policy) -> (r: Vec<String>)
    ensures
        r.deep_view() == plain_denials(policy@.fs, policy@.workspace),
{
    let ghost m = policy.fs.deep_view();
    let ghost ws = policy.workspace@;
    let mut r: Vec<String> = Vec::new();
    let mut i: usize = 0;
    assert(m.take(0) =~= Seq::<FsRuleView>::empty());
    assert(r.deep_view() =~= plain_denials(m.take(0), ws));
    while i < policy.fs.len()
        invariant
            m == policy.fs.deep_view(),
            ws == policy.workspace@,
            i <= policy.fs.len(),
            r.deep_view() == plain_denials(m.take(i as int), ws),
        decreases policy.fs.len() - i,
    {
        assert(m[i as int] == policy.fs@[i as int]@);
        assert(m.take(i + 1).drop_last() =~= m.take(i as int));
        let ghost before = r.deep_view();
        let rule = &policy.fs[i];
        if rule.access == FsAccess::Deny && !rule.glob {
            r.push(path::join(policy.workspace.as_str(), rule.path.as_str()));
            assert(r.deep_view() =~= before.push(path::joined(ws, m[i as int].path)));
        }
        i += 1;
    }
    assert(m.take(m.len() as int) =~= m);
    r
}

/// The name of what is mounted over a denied path: one per process and target.
pub fn placeholder_name(want_dir: bool, pid: u32, target_hash: u64) -> (r: String)
    ensures
        r@ == (if want_dir {
            "blocked-dir."@
        } else {
            "blocked."@
        }) + number::decimal(pid as nat) + "."@ + number::hexadecimal(target_hash as nat),
{
    let head = if want_dir {
        "blocked-dir."
    } else {
        "blocked."
    };
    head.to_owned().concat(number::to_decimal(pid as u64).as_str()).concat(".").concat(
        number::to_hexadecimal(target_hash).as_str(),
    )
}

/// A command to run in place of another.
#[derive(Debug)]
pub struct WrappedCommand {
    pub program: String,
    pub args: Vec<String>,
    pub env: Vec<(String, String)>,
}

#[verifier::ext_equal]
pub struct WrappedCommandView {
    pub program: Seq<char>,
    pub args: Seq<Seq<char>>,
    pub env: Seq<(Seq<char>, Seq<char>)>,
}

impl View for WrappedCommand {
    type V = WrappedCommandView;

    open spec fn view(&self) -> WrappedCommandView {
        WrappedCommandView {
            program: self.program@,
            args: self.args.deep_view(),
            env: self.env.deep_view(),
        }
    }
}

impl DeepView for WrappedCommand {
    type V = WrappedCommandView;

    open spec fn deep_view(&self) -> WrappedCommandView {
        self@
    }
}

/// The arguments that mount each placeholder over its path.
pub open spec fn mounts(denied: Seq<Seq<char>>, placeholders: Seq<Seq<char>>) -> Seq<Seq<char>>
    decreases denied.len(),
{
    if denied.len() == 0 {
        Seq::empty()
    } else {
        mounts(denied.drop_last(), placeholders) + seq![
            "--ro-bind"@,
            placeholders[denied.len() - 1],
            denied.last(),
        ]
    }
}

/// The mounts that every wrapped command gets.
pub open spec fn base_mounts() -> Seq<Seq<char>> {
    seq!["--bind"@, "/"@, "/"@, "--dev-bind"@, "/dev"@, "/dev"@, "--proc"@, "/proc"@]
}

/// The wrapped command: the whole file system, the placeholders over the denied
/// paths, then the program.
pub open spec fn wrapped(
    bwrap: Seq<char>,
    program: Seq<char>,
    args: Seq<Seq<char>>,
    denied: Seq<Seq<char>>,
    placeholders: Seq<Seq<char>>,
    env: Seq<(Seq<char>, Seq<char>)>,
) -> WrappedCommandView {
    WrappedCommandView {
        program: bwrap,
        args: base_mounts() + mounts(denied, placeholders) + seq!["--"@, program] + args,
        env: seq![(BWRAP_MARKER@, "1"@)] + env,
    }
}

pub open spec fn ok_view(r: Result<String, String>) -> Seq<char> {
    match r {
        Ok(p) => p@,
        Err(m) => m@,
    }
}

pub open spec fn placeholder_views(placeholders: Seq<Result<String, String>>) -> Seq<Seq<char>> {
    placeholders.map_values(|r: Result<String, String>| ok_view(r))
}

/// The placeholder at `i` is the first that could not be made.
pub open spec fn first_failed(placeholders: Seq<Result<String, String>>, i: int) -> bool {
    0 <= i < placeholders.len() && placeholders[i] is Err && forall|k: int|
        0 <= k < i ==> (#[trigger] placeholders[k]) is Ok
}

/// Why there is no wrapped command although one is needed.
pub open spec fn missing_bwrap() -> Seq<char> {
    "bubblewrap (bwrap) required for Linux read-deny paths; install bubblewrap or set KEEL_BWRAP"@
}

/// The command that runs the program with the denied paths hidden. `None` if
/// there is nothing to hide or this process runs inside bubblewrap already.
///
/// `bwrap` is where bubblewrap was found, and `placeholders` holds for each
/// denied path what is mounted over it, or why that could not be made.
pub fn wrap_command(
    program: &str,
    args: &Vec<String>,
    deny_read: &Vec<String>,
    inside: bool,
    bwrap: Option<&str>,
    placeholders: &Vec<Result<String, String>>,
    env: &Vec<(String, String)>,
) -> (r: EnforceResult<Option<WrappedCommand>>)
    requires
        placeholders@.len() == deny_read@.len(),
    ensures
        match r {
            Ok(None) => inside || deny_read@.len() == 0,
            Ok(Some(c)) => {
                &&& !inside && deny_read@.len() > 0
                &&& bwrap is Some
                &&& forall|i: int|
                    0 <= i < placeholders@.len() ==> (#[trigger] placeholders@[i]) is Ok
                &&& c@ == wrapped(
                    bwrap->0@,
                    program@,
                    args.deep_view(),
                    deny_read.deep_view(),
                    placeholder_views(placeholders@),
                    env.deep_view(),
                )
            },
            Err(e) => {
                &&& !inside && deny_read@.len() > 0
                &&& if bwrap is None {
                    e@ == EnforceErrorView::ApplyFailed(missing_bwrap())
                } else {
                    exists|i: int| #[trigger]
                        first_failed(placeholders@, i) && e@ == EnforceErrorView::ApplyFailed(
                            "bwrap placeholder for "@ + deny_read@[i]@ + ": "@ + ok_view(
                                placeholders@[i],
                            ),
                        )
                }
            },
        },
{
    if inside || deny_read.len() == 0 {
        return Ok(None);
    }
    let outer = match bwrap {
        Some(b) => b,
        None => return Err(
            EnforceError::ApplyFailed(
                "bubblewrap (bwrap) required for Linux read-deny paths; install bubblewrap or set KEEL_BWRAP".to_owned(),
            ),
        ),
    };
    let ghost d = deny_read.deep_view();
    let ghost pv = placeholder_views(placeholders@);
    let mut a: Vec<String> = Vec::new();
    a.push("--bind".to_owned());
    a.push("/".to_owned());
    a.push("/".to_owned());
    a.push("--dev-bind".to_owned());
    a.push("/dev".to_owned());
    a.push("/dev".to_owned());
    a.push("--proc".to_owned());
    a.push("/proc".to_owned());
    assert(d.take(0) =~= Seq::<Seq<char>>::empty());
    assert(a.deep_view() =~= base_mounts() + mounts(d.take(0), pv));
    let mut i: usize = 0;
    while i < deny_read.len()
        invariant
            !inside,
            bwrap is Some,
            d == deny_read.deep_view(),
            deny_read@.len() > 0,
            pv == placeholder_views(placeholders@),
            placeholders@.len() == deny_read@.len(),
            i <= deny_read.len(),
            forall|k: int| 0 <= k < i ==> (#[trigger] placeholders@[k]) is Ok,
            a.deep_view() == base_mounts() + mounts(d.take(i as int), pv),
        decreases deny_read.len() - i,
    {
        assert(d[i as int] == deny_read@[i as int]@);
        assert(d.take(i + 1).drop_last() =~= d.take(i as int));
        let ghost before = a.deep_view();
        match &placeholders[i] {
            Ok(p) => {
                a.push("--ro-bind".to_owned());
                a.push(p.clone());
                a.push(deny_read[i].clone());
                assert(a.deep_view() =~= before + seq!["--ro-bind"@, pv[i as int], d[i as int]]);
                assert(a.deep_view() =~= base_mounts() + mounts(d.take(i + 1), pv));
            },
            Err(m) => {
                assert(first_failed(placeholders@, i as int));
                return Err(
                    EnforceError::ApplyFailed(
                        "bwrap placeholder for ".to_owned().concat(deny_read[i].as_str()).concat(
                            ": ",
                        ).concat(m.as_str()),
                    ),
                );
            },
        }
        i += 1;
    }
    assert(d.take(d.len() as int) =~= d);
    a.push("--".to_owned());
    a.push(program.to_owned());
    let mut rest = args.clone();
    let ghost front = a.deep_view();
    assert(rest.deep_view() =~= args.deep_view());
    a.append(&mut rest);
    assert(a.deep_view() =~= front + args.deep_view());
    let mut e: Vec<(String, String)> = Vec::new();
    e.push((BWRAP_MARKER.to_owned(), "1".to_owned()));
    let ghost head = e.deep_view();
    let mut more = clone_env(env);
    e.append(&mut more);
    assert(e.deep_view() =~= head + env.deep_view());
    assert(head =~= seq![(BWRAP_MARKER@, "1"@)]);
    let c = WrappedCommand { program: outer.to_owned(), args: a, env: e };
    assert(c@ =~= wrapped(outer@, program@, args.deep_view(), d, pv, env.deep_view()));
    Ok(Some(c))
}

/// A copy of the environment.
pub fn clone_env(env: &Vec<(String, String)>) -> (r: Vec<(String, String)>)
    ensures
        r.deep_view() == env.deep_view(),
{
    let ghost m = env.deep_view();
    let mut r: Vec<(String, String)> = Vec::new();
    let mut i: usize = 0;
    while i < env.len()
        invariant
            m == env.deep_view(),
            i <= env.len(),
            r.deep_view() == m.take(i as int),
        decreases env.len() - i,
    {
        let ghost before = r.deep_view();
        r.push((env[i].0.clone(), env[i].1.clone()));
        assert(m[i as int] == env@[i as int].deep_view());
        i += 1;
        assert(r.deep_view() =~= before.push(m[i - 1]));
        assert(r.deep_view() =~= m.take(i as int));
    }
    assert(m.take(m.len() as int) =~= m);
    r
}

// ---------------------------------------------------------------------------
// Laws
// ---------------------------------------------------------------------------
proof fn mounts_len(denied: Seq<Seq<char>>, placeholders: Seq<Seq<char>>)
    ensures
        mounts(denied, placeholders).len() == 3 * denied.len(),
    decreases denied.len(),
{
    if denied.len() > 0 {
        mounts_len(denied.drop_last(), placeholders);
    }
}

proof fn mounts_at(denied: Seq<Seq<char>>, placeholders: Seq<Seq<char>>, i: int)
    requires
        0 <= i < denied.len(),
    ensures
        mounts(denied, placeholders).subrange(3 * i, 3 * i + 3) == seq![
            "--ro-bind"@,
            placeholders[i],
            denied[i],
        ],
    decreases denied.len(),
{
    mounts_len(denied, placeholders);
    mounts_len(denied.drop_last(), placeholders);
    let all = mounts(denied, placeholders);
    let before = mounts(denied.drop_last(), placeholders);
    if i < denied.len() - 1 {
        mounts_at(denied.drop_last(), placeholders, i);
        assert(all.subrange(3 * i, 3 * i + 3) =~= before.subrange(3 * i, 3 * i + 3));
    } else {
        assert(all.subrange(3 * i, 3 * i + 3) =~= seq![
            "--ro-bind"@,
            placeholders[i],
            denied[i],
        ]);
    }
}

/// Every denied path is hidden: its placeholder is mounted over it after the whole
/// file system is, and before the program starts.
pub proof fn every_denied_path_is_hidden(
    bwrap: Seq<char>,
    program: Seq<char>,
    args: Seq<Seq<char>>,
    denied: Seq<Seq<char>>,
    placeholders: Seq<Seq<char>>,
    env: Seq<(Seq<char>, Seq<char>)>,
    i: int,
)
    requires
        0 <= i < denied.len(),
    ensures
        ({
            let a = wrapped(bwrap, program, args, denied, placeholders, env).args;
            let first = base_mounts().len() as int;
            let end = first + 3 * denied.len();
            &&& a.take(first) == base_mounts()
            &&& a.subrange(first + 3 * i, first + 3 * i + 3) == seq![
                "--ro-bind"@,
                placeholders[i],
                denied[i],
            ]
            &&& first + 3 * i + 3 <= end
            &&& a.subrange(end, a.len() as int) == seq!["--"@, program] + args
        }),
{
    mounts_len(denied, placeholders);
    mounts_at(denied, placeholders, i);
    let a = wrapped(bwrap, program, args, denied, placeholders, env).args;
    let m = mounts(denied, placeholders);
    let first = base_mounts().len() as int;
    let end = first + 3 * denied.len();
    assert(a.take(first) =~= base_mounts());
    assert(a.subrange(first + 3 * i, first + 3 * i + 3) =~= m.subrange(3 * i, 3 * i + 3));
    assert(a.subrange(end, a.len() as int) =~= seq!["--"@, program] + args);
}

/// The plain denials are those of the rules, seen from the workspace, in order.
pub proof fn denials_are_of_plain_rules(fs: Seq<FsRuleView>, workspace: Seq<char>, path: Seq<char>)
    ensures
        plain_denials(fs, workspace).contains(path) <==> exists|k: int|
            0 <= k < fs.len() && (#[trigger] fs[k]).access == FsAccess::Deny && !fs[k].glob && path
                == path::joined(workspace, fs[k].path),
    decreases fs.len(),
{
    let all = plain_denials(fs, workspace);
    if fs.len() > 0 {
        let front = fs.drop_last();
        let before = plain_denials(front, workspace);
        denials_are_of_plain_rules(front, workspace, path);
        if all.contains(path) {
            let j = choose|j: int| 0 <= j < all.len() && all[j] == path;
            if j < before.len() {
                assert(before[j] == path);
                let k = choose|k: int|
                    0 <= k < front.len() && (#[trigger] front[k]).access == FsAccess::Deny
                        && !front[k].glob && path == path::joined(workspace, front[k].path);
                assert(fs[k] == front[k]);
            } else {
                assert(fs[fs.len() - 1].access == FsAccess::Deny);
            }
        }
        if exists|k: int|
            0 <= k < fs.len() && (#[trigger] fs[k]).access == FsAccess::Deny && !fs[k].glob && path
                == path::joined(workspace, fs[k].path) {
            let k = choose|k: int|
                0 <= k < fs.len() && (#[trigger] fs[k]).access == FsAccess::Deny && !fs[k].glob
                    && path == path::joined(workspace, fs[k].path);
            if k < front.len() {
                assert(front[k] == fs[k]);
                assert(before.contains(path));
                let j = choose|j: int| 0 <= j < before.len() && before[j] == path;
                assert(all[j] == path);
            } else {
                assert(all[all.len() - 1] == path);
            }
        }
    }
}

/// The program is started as it was asked for, behind the mounts and two dashes, with
/// its environment and a mark that it runs in a sandbox; the whole file system,
/// devices and processes are there.
pub proof fn the_program_is_started_in_the_sandbox(
    bwrap: Seq<char>,
    program: Seq<char>,
    args: Seq<Seq<char>>,
    denied: Seq<Seq<char>>,
    placeholders: Seq<Seq<char>>,
    env: Seq<(Seq<char>, Seq<char>)>,
)
    ensures
        ({
            let c = wrapped(bwrap, program, args, denied, placeholders, env);
            let n = c.args.len();
            &&& c.program == bwrap
            &&& n == 8 + 3 * denied.len() + 2 + args.len()
            &&& c.args.take(8) == seq![
                "--bind"@,
                "/"@,
                "/"@,
                "--dev-bind"@,
                "/dev"@,
                "/dev"@,
                "--proc"@,
                "/proc"@,
            ]
            &&& c.args.subrange(n - args.len(), n as int) == args
            &&& c.args[n - args.len() - 1] == program
            &&& c.args[n - args.len() - 2] == "--"@
            &&& c.env.len() == env.len() + 1
            &&& c.env[0] == (BWRAP_MARKER@, "1"@)
            &&& c.env.subrange(1, c.env.len() as int) == env
        }),
{
    mounts_len(denied, placeholders);
    let c = wrapped(bwrap, program, args, denied, placeholders, env);
    let n = c.args.len();
    assert(c.args.take(8) =~= base_mounts());
    assert(c.args.subrange(n - args.len(), n as int) =~= args);
    assert(c.env.subrange(1, c.env.len() as int) =~= env);
}

/// The sandbox program is looked for where it was set, then in every directory of the
/// search path, in order; the first that is a file is used.
pub proof fn the_first_file_is_used(is_file: Seq<bool>)
    ensures
        match first_file(is_file) {
            Some(i) => 0 <= i < is_file.len() && is_file[i] && forall|k: int|
                0 <= k < i ==> !#[trigger] is_file[k],
            None => forall|k: int| 0 <= k < is_file.len() ==> !#[trigger] is_file[k],
        },
    decreases is_file.len(),
{
    if is_file.len() > 0 {
        let front = is_file.drop_last();
        the_first_file_is_used(front);
        match first_file(front) {
            Some(i) => {
                assert(is_file[i] == front[i]);
                assert forall|k: int| 0 <= k < i implies !#[trigger] is_file[k] by {
                    assert(front[k] == is_file[k]);
                }
            },
            None => {
                assert forall|k: int| 0 <= k < is_file.len() - 1 implies !#[trigger] is_file[k] by {
                    assert(front[k] == is_file[k]);
                }
            },
        }
    }
}

/// Where the sandbox program is looked for.
pub proof fn candidates_in_order(set: Option<Seq<char>>, search: Option<Seq<char>>)
    ensures
        ({
            let all = candidates(set, search);
            let own: int = if set is Some {
                1
            } else {
                0
            };
            &&& set is Some ==> all.len() > 0 && all[0] == set->0
            &&& search is None ==> all.len() == own
            &&& search is Some ==> all.len() == own + text::split(search->0, ':').len()
                && forall|i: int|
                0 <= i < text::split(search->0, ':').len() ==> all[own + i] == path::joined(
                    #[trigger] text::split(search->0, ':')[i],
                    "bwrap"@,
                )
        }),
{
}

/// The placeholder that is told of is the first that failed, and what is said of it is
/// why; without the program, what is said is how to get it.
pub proof fn what_is_said_of_placeholders(placeholders: Seq<Result<String, String>>, i: int, k: int)
    requires
        first_failed(placeholders, i),
    ensures
        0 <= i < placeholders.len() && placeholders[i] is Err,
        0 <= k < i ==> placeholders[k] is Ok,
        ok_view(placeholders[i]) == placeholders[i]->Err_0@,
        0 <= k < placeholders.len() && placeholders[k] is Ok ==> placeholder_views(placeholders)[k]
            == placeholders[k]->Ok_0@,
        missing_bwrap()
            == "bubblewrap (bwrap) required for Linux read-deny paths; install bubblewrap or set KEEL_BWRAP"@,
{
}

} // verus!
