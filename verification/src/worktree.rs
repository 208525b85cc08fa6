//! The backend that gives an agent a working tree of its own: names, paths and
//! the policy inside.
use crate::event::RecordEvent;
use crate::local_process;
use crate::local_process::note_event;
use crate::native;
use crate::native::Style;
use crate::number;
use crate::path;
use crate::paths::{FsAccess, FsRule, FsRuleView};
use crate::policy::{Policy, PolicyView};
use crate::process_guard;
use crate::process_guard::soft_fs_allowed;
use crate::text;
use crate::text::CharClass;
use crate::time::Timestamp;
use vstd::prelude::*;
use vstd::string::*;

verus! {

/// Options of the backend.
#[derive(Debug)]
pub struct WorktreeOptions {
    /// Where working trees are kept; the state directory if nothing is set.
    pub worktrees_root: Option<String>,
    /// Whether a working tree is removed with its space.
    pub cleanup_on_destroy: bool,
    /// Whether git makes the working tree where it can.
    pub prefer_git: bool,
}

impl Default for WorktreeOptions {
    fn default() -> (r: Self)
        ensures
            r.worktrees_root is None,
            r.cleanup_on_destroy,
            r.prefer_git,
    {
        WorktreeOptions { worktrees_root: None, cleanup_on_destroy: true, prefer_git: true }
    }
}

/// A working tree.
#[derive(Debug)]
pub struct WorktreeState {
    /// Where it is.
    pub path: String,
    /// Where the original is.
    pub origin: String,
    /// Whether git made it.
    pub git: bool,
    /// The branch that git made for it.
    pub branch: Option<String>,
}

#[verifier::ext_equal]
pub struct WorktreeStateView {
    pub path: Seq<char>,
    pub origin: Seq<char>,
    pub git: bool,
    pub branch: Option<Seq<char>>,
}

impl View for WorktreeState {
    type V = WorktreeStateView;

    open spec fn view(&self) -> WorktreeStateView {
        WorktreeStateView {
            path: self.path@,
            origin: self.origin@,
            git: self.git,
            branch: self.branch.deep_view(),
        }
    }
}

pub open spec fn opt(s: Option<&str>) -> Option<Seq<char>> {
    match s {
        Some(t) => Some(t@),
        None => None,
    }
}

/// Where working trees are kept.
pub open spec fn trees_root(
    style: Style,
    set: Option<Seq<char>>,
    keel_home: Option<Seq<char>>,
    home: Option<Seq<char>>,
) -> Seq<char> {
    match set {
        Some(r) => r,
        None => native::joined(
            style,
            match keel_home {
                Some(h) => h,
                None => native::joined(
                    style,
                    match home {
                        Some(h) => h,
                        None => "/tmp"@,
                    },
                    ".keel"@,
                ),
            },
            "worktrees"@,
        ),
    }
}

/// Where working trees are kept, for the given `KEEL_HOME` and home directory.
pub fn worktrees_root(
    style: Style,
    opts: &WorktreeOptions,
    keel_home: Option<&str>,
    home: Option<&str>,
) -> (r: String)
    ensures
        r@ == trees_root(style, opts.worktrees_root.deep_view(), opt(keel_home), opt(home)),
{
    match &opts.worktrees_root {
        Some(r) => r.clone(),
        None => {
            let state = match keel_home {
                Some(h) => h.to_owned(),
                None => {
                    let base = match home {
                        Some(h) => h,
                        None => "/tmp",
                    };
                    native::join(style, base, ".keel")
                },
            };
            native::join(style, state.as_str(), "worktrees")
        },
    }
}

/// What a working tree is named after: the task, or the policy without one.
pub open spec fn tag(p: PolicyView) -> Seq<char> {
    match p.task_id {
        Some(t) => t,
        None => p.id,
    }
}

/// The name of the directory of a working tree.
pub open spec fn dir_name(p: PolicyView, pid: u32) -> Seq<char> {
    let t = tag(p);
    (if t.len() <= 24 {
        t
    } else {
        t.take(24)
    }) + "-"@ + number::decimal(pid as nat)
}

/// The name of the directory of the policy's working tree in this process.
pub fn worktree_dir_name(policy: &Policy, pid: u32) -> (r: String)
    ensures
        r@ == dir_name(policy@, pid),
{
    let t = match &policy.task_id {
        Some(t) => t.as_str(),
        None => policy.id.as_str(),
    };
    let n: usize = t.unicode_len();
    let short = if n <= 24 {
        t
    } else {
        t.substring_char(0, 24)
    };
    assert(n > 24 ==> short@ =~= tag(policy@).take(24));
    short.to_owned().concat("-").concat(number::to_decimal(pid as u64).as_str())
}

/// The top of the repository, from how `git rev-parse --show-toplevel` ended and
/// what it printed; `None` if there is no repository.
pub fn git_toplevel(success: bool, printed: &str) -> (r: Option<String>)
    ensures
        ({
            let top = text::trimmed(printed@, CharClass::Space);
            match r {
                Some(t) => success && top.len() > 0 && t@ == top,
                None => !success || top.len() == 0,
            }
        }),
{
    let top = text::trim(printed, CharClass::Space);
    if success && !top.is_empty() {
        Some(top.to_owned())
    } else {
        None
    }
}

/// The branch of the working tree at a path.
pub open spec fn branch(style: Style, p: Seq<char>) -> Seq<char> {
    "keel/"@ + (match native::last_name(style, p) {
        Some(n) => n,
        None => "task"@,
    })
}

/// The branch of the working tree at the path.
pub fn branch_name(style: Style, p: &str) -> (r: String)
    ensures
        r@ == branch(style, p@),
{
    match native::file_name(style, p) {
        Some(n) => "keel/".to_owned().concat(n.as_str()),
        None => "keel/".to_owned().concat("task"),
    }
}

/// The arguments with which git makes a working tree.
pub fn worktree_add_args(style: Style, toplevel: &str, p: &str) -> (r: Vec<String>)
    ensures
        r.deep_view() == seq![
            "-C"@,
            toplevel@,
            "worktree"@,
            "add"@,
            "-b"@,
            branch(style, p@),
            p@,
            "HEAD"@,
        ],
{
    let mut v: Vec<String> = Vec::new();
    v.push("-C".to_owned());
    v.push(toplevel.to_owned());
    v.push("worktree".to_owned());
    v.push("add".to_owned());
    v.push("-b".to_owned());
    v.push(branch_name(style, p));
    v.push(p.to_owned());
    v.push("HEAD".to_owned());
    assert(v.deep_view() =~= seq![
        "-C"@,
        toplevel@,
        "worktree"@,
        "add"@,
        "-b"@,
        branch(style, p@),
        p@,
        "HEAD"@,
    ]);
    v
}

/// The working tree at `p`, from what git did: `Some(top)` if it made one in the
/// repository at `top`, else a plain directory beside `origin`.
pub fn worktree_state(style: Style, p: &str, origin: &str, git_top: Option<&str>) -> (r:
    WorktreeState)
    ensures
        r@ == (match git_top {
            Some(top) => WorktreeStateView {
                path: p@,
                origin: top@,
                git: true,
                branch: Some(branch(style, p@)),
            },
            None => WorktreeStateView { path: p@, origin: origin@, git: false, branch: None },
        }),
{
    match git_top {
        Some(top) => WorktreeState {
            path: p.to_owned(),
            origin: top.to_owned(),
            git: true,
            branch: Some(branch_name(style, p)),
        },
        None => WorktreeState {
            path: p.to_owned(),
            origin: origin.to_owned(),
            git: false,
            branch: None,
        },
    }
}

/// The git commands that remove a working tree, in order.
pub open spec fn removal(st: WorktreeStateView) -> Seq<Seq<Seq<char>>> {
    if st.git && st.branch is Some {
        seq![
            seq!["-C"@, st.origin, "worktree"@, "remove"@, "--force"@, st.path],
            seq!["-C"@, st.origin, "branch"@, "-D"@, st.branch->0],
        ]
    } else {
        Seq::empty()
    }
}

/// The git commands that remove the working tree, in order.
pub fn cleanup_commands(st: &WorktreeState) -> (r: Vec<Vec<String>>)
    ensures
        r.deep_view() == removal(st@),
{
    let mut r: Vec<Vec<String>> = Vec::new();
    if st.git {
        if let Some(branch) = &st.branch {
            let mut a: Vec<String> = Vec::new();
            a.push("-C".to_owned());
            a.push(st.origin.clone());
            a.push("worktree".to_owned());
            a.push("remove".to_owned());
            a.push("--force".to_owned());
            a.push(st.path.clone());
            let mut b: Vec<String> = Vec::new();
            b.push("-C".to_owned());
            b.push(st.origin.clone());
            b.push("branch".to_owned());
            b.push("-D".to_owned());
            b.push(branch.clone());
            assert(a.deep_view() =~= removal(st@)[0]);
            assert(b.deep_view() =~= removal(st@)[1]);
            r.push(a);
            r.push(b);
        }
    }
    assert(r.deep_view() =~= removal(st@));
    r
}

/// Some rule makes the path itself writable.
pub open spec fn writes_path(style: Style, fs: Seq<FsRuleView>, p: Seq<char>) -> bool {
    exists|i: int|
        0 <= i < fs.len() && native::same_path(style, (#[trigger] fs[i]).path, p) && fs[i].access == FsAccess::ReadWrite
}

/// The policy inside a working tree: the tree is the workspace, deny globs are
/// seen from there, and it can be written.
pub open spec fn inside(p: PolicyView, st: WorktreeStateView) -> PolicyView {
    PolicyView {
        workspace: st.path,
        glob_root: None,
        fs: if writes_path(p.style, p.fs, st.path) {
            p.fs
        } else {
            p.fs.push(
                FsRuleView { path: st.path, access: FsAccess::ReadWrite, glob: false },
            )
        },
        ..p
    }
}

fn has_write_rule(style: Style, fs: &Vec<FsRule>, p: &str) -> (r: bool)
    ensures
        r == writes_path(style, fs.deep_view(), p@),
{
    let ghost m = fs.deep_view();
    let mut i: usize = 0;
    while i < fs.len()
        invariant
            m == fs.deep_view(),
            i <= fs.len(),
            forall|k: int|
                0 <= k < i ==> !(native::same_path(style, (#[trigger] m[k]).path, p@) && m[k].access == FsAccess::ReadWrite),
        decreases fs.len() - i,
    {
        assert(m[i as int] == fs@[i as int]@);
        if fs[i].access == FsAccess::ReadWrite && native::same(style, fs[i].path.as_str(), p) {
            assert(native::same_path(style, m[i as int].path, p@));
            return true;
        }
        i += 1;
    }
    false
}

/// The policy inside the working tree.
pub fn inner_policy(policy: &Policy, st: &WorktreeState) -> (r: Policy)
    ensures
        r@ == inside(policy@, st@),
{
    let mut p = policy.clone();
    let ghost before = p@.fs;
    if !has_write_rule(p.style, &p.fs, st.path.as_str()) {
        p.fs.push(FsRule::read_write(st.path.as_str()));
        assert(p.fs.deep_view() =~= before.push(
            FsRuleView { path: st@.path, access: FsAccess::ReadWrite, glob: false },
        ));
    }
    p.workspace = st.path.clone();
    p.glob_root = None;
    p
}

/// Where a path is in the working tree.
pub open spec fn remapped(style: Style, st: Option<WorktreeStateView>, p: Seq<char>) -> Seq<char> {
    match st {
        None => p,
        Some(s) => if !native::absolute(style, p) {
            native::joined(style, s.path, p)
        } else if native::under(style, native::parts(style, p), native::parts(style, s.origin)) {
            native::joined(
                style,
                s.path,
                native::tail_text(style, p, native::parts(style, s.origin).len() as int),
            )
        } else {
            p
        },
    }
}

pub open spec fn state_view(st: Option<&WorktreeState>) -> Option<WorktreeStateView> {
    match st {
        Some(s) => Some(s@),
        None => None,
    }
}

/// Where the path is in the working tree.
pub fn remap_to_worktree(style: Style, st: Option<&WorktreeState>, p: &str) -> (r: String)
    ensures
        r@ == remapped(style, state_view(st), p@),
{
    match st {
        None => p.to_owned(),
        Some(s) => {
            if !native::is_absolute(style, p) {
                return native::join(style, s.path.as_str(), p);
            }
            match native::strip_prefix(style, p, s.origin.as_str()) {
                Some(rel) => native::join(style, s.path.as_str(), rel.as_str()),
                None => p.to_owned(),
            }
        },
    }
}

/// The policy under which file access is judged in the working tree.
pub open spec fn judged_by(p: PolicyView, st: Option<WorktreeStateView>) -> PolicyView {
    match st {
        Some(s) => PolicyView { workspace: s.path, glob_root: None, ..p },
        None => p,
    }
}

fn judging_policy(policy: &Policy, st: Option<&WorktreeState>) -> (r: Policy)
    ensures
        r@ == judged_by(policy@, state_view(st)),
{
    let mut p = policy.clone();
    if let Some(s) = st {
        p.workspace = s.path.clone();
        p.glob_root = None;
    }
    p
}

/// Whether the access is permitted: judged at the place that the path has in the
/// working tree.
pub fn check_fs(policy: &Policy, st: Option<&WorktreeState>, p: &str, write: bool) -> (r: bool)
    ensures
        r == process_guard::allowed(
            judged_by(policy@, state_view(st)),
            remapped(policy@.style, state_view(st), p@),
            write,
        ),
{
    let judge = judging_policy(policy, st);
    soft_fs_allowed(&judge, remap_to_worktree(policy.style, st, p).as_str(), write)
}

/// The working directory of a program in the working tree.
pub open spec fn cwd_in(style: Style, st: Option<WorktreeStateView>, cwd: Option<Seq<char>>)
    -> Option<Seq<char>> {
    match (st, cwd) {
        (None, _) => cwd,
        (Some(s), None) => Some(s.path),
        (Some(s), Some(c)) => if native::under(
            style,
            native::parts(style, c),
            native::parts(style, s.origin),
        ) {
            Some(
                native::joined(
                    style,
                    s.path,
                    native::tail_text(style, c, native::parts(style, s.origin).len() as int),
                ),
            )
        } else if !native::under(style, native::parts(style, c), native::parts(style, s.path))
            && !native::absolute(style, c) {
            Some(native::joined(style, s.path, c))
        } else {
            Some(c)
        },
    }
}

/// The policy and the working directory of a program in the working tree.
pub fn spawn_in_worktree(policy: &Policy, st: Option<&WorktreeState>, cwd: Option<String>) -> (r: (
    Policy,
    Option<String>,
))
    ensures
        r.0@ == judged_by(policy@, state_view(st)),
        r.1.deep_view() == cwd_in(policy@.style, state_view(st), cwd.deep_view()),
{
    let style = policy.style;
    let judge = judging_policy(policy, st);
    let s = match st {
        Some(s) => s,
        None => return (judge, cwd),
    };
    let c = match cwd {
        Some(c) => c,
        None => return (judge, Some(s.path.clone())),
    };
    match native::strip_prefix(style, c.as_str(), s.origin.as_str()) {
        Some(rel) => (judge, Some(native::join(style, s.path.as_str(), rel.as_str()))),
        None => {
            if !native::starts_with(style, c.as_str(), s.path.as_str()) && !native::is_absolute(
                style,
                c.as_str(),
            ) {
                (judge, Some(native::join(style, s.path.as_str(), c.as_str())))
            } else {
                (judge, Some(c))
            }
        },
    }
}

/// What is written to the audit trail once the working tree is there.
pub fn ready_event(policy: &Policy, st: &WorktreeState, now: Timestamp) -> (r: RecordEvent)
    ensures
        r@ == local_process::pending_note(
            policy@,
            "worktree ready at "@ + st@.path + " (git="@ + (if st@.git {
                "true"@
            } else {
                "false"@
            }) + ", origin="@ + st@.origin + ")"@,
            now,
        ),
{
    let git = if st.git {
        "true"
    } else {
        "false"
    };
    let m = "worktree ready at ".to_owned().concat(st.path.as_str()).concat(" (git=").concat(
        git,
    ).concat(", origin=").concat(st.origin.as_str()).concat(")");
    note_event(policy, m, now)
}

// ---------------------------------------------------------------------------
// Laws
// ---------------------------------------------------------------------------
/// A path of the original is never judged, nor worked on, in place: it is
/// replaced by its counterpart in the working tree.
pub proof fn original_is_out_of_the_way(style: Style, st: WorktreeStateView, p: Seq<char>)
    requires
        native::under(style, native::parts(style, p), native::parts(style, st.origin)),
    ensures
        ({
            let rest = native::tail_text(style, p, native::parts(style, st.origin).len() as int);
            &&& native::absolute(style, p) ==> remapped(style, Some(st), p) == native::joined(
                style,
                st.path,
                rest,
            )
            &&& cwd_in(style, Some(st), Some(p)) == Some(native::joined(style, st.path, rest))
        }),
{
}

/// The working tree can be written under the policy inside it, unless something
/// in it is denied.
pub proof fn worktree_is_writable(p: PolicyView, st: WorktreeStateView, target: Seq<char>)
    requires
        native::absolute(p.style, st.path),
        forall|i: int|
            0 <= i < p.fs.len() && native::same_path(
                p.style,
                (#[trigger] p.fs[i]).path,
                st.path,
            ) && p.fs[i].access == FsAccess::ReadWrite
                ==> !p.fs[i].glob,
        native::under(
            p.style,
            native::resolved(p.style, st.path, target),
            path::normal(native::parts(p.style, st.path)),
        ),
        !process_guard::path_denied(inside(p, st), native::resolved(p.style, st.path, target)),
    ensures
        process_guard::allowed_given(inside(p, st), target, true, false),
{
    let q = inside(p, st);
    let np = native::resolved(p.style, st.path, target);
    let i = if writes_path(p.style, p.fs, st.path) {
        choose|i: int|
            0 <= i < p.fs.len() && native::same_path(
                p.style,
                (#[trigger] p.fs[i]).path,
                st.path,
            ) && p.fs[i].access == FsAccess::ReadWrite
    } else {
        q.fs.len() - 1
    };
    native::same_path_is_absolute(p.style, st.path, q.fs[i].path);
    native::key_of_normal(p.style, st.path);
    native::key_of_normal(p.style, q.fs[i].path);
    assert(native::joined(p.style, st.path, q.fs[i].path) == q.fs[i].path);
    assert(process_guard::rule_grants(p.style, q.fs[i], q.workspace, np, true));
}

/// Where working trees are kept: where the options say, else in the state directory.
pub proof fn where_working_trees_are_kept(
    style: Style,
    set: Option<Seq<char>>,
    keel_home: Option<Seq<char>>,
    home: Option<Seq<char>>,
)
    ensures
        ({
            let r = trees_root(style, set, keel_home, home);
            &&& set is Some ==> r == set->0
            &&& set is None && keel_home is Some ==> r == native::joined(
                style,
                keel_home->0,
                "worktrees"@,
            )
            &&& set is None && keel_home is None && home is Some ==> r == native::joined(
                style,
                native::joined(style, home->0, ".keel"@),
                "worktrees"@,
            )
            &&& set is None && keel_home is None && home is None ==> r == native::joined(
                style,
                native::joined(style, "/tmp"@, ".keel"@),
                "worktrees"@,
            )
        }),
{
}

/// How working trees are named: by the task, or the policy if there is none, of which
/// at most the first 24 characters are used, and by the process; their branches by the
/// directory.
pub proof fn how_working_trees_are_named(p: PolicyView, pid: u32, style: Style, dir: Seq<char>)
    ensures
        ({
            let t = match p.task_id {
                Some(t) => t,
                None => p.id,
            };
            let n: int = if t.len() < 24 {
                t.len() as int
            } else {
                24
            };
            &&& dir_name(p, pid) == t.subrange(0, n) + "-"@ + number::decimal(pid as nat)
        }),
        native::last_name(style, dir) is Some ==> branch(style, dir) == "keel/"@
            + native::last_name(style, dir)->0,
        native::last_name(style, dir) is None ==> branch(style, dir) == "keel/task"@,
{
    let t = tag(p);
    if t.len() <= 24 {
        assert(t.subrange(0, t.len() as int) =~= t);
    }
    assert(t.len() > 24 ==> t.take(24) =~= t.subrange(0, 24));
    reveal_strlit("keel/");
    reveal_strlit("task");
    reveal_strlit("keel/task");
    assert("keel/"@ + "task"@ =~= "keel/task"@);
}

/// The policy inside a working tree: its own, but for the workspace, which is the tree;
/// and the tree may be written.
pub proof fn what_a_policy_becomes_inside(p: PolicyView, st: WorktreeStateView)
    ensures
        ({
            let q = inside(p, st);
            &&& q.workspace == st.path && q.glob_root is None
            &&& q.id == p.id && q.network == p.network && q.credentials == p.credentials
                && q.label == p.label && q.task_id == p.task_id && q.expires_at == p.expires_at
                && q.style == p.style
            &&& p.fs.is_prefix_of(q.fs)
            &&& q.fs.len() <= p.fs.len() + 1
            &&& q.fs.len() > p.fs.len() ==> q.fs.last() == (FsRuleView {
                path: st.path,
                access: FsAccess::ReadWrite,
                glob: false,
            })
            &&& exists|i: int|
                0 <= i < q.fs.len() && native::same_path(p.style, (#[trigger] q.fs[i]).path, st.path)
                    && q.fs[i].access == FsAccess::ReadWrite
            &&& judged_by(p, None) == p
            &&& judged_by(p, Some(st)).fs == p.fs && judged_by(p, Some(st)).network == p.network
                && judged_by(p, Some(st)).style == p.style && judged_by(p, Some(st)).workspace
                == st.path && judged_by(p, Some(st)).glob_root is None
        }),
{
    let q = inside(p, st);
    if writes_path(p.style, p.fs, st.path) {
        assert(q.fs.subrange(0, p.fs.len() as int) =~= p.fs);
    } else {
        assert(q.fs.subrange(0, p.fs.len() as int) =~= p.fs);
        assert(q.fs[p.fs.len() as int].path == st.path);
        assert(native::same_path(p.style, q.fs[p.fs.len() as int].path, st.path));
    }
}

/// Where paths lead in a working tree: what is in the original is found at its place in
/// the tree, relative paths are of the tree, and all others stay as they are.
pub proof fn where_paths_lead(style: Style, st: WorktreeStateView, p: Seq<char>)
    ensures
        ({
            let to = remapped(style, Some(st), p);
            let origin = native::parts(style, st.origin);
            &&& remapped(style, None, p) == p
            &&& !native::absolute(style, p) ==> to == native::joined(style, st.path, p)
            &&& native::absolute(style, p) && native::under(style, native::parts(style, p), origin)
                ==> to == native::joined(
                style,
                st.path,
                native::tail_text(style, p, origin.len() as int),
            )
            &&& native::absolute(style, p) && !native::under(style, native::parts(style, p), origin)
                ==> to == p
        }),
{
}

/// Where commands run: in the working tree, if nothing is asked; at the place in the
/// tree of what is asked, if that is in the original; below the tree, if it is relative
/// and not in the tree; else as asked.
pub proof fn where_commands_run(style: Style, st: WorktreeStateView, c: Seq<char>)
    ensures
        ({
            let origin = native::parts(style, st.origin);
            let cs = native::parts(style, c);
            let to = cwd_in(style, Some(st), Some(c));
            &&& cwd_in(style, None, Some(c)) == Some(c)
            &&& cwd_in(style, None, None) is None
            &&& cwd_in(style, Some(st), None) == Some(st.path)
            &&& native::under(style, cs, origin) ==> to == Some(
                native::joined(style, st.path, native::tail_text(style, c, origin.len() as int)),
            )
            &&& !native::under(style, cs, origin) && native::absolute(style, c) ==> to == Some(c)
            &&& !native::under(style, cs, origin) && native::under(
                style,
                cs,
                native::parts(style, st.path),
            ) ==> to == Some(c)
            &&& !native::under(style, cs, origin) && !native::absolute(style, c) && !native::under(
                style,
                cs,
                native::parts(style, st.path),
            ) ==> to == Some(native::joined(style, st.path, c))
        }),
{
}

/// A working tree that git made is removed by git, and then its branch; any other needs
/// no command.
pub proof fn how_working_trees_are_removed(st: WorktreeStateView)
    ensures
        st.git && st.branch is Some ==> removal(st) == seq![
            seq!["-C"@, st.origin, "worktree"@, "remove"@, "--force"@, st.path],
            seq!["-C"@, st.origin, "branch"@, "-D"@, st.branch->0],
        ],
        !st.git || st.branch is None ==> removal(st).len() == 0,
{
}

/// A file of the original is found in the working tree under the same name, and so is a
/// relative path.
pub proof fn files_keep_their_place(st: WorktreeStateView, rest: Seq<char>)
    requires
        st.origin.len() > 0,
        st.origin[0] == '/',
        st.path.len() > 0,
        st.path.last() != '/',
        rest.len() > 0,
        rest[0] != '/',
        text::split(rest, '/')[0].len() > 0,
        text::split(rest, '/')[0] != seq!['.'],
        text::split(rest, '/').last().len() > 0,
        text::split(rest, '/').last() != seq!['.'],
    ensures
        remapped(Style::Unix, Some(st), st.origin + seq!['/'] + rest) == st.path + seq!['/'] + rest,
        remapped(Style::Unix, Some(st), rest) == st.path + seq!['/'] + rest,
        cwd_in(Style::Unix, Some(st), Some(st.origin + seq!['/'] + rest)) == Some(
            st.path + seq!['/'] + rest,
        ),
{
    assert(st.origin.push('/') + rest =~= st.origin + seq!['/'] + rest);
    path::what_follows_a_directory(st.origin, rest);
    path::how_paths_are_joined(st.path, rest);
    assert((st.origin + seq!['/'] + rest)[0] == '/');
}

/// A policy that may write the working tree gains no rule in it.
pub proof fn a_tree_that_may_be_written_needs_no_rule(p: PolicyView, st: WorktreeStateView, k: int)
    requires
        0 <= k < p.fs.len(),
        native::same_path(p.style, p.fs[k].path, st.path),
        p.fs[k].access == FsAccess::ReadWrite,
    ensures
        inside(p, st).fs == p.fs,
{
    assert(native::same_path(p.style, p.fs[k].path, st.path) && p.fs[k].access
        == FsAccess::ReadWrite);
}

} // verus!
