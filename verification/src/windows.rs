//! Isolation of child processes on Windows: what is decided and written before
//! the system is asked.
use crate::chain;
use crate::chain::sha256;
use crate::error::{EnforceError, EnforceErrorView};
use crate::number;
use crate::paths::FsAccess;
use crate::policy;
use crate::policy::{Policy, PolicyView};
use crate::text;
use vstd::prelude::*;
use vstd::string::*;
use vstd::utf8::*;

verus! {

/// Options for isolating child processes on Windows.
#[derive(Clone, Copy, Debug, PartialEq, Eq, Structural)]
pub struct WindowsSandboxOptions {
    /// Whether each child is put into a job of its own.
    pub use_job: bool,
    /// Whether restricted tokens are probed.
    pub use_restricted_token: bool,
}

impl Default for WindowsSandboxOptions {
    fn default() -> (r: Self)
        ensures
            r == (WindowsSandboxOptions { use_job: true, use_restricted_token: true }),
    {
        WindowsSandboxOptions { use_job: true, use_restricted_token: true }
    }
}

/// What is in use, for the audit trail.
pub open spec fn summary(opts: WindowsSandboxOptions) -> Seq<char> {
    (if opts.use_job {
        "job-object(KILL_ON_JOB_CLOSE) + "@
    } else {
        Seq::empty()
    }) + (if opts.use_restricted_token {
        "restricted-token(probe) + "@
    } else {
        Seq::empty()
    }) + "soft-fs-policy + appcontainer=optional"@
}

/// What is in use, for the audit trail.
pub fn capability_summary(opts: &WindowsSandboxOptions) -> (r: String)
    ensures
        r@ == summary(*opts),
{
    let mut s = String::new();
    if opts.use_job {
        s.append("job-object(KILL_ON_JOB_CLOSE) + ");
    }
    if opts.use_restricted_token {
        s.append("restricted-token(probe) + ");
    }
    s.append("soft-fs-policy + appcontainer=optional");
    assert(s@ =~= summary(*opts));
    s
}

/// What became of the job of a child.
#[derive(Debug)]
pub enum JobOutcome {
    /// The job could not be made; the system's message.
    NotCreated(String),
    /// The child could not be put into it; the system's message.
    NotAssigned(String),
    /// The child is in it, or has ended already.
    Ready,
}

#[verifier::ext_equal]
pub enum JobOutcomeView {
    NotCreated(Seq<char>),
    NotAssigned(Seq<char>),
    Ready,
}

impl View for JobOutcome {
    type V = JobOutcomeView;

    open spec fn view(&self) -> JobOutcomeView {
        match self {
            JobOutcome::NotCreated(m) => JobOutcomeView::NotCreated(m@),
            JobOutcome::NotAssigned(m) => JobOutcomeView::NotAssigned(m@),
            JobOutcome::Ready => JobOutcomeView::Ready,
        }
    }
}

/// What is done with a child that has just started.
#[derive(Debug)]
pub enum ChildFate {
    /// It runs in its job.
    KeepInJob,
    /// It runs without a job.
    Keep,
    /// It is killed, and starting it fails.
    Kill(EnforceError),
}

#[verifier::ext_equal]
pub enum ChildFateView {
    KeepInJob,
    Keep,
    Kill(EnforceErrorView),
}

impl View for ChildFate {
    type V = ChildFateView;

    open spec fn view(&self) -> ChildFateView {
        match self {
            ChildFate::KeepInJob => ChildFateView::KeepInJob,
            ChildFate::Keep => ChildFateView::Keep,
            ChildFate::Kill(e) => ChildFateView::Kill(e@),
        }
    }
}

/// What is done with a child, given what became of its job. Where isolation is
/// required, a child without a job does not live.
pub open spec fn fate(use_job: bool, require_kernel: bool, outcome: JobOutcomeView)
    -> ChildFateView {
    if !use_job {
        ChildFateView::Keep
    } else {
        match outcome {
            JobOutcomeView::Ready => ChildFateView::KeepInJob,
            JobOutcomeView::NotAssigned(m) => if require_kernel {
                ChildFateView::Kill(
                    EnforceErrorView::ApplyFailed(
                        "failed to assign child to Job Object: "@ + m,
                    ),
                )
            } else {
                ChildFateView::Keep
            },
            JobOutcomeView::NotCreated(m) => if require_kernel {
                ChildFateView::Kill(
                    EnforceErrorView::ApplyFailed("CreateJobObject failed: "@ + m),
                )
            } else {
                ChildFateView::Keep
            },
        }
    }
}

/// What is done with a child, given what became of its job.
pub fn child_fate(use_job: bool, require_kernel: bool, outcome: &JobOutcome) -> (r: ChildFate)
    ensures
        r@ == fate(use_job, require_kernel, outcome@),
{
    if !use_job {
        return ChildFate::Keep;
    }
    match outcome {
        JobOutcome::Ready => ChildFate::KeepInJob,
        JobOutcome::NotAssigned(m) => if require_kernel {
            ChildFate::Kill(
                EnforceError::ApplyFailed(
                    "failed to assign child to Job Object: ".to_owned().concat(m.as_str()),
                ),
            )
        } else {
            ChildFate::Keep
        },
        JobOutcome::NotCreated(m) => if require_kernel {
            ChildFate::Kill(
                EnforceError::ApplyFailed(
                    "CreateJobObject failed: ".to_owned().concat(m.as_str()),
                ),
            )
        } else {
            ChildFate::Keep
        },
    }
}

// ---------------------------------------------------------------------------
// App containers
// ---------------------------------------------------------------------------
/// The name of the app container of a policy.
pub open spec fn container_name(p: PolicyView) -> Seq<char> {
    "keel."@ + number::hex_bytes(
        chain::sha256_digest(encode_utf8(p.id) + encode_utf8(p.workspace)).take(8),
    )
}

/// The name of the app container of the policy.
pub fn profile_name_for_policy(policy: &Policy) -> (r: String)
    ensures
        r@ == container_name(policy@),
{
    let mut data: Vec<u8> = Vec::new();
    push_bytes(&mut data, policy.id.as_str().as_bytes());
    push_bytes(&mut data, policy.workspace.as_str().as_bytes());
    assert(data@ =~= encode_utf8(policy@.id) + encode_utf8(policy@.workspace));
    let digest = sha256(data.as_slice());
    let mut head: Vec<u8> = Vec::new();
    let mut i: usize = 0;
    while i < 8
        invariant
            i <= 8,
            digest@.len() == 32,
            head@ == digest@.take(i as int),
        decreases 8 - i,
    {
        head.push(digest[i]);
        i += 1;
        assert(head@ =~= digest@.take(i as int));
    }
    "keel.".to_owned().concat(number::hex_encode(head.as_slice()).as_str())
}

fn push_bytes(out: &mut Vec<u8>, bytes: &[u8])
    ensures
        final(out)@ == old(out)@ + bytes@,
{
    let ghost before = out@;
    let mut i: usize = 0;
    assert(out@ =~= before + bytes@.take(0));
    while i < bytes.len()
        invariant
            i <= bytes.len(),
            out@ == before + bytes@.take(i as int),
        decreases bytes.len() - i,
    {
        out.push(bytes[i]);
        i += 1;
        assert(out@ =~= before + bytes@.take(i as int));
    }
    assert(bytes@.take(bytes@.len() as int) =~= bytes@);
}

/// A directory that an app container is given.
#[derive(Debug)]
pub struct ContainerGrant {
    pub path: String,
    pub write: bool,
    /// Whether it is only given if it is there already.
    pub only_existing: bool,
}

#[verifier::ext_equal]
pub struct ContainerGrantView {
    pub path: Seq<char>,
    pub write: bool,
    pub only_existing: bool,
}

impl View for ContainerGrant {
    type V = ContainerGrantView;

    open spec fn view(&self) -> ContainerGrantView {
        ContainerGrantView {
            path: self.path@,
            write: self.write,
            only_existing: self.only_existing,
        }
    }
}

impl DeepView for ContainerGrant {
    type V = ContainerGrantView;

    open spec fn deep_view(&self) -> ContainerGrantView {
        self@
    }
}

pub open spec fn grants_for(paths: Seq<Seq<char>>, write: bool) -> Seq<ContainerGrantView> {
    paths.map_values(
        |p: Seq<char>| ContainerGrantView { path: p, write, only_existing: !write },
    )
}

/// The system directories that programs need to start.
pub open spec fn system_dirs() -> Seq<Seq<char>> {
    seq![
        "C:\\Windows\\System32"@,
        "C:\\Windows\\SysWOW64"@,
        "C:\\Program Files"@,
        "C:\\Program Files (x86)"@,
    ]
}

/// The directories that the app container of a policy is given: the workspace
/// and the writable paths, made if they are not there; the readable paths and
/// the system directories, if they are.
pub open spec fn container_grants(p: PolicyView) -> Seq<ContainerGrantView> {
    grants_for(
        seq![p.workspace] + policy::plain_paths(p.fs, FsAccess::ReadWrite),
        true,
    ) + grants_for(policy::plain_paths(p.fs, FsAccess::Read) + system_dirs(), false)
}

fn add_grants(out: &mut Vec<ContainerGrant>, paths: &Vec<&String>, write: bool)
    ensures
        final(out).deep_view() == old(out).deep_view() + grants_for(paths.deep_view(), write),
{
    let ghost start = out.deep_view();
    let ghost m = grants_for(paths.deep_view(), write);
    let mut i: usize = 0;
    assert(out.deep_view() =~= start + m.take(0));
    while i < paths.len()
        invariant
            m == grants_for(paths.deep_view(), write),
            i <= paths.len(),
            out.deep_view() == start + m.take(i as int),
        decreases paths.len() - i,
    {
        let ghost now = out.deep_view();
        assert(paths.deep_view()[i as int] == paths@[i as int]@);
        out.push(ContainerGrant { path: paths[i].clone(), write, only_existing: !write });
        i += 1;
        assert(out.deep_view() =~= now.push(m[i - 1]));
        assert(out.deep_view() =~= start + m.take(i as int));
    }
    assert(m.take(m.len() as int) =~= m);
}

fn system_grant(p: &str) -> (r: ContainerGrant)
    ensures
        r@ == (ContainerGrantView { path: p@, write: false, only_existing: true }),
{
    ContainerGrant { path: p.to_owned(), write: false, only_existing: true }
}

/// The directories that the app container of the policy is given.
pub fn policy_grants(policy: &Policy) -> (r: Vec<ContainerGrant>)
    ensures
        r.deep_view() == container_grants(policy@),
{
    let mut r: Vec<ContainerGrant> = Vec::new();
    r.push(ContainerGrant { path: policy.workspace.clone(), write: true, only_existing: false });
    assert(r.deep_view() =~= grants_for(seq![policy@.workspace], true));
    add_grants(&mut r, &policy.read_write_paths(), true);
    let ghost rw = policy::plain_paths(policy@.fs, FsAccess::ReadWrite);
    assert(r.deep_view() =~= grants_for(seq![policy@.workspace] + rw, true));
    let ghost front = r.deep_view();
    add_grants(&mut r, &policy.read_only_paths(), false);
    let ghost mid = r.deep_view();
    r.push(system_grant("C:\\Windows\\System32"));
    r.push(system_grant("C:\\Windows\\SysWOW64"));
    r.push(system_grant("C:\\Program Files"));
    r.push(system_grant("C:\\Program Files (x86)"));
    let ghost ro = policy::plain_paths(policy@.fs, FsAccess::Read);
    assert(r.deep_view() =~= mid + grants_for(system_dirs(), false));
    assert(grants_for(ro + system_dirs(), false) =~= grants_for(ro, false) + grants_for(
        system_dirs(),
        false,
    ));
    assert(r.deep_view() =~= front + grants_for(ro + system_dirs(), false));
    r
}

/// The access entry for the security identifier of an app container.
pub open spec fn access_entry(sid: Seq<char>, write: bool) -> Seq<char> {
    "*"@ + sid + ":"@ + (if write {
        "(OI)(CI)(M)"@
    } else {
        "(OI)(CI)(RX)"@
    })
}

/// The arguments with which `icacls` gives the path to an app container.
pub fn icacls_args(sid: &str, path: &str, write: bool) -> (r: Vec<String>)
    ensures
        r.deep_view() == seq![path@, "/grant"@, access_entry(sid@, write), "/C"@],
{
    let rights = if write {
        "(OI)(CI)(M)"
    } else {
        "(OI)(CI)(RX)"
    };
    let mut v: Vec<String> = Vec::new();
    v.push(path.to_owned());
    v.push("/grant".to_owned());
    v.push("*".to_owned().concat(sid).concat(":").concat(rights));
    v.push("/C".to_owned());
    assert(v.deep_view() =~= seq![path@, "/grant"@, access_entry(sid@, write), "/C"@]);
    v
}

/// The argument has to be quoted on a command line.
pub open spec fn needs_quotes(s: Seq<char>) -> bool {
    s.contains(' ') || s.contains('\t') || s.contains('"')
}

/// `s` with a backslash in front of every double quote.
pub open spec fn with_escaped_quotes(s: Seq<char>) -> Seq<char>
    decreases s.len(),
{
    if s.len() == 0 {
        Seq::empty()
    } else if s.last() == '"' {
        with_escaped_quotes(s.drop_last()).push('\\').push('"')
    } else {
        with_escaped_quotes(s.drop_last()).push(s.last())
    }
}

/// The argument as it stands on a command line.
pub open spec fn quoted_arg(s: Seq<char>) -> Seq<char> {
    if s.len() == 0 {
        "\"\""@
    } else if !needs_quotes(s) {
        s
    } else {
        "\""@ + with_escaped_quotes(s) + "\""@
    }
}

/// The argument as it stands on a command line.
pub fn quote_arg(s: &str) -> (r: String)
    ensures
        r@ == quoted_arg(s@),
{
    if s.is_empty() {
        return "\"\"".to_owned();
    }
    if !(text::contains_char(s, ' ') || text::contains_char(s, '\t') || text::contains_char(
        s,
        '"',
    )) {
        return s.to_owned();
    }
    let v = text::chars_of(s);
    let mut body = String::new();
    let mut i: usize = 0;
    assert(s@.take(0) =~= Seq::<char>::empty());
    while i < v.len()
        invariant
            v@ == s@,
            i <= v.len(),
            body@ == with_escaped_quotes(s@.take(i as int)),
        decreases v.len() - i,
    {
        assert(s@.take(i + 1).drop_last() =~= s@.take(i as int));
        if v[i] == '"' {
            body.push('\\');
        }
        body.push(v[i]);
        i += 1;
    }
    assert(s@.take(s@.len() as int) =~= s@);
    "\"".to_owned().concat(body.as_str()).concat("\"")
}

/// The command line of a program with its arguments.
pub open spec fn command_line(program: Seq<char>, args: Seq<Seq<char>>) -> Seq<char>
    decreases args.len(),
{
    if args.len() == 0 {
        quoted_arg(program)
    } else {
        command_line(program, args.drop_last()) + " "@ + quoted_arg(args.last())
    }
}

/// How a program is started in an app container.
#[derive(Debug)]
pub struct ContainerStart {
    pub command_line: String,
    /// The capabilities that the container has.
    pub capabilities: Vec<String>,
    /// Whether standard input is a pipe; otherwise there is none.
    pub pipe_stdin: bool,
    /// Whether the child is put into a job before it runs.
    pub use_job: bool,
}

/// How the program is started in an app container. The container can reach the
/// network only with the capability for it.
pub fn spawn_in_appcontainer(
    program: &str,
    args: &Vec<String>,
    stdin_null: bool,
    use_job: bool,
    allow_network: bool,
) -> (r: ContainerStart)
    ensures
        r.command_line@ == command_line(program@, args.deep_view()),
        r.capabilities.deep_view() == (if allow_network {
            seq!["S-1-15-3-1"@]
        } else {
            Seq::empty()
        }),
        r.pipe_stdin == !stdin_null,
        r.use_job == use_job,
{
    let ghost m = args.deep_view();
    let mut line = quote_arg(program);
    let mut i: usize = 0;
    assert(m.take(0) =~= Seq::<Seq<char>>::empty());
    while i < args.len()
        invariant
            m == args.deep_view(),
            i <= args.len(),
            line@ == command_line(program@, m.take(i as int)),
        decreases args.len() - i,
    {
        assert(m[i as int] == args@[i as int]@);
        assert(m.take(i + 1).drop_last() =~= m.take(i as int));
        line.append(" ");
        line.append(quote_arg(args[i].as_str()).as_str());
        i += 1;
    }
    assert(m.take(m.len() as int) =~= m);
    let mut capabilities: Vec<String> = Vec::new();
    if allow_network {
        capabilities.push("S-1-15-3-1".to_owned());
    }
    assert(capabilities.deep_view() =~= (if allow_network {
        seq!["S-1-15-3-1"@]
    } else {
        Seq::empty()
    }));
    ContainerStart { command_line: line, capabilities, pipe_stdin: !stdin_null, use_job }
}

// ---------------------------------------------------------------------------
// Laws
// ---------------------------------------------------------------------------
/// Where isolation is required, a child lives only in its job.
pub proof fn required_job_or_death(outcome: JobOutcomeView)
    ensures
        fate(true, true, outcome) is KeepInJob || fate(true, true, outcome) is Kill,
{
}

/// What becomes of a child whose job object could not be had: it is killed where
/// isolation is required, and kept where it is not; without a job object it is kept.
pub proof fn what_becomes_of_a_child(use_job: bool, require_kernel: bool, outcome: JobOutcomeView)
    ensures
        fate(use_job, require_kernel, outcome) is KeepInJob <==> use_job && outcome is Ready,
        fate(use_job, require_kernel, outcome) is Kill <==> use_job && require_kernel && !(outcome
            is Ready),
        fate(use_job, require_kernel, outcome) is Kill ==> match outcome {
            JobOutcomeView::NotAssigned(m) => m.is_suffix_of(
                fate(use_job, require_kernel, outcome)->Kill_0->ApplyFailed_0,
            ),
            JobOutcomeView::NotCreated(m) => m.is_suffix_of(
                fate(use_job, require_kernel, outcome)->Kill_0->ApplyFailed_0,
            ),
            _ => true,
        },
{
    match outcome {
        JobOutcomeView::NotAssigned(m) => {
            let t = "failed to assign child to Job Object: "@ + m;
            assert(t.subrange(t.len() - m.len(), t.len() as int) =~= m);
        },
        JobOutcomeView::NotCreated(m) => {
            let t = "CreateJobObject failed: "@ + m;
            assert(t.subrange(t.len() - m.len(), t.len() as int) =~= m);
        },
        _ => {},
    }
}

/// What an app container is given: to write the workspace and what the plain
/// read-write rules name; to read what the plain read rules name and the directories of
/// the system, if these are there. Nothing else.
pub proof fn what_containers_are_given(p: PolicyView, g: ContainerGrantView)
    ensures
        container_grants(p).contains(g) <==> {
            ||| g.write && !g.only_existing && (g.path == p.workspace || exists|k: int|
                0 <= k < p.fs.len() && (#[trigger] p.fs[k]).access == FsAccess::ReadWrite
                    && !p.fs[k].glob && p.fs[k].path == g.path)
            ||| !g.write && g.only_existing && (g.path == "C:\\Windows\\System32"@ || g.path
                == "C:\\Windows\\SysWOW64"@ || g.path == "C:\\Program Files"@ || g.path
                == "C:\\Program Files (x86)"@ || exists|k: int|
                0 <= k < p.fs.len() && (#[trigger] p.fs[k]).access == FsAccess::Read
                    && !p.fs[k].glob && p.fs[k].path == g.path)
        },
{
    let rw = policy::plain_paths(p.fs, FsAccess::ReadWrite);
    let ro = policy::plain_paths(p.fs, FsAccess::Read);
    policy::plain_paths_are_of_plain_rules(p.fs, FsAccess::ReadWrite, g.path);
    policy::plain_paths_are_of_plain_rules(p.fs, FsAccess::Read, g.path);
    let a = seq![p.workspace] + rw;
    let b = ro + system_dirs();
    let all = container_grants(p);
    let s = system_dirs();
    assert(s[0] == "C:\\Windows\\System32"@ && s[1] == "C:\\Windows\\SysWOW64"@ && s[2]
        == "C:\\Program Files"@ && s[3] == "C:\\Program Files (x86)"@);
    if all.contains(g) {
        let i = choose|i: int| 0 <= i < all.len() && all[i] == g;
        if i < a.len() {
            assert(grants_for(a, true)[i] == g);
            assert(a[i] == g.path);
            if i > 0 {
                assert(rw[i - 1] == g.path);
                assert(rw.contains(g.path));
            }
        } else {
            let j = i - a.len();
            assert(grants_for(b, false)[j] == g);
            assert(b[j] == g.path);
            if j < ro.len() {
                assert(ro[j] == g.path);
                assert(ro.contains(g.path));
            } else {
                assert(s[j - ro.len()] == g.path);
            }
        }
    }
    if g.write && !g.only_existing {
        if g.path == p.workspace {
            assert(a[0] == g.path);
            assert(all[0] == g);
        } else if rw.contains(g.path) {
            let i = choose|i: int| 0 <= i < rw.len() && rw[i] == g.path;
            assert(a[i + 1] == g.path);
            assert(all[i + 1] == g);
        }
    }
    if !g.write && g.only_existing {
        if ro.contains(g.path) {
            let i = choose|i: int| 0 <= i < ro.len() && ro[i] == g.path;
            assert(b[i] == g.path);
            assert(all[a.len() + i] == g);
        } else if s.contains(g.path) {
            let i = choose|i: int| 0 <= i < s.len() && s[i] == g.path;
            assert(b[ro.len() + i] == g.path);
            assert(all[a.len() + ro.len() + i] == g);
        } else {
            assert(!(g.path == s[0] || g.path == s[1] || g.path == s[2] || g.path == s[3]));
        }
    }
}

/// The access entry of an app container lets it change what it may write and read what
/// it may not.
pub proof fn access_entries(sid: Seq<char>)
    ensures
        access_entry(sid, true) == "*"@ + sid + ":(OI)(CI)(M)"@,
        access_entry(sid, false) == "*"@ + sid + ":(OI)(CI)(RX)"@,
{
    reveal_strlit(":");
    reveal_strlit("(OI)(CI)(M)");
    reveal_strlit("(OI)(CI)(RX)");
    reveal_strlit(":(OI)(CI)(M)");
    reveal_strlit(":(OI)(CI)(RX)");
    assert(":"@ + "(OI)(CI)(M)"@ =~= ":(OI)(CI)(M)"@);
    assert(":"@ + "(OI)(CI)(RX)"@ =~= ":(OI)(CI)(RX)"@);
    assert(access_entry(sid, true) =~= "*"@ + sid + (":"@ + "(OI)(CI)(M)"@));
    assert(access_entry(sid, false) =~= "*"@ + sid + (":"@ + "(OI)(CI)(RX)"@));
}

/// An argument is put between quotes, with a backslash before every quote in it, if it
/// is empty or holds a space, a tab or a quote; else it stands as it is. Arguments are
/// parted by a space.
pub proof fn how_command_lines_are_written(
    program: Seq<char>,
    args: Seq<Seq<char>>,
    arg: Seq<char>,
    c: char,
)
    ensures
        command_line(program, Seq::empty()) == quoted_arg(program),
        command_line(program, args.push(arg)) == command_line(program, args) + " "@ + quoted_arg(
            arg,
        ),
        arg.len() > 0 && !arg.contains(' ') && !arg.contains('\t') && !arg.contains('"')
            ==> quoted_arg(arg) == arg,
        arg.len() == 0 || arg.contains(' ') || arg.contains('\t') || arg.contains('"')
            ==> quoted_arg(arg) == seq!['"'] + with_escaped_quotes(arg) + seq!['"'],
        with_escaped_quotes(Seq::empty()).len() == 0,
        with_escaped_quotes(arg.push(c)) == with_escaped_quotes(arg) + (if c == '"' {
            seq!['\\', '"']
        } else {
            seq![c]
        }),
{
    reveal_strlit("\"");
    reveal_strlit("\"\"");
    assert(args.push(arg).drop_last() =~= args);
    assert(arg.push(c).drop_last() =~= arg);
    let w = with_escaped_quotes(arg);
    assert(w.push('\\').push('"') =~= w + seq!['\\', '"']);
    assert(w.push(c) =~= w + seq![c]);
    assert("\""@ =~= seq!['"']);
    if arg.len() == 0 {
        assert("\"\""@ =~= seq!['"'] + w + seq!['"']);
    }
}

/// Two policies share an app container only if the digests of what names them agree.
pub proof fn containers_are_named_by_policy_and_workspace(p: PolicyView)
    ensures
        container_name(p) == "keel."@ + number::hex_bytes(
            chain::sha256_digest(encode_utf8(p.id) + encode_utf8(p.workspace)).take(8),
        ),
{
}

/// What is said of the sandbox: each part that is in use, and that file rules are
/// checked in any case.
pub proof fn what_is_said_of_the_sandbox(opts: WindowsSandboxOptions)
    ensures
        opts.use_job && opts.use_restricted_token ==> summary(opts)
            == "job-object(KILL_ON_JOB_CLOSE) + "@ + "restricted-token(probe) + "@
            + "soft-fs-policy + appcontainer=optional"@,
        opts.use_job && !opts.use_restricted_token ==> summary(opts)
            == "job-object(KILL_ON_JOB_CLOSE) + "@ + "soft-fs-policy + appcontainer=optional"@,
        !opts.use_job && opts.use_restricted_token ==> summary(opts)
            == "restricted-token(probe) + "@ + "soft-fs-policy + appcontainer=optional"@,
        !opts.use_job && !opts.use_restricted_token ==> summary(opts)
            == "soft-fs-policy + appcontainer=optional"@,
{
}

} // verus!
