//! What backends are told and what they report.
use vstd::prelude::*;

verus! {

/// What a backend is and can do.
#[derive(Clone, Copy, Debug)]
pub struct BackendInfo {
    pub name: &'static str,
    /// Whether the kernel enforces file access.
    pub kernel_fs: bool,
    /// Whether the network of child processes can be restricted.
    pub child_network: bool,
}

/// How a standard stream of a child is connected.
#[derive(Clone, Copy, Debug, PartialEq, Eq, Structural)]
pub enum StdioMode {
    /// To the null device.
    Null,
    /// To the stream of the parent.
    Inherit,
    /// To a pipe.
    Piped,
}

impl Default for StdioMode {
    fn default() -> (r: Self)
        ensures
            r == StdioMode::Null,
    {
        StdioMode::Null
    }
}

/// Why a process stopped.
#[derive(Clone, Copy, Debug, PartialEq, Eq, Structural)]
pub enum TerminationReason {
    /// It exited.
    Exited,
    /// It ran out of time and was killed.
    TimedOut,
    /// The host cancelled it.
    Cancelled,
    /// It was killed for another reason.
    Killed,
    /// A signal ended it.
    Signal,
    Unknown,
}

impl TerminationReason {
    pub open spec fn text(self) -> Seq<char> {
        match self {
            TerminationReason::Exited => "exited"@,
            TerminationReason::TimedOut => "timed_out"@,
            TerminationReason::Cancelled => "cancelled"@,
            TerminationReason::Killed => "killed"@,
            TerminationReason::Signal => "signal"@,
            TerminationReason::Unknown => "unknown"@,
        }
    }

    /// The name of the reason in the audit trail.
    pub fn as_str(self) -> (r: &'static str)
        ensures
            r@ == self.text(),
    {
        match self {
            TerminationReason::Exited => "exited",
            TerminationReason::TimedOut => "timed_out",
            TerminationReason::Cancelled => "cancelled",
            TerminationReason::Killed => "killed",
            TerminationReason::Signal => "signal",
            TerminationReason::Unknown => "unknown",
        }
    }

    /// A reason that the host brought about, and that stands whatever the exit
    /// status says.
    pub open spec fn by_host(self) -> bool {
        self == TerminationReason::TimedOut || self == TerminationReason::Cancelled || self
            == TerminationReason::Killed
    }
}

/// How a process came to its end.
#[derive(Clone, Copy, Debug, PartialEq, Eq, Structural)]
pub struct ProcessExit {
    pub exit_code: Option<i32>,
    pub duration_ms: u64,
    pub termination_reason: TerminationReason,
    /// The signal that ended the process.
    pub signal: Option<i32>,
}

impl ProcessExit {
    /// Whether the process exited with code zero.
    pub fn success(&self) -> (r: bool)
        ensures
            r == (self.exit_code == Some(0i32)),
    {
        match self.exit_code {
            Some(c) => c == 0,
            None => false,
        }
    }

    /// The end of a process, from the code and signal of its exit status.
    pub fn from_status(
        code: Option<i32>,
        signal: Option<i32>,
        duration_ms: u64,
        preferred: TerminationReason,
    ) -> (r: Self)
        ensures
            r == (ProcessExit {
                exit_code: classified(code, signal, preferred).0,
                duration_ms,
                termination_reason: classified(code, signal, preferred).2,
                signal: classified(code, signal, preferred).1,
            }),
    {
        let (exit_code, signal, termination_reason) = classify_status(code, signal, preferred);
        ProcessExit { exit_code, duration_ms, termination_reason, signal }
    }
}

/// Exit code, signal and reason for an exit status: a signal hides the code, and
/// what the host did takes precedence over what the status shows.
pub open spec fn classified(
    code: Option<i32>,
    signal: Option<i32>,
    preferred: TerminationReason,
) -> (Option<i32>, Option<i32>, TerminationReason) {
    (
        if signal is Some {
            None
        } else {
            code
        },
        signal,
        if preferred.by_host() {
            preferred
        } else if signal is Some {
            TerminationReason::Signal
        } else if code is Some {
            TerminationReason::Exited
        } else {
            TerminationReason::Unknown
        },
    )
}

/// Exit code, signal and reason for an exit status.
pub fn classify_status(code: Option<i32>, signal: Option<i32>, preferred: TerminationReason) -> (r: (
    Option<i32>,
    Option<i32>,
    TerminationReason,
))
    ensures
        r == classified(code, signal, preferred),
{
    let host = preferred == TerminationReason::TimedOut || preferred == TerminationReason::Cancelled
        || preferred == TerminationReason::Killed;
    if signal.is_some() {
        let reason = if host {
            preferred
        } else {
            TerminationReason::Signal
        };
        return (None, signal, reason);
    }
    let reason = if host {
        preferred
    } else if code.is_some() {
        TerminationReason::Exited
    } else {
        TerminationReason::Unknown
    };
    (code, None, reason)
}

/// A program to start.
#[derive(Debug)]
pub struct SpawnRequest {
    pub program: String,
    pub args: Vec<String>,
    pub cwd: Option<String>,
    pub env: Vec<(String, String)>,
    pub stdin: StdioMode,
    pub stdout: StdioMode,
    pub stderr: StdioMode,
    /// Whether the child gets a process group of its own, so that everything it
    /// starts can be killed with it.
    pub process_group: bool,
    /// Whether the arguments are written to the audit trail.
    pub audit_args: bool,
}

#[verifier::ext_equal]
pub struct SpawnRequestView {
    pub program: Seq<char>,
    pub args: Seq<Seq<char>>,
    pub cwd: Option<Seq<char>>,
    pub env: Seq<(Seq<char>, Seq<char>)>,
    pub stdin: StdioMode,
    pub stdout: StdioMode,
    pub stderr: StdioMode,
    pub process_group: bool,
    pub audit_args: bool,
}

impl View for SpawnRequest {
    type V = SpawnRequestView;

    open spec fn view(&self) -> SpawnRequestView {
        SpawnRequestView {
            program: self.program@,
            args: self.args.deep_view(),
            cwd: self.cwd.deep_view(),
            env: self.env.deep_view(),
            stdin: self.stdin,
            stdout: self.stdout,
            stderr: self.stderr,
            process_group: self.process_group,
            audit_args: self.audit_args,
        }
    }
}

impl SpawnRequestView {
    /// The arguments for the audit trail, and whether they were left out.
    pub open spec fn audited(self) -> (Seq<Seq<char>>, bool) {
        if self.audit_args {
            (self.args, false)
        } else {
            (Seq::empty(), true)
        }
    }
}

impl SpawnRequest {
    pub fn new(program: &str) -> (r: Self)
        ensures
            r@ == (SpawnRequestView {
                program: program@,
                args: Seq::empty(),
                cwd: None,
                env: Seq::empty(),
                stdin: StdioMode::Null,
                stdout: StdioMode::Piped,
                stderr: StdioMode::Piped,
                process_group: true,
                audit_args: true,
            }),
    {
        let r = SpawnRequest {
            program: program.to_owned(),
            args: Vec::new(),
            cwd: None,
            env: Vec::new(),
            stdin: StdioMode::Null,
            stdout: StdioMode::Piped,
            stderr: StdioMode::Piped,
            process_group: true,
            audit_args: true,
        };
        assert(r@.args =~= Seq::empty());
        assert(r@.env =~= Seq::empty());
        r
    }

    pub fn args(self, args: Vec<String>) -> (r: Self)
        ensures
            r@ == (SpawnRequestView { args: args.deep_view(), ..self@ }),
    {
        SpawnRequest { args, ..self }
    }

    pub fn cwd(self, cwd: &str) -> (r: Self)
        ensures
            r@ == (SpawnRequestView { cwd: Some(cwd@), ..self@ }),
    {
        SpawnRequest { cwd: Some(cwd.to_owned()), ..self }
    }

    pub fn stdin(self, mode: StdioMode) -> (r: Self)
        ensures
            r@ == (SpawnRequestView { stdin: mode, ..self@ }),
    {
        SpawnRequest { stdin: mode, ..self }
    }

    pub fn stdout(self, mode: StdioMode) -> (r: Self)
        ensures
            r@ == (SpawnRequestView { stdout: mode, ..self@ }),
    {
        SpawnRequest { stdout: mode, ..self }
    }

    pub fn stderr(self, mode: StdioMode) -> (r: Self)
        ensures
            r@ == (SpawnRequestView { stderr: mode, ..self@ }),
    {
        SpawnRequest { stderr: mode, ..self }
    }

    pub fn process_group(self, enabled: bool) -> (r: Self)
        ensures
            r@ == (SpawnRequestView { process_group: enabled, ..self@ }),
    {
        SpawnRequest { process_group: enabled, ..self }
    }

    pub fn audit_args(self, enabled: bool) -> (r: Self)
        ensures
            r@ == (SpawnRequestView { audit_args: enabled, ..self@ }),
    {
        SpawnRequest { audit_args: enabled, ..self }
    }

    /// The arguments for the audit trail, and whether they were left out.
    pub fn audit_args_for_event(&self) -> (r: (Vec<String>, bool))
        ensures
            (r.0.deep_view(), r.1) == self@.audited(),
    {
        if self.audit_args {
            let args = self.args.clone();
            assert(args.deep_view() =~= self.args.deep_view());
            (args, false)
        } else {
            let none: Vec<String> = Vec::new();
            assert(none.deep_view() =~= Seq::<Seq<char>>::empty());
            (none, true)
        }
    }
}

// ---------------------------------------------------------------------------
// Laws
// ---------------------------------------------------------------------------
/// Arguments that are not to be audited never reach the audit trail.
pub proof fn redacted_args_are_left_out(req: SpawnRequestView)
    requires
        !req.audit_args,
    ensures
        req.audited().0.len() == 0,
        req.audited().1,
{
}

/// A process that the host timed out, cancelled or killed is never reported as
/// having exited by itself.
pub proof fn host_reason_stands(
    code: Option<i32>,
    signal: Option<i32>,
    preferred: TerminationReason,
)
    requires
        preferred.by_host(),
    ensures
        classified(code, signal, preferred).2 == preferred,
{
}

/// Arguments that may be audited are written down as they are, and those that may not
/// are said to be left out.
pub proof fn audited_args_are_kept(req: SpawnRequestView)
    ensures
        req.audit_args ==> req.audited().0 == req.args && !req.audited().1,
        !req.audit_args ==> req.audited().0.len() == 0 && req.audited().1,
{
}

/// How the end of a process is reported: with the signal that ended it, or else its
/// exit code; as what the host did to it, if it did something; else by a signal, by
/// itself, or unknown.
pub proof fn ends_are_classified(
    code: Option<i32>,
    signal: Option<i32>,
    preferred: TerminationReason,
)
    ensures
        ({
            let (c, s, reason) = classified(code, signal, preferred);
            &&& s == signal
            &&& signal is Some ==> c is None
            &&& signal is None ==> c == code
            &&& preferred == TerminationReason::TimedOut || preferred
                == TerminationReason::Cancelled || preferred == TerminationReason::Killed
                ==> reason == preferred
            &&& preferred == TerminationReason::Exited || preferred == TerminationReason::Signal
                || preferred == TerminationReason::Unknown ==> {
                &&& reason == TerminationReason::Signal <==> signal is Some
                &&& reason == TerminationReason::Exited <==> signal is None && code is Some
                &&& reason == TerminationReason::Unknown <==> signal is None && code is None
            }
        }),
{
}

/// Every reason has a name of its own.
pub proof fn reasons_have_names_of_their_own(a: TerminationReason, b: TerminationReason)
    ensures
        a.text() == b.text() ==> a == b,
        TerminationReason::Exited.text() == "exited"@,
        TerminationReason::TimedOut.text() == "timed_out"@,
        TerminationReason::Cancelled.text() == "cancelled"@,
        TerminationReason::Killed.text() == "killed"@,
        TerminationReason::Signal.text() == "signal"@,
        TerminationReason::Unknown.text() == "unknown"@,
{
    reveal_strlit("exited");
    reveal_strlit("timed_out");
    reveal_strlit("cancelled");
    reveal_strlit("killed");
    reveal_strlit("signal");
    reveal_strlit("unknown");
    assert(a.text()[0] == b.text()[0] || a.text() != b.text());
}

} // verus!
