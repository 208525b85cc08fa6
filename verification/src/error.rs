//! What can go wrong, as values that carry their message.
use vstd::prelude::*;
use vstd::string::*;

verus! {

/// A policy that cannot be used.
#[derive(Debug)]
pub enum PolicyError {
    /// The policy breaks a rule.
    Invalid(String),
    /// The text of a policy could not be read.
    Parse(String),
    /// A file could not be read or written; the system's message.
    Io(String),
}

pub type PolicyResult<T> = Result<T, PolicyError>;

#[verifier::ext_equal]
pub enum PolicyErrorView {
    Invalid(Seq<char>),
    Parse(Seq<char>),
    Io(Seq<char>),
}

impl View for PolicyError {
    type V = PolicyErrorView;

    open spec fn view(&self) -> PolicyErrorView {
        match self {
            PolicyError::Invalid(m) => PolicyErrorView::Invalid(m@),
            PolicyError::Parse(m) => PolicyErrorView::Parse(m@),
            PolicyError::Io(m) => PolicyErrorView::Io(m@),
        }
    }
}

impl DeepView for PolicyError {
    type V = PolicyErrorView;

    open spec fn deep_view(&self) -> PolicyErrorView {
        self@
    }
}

impl PolicyErrorView {
    /// The message shown to a user.
    pub open spec fn text(self) -> Seq<char> {
        match self {
            PolicyErrorView::Invalid(m) => "invalid policy: "@ + m,
            PolicyErrorView::Parse(m) => "policy parse error: "@ + m,
            PolicyErrorView::Io(m) => m,
        }
    }
}

impl PolicyError {
    /// The message shown to a user.
    pub fn message(&self) -> (r: String)
        ensures
            r@ == self@.text(),
    {
        match self {
            PolicyError::Invalid(m) => "invalid policy: ".to_owned().concat(m.as_str()),
            PolicyError::Parse(m) => "policy parse error: ".to_owned().concat(m.as_str()),
            PolicyError::Io(m) => m.clone(),
        }
    }

    /// An [`PolicyError::Invalid`] with the given message.
    pub fn invalid(m: &str) -> (r: Self)
        ensures
            r@ == PolicyErrorView::Invalid(m@),
    {
        PolicyError::Invalid(m.to_owned())
    }
}

/// An operation that was refused or could not be carried out.
#[derive(Debug)]
pub enum EnforceError {
    /// The policy does not permit it.
    Denied(String),
    /// The backend cannot do it on this platform.
    Unsupported(String),
    /// The policy's deadline has passed.
    PolicyExpired,
    /// The space is closed.
    Closed,
    /// A kernel sandbox already binds this process.
    AlreadyApplied { applied: String, requested: String },
    /// A kernel sandbox could not be applied.
    ApplyFailed(String),
    /// The policy itself is unusable.
    Policy(PolicyError),
    /// The system refused; its message.
    Io(String),
    /// Anything else; its message.
    Other(String),
}

pub type EnforceResult<T> = Result<T, EnforceError>;

#[verifier::ext_equal]
pub enum EnforceErrorView {
    Denied(Seq<char>),
    Unsupported(Seq<char>),
    PolicyExpired,
    Closed,
    AlreadyApplied { applied: Seq<char>, requested: Seq<char> },
    ApplyFailed(Seq<char>),
    Policy(PolicyErrorView),
    Io(Seq<char>),
    Other(Seq<char>),
}

impl View for EnforceError {
    type V = EnforceErrorView;

    open spec fn view(&self) -> EnforceErrorView {
        match self {
            EnforceError::Denied(m) => EnforceErrorView::Denied(m@),
            EnforceError::Unsupported(m) => EnforceErrorView::Unsupported(m@),
            EnforceError::PolicyExpired => EnforceErrorView::PolicyExpired,
            EnforceError::Closed => EnforceErrorView::Closed,
            EnforceError::AlreadyApplied { applied, requested } => {
                EnforceErrorView::AlreadyApplied { applied: applied@, requested: requested@ }
            },
            EnforceError::ApplyFailed(m) => EnforceErrorView::ApplyFailed(m@),
            EnforceError::Policy(e) => EnforceErrorView::Policy(e@),
            EnforceError::Io(m) => EnforceErrorView::Io(m@),
            EnforceError::Other(m) => EnforceErrorView::Other(m@),
        }
    }
}

impl DeepView for EnforceError {
    type V = EnforceErrorView;

    open spec fn deep_view(&self) -> EnforceErrorView {
        self@
    }
}

impl EnforceErrorView {
    /// The message shown to a user.
    pub open spec fn text(self) -> Seq<char> {
        match self {
            EnforceErrorView::Denied(m) => "policy denied: "@ + m,
            EnforceErrorView::Unsupported(m) => "backend not supported on this platform: "@ + m,
            EnforceErrorView::PolicyExpired => "policy expired"@,
            EnforceErrorView::Closed => "space is closed"@,
            EnforceErrorView::AlreadyApplied { applied, requested } => {
                "kernel sandbox already applied (policy "@ + applied + "); cannot re-apply "@
                    + requested
            },
            EnforceErrorView::ApplyFailed(m) => "kernel sandbox apply failed: "@ + m,
            EnforceErrorView::Policy(e) => e.text(),
            EnforceErrorView::Io(m) => m,
            EnforceErrorView::Other(m) => m,
        }
    }
}

impl EnforceError {
    /// The message shown to a user.
    pub fn message(&self) -> (r: String)
        ensures
            r@ == self@.text(),
    {
        match self {
            EnforceError::Denied(m) => "policy denied: ".to_owned().concat(m.as_str()),
            EnforceError::Unsupported(m) => {
                "backend not supported on this platform: ".to_owned().concat(m.as_str())
            },
            EnforceError::PolicyExpired => "policy expired".to_owned(),
            EnforceError::Closed => "space is closed".to_owned(),
            EnforceError::AlreadyApplied { applied, requested } => {
                "kernel sandbox already applied (policy ".to_owned().concat(
                    applied.as_str(),
                ).concat("); cannot re-apply ").concat(requested.as_str())
            },
            EnforceError::ApplyFailed(m) => {
                "kernel sandbox apply failed: ".to_owned().concat(m.as_str())
            },
            EnforceError::Policy(e) => e.message(),
            EnforceError::Io(m) => m.clone(),
            EnforceError::Other(m) => m.clone(),
        }
    }

    /// An [`EnforceError::Denied`] with the message `what` followed by `subject`.
    pub fn denied(what: &str, subject: &str) -> (r: Self)
        ensures
            r@ == EnforceErrorView::Denied(what@ + subject@),
    {
        EnforceError::Denied(what.to_owned().concat(subject))
    }
}

/// A request to a space that failed.
#[derive(Debug)]
pub enum KeelError {
    Policy(PolicyError),
    Enforce(EnforceError),
    /// The space is not open; the state it is in.
    NotOpen(String),
    /// The audit trail could not be written; the system's message.
    Record(String),
    /// Anything else; its message.
    Other(String),
}

pub type KeelResult<T> = Result<T, KeelError>;

#[verifier::ext_equal]
pub enum KeelErrorView {
    Policy(PolicyErrorView),
    Enforce(EnforceErrorView),
    NotOpen(Seq<char>),
    Record(Seq<char>),
    Other(Seq<char>),
}

impl View for KeelError {
    type V = KeelErrorView;

    open spec fn view(&self) -> KeelErrorView {
        match self {
            KeelError::Policy(e) => KeelErrorView::Policy(e@),
            KeelError::Enforce(e) => KeelErrorView::Enforce(e@),
            KeelError::NotOpen(s) => KeelErrorView::NotOpen(s@),
            KeelError::Record(m) => KeelErrorView::Record(m@),
            KeelError::Other(m) => KeelErrorView::Other(m@),
        }
    }
}

impl DeepView for KeelError {
    type V = KeelErrorView;

    open spec fn deep_view(&self) -> KeelErrorView {
        self@
    }
}

impl KeelErrorView {
    /// The message shown to a user.
    pub open spec fn text(self) -> Seq<char> {
        match self {
            KeelErrorView::Policy(e) => e.text(),
            KeelErrorView::Enforce(e) => e.text(),
            KeelErrorView::NotOpen(s) => "space is not open (state="@ + s + ")"@,
            KeelErrorView::Record(m) => "record sink error: "@ + m,
            KeelErrorView::Other(m) => m,
        }
    }
}

impl KeelError {
    /// The message shown to a user.
    pub fn message(&self) -> (r: String)
        ensures
            r@ == self@.text(),
    {
        match self {
            KeelError::Policy(e) => e.message(),
            KeelError::Enforce(e) => e.message(),
            KeelError::NotOpen(s) => {
                "space is not open (state=".to_owned().concat(s.as_str()).concat(")")
            },
            KeelError::Record(m) => "record sink error: ".to_owned().concat(m.as_str()),
            KeelError::Other(m) => m.clone(),
        }
    }
}

// ---------------------------------------------------------------------------
// Laws
// ---------------------------------------------------------------------------
/// What a user is told: what kind of thing went wrong, and then what it was.
pub proof fn what_users_are_told(m: Seq<char>, n: Seq<char>, p: PolicyErrorView, e: EnforceErrorView)
    ensures
        PolicyErrorView::Invalid(m).text() == "invalid policy: "@ + m,
        PolicyErrorView::Parse(m).text() == "policy parse error: "@ + m,
        PolicyErrorView::Io(m).text() == m,
        EnforceErrorView::Denied(m).text() == "policy denied: "@ + m,
        EnforceErrorView::Unsupported(m).text() == "backend not supported on this platform: "@ + m,
        EnforceErrorView::PolicyExpired.text() == "policy expired"@,
        EnforceErrorView::Closed.text() == "space is closed"@,
        (EnforceErrorView::AlreadyApplied { applied: m, requested: n }).text()
            == "kernel sandbox already applied (policy "@ + m + "); cannot re-apply "@ + n,
        EnforceErrorView::ApplyFailed(m).text() == "kernel sandbox apply failed: "@ + m,
        EnforceErrorView::Policy(p).text() == p.text(),
        EnforceErrorView::Io(m).text() == m,
        EnforceErrorView::Other(m).text() == m,
        KeelErrorView::Policy(p).text() == p.text(),
        KeelErrorView::Enforce(e).text() == e.text(),
        KeelErrorView::NotOpen(m).text() == "space is not open (state="@ + m + ")"@,
        KeelErrorView::Record(m).text() == "record sink error: "@ + m,
        KeelErrorView::Other(m).text() == m,
{
}

} // verus!
