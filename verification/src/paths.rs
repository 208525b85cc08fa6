//! File system rules of a policy.
use vstd::prelude::*;

verus! {

/// How a path may be accessed.
#[derive(Clone, Copy, Debug, PartialEq, Eq, Structural)]
pub enum FsAccess {
    Read,
    ReadWrite,
    /// Neither read nor written.
    Deny,
}

/// A single file system rule.
#[derive(Debug)]
pub struct FsRule {
    pub path: String,
    pub access: FsAccess,
    /// Whether `path` is a glob such as `**/.env`.
    pub glob: bool,
}

#[verifier::ext_equal]
pub struct FsRuleView {
    pub path: Seq<char>,
    pub access: FsAccess,
    pub glob: bool,
}

impl View for FsRule {
    type V = FsRuleView;

    open spec fn view(&self) -> FsRuleView {
        FsRuleView { path: self.path@, access: self.access, glob: self.glob }
    }
}

impl DeepView for FsRule {
    type V = FsRuleView;

    open spec fn deep_view(&self) -> FsRuleView {
        self@
    }
}

impl FsRule {
    pub fn read(path: &str) -> (r: Self)
        ensures
            r@ == (FsRuleView { path: path@, access: FsAccess::Read, glob: false }),
    {
        FsRule { path: path.to_owned(), access: FsAccess::Read, glob: false }
    }

    pub fn read_write(path: &str) -> (r: Self)
        ensures
            r@ == (FsRuleView { path: path@, access: FsAccess::ReadWrite, glob: false }),
    {
        FsRule { path: path.to_owned(), access: FsAccess::ReadWrite, glob: false }
    }

    pub fn deny(path: &str) -> (r: Self)
        ensures
            r@ == (FsRuleView { path: path@, access: FsAccess::Deny, glob: false }),
    {
        FsRule { path: path.to_owned(), access: FsAccess::Deny, glob: false }
    }

    pub fn deny_glob(pattern: &str) -> (r: Self)
        ensures
            r@ == (FsRuleView { path: pattern@, access: FsAccess::Deny, glob: true }),
    {
        FsRule { path: pattern.to_owned(), access: FsAccess::Deny, glob: true }
    }
}

impl Clone for FsRule {
    fn clone(&self) -> (r: Self)
        ensures
            r@ == self@,
    {
        FsRule { path: self.path.clone(), access: self.access, glob: self.glob }
    }
}

/// A path pattern for policy authors.
#[derive(Debug)]
pub struct PathPattern {
    pattern: String,
}

impl View for PathPattern {
    type V = Seq<char>;

    closed spec fn view(&self) -> Seq<char> {
        self.pattern@
    }
}

impl PathPattern {
    pub fn new(s: &str) -> (r: Self)
        ensures
            r@ == s@,
    {
        PathPattern { pattern: s.to_owned() }
    }

    pub fn as_str(&self) -> (r: &str)
        ensures
            r@ == self@,
    {
        self.pattern.as_str()
    }

    /// The pattern as a path.
    pub fn as_path(&self) -> (r: &str)
        ensures
            r@ == self@,
    {
        self.pattern.as_str()
    }
}

} // verus!
