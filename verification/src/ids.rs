//! Identifiers of policies, spaces and tasks.
use vstd::prelude::*;

verus! {

/// Identifies a policy.
#[derive(Debug)]
pub struct PolicyId {
    text: String,
}

/// Identifies an execution space.
#[derive(Debug)]
pub struct SpaceId {
    text: String,
}

/// Identifies the task that a policy was issued for.
#[derive(Debug)]
pub struct TaskId {
    text: String,
}

impl View for PolicyId {
    type V = Seq<char>;

    closed spec fn view(&self) -> Seq<char> {
        self.text@
    }
}

impl DeepView for PolicyId {
    type V = Seq<char>;

    open spec fn deep_view(&self) -> Seq<char> {
        self@
    }
}

impl View for SpaceId {
    type V = Seq<char>;

    closed spec fn view(&self) -> Seq<char> {
        self.text@
    }
}

impl DeepView for SpaceId {
    type V = Seq<char>;

    open spec fn deep_view(&self) -> Seq<char> {
        self@
    }
}

impl View for TaskId {
    type V = Seq<char>;

    closed spec fn view(&self) -> Seq<char> {
        self.text@
    }
}

impl DeepView for TaskId {
    type V = Seq<char>;

    open spec fn deep_view(&self) -> Seq<char> {
        self@
    }
}

impl PolicyId {
    pub fn from_string(text: &str) -> (r: Self)
        ensures
            r@ == text@,
    {
        PolicyId { text: text.to_owned() }
    }

    pub fn as_str(&self) -> (r: &str)
        ensures
            r@ == self@,
    {
        self.text.as_str()
    }
}

impl SpaceId {
    pub fn from_string(text: &str) -> (r: Self)
        ensures
            r@ == text@,
    {
        SpaceId { text: text.to_owned() }
    }

    pub fn as_str(&self) -> (r: &str)
        ensures
            r@ == self@,
    {
        self.text.as_str()
    }
}

impl TaskId {
    pub fn from_string(text: &str) -> (r: Self)
        ensures
            r@ == text@,
    {
        TaskId { text: text.to_owned() }
    }

    pub fn as_str(&self) -> (r: &str)
        ensures
            r@ == self@,
    {
        self.text.as_str()
    }
}

impl Clone for PolicyId {
    fn clone(&self) -> (r: Self)
        ensures
            r == *self,
            r@ == self@,
    {
        PolicyId { text: self.text.clone() }
    }
}

impl Clone for SpaceId {
    fn clone(&self) -> (r: Self)
        ensures
            r == *self,
            r@ == self@,
    {
        SpaceId { text: self.text.clone() }
    }
}

impl Clone for TaskId {
    fn clone(&self) -> (r: Self)
        ensures
            r == *self,
            r@ == self@,
    {
        TaskId { text: self.text.clone() }
    }
}

} // verus!
