//! Where state is kept on disk.
//!
//! ```text
//! $KEEL_HOME or ~/.keel/
//!   spaces/<space_id>/
//!     events.jsonl
//!     policy.json
//!   tmp/
//! ```
use crate::ids::SpaceId;
use crate::native;
use crate::native::Style;
use vstd::prelude::*;

verus! {

/// The state directory for the given value of `KEEL_HOME` and home directory.
pub open spec fn state_dir(
    style: Style,
    set: Option<Seq<char>>,
    home: Option<Seq<char>>,
) -> Seq<char> {
    if set is Some && set->0.len() > 0 {
        set->0
    } else {
        native::joined(
            style,
            match home {
                Some(h) => h,
                None => "."@,
            },
            ".keel"@,
        )
    }
}

pub open spec fn opt_view(s: Option<&str>) -> Option<Seq<char>> {
    match s {
        Some(t) => Some(t@),
        None => None,
    }
}

/// The state directory: `KEEL_HOME` if it is set to something, else `.keel` in
/// the home directory, else `.keel` in the current directory.
pub fn keel_home(style: Style, set: Option<&str>, home: Option<&str>) -> (r: String)
    ensures
        r@ == state_dir(style, opt_view(set), opt_view(home)),
{
    if let Some(h) = set {
        if !h.is_empty() {
            return h.to_owned();
        }
    }
    let base = match home {
        Some(h) => h,
        None => ".",
    };
    native::join(style, base, ".keel")
}

pub open spec fn space_dir_path(style: Style, state: Seq<char>, id: Seq<char>) -> Seq<char> {
    native::joined(style, native::joined(style, state, "spaces"@), id)
}

/// The directory of one space.
pub fn space_dir(style: Style, state: &str, space_id: &SpaceId) -> (r: String)
    ensures
        r@ == space_dir_path(style, state@, space_id@),
{
    native::join(style, native::join(style, state, "spaces").as_str(), space_id.as_str())
}

/// The audit trail of one space.
pub fn space_events_path(style: Style, state: &str, space_id: &SpaceId) -> (r: String)
    ensures
        r@ == native::joined(style, space_dir_path(style, state@, space_id@), "events.jsonl"@),
{
    native::join(style, space_dir(style, state, space_id).as_str(), "events.jsonl")
}

/// The policy of one space as it was bound.
pub fn space_policy_path(style: Style, state: &str, space_id: &SpaceId) -> (r: String)
    ensures
        r@ == native::joined(style, space_dir_path(style, state@, space_id@), "policy.json"@),
{
    native::join(style, space_dir(style, state, space_id).as_str(), "policy.json")
}

/// The directory for files that live as long as a child process starts.
pub fn keel_tmp_dir(style: Style, state: &str) -> (r: String)
    ensures
        r@ == native::joined(style, state@, "tmp"@),
{
    native::join(style, state, "tmp")
}

// ---------------------------------------------------------------------------
// Laws
// ---------------------------------------------------------------------------
/// State is kept where `KEEL_HOME` says, if it says something; else in `.keel` in the
/// home directory, else in `.keel` here. A space has a directory of its own in it.
pub proof fn where_state_is_kept(
    style: Style,
    set: Option<Seq<char>>,
    home: Option<Seq<char>>,
    id: Seq<char>,
)
    ensures
        set is Some && set->0.len() > 0 ==> state_dir(style, set, home) == set->0,
        (set is None || set->0.len() == 0) && home is Some ==> state_dir(style, set, home)
            == native::joined(style, home->0, ".keel"@),
        (set is None || set->0.len() == 0) && home is None ==> state_dir(style, set, home)
            == native::joined(style, "."@, ".keel"@),
        forall|state: Seq<char>| #[trigger]
            space_dir_path(style, state, id) == native::joined(
                style,
                native::joined(style, state, "spaces"@),
                id,
            ),
{
}

} // verus!
