//! The SHA-256 chain that ties the entries of an audit trail together.
//!
//! Every entry carries the hash of the entry before it and its own. Changing an
//! entry in the middle shows when the chain is verified. Whoever can replace
//! the whole trail is not stopped by this.
use crate::event;
use crate::event::{RecordEvent, RecordEventView};
use crate::json;
use crate::number;
use crate::text;
use crate::text::CharClass;
use crate::time;
use crate::time::Timestamp;
use sha2::Digest;
use vstd::prelude::*;
use vstd::string::*;
use vstd::utf8::*;

verus! {

/// What the first entry of a chain carries in place of a hash before it.
pub const GENESIS_PREV: &'static str = "keel-genesis-v1";

/// The SHA-256 digest of the bytes.
pub uninterp spec fn sha256_digest(data: Seq<u8>) -> Seq<u8>;

/// Calls `sha2::Sha256::digest`. The digest is 32 bytes and depends on the data
/// alone.
#[verifier::external_body]
pub(crate) fn sha256(data: &[u8]) -> (r: Vec<u8>)
    ensures
        r@ == sha256_digest(data@),
        r@.len() == 32,
{
    sha2::Sha256::digest(data).to_vec()
}

/// The instant as a JSON string, in the form of RFC 3339.
pub uninterp spec fn timestamp_json(seconds: i64, nanos: u32) -> Seq<char>;

/// An instant of the calendar: in range, and with a leap second only at the end
/// of a minute.
pub open spec fn is_instant(t: Timestamp) -> bool {
    &&& time::FIRST_SECOND <= t.seconds <= time::LAST_SECOND
    &&& t.nanos < 1_000_000_000 || (t.nanos < 2_000_000_000 && t.seconds % 60 == 59)
}

/// The text of the instant tells it from every other: no text of another instant
/// is the same, or begins with it, or is its beginning.
pub open spec fn told_apart(t: Timestamp) -> bool {
    forall|s: i64, n: u32, x: Seq<char>, y: Seq<char>|
        is_instant(Timestamp { seconds: s, nanos: n }) && #[trigger] (timestamp_json(s, n) + x)
            == #[trigger] (timestamp_json(t.seconds, t.nanos) + y) ==> s == t.seconds && n
            == t.nanos
}

/// Calls `chrono::DateTime::from_timestamp`, which has a value for these
/// arguments, and `serde_json::to_string` on it. The text depends on the
/// arguments alone. It is the date, the time with as many digits of its fraction
/// as it needs, and a `Z`, all in double quotes without one inside; so it is told
/// apart from what other instants are written as. The digits are not stated.
#[verifier::external_body]
fn write_timestamp(seconds: i64, nanos: u32) -> (r: String)
    requires
        is_instant(Timestamp { seconds, nanos }),
    ensures
        r@ == timestamp_json(seconds, nanos),
        forall|s: i64, n: u32, x: Seq<char>, y: Seq<char>|
            is_instant(Timestamp { seconds: s, nanos: n }) && #[trigger] (timestamp_json(s, n) + x)
                == #[trigger] (r@ + y) ==> s == seconds && n == nanos,
{
    let at = chrono::DateTime::<chrono::Utc>::from_timestamp(seconds, nanos).unwrap_or_default();
    serde_json::to_string(&at).unwrap_or_default()
}

/// The JSON text over which an entry's hash is taken: all of the entry but the
/// hash itself. `timestamp` is the JSON text of the entry's time.
pub open spec fn body_text(e: RecordEventView, timestamp: Seq<char>) -> Seq<char> {
    "{\"timestamp\":"@ + timestamp + ",\"space_id\":"@ + json::json_string(e.space_id)
        + ",\"policy_id\":"@ + json::json_string(e.policy_id) + task_member(e.task_id)
        + ",\"prev_hash\":"@ + json::json_string(named_prev(e)) + ",\"event\":"@ + e.event.json()
        + "}"@
}

/// The hash that an entry names as that before it.
pub open spec fn named_prev(e: RecordEventView) -> Seq<char> {
    match e.prev_hash {
        Some(p) => p,
        None => GENESIS_PREV@,
    }
}

/// The member for the task of an entry, if it has one.
pub open spec fn task_member(task_id: Option<Seq<char>>) -> Seq<char> {
    match task_id {
        Some(t) => ",\"task_id\":"@ + json::json_string(t),
        None => Seq::empty(),
    }
}

/// The hash of the bytes: their digest in hexadecimal.
pub open spec fn hash_text(data: Seq<u8>) -> Seq<char> {
    number::hex_bytes(sha256_digest(data))
}

/// The hash that an entry should carry.
pub open spec fn entry_hash(e: RecordEventView) -> Option<Seq<char>> {
    if is_instant(e.timestamp) {
        Some(
            hash_text(
                encode_utf8(body_text(e, timestamp_json(e.timestamp.seconds, e.timestamp.nanos))),
            ),
        )
    } else {
        None
    }
}

/// The JSON text over which an entry's hash is taken, given the JSON text of
/// its time.
pub fn hash_body(event: &RecordEvent, timestamp: &str) -> (r: String)
    ensures
        r@ == body_text(event@, timestamp@),
{
    let mut s = "{\"timestamp\":".to_owned().concat(timestamp).concat(",\"space_id\":").concat(
        json::string_json(event.space_id.as_str()).as_str(),
    ).concat(",\"policy_id\":").concat(json::string_json(event.policy_id.as_str()).as_str());
    let ghost before = s@;
    match &event.task_id {
        Some(t) => {
            s = s.concat(",\"task_id\":").concat(json::string_json(t.as_str()).as_str());
            assert(s@ =~= before + (",\"task_id\":"@ + json::json_string(t@)));
        },
        None => {
            assert(s@ =~= before + Seq::<char>::empty());
        },
    }
    let prev = match &event.prev_hash {
        Some(p) => p.as_str(),
        None => GENESIS_PREV,
    };
    s.concat(",\"prev_hash\":").concat(json::string_json(prev).as_str()).concat(
        ",\"event\":",
    ).concat(event.event.to_json().as_str()).concat("}")
}

fn instant(t: Timestamp) -> (r: bool)
    ensures
        r == is_instant(t),
{
    if !(time::FIRST_SECOND <= t.seconds && t.seconds <= time::LAST_SECOND) {
        return false;
    }
    if t.nanos < 1_000_000_000 {
        return true;
    }
    // The first second is a multiple of sixty, so this is the second's place in
    // its minute also before 1970.
    let from_start: u64 = (t.seconds - time::FIRST_SECOND) as u64;
    assert(time::FIRST_SECOND as int % 60 == 0);
    assert(from_start as int % 60 == t.seconds as int % 60);
    t.nanos < 2_000_000_000 && from_start % 60 == 59
}

/// The hash that the entry should carry.
pub fn compute_event_hash(event: &RecordEvent) -> (r: Result<String, String>)
    ensures
        match r {
            Ok(h) => entry_hash(event@) == Some(h@) && told_apart(event.timestamp),
            Err(m) => entry_hash(event@) is None && m@ == "timestamp is out of range"@,
        },
{
    let t = event.timestamp;
    if !instant(t) {
        return Err("timestamp is out of range".to_owned());
    }
    let written = write_timestamp(t.seconds, t.nanos);
    assert(told_apart(t));
    let body = hash_body(event, written.as_str());
    let digest = sha256(body.as_str().as_bytes());
    Ok(number::hex_encode(digest.as_slice()))
}

/// The entry behind `prev` in a chain, without its own hash.
pub open spec fn linked(e: RecordEventView, prev: Option<Seq<char>>) -> RecordEventView {
    RecordEventView {
        prev_hash: Some(
            match prev {
                Some(p) => p,
                None => GENESIS_PREV@,
            },
        ),
        event_hash: None,
        ..e
    }
}

/// The entry behind `prev` in a chain.
pub open spec fn sealed(e: RecordEventView, prev: Option<Seq<char>>) -> RecordEventView {
    RecordEventView { event_hash: entry_hash(linked(e, prev)), ..linked(e, prev) }
}

/// Puts the entry into a chain behind the entry with the hash `prev_hash`.
pub fn seal_event(event: RecordEvent, prev_hash: Option<&str>) -> (r: Result<RecordEvent, String>)
    ensures
        match r {
            Ok(s) => is_instant(event.timestamp) && told_apart(event.timestamp) && s@ == sealed(
                event@,
                match prev_hash {
                    Some(p) => Some(p@),
                    None => None,
                },
            ),
            Err(m) => !is_instant(event.timestamp) && m@ == "timestamp is out of range"@,
        },
{
    let mut event = event;
    let prev = match prev_hash {
        Some(p) => p,
        None => GENESIS_PREV,
    };
    event.prev_hash = Some(prev.to_owned());
    event.event_hash = None;
    match compute_event_hash(&event) {
        Ok(h) => {
            event.event_hash = Some(h);
            Ok(event)
        },
        Err(m) => Err(m),
    }
}

/// SHA-256 of the bytes, in hexadecimal.
pub fn content_sha256(data: &[u8]) -> (r: String)
    ensures
        r@ == hash_text(data@),
{
    number::hex_encode(sha256(data).as_slice())
}

/// Why a list of entries is no chain.
#[derive(Clone, Copy, Debug, PartialEq, Eq, Structural)]
pub enum ChainVerifyError {
    /// The entry lacks a hash.
    MissingHash { index: usize },
    /// The entry does not have the hash that it carries.
    HashMismatch { index: usize },
    /// The entry does not name the hash of the entry before.
    LinkBroken { index: usize },
}

/// The hash that the entry at `i` has to name as that before it.
pub open spec fn expected_prev(events: Seq<RecordEventView>, i: int) -> Seq<char> {
    if i == 0 {
        GENESIS_PREV@
    } else {
        events[i - 1].event_hash->0
    }
}

/// What is wrong with the entry at `i`, if anything is.
pub open spec fn fault(events: Seq<RecordEventView>, i: int) -> Option<ChainVerifyError> {
    let e = events[i];
    if e.prev_hash is None || e.event_hash is None {
        Some(ChainVerifyError::MissingHash { index: i as usize })
    } else if e.prev_hash->0 != expected_prev(events, i) {
        Some(ChainVerifyError::LinkBroken { index: i as usize })
    } else if entry_hash(e) != e.event_hash {
        Some(ChainVerifyError::HashMismatch { index: i as usize })
    } else {
        None
    }
}

/// The entries form a chain.
pub open spec fn chained(events: Seq<RecordEventView>) -> bool {
    forall|i: int| 0 <= i < events.len() ==> #[trigger] fault(events, i) is None
}

/// The first fault.
pub open spec fn first_fault(events: Seq<RecordEventView>, e: ChainVerifyError) -> bool {
    exists|i: int|
        0 <= i < events.len() && #[trigger] fault(events, i) == Some(e) && forall|k: int|
            0 <= k < i ==> #[trigger] fault(events, k) is None
}

/// Verifies that the entries form a chain.
pub fn verify_chain(events: &[RecordEvent]) -> (r: Result<(), ChainVerifyError>)
    ensures
        match r {
            Ok(_) => {
                &&& chained(events.deep_view())
                &&& forall|i: int|
                    0 <= i < events@.len() ==> told_apart((#[trigger] events@[i]).timestamp)
            },
            Err(e) => first_fault(events.deep_view(), e),
        },
{
    let ghost m = events.deep_view();
    let mut expected = GENESIS_PREV.to_owned();
    let mut index: usize = 0;
    while index < events.len()
        invariant
            m == events.deep_view(),
            index <= events.len(),
            expected@ == expected_prev(m, index as int),
            forall|k: int| 0 <= k < index ==> #[trigger] fault(m, k) is None,
            forall|k: int|
                0 <= k < index ==> told_apart((#[trigger] events@[k]).timestamp),
        decreases events.len() - index,
    {
        assert(m[index as int] == events@[index as int]@);
        let ev = &events[index];
        let prev = match &ev.prev_hash {
            Some(p) => p,
            None => {
                assert(fault(m, index as int) is Some);
                return Err(ChainVerifyError::MissingHash { index });
            },
        };
        let stored = match &ev.event_hash {
            Some(h) => h,
            None => {
                assert(fault(m, index as int) is Some);
                return Err(ChainVerifyError::MissingHash { index });
            },
        };
        if !text::same(prev.as_str(), expected.as_str()) {
            assert(fault(m, index as int) is Some);
            return Err(ChainVerifyError::LinkBroken { index });
        }
        let same = match compute_event_hash(ev) {
            Ok(h) => text::same(h.as_str(), stored.as_str()),
            Err(_) => false,
        };
        if !same {
            assert(fault(m, index as int) is Some);
            return Err(ChainVerifyError::HashMismatch { index });
        }
        assert(fault(m, index as int) is None);
        expected = stored.clone();
        index += 1;
    }
    Ok(())
}

impl ChainVerifyError {
    /// The fault as it is shown in messages.
    pub open spec fn text(self) -> Seq<char> {
        match self {
            ChainVerifyError::MissingHash { index } => "MissingHash { index: "@ + number::decimal(
                index as nat,
            ) + " }"@,
            ChainVerifyError::HashMismatch { index } => "HashMismatch { index: "@ + number::decimal(
                index as nat,
            ) + " }"@,
            ChainVerifyError::LinkBroken { index } => "LinkBroken { index: "@ + number::decimal(
                index as nat,
            ) + " }"@,
        }
    }

    pub fn message(self) -> (r: String)
        ensures
            r@ == self.text(),
    {
        let (name, index) = match self {
            ChainVerifyError::MissingHash { index } => ("MissingHash { index: ", index),
            ChainVerifyError::HashMismatch { index } => ("HashMismatch { index: ", index),
            ChainVerifyError::LinkBroken { index } => ("LinkBroken { index: ", index),
        };
        name.to_owned().concat(number::to_decimal(index as u64).as_str()).concat(" }")
    }
}

// ---------------------------------------------------------------------------
// Trails kept as text, one entry per line
// ---------------------------------------------------------------------------
/// A line of a trail that holds something, with its number.
#[derive(Debug)]
pub struct TrailLine {
    pub number: usize,
    pub text: String,
}

/// The lines of `pieces` that are not blank: number and text without
/// surrounding white space.
pub open spec fn filled_lines(pieces: Seq<Seq<char>>) -> Seq<(int, Seq<char>)>
    decreases pieces.len(),
{
    if pieces.len() == 0 {
        Seq::empty()
    } else {
        let before = filled_lines(pieces.drop_last());
        let line = text::trimmed(pieces.last(), CharClass::Space);
        if line.len() == 0 {
            before
        } else {
            before.push((pieces.len() as int, line))
        }
    }
}

pub open spec fn lines_view(lines: Seq<TrailLine>) -> Seq<(int, Seq<char>)> {
    lines.map_values(|l: TrailLine| (l.number as int, l.text@))
}

/// The lines of a trail that hold something.
pub fn trail_lines(text: &str) -> (r: Vec<TrailLine>)
    ensures
        lines_view(r@) == filled_lines(text::split(text@, '\n')),
{
    let pieces = text::split_on(text, '\n');
    let ghost m = text::split(text@, '\n');
    let mut r: Vec<TrailLine> = Vec::new();
    let mut i: usize = 0;
    assert(m.take(0) =~= Seq::<Seq<char>>::empty());
    assert(lines_view(r@) =~= filled_lines(m.take(0)));
    while i < pieces.len()
        invariant
            m == pieces.deep_view(),
            i <= pieces.len(),
            lines_view(r@) == filled_lines(m.take(i as int)),
        decreases pieces.len() - i,
    {
        assert(m[i as int] == pieces@[i as int]@);
        assert(m.take(i + 1).drop_last() =~= m.take(i as int));
        let ghost before = lines_view(r@);
        let line = text::trim(pieces[i].as_str(), CharClass::Space);
        i += 1;
        if !line.is_empty() {
            r.push(TrailLine { number: i, text: line.to_owned() });
            assert(lines_view(r@) =~= before.push((i as int, line@)));
        }
    }
    assert(m.take(m.len() as int) =~= m);
    r
}

/// What a line of a trail was read as: its number, and the entry or why it is
/// none.
#[derive(Debug)]
pub struct ReadLine {
    pub number: usize,
    pub entry: Result<RecordEvent, String>,
}

/// The first line that is no entry.
pub open spec fn unread_at(lines: Seq<ReadLine>, i: int) -> bool {
    0 <= i < lines.len() && lines[i].entry is Err && forall|k: int|
        0 <= k < i ==> (#[trigger] lines[k]).entry is Ok
}

pub open spec fn entries_of(lines: Seq<ReadLine>) -> Seq<RecordEventView> {
    lines.map_values(|l: ReadLine| l.entry->Ok_0@)
}

/// The entries of a trail, if every line is one and they form a chain.
pub fn verify_jsonl(lines: Vec<ReadLine>) -> (r: Result<Vec<RecordEvent>, String>)
    ensures
        match r {
            Ok(events) => {
                &&& forall|i: int| 0 <= i < lines@.len() ==> (#[trigger] lines@[i]).entry is Ok
                &&& events.deep_view() == entries_of(lines@)
                &&& chained(events.deep_view())
            },
            Err(m) => {
                ||| exists|i: int| #[trigger]
                    unread_at(lines@, i) && m@ == "line "@ + number::decimal(
                        lines@[i].number as nat,
                    ) + ": parse: "@ + lines@[i].entry->Err_0@
                ||| (forall|i: int| 0 <= i < lines@.len() ==> (#[trigger] lines@[i]).entry is Ok)
                    && exists|e: ChainVerifyError| #[trigger]
                    first_fault(entries_of(lines@), e) && m@ == e.text()
            },
        },
{
    let mut events: Vec<RecordEvent> = Vec::new();
    let mut i: usize = 0;
    while i < lines.len()
        invariant
            i <= lines.len(),
            forall|k: int| 0 <= k < i ==> (#[trigger] lines@[k]).entry is Ok,
            events.deep_view() == entries_of(lines@).take(i as int),
        decreases lines.len() - i,
    {
        let ghost before = events.deep_view();
        match &lines[i].entry {
            Ok(e) => {
                events.push(e.clone());
                assert(events.deep_view() =~= before.push(e@));
                assert(events.deep_view() =~= entries_of(lines@).take(i + 1));
            },
            Err(e) => {
                assert(unread_at(lines@, i as int));
                return Err(
                    "line ".to_owned().concat(
                        number::to_decimal(lines[i].number as u64).as_str(),
                    ).concat(": parse: ").concat(e.as_str()),
                );
            },
        }
        i += 1;
    }
    assert(entries_of(lines@).take(lines@.len() as int) =~= entries_of(lines@));
    let all = events.as_slice();
    assert(all.deep_view() =~= events.deep_view());
    match verify_chain(all) {
        Ok(_) => Ok(events),
        Err(e) => Err(e.message()),
    }
}

// ---------------------------------------------------------------------------
// Laws
// ---------------------------------------------------------------------------
/// The hash that a new entry behind `events` has to name.
pub open spec fn chain_end(events: Seq<RecordEventView>) -> Option<Seq<char>> {
    if events.len() == 0 {
        None
    } else {
        events.last().event_hash
    }
}

/// Sealing an entry behind the last one of a chain makes a longer chain.
pub proof fn sealing_extends_a_chain(events: Seq<RecordEventView>, e: RecordEventView)
    requires
        chained(events),
        is_instant(e.timestamp),
    ensures
        chained(events.push(sealed(e, chain_end(events)))),
{
    let s = sealed(e, chain_end(events));
    let longer = events.push(s);
    assert forall|i: int| 0 <= i < longer.len() implies #[trigger] fault(longer, i) is None by {
        if i < events.len() {
            assert(longer[i] == events[i]);
            if i > 0 {
                assert(longer[i - 1] == events[i - 1]);
            }
            assert(fault(events, i) is None);
        } else {
            assert(longer[i] == s);
            assert(body_text(s, timestamp_json(s.timestamp.seconds, s.timestamp.nanos))
                == body_text(
                linked(e, chain_end(events)),
                timestamp_json(e.timestamp.seconds, e.timestamp.nanos),
            ));
            if i > 0 {
                assert(longer[i - 1] == events.last());
                assert(fault(events, i - 1) is None);
            }
        }
    }
}

/// A chain cut short is a chain.
pub proof fn chain_prefix(events: Seq<RecordEventView>, n: int)
    requires
        chained(events),
        0 <= n <= events.len(),
    ensures
        chained(events.take(n)),
{
    let t = events.take(n);
    assert forall|i: int| 0 <= i < t.len() implies #[trigger] fault(t, i) is None by {
        assert(fault(events, i) is None);
        assert(t[i] == events[i]);
        if i > 0 {
            assert(t[i - 1] == events[i - 1]);
        }
    }
}

proof fn tasks_are_unambiguous(
    a: Option<Seq<char>>,
    b: Option<Seq<char>>,
    x: Seq<char>,
    y: Seq<char>,
)
    requires
        task_member(a) + (",\"prev_hash\":"@ + x) == task_member(b) + (",\"prev_hash\":"@ + y),
    ensures
        a == b,
        x == y,
{
    reveal_strlit(",\"task_id\":");
    reveal_strlit(",\"prev_hash\":");
    let px = ",\"prev_hash\":"@ + x;
    let py = ",\"prev_hash\":"@ + y;
    let ta = task_member(a) + px;
    let tb = task_member(b) + py;
    if let Some(t) = a {
        assert(ta =~= ",\"task_id\":"@ + (json::json_string(t) + px));
        assert(ta[2] == 't');
    } else {
        assert(ta =~= px);
        assert(ta[2] == 'p');
    }
    if let Some(t) = b {
        assert(tb =~= ",\"task_id\":"@ + (json::json_string(t) + py));
        assert(tb[2] == 't');
    } else {
        assert(tb =~= py);
        assert(tb[2] == 'p');
    }
    if let (Some(s), Some(t)) = (a, b) {
        json::same_rest(",\"task_id\":"@, json::json_string(s) + px, json::json_string(t) + py);
        json::strings_are_unambiguous(s, t, px, py);
    }
    json::same_rest(",\"prev_hash\":"@, x, y);
}

/// What follows the time in the hashed text of an entry.
spec fn behind_time(e: RecordEventView) -> Seq<char> {
    ",\"space_id\":"@ + (json::json_string(e.space_id) + (",\"policy_id\":"@ + (json::json_string(
        e.policy_id,
    ) + (task_member(e.task_id) + (",\"prev_hash\":"@ + (json::json_string(named_prev(e)) + (
    ",\"event\":"@ + (e.event.json() + ("}"@ + Seq::<char>::empty())))))))))
}

proof fn time_leads(e: RecordEventView, time: Seq<char>)
    ensures
        body_text(e, time) == "{\"timestamp\":"@ + (time + behind_time(e)),
{
    let o = Seq::<char>::empty();
    assert(body_text(e, time) + o =~= body_text(e, time));
    json::regroup_12(
        "{\"timestamp\":"@,
        time,
        ",\"space_id\":"@,
        json::json_string(e.space_id),
        ",\"policy_id\":"@,
        json::json_string(e.policy_id),
        task_member(e.task_id),
        ",\"prev_hash\":"@,
        json::json_string(named_prev(e)),
        ",\"event\":"@,
        e.event.json(),
        "}"@,
        o,
    );
}

/// The hashed text tells entries apart: with the same time it is only the same
/// for entries of the same space, policy and task, behind the same entry, that
/// say the same.
pub proof fn hashed_texts_are_unambiguous(
    e: RecordEventView,
    f: RecordEventView,
    time: Seq<char>,
)
    requires
        body_text(e, time) == body_text(f, time),
    ensures
        e.space_id == f.space_id,
        e.policy_id == f.policy_id,
        e.task_id == f.task_id,
        named_prev(e) == named_prev(f),
        e.event == f.event,
{
    let e_0 = behind_time(e);
    let f_0 = behind_time(f);
    time_leads(e, time);
    time_leads(f, time);
    json::same_rest("{\"timestamp\":"@, time + e_0, time + f_0);
    json::same_rest(time, e_0, f_0);
    let o = Seq::<char>::empty();
    let e_5 = e.event.json() + ("}"@ + o);
    let f_5 = f.event.json() + ("}"@ + o);
    let e_4 = json::json_string(named_prev(e)) + (",\"event\":"@ + e_5);
    let f_4 = json::json_string(named_prev(f)) + (",\"event\":"@ + f_5);
    let e_3 = task_member(e.task_id) + (",\"prev_hash\":"@ + e_4);
    let f_3 = task_member(f.task_id) + (",\"prev_hash\":"@ + f_4);
    let e_2 = json::json_string(e.policy_id) + e_3;
    let f_2 = json::json_string(f.policy_id) + f_3;
    let e_1 = json::json_string(e.space_id) + (",\"policy_id\":"@ + e_2);
    let f_1 = json::json_string(f.space_id) + (",\"policy_id\":"@ + f_2);
    assert(e_0 == ",\"space_id\":"@ + e_1);
    assert(f_0 == ",\"space_id\":"@ + f_1);
    json::same_rest(",\"space_id\":"@, e_1, f_1);
    json::strings_are_unambiguous(
        e.space_id,
        f.space_id,
        ",\"policy_id\":"@ + e_2,
        ",\"policy_id\":"@ + f_2,
    );
    json::same_rest(",\"policy_id\":"@, e_2, f_2);
    json::strings_are_unambiguous(e.policy_id, f.policy_id, e_3, f_3);
    tasks_are_unambiguous(e.task_id, f.task_id, e_4, f_4);
    json::strings_are_unambiguous(
        named_prev(e),
        named_prev(f),
        ",\"event\":"@ + e_5,
        ",\"event\":"@ + f_5,
    );
    json::same_rest(",\"event\":"@, e_5, f_5);
    event::objects_are_unambiguous(e.event, f.event, "}"@ + o, "}"@ + o);
}

/// The bytes over which the hash of an entry is taken.
pub open spec fn hashed_bytes(e: RecordEventView) -> Seq<u8> {
    encode_utf8(body_text(e, timestamp_json(e.timestamp.seconds, e.timestamp.nanos)))
}

/// An entry of a chain that was changed in any way, and kept its hashes, is found
/// out, or two different texts with the same SHA-256 digest have been found.
///
/// That the time of the entry is told apart is known of every entry that was
/// sealed or verified.
pub proof fn changes_show_or_digests_collide(
    events: Seq<RecordEventView>,
    at: int,
    changed: RecordEventView,
)
    requires
        chained(events),
        0 <= at < events.len() <= usize::MAX,
        changed.prev_hash == events[at].prev_hash,
        changed.event_hash == events[at].event_hash,
        changed != events[at],
        told_apart(events[at].timestamp),
    ensures
        ({
            let found = first_fault(
                events.update(at, changed),
                ChainVerifyError::HashMismatch { index: at as usize },
            );
            let a = hashed_bytes(events[at]);
            let b = hashed_bytes(changed);
            found || (a != b && sha256_digest(a) == sha256_digest(b))
        }),
{
    let was = events[at];
    assert(fault(events, at) is None);
    if entry_hash(changed) != entry_hash(was) {
        tampering_shows(events, at, changed);
    } else {
        let a = hashed_bytes(was);
        let b = hashed_bytes(changed);
        number::hex_bytes_are_unambiguous(sha256_digest(a), sha256_digest(b));
        let old_time = timestamp_json(was.timestamp.seconds, was.timestamp.nanos);
        let new_time = timestamp_json(changed.timestamp.seconds, changed.timestamp.nanos);
        if a == b {
            broadcast use encode_utf8_decode_utf8;

            assert(decode_utf8(a) == body_text(was, old_time));
            assert(decode_utf8(b) == body_text(changed, new_time));
            time_leads(was, old_time);
            time_leads(changed, new_time);
            json::same_rest(
                "{\"timestamp\":"@,
                new_time + behind_time(changed),
                old_time + behind_time(was),
            );
            assert(changed.timestamp == was.timestamp);
            hashed_texts_are_unambiguous(was, changed, old_time);
            assert(changed =~= was);
        }
    }
}

/// Changing what an entry in the middle of a chain says, while it keeps its
/// place and its hash, is found at that entry, unless the changed text has the
/// same SHA-256 digest.
pub proof fn tampering_shows(events: Seq<RecordEventView>, at: int, changed: RecordEventView)
    requires
        chained(events),
        0 <= at < events.len() <= usize::MAX,
        changed.prev_hash == events[at].prev_hash,
        changed.event_hash == events[at].event_hash,
        entry_hash(changed) != entry_hash(events[at]),
    ensures
        first_fault(
            events.update(at, changed),
            ChainVerifyError::HashMismatch { index: at as usize },
        ),
{
    let t = events.update(at, changed);
    assert(fault(events, at) is None);
    assert(t[at] == changed);
    if at > 0 {
        assert(t[at - 1] == events[at - 1]);
    }
    assert(fault(t, at) == Some(ChainVerifyError::HashMismatch { index: at as usize }));
    assert forall|k: int| 0 <= k < at implies #[trigger] fault(t, k) is None by {
        assert(fault(events, k) is None);
        assert(t[k] == events[k]);
        if k > 0 {
            assert(t[k - 1] == events[k - 1]);
        }
    }
}

/// Putting an entry with another hash into the place of one breaks the chain,
/// unless it was the last: the entry behind it names the old hash.
pub proof fn relinking_shows(events: Seq<RecordEventView>, at: int, other: RecordEventView)
    requires
        chained(events),
        0 < at < events.len() <= usize::MAX,
        other.event_hash is Some,
        other.event_hash != events[at - 1].event_hash,
    ensures
        !chained(events.update(at - 1, other)),
{
    let t = events.update(at - 1, other);
    assert(fault(events, at) is None);
    assert(fault(events, at - 1) is None);
    assert(t[at] == events[at]);
    assert(t[at - 1] == other);
    assert(fault(t, at) is Some);
}

/// Taking an entry out of a chain breaks it, unless it was the last: the entry
/// behind it names a hash that is no longer in front of it.
pub proof fn removal_shows(events: Seq<RecordEventView>, at: int)
    requires
        chained(events),
        0 <= at < events.len() - 1,
        events.len() <= usize::MAX,
        events[at].event_hash->0 != expected_prev(events, at),
    ensures
        first_fault(events.remove(at), ChainVerifyError::LinkBroken { index: at as usize }),
{
    let t = events.remove(at);
    assert(fault(events, at) is None);
    assert(fault(events, at + 1) is None);
    assert(t[at] == events[at + 1]);
    assert(expected_prev(t, at) == expected_prev(events, at));
    assert(fault(t, at) == Some(ChainVerifyError::LinkBroken { index: at as usize }));
    assert forall|k: int| 0 <= k < at implies #[trigger] fault(t, k) is None by {
        assert(fault(events, k) is None);
        assert(t[k] == events[k]);
        if k > 0 {
            assert(t[k - 1] == events[k - 1]);
        }
    }
}

/// What a chain is: every entry has its hash, names the hash of the entry in front of
/// it, the first one the beginning of all chains, and its hash is that of what it says.
pub proof fn what_a_chain_is(events: Seq<RecordEventView>)
    ensures
        chained(events) <==> forall|i: int|
            0 <= i < events.len() ==> {
                &&& (#[trigger] events[i]).event_hash is Some
                &&& i == 0 ==> events[i].prev_hash == Some(GENESIS_PREV@)
                &&& i > 0 ==> events[i].prev_hash == events[i - 1].event_hash
                &&& events[i].event_hash == entry_hash(events[i])
            },
{
    if chained(events) {
        assert forall|i: int| 0 <= i < events.len() implies {
            &&& (#[trigger] events[i]).event_hash is Some
            &&& i == 0 ==> events[i].prev_hash == Some(GENESIS_PREV@)
            &&& i > 0 ==> events[i].prev_hash == events[i - 1].event_hash
            &&& events[i].event_hash == entry_hash(events[i])
        } by {
            assert(fault(events, i) is None);
            if i > 0 {
                assert(fault(events, i - 1) is None);
            }
        }
    }
    if forall|i: int|
        0 <= i < events.len() ==> {
            &&& (#[trigger] events[i]).event_hash is Some
            &&& i == 0 ==> events[i].prev_hash == Some(GENESIS_PREV@)
            &&& i > 0 ==> events[i].prev_hash == events[i - 1].event_hash
            &&& events[i].event_hash == entry_hash(events[i])
        } {
        assert forall|i: int| 0 <= i < events.len() implies #[trigger] fault(
            events,
            i,
        ) is None by {
            assert(events[i].event_hash is Some);
            if i > 0 {
                assert(events[i - 1].event_hash is Some);
            }
        }
    }
}

/// What is wrong with an entry of a trail, whose place is told: it lacks a hash, or it
/// does not name the hash in front of it, or its hash is not that of what it says.
pub proof fn faults_say_what_is_wrong(events: Seq<RecordEventView>, i: int)
    requires
        0 <= i < events.len() <= usize::MAX,
        i > 0 ==> events[i - 1].event_hash is Some,
    ensures
        ({
            let e = events[i];
            let front = if i == 0 {
                Some(GENESIS_PREV@)
            } else {
                events[i - 1].event_hash
            };
            &&& fault(events, i) == Some(ChainVerifyError::MissingHash { index: i as usize })
                <==> e.prev_hash is None || e.event_hash is None
            &&& fault(events, i) == Some(ChainVerifyError::LinkBroken { index: i as usize })
                <==> e.prev_hash is Some && e.event_hash is Some && e.prev_hash != front
            &&& fault(events, i) == Some(ChainVerifyError::HashMismatch { index: i as usize })
                <==> e.prev_hash is Some && e.event_hash is Some && e.prev_hash == front
                && entry_hash(e) != e.event_hash
            &&& fault(events, i) is None <==> e.prev_hash == front && e.event_hash is Some
                && entry_hash(e) == e.event_hash
        }),
{
}

/// Sealing an entry changes nothing but its hashes: it names what is in front of it, or
/// the beginning of all chains, and its hash is that of what it then says.
pub proof fn sealing_changes_only_the_hashes(e: RecordEventView, prev: Option<Seq<char>>)
    ensures
        ({
            let s = sealed(e, prev);
            &&& s.timestamp == e.timestamp && s.space_id == e.space_id && s.policy_id
                == e.policy_id && s.task_id == e.task_id && s.event == e.event
            &&& prev is Some ==> s.prev_hash == prev
            &&& prev is None ==> s.prev_hash == Some(GENESIS_PREV@)
            &&& s.event_hash == entry_hash(s)
        }),
{
    let s = sealed(e, prev);
    let l = linked(e, prev);
    assert(body_text(s, timestamp_json(s.timestamp.seconds, s.timestamp.nanos)) == body_text(
        l,
        timestamp_json(l.timestamp.seconds, l.timestamp.nanos),
    ));
}

/// The hash of an entry is the SHA-256 digest, in hexadecimal, of one line of JSON: the
/// time, the space, the policy, the task if there is one, the hash in front, and what
/// happened, in this order.
pub proof fn what_is_hashed(e: RecordEventView)
    requires
        is_instant(e.timestamp),
    ensures
        entry_hash(e) == Some(
            number::hex_bytes(
                sha256_digest(
                    encode_utf8(
                        "{\"timestamp\":"@ + timestamp_json(e.timestamp.seconds, e.timestamp.nanos)
                            + ",\"space_id\":"@ + json::json_string(e.space_id)
                            + ",\"policy_id\":"@ + json::json_string(e.policy_id) + (
                        match e.task_id {
                            Some(t) => ",\"task_id\":"@ + json::json_string(t),
                            None => Seq::empty(),
                        }) + ",\"prev_hash\":"@ + json::json_string(
                            match e.prev_hash {
                                Some(p) => p,
                                None => GENESIS_PREV@,
                            },
                        ) + ",\"event\":"@ + e.event.json() + "}"@,
                    ),
                ),
            ),
        ),
{
}

/// The lines of a trail are those that are not blank, trimmed, in order and with the
/// place that they have among all lines.
pub proof fn blank_lines_are_skipped(pieces: Seq<Seq<char>>, n: int, line: Seq<char>)
    ensures
        filled_lines(pieces).contains((n, line)) <==> 1 <= n <= pieces.len() && line.len() > 0
            && line == text::trimmed(pieces[n - 1], CharClass::Space),
        forall|i: int, j: int|
            0 <= i < j < filled_lines(pieces).len() ==> (#[trigger] filled_lines(pieces)[i]).0 < (
            #[trigger] filled_lines(pieces)[j]).0,
    decreases pieces.len(),
{
    let all = filled_lines(pieces);
    if pieces.len() > 0 {
        let front = pieces.drop_last();
        let before = filled_lines(front);
        blank_lines_are_skipped(front, n, line);
        if all.contains((n, line)) {
            let k = choose|k: int| 0 <= k < all.len() && all[k] == (n, line);
            if k < before.len() {
                assert(before[k] == (n, line));
                assert(front[n - 1] == pieces[n - 1]);
            }
        }
        if 1 <= n <= pieces.len() && line.len() > 0 && line == text::trimmed(
            pieces[n - 1],
            CharClass::Space,
        ) {
            if n < pieces.len() {
                assert(front[n - 1] == pieces[n - 1]);
                let k = choose|k: int| 0 <= k < before.len() && before[k] == (n, line);
                assert(all[k] == (n, line));
            } else {
                assert(all[all.len() - 1] == (n, line));
            }
        }
        assert forall|i: int, j: int| 0 <= i < j < all.len() implies (#[trigger] all[i]).0 < (
        #[trigger] all[j]).0 by {
            assert(all[i] == before[i]);
            if j < before.len() {
                assert(all[j] == before[j]);
            } else {
                numbers_are_places(front, i);
            }
        }
    }
}

proof fn numbers_are_places(pieces: Seq<Seq<char>>, i: int)
    requires
        0 <= i < filled_lines(pieces).len(),
    ensures
        filled_lines(pieces)[i].0 <= pieces.len(),
    decreases pieces.len(),
{
    let before = filled_lines(pieces.drop_last());
    if i < before.len() {
        numbers_are_places(pieces.drop_last(), i);
        assert(filled_lines(pieces)[i] == before[i]);
    }
}

/// The fault of a trail that is told is its first one: every entry in front of it has
/// its hash, names the one in front of it and says what its hash is of; and a trail has
/// none if and only if it is a chain.
pub proof fn the_first_fault_is_told(events: Seq<RecordEventView>, e: ChainVerifyError)
    requires
        first_fault(events, e),
        events.len() <= usize::MAX,
    ensures
        !chained(events),
        ({
            let at = match e {
                ChainVerifyError::MissingHash { index } => index as int,
                ChainVerifyError::LinkBroken { index } => index as int,
                ChainVerifyError::HashMismatch { index } => index as int,
            };
            &&& 0 <= at < events.len()
            &&& fault(events, at) == Some(e)
            &&& forall|i: int|
                0 <= i < at ==> {
                    &&& (#[trigger] events[i]).event_hash is Some
                    &&& i == 0 ==> events[i].prev_hash == Some(GENESIS_PREV@)
                    &&& i > 0 ==> events[i].prev_hash == events[i - 1].event_hash
                    &&& events[i].event_hash == entry_hash(events[i])
                }
        }),
{
    let at = choose|i: int|
        0 <= i < events.len() && #[trigger] fault(events, i) == Some(e) && forall|k: int|
            0 <= k < i ==> #[trigger] fault(events, k) is None;
    assert(fault(events, at) is Some);
    assert forall|i: int| 0 <= i < at implies {
        &&& (#[trigger] events[i]).event_hash is Some
        &&& i == 0 ==> events[i].prev_hash == Some(GENESIS_PREV@)
        &&& i > 0 ==> events[i].prev_hash == events[i - 1].event_hash
        &&& events[i].event_hash == entry_hash(events[i])
    } by {
        assert(fault(events, i) is None);
        if i > 0 {
            assert(fault(events, i - 1) is None);
        }
    }
}

/// What is said of a fault: what it is, and at which entry.
pub proof fn what_is_said_of_a_fault(index: usize)
    ensures
        (ChainVerifyError::MissingHash { index }).text() == "MissingHash { index: "@
            + number::decimal(index as nat) + " }"@,
        (ChainVerifyError::HashMismatch { index }).text() == "HashMismatch { index: "@
            + number::decimal(index as nat) + " }"@,
        (ChainVerifyError::LinkBroken { index }).text() == "LinkBroken { index: "@
            + number::decimal(index as nat) + " }"@,
{
}

/// The line that is told of is the first that is no entry; where every line is one, the
/// entries are those of the lines, in order.
pub proof fn lines_become_entries(lines: Seq<ReadLine>, i: int, k: int)
    ensures
        unread_at(lines, i) ==> 0 <= i < lines.len() && lines[i].entry is Err,
        unread_at(lines, i) && 0 <= k < i ==> lines[k].entry is Ok,
        entries_of(lines).len() == lines.len(),
        0 <= k < lines.len() && lines[k].entry is Ok ==> entries_of(lines)[k]
            == lines[k].entry->Ok_0@,
{
}

} // verus!
