//! Where the entries of an audit trail go.
use crate::chain;
use crate::event::{RecordEvent, RecordEventView};
use vstd::prelude::*;

verus! {

/// Keeps the entries in memory.
#[derive(Debug)]
pub struct MemorySink {
    events: Vec<RecordEvent>,
}

impl View for MemorySink {
    type V = Seq<RecordEventView>;

    closed spec fn view(&self) -> Seq<RecordEventView> {
        self.events.deep_view()
    }
}

impl MemorySink {
    pub fn new() -> (r: Self)
        ensures
            r@ == Seq::<RecordEventView>::empty(),
    {
        let r = MemorySink { events: Vec::new() };
        assert(r@ =~= Seq::<RecordEventView>::empty());
        r
    }

    /// Adds an entry behind those that are there.
    pub fn emit(&mut self, event: RecordEvent)
        ensures
            final(self)@ == old(self)@.push(event@),
    {
        let ghost before = self.events.deep_view();
        self.events.push(event);
        assert(self.events.deep_view() =~= before.push(event@));
    }

    /// The entries so far.
    pub fn events(&self) -> (r: Vec<RecordEvent>)
        ensures
            r.deep_view() == self@,
    {
        let r = self.events.clone();
        assert(r.deep_view() =~= self.events.deep_view());
        r
    }

    pub fn len(&self) -> (r: usize)
        ensures
            r == self@.len(),
    {
        self.events.len()
    }

    pub fn is_empty(&self) -> (r: bool)
        ensures
            r == (self@.len() == 0),
    {
        self.events.len() == 0
    }
}

impl Default for MemorySink {
    fn default() -> (r: Self)
        ensures
            r@ == Seq::<RecordEventView>::empty(),
    {
        MemorySink::new()
    }
}

/// Seals every entry into one chain before it goes on.
#[derive(Debug)]
pub struct HashChainSink {
    last_hash: Option<String>,
}

impl View for HashChainSink {
    /// The hash of the last entry that was sealed.
    type V = Option<Seq<char>>;

    closed spec fn view(&self) -> Option<Seq<char>> {
        self.last_hash.deep_view()
    }
}

impl HashChainSink {
    pub fn new() -> (r: Self)
        ensures
            r@ == None::<Seq<char>>,
    {
        HashChainSink { last_hash: None }
    }

    /// The entry, sealed behind the one before.
    pub fn emit(&mut self, event: RecordEvent) -> (r: Result<RecordEvent, String>)
        ensures
            match r {
                Ok(s) => {
                    &&& chain::is_instant(event.timestamp)
                    &&& s@ == chain::sealed(event@, old(self)@)
                    &&& final(self)@ == s@.event_hash
                },
                Err(m) => {
                    &&& !chain::is_instant(event.timestamp)
                    &&& m@ == "timestamp is out of range"@
                    &&& final(self)@ == old(self)@
                },
            },
    {
        let prev = match &self.last_hash {
            Some(h) => Some(h.as_str()),
            None => None,
        };
        match chain::seal_event(event, prev) {
            Ok(s) => {
                self.last_hash = s.event_hash.clone();
                Ok(s)
            },
            Err(m) => Err(m),
        }
    }
}

impl Default for HashChainSink {
    fn default() -> (r: Self)
        ensures
            r@ == None::<Seq<char>>,
    {
        HashChainSink::new()
    }
}

// ---------------------------------------------------------------------------
// Laws
// ---------------------------------------------------------------------------
/// The entries that a fresh chain makes of `events`.
pub open spec fn chain_of(events: Seq<RecordEventView>) -> Seq<RecordEventView>
    decreases events.len(),
{
    if events.len() == 0 {
        Seq::empty()
    } else {
        let before = chain_of(events.drop_last());
        before.push(chain::sealed(events.last(), chain::chain_end(before)))
    }
}

/// Whatever entries go through a chain sink, what comes out verifies.
pub proof fn emitted_entries_verify(events: Seq<RecordEventView>)
    requires
        forall|i: int| 0 <= i < events.len() ==> chain::is_instant((#[trigger] events[i]).timestamp),
    ensures
        chain::chained(chain_of(events)),
        chain_of(events).len() == events.len(),
    decreases events.len(),
{
    if events.len() > 0 {
        emitted_entries_verify(events.drop_last());
        assert(chain::is_instant(events[events.len() - 1].timestamp));
        chain::sealing_extends_a_chain(chain_of(events.drop_last()), events.last());
    }
}

/// What a chained sink keeps: every entry in order, as it was but for its hashes.
pub proof fn sinks_keep_every_entry(events: Seq<RecordEventView>, i: int)
    requires
        0 <= i < events.len(),
    ensures
        ({
            let kept = chain_of(events);
            &&& kept.len() == events.len()
            &&& kept[i].timestamp == events[i].timestamp && kept[i].space_id == events[i].space_id
                && kept[i].policy_id == events[i].policy_id && kept[i].task_id == events[i].task_id
                && kept[i].event == events[i].event
        }),
    decreases events.len(),
{
    chain_len(events.drop_last());
    if i < events.len() - 1 {
        sinks_keep_every_entry(events.drop_last(), i);
        assert(events.drop_last()[i] == events[i]);
        assert(chain_of(events)[i] == chain_of(events.drop_last())[i]);
    }
}

proof fn chain_len(events: Seq<RecordEventView>)
    ensures
        chain_of(events).len() == events.len(),
    decreases events.len(),
{
    if events.len() > 0 {
        chain_len(events.drop_last());
    }
}

} // verus!
