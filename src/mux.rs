//! The hub's per-agent multiplexer: it turns one ordered socket into many
//! independent request/response pairs keyed by a 16-bit correlation id.
//!
//! Each caller gets its own id; two callers asking for the same metric before
//! the first answer arrives each cause a frame, and once an answer is cached
//! further callers are served from the cache until it expires.
//!
//! The connection task feeds events in and carries out what comes back:
//! it writes frames, hands readings to waiting callers, and logs the rest.

use crate::cache::ResponseCache;
use crate::proto::{BackendMessage, FrontendMessage, IdBackendMessage, IdFrontendMessage};
use std::collections::HashMap;
use vstd::prelude::*;

verus! {

broadcast use vstd::std_specs::hash::group_hash_axioms;

/// Number of distinct correlation ids.
pub const ID_SPACE: u32 = 65536;

/// `id` is the first id at or after `start`, counting on past the largest id
/// back to zero, that `pending` does not hold.
pub open spec fn first_free<S>(pending: Map<u16, S>, start: u16, id: u16) -> bool {
    exists|k: int|
        0 <= k < 65536 && id == #[trigger] id_after(start, k) && !pending.contains_key(id)
            && forall|j: int| 0 <= j < k ==> pending.contains_key(#[trigger] id_after(start, j))
}

/// The id `k` steps after `start`, wrapping past the largest id to zero.
pub open spec fn id_after(start: u16, k: int) -> u16 {
    ((start + k) % 65536) as u16
}

/// What one step did to a connection's table of waiting callers.
pub enum TableEvent {
    /// A frame went out and its caller now waits under this id.
    Sent(u16),
    /// The caller waiting under this id was handed its answer.
    Answered(u16),
    /// The table kept the same ids.
    Unchanged,
}

/// `after` follows from `before` by the event: a caller waits under a new id
/// that no other caller held, or the caller under an id leaves.
pub open spec fn table_step<S>(before: Map<u16, S>, after: Map<u16, S>, e: TableEvent) -> bool {
    match e {
        TableEvent::Sent(id) => !before.contains_key(id) && after.dom() == before.dom().insert(id),
        TableEvent::Answered(id) => before.contains_key(id) && after.dom() == before.dom().remove(id),
        TableEvent::Unchanged => after.dom() == before.dom(),
    }
}

/// Number of frames sent, less the answers handed over.
pub open spec fn outstanding(events: Seq<TableEvent>) -> int
    decreases events.len(),
{
    if events.len() == 0 {
        0
    } else {
        outstanding(events.drop_last()) + match events.last() {
            TableEvent::Sent(_) => 1int,
            TableEvent::Answered(_) => -1int,
            TableEvent::Unchanged => 0int,
        }
    }
}

/// Along any run of requests and answers from an empty table, the table holds
/// exactly one id per outstanding request: no two waiting callers share an id.
pub proof fn lemma_one_id_per_outstanding_request<S>(tables: Seq<Map<u16, S>>, events: Seq<TableEvent>)
    requires
        tables.len() == events.len() + 1,
        tables[0] == Map::<u16, S>::empty(),
        forall|i: int| 0 <= i < events.len() ==> #[trigger] table_step(tables[i], tables[i + 1], events[i]),
    ensures
        tables.last().dom().finite(),
        tables.last().len() == outstanding(events),
    decreases events.len(),
{
    if events.len() == 0 {
        assert(tables.last() == tables[0]);
    } else {
        let n = events.len() - 1;
        let prev_t = tables.drop_last();
        let prev_e = events.drop_last();
        assert forall|i: int| 0 <= i < prev_e.len() implies #[trigger] table_step(prev_t[i], prev_t[i + 1], prev_e[i]) by {
            assert(table_step(tables[i], tables[i + 1], events[i]));
        }
        lemma_one_id_per_outstanding_request(prev_t, prev_e);
        let before = tables[n];
        let after = tables[n + 1];
        assert(prev_t.last() == before);
        assert(tables.last() == after);
        assert(table_step(before, after, events[n]));
        assert(events.last() == events[n]);
        match events[n] {
            TableEvent::Sent(id) => {
                assert(after.dom() == before.dom().insert(id));
            },
            TableEvent::Answered(id) => {
                assert(after.dom() == before.dom().remove(id));
            },
            TableEvent::Unchanged => {},
        }
    }
}

/// The table event of a caller's request.
pub open spec fn request_event<S>(r: RequestOutcome<S>) -> TableEvent {
    match r {
        RequestOutcome::Send(id, _) => TableEvent::Sent(id),
        _ => TableEvent::Unchanged,
    }
}

/// The table event of a message from the agent.
pub open spec fn message_event<S>(msg: BackendMessage, r: ResponseOutcome<S>) -> TableEvent {
    if r is Deliver {
        match msg {
            BackendMessage::Id(id, _) => TableEvent::Answered(id),
            BackendMessage::NoId(_) => TableEvent::Unchanged,
        }
    } else {
        TableEvent::Unchanged
    }
}

/// What to do with a caller's request.
pub enum RequestOutcome<S> {
    /// Answer the caller at once with a fresh cached reading.
    Cached(S, IdBackendMessage),
    /// Write this frame; the caller now waits under its id.
    Send(u16, FrontendMessage),
    /// Every id is in use: the caller is turned away.
    Exhausted(S),
}

/// What to do with a message read from the agent.
pub enum ResponseOutcome<S> {
    /// Hand the reading to the caller that waited for it.
    Deliver(S, IdBackendMessage),
    /// No caller waits under this id: drop the reading and warn.
    UnknownId(u16),
    /// A message that answers nothing (such as a second handshake): drop it and warn.
    Unexpected,
}

/// State of one agent connection: waiting callers by id, the next id to try,
/// and the cache of recent readings.
pub struct Multiplexer<S> {
    next_id: u16,
    pending: HashMap<u16, S>,
    cache: ResponseCache,
}

impl<S> Multiplexer<S> {
    /// Callers waiting for an answer, by correlation id.
    pub closed spec fn pending(&self) -> Map<u16, S> {
        self.pending@
    }

    /// The id the allocator tries first.
    pub closed spec fn next_id(&self) -> u16 {
        self.next_id
    }

    /// The response cache.
    pub closed spec fn cache(&self) -> ResponseCache {
        self.cache
    }

    /// The cache keeps its invariant.
    pub closed spec fn wf(&self) -> bool {
        self.cache.wf()
    }

    /// A connection with no waiting caller and an empty cache.
    pub fn new() -> (r: Multiplexer<S>)
        ensures
            r.wf(),
            r.pending() == Map::<u16, S>::empty(),
            r.next_id() == 0,
            forall|k: IdFrontendMessage| #[trigger] r.cache().slot(k).len() == 0,
    {
        Multiplexer { next_id: 0, pending: HashMap::new(), cache: ResponseCache::new() }
    }

    /// Number of waiting callers.
    pub fn pending_len(&self) -> (r: usize)
        ensures
            r == self.pending().len(),
    {
        self.pending.len()
    }

    /// Whether a caller waits under `id`.
    pub fn is_pending(&self, id: u16) -> (r: bool)
        ensures
            r == self.pending().contains_key(id),
    {
        self.pending.contains_key(&id)
    }

    /// The first id at or after `next_id` (wrapping) that no caller holds, and
    /// the allocator moved past it; `None` when every id is held.
    fn allocate_id(&mut self) -> (r: Option<u16>)
        ensures
            final(self).pending == old(self).pending,
            final(self).cache == old(self).cache,
            r matches Some(id) ==> !old(self).pending@.contains_key(id) && final(self).next_id
                == (id + 1) % 65536 && first_free(old(self).pending@, old(self).next_id, id) && (
                !old(self).pending@.contains_key(old(self).next_id) ==> id == old(self).next_id),
            r is None ==> final(self).next_id == old(self).next_id && forall|id: u16|
                old(self).pending@.contains_key(id),
    {
        let start = self.next_id;
        let mut i: u32 = 0;
        while i < ID_SPACE
            invariant
                i <= ID_SPACE,
                self.next_id == start,
                start == old(self).next_id,
                self.pending == old(self).pending,
                self.cache == old(self).cache,
                forall|k: int| 0 <= k < i ==> self.pending@.contains_key(#[trigger] id_after(start, k)),
            decreases ID_SPACE - i,
        {
            let cand: u16 = ((start as u32 + i) % ID_SPACE) as u16;
            if !self.pending.contains_key(&cand) {
                assert(first_free(self.pending@, start, cand)) by {
                    assert(cand == id_after(start, i as int));
                }
                assert(!self.pending@.contains_key(start) ==> cand == start) by {
                    if i > 0 {
                        assert(self.pending@.contains_key(id_after(start, 0)));
                        assert(id_after(start, 0) == start);
                    }
                }
                self.next_id = ((cand as u32 + 1) % ID_SPACE) as u16;
                return Some(cand);
            }
            i = i + 1;
        }
        proof {
            assert forall|id: u16| self.pending@.contains_key(id) by {
                let k: int = (id as int - start as int + 65536) % 65536;
                assert(id_after(start, k) == id);
            }
        }
        None
    }

    /// Decides what a caller's request for `req` leads to.
    ///
    /// A fresh cached reading answers at once; otherwise the caller is stored
    /// under an id that no other waiting caller holds, and a frame with that id
    /// is to be written.
    pub fn on_request(&mut self, req: IdFrontendMessage, sink: S) -> (r: RequestOutcome<S>)
        requires
            old(self).wf(),
        ensures
            final(self).wf(),
            final(self).cache() == old(self).cache(),
            old(self).cache().slot(req).len() == 0 ==> !(r is Cached),
            table_step(old(self).pending(), final(self).pending(), request_event(r)),
            match r {
                RequestOutcome::Cached(s, v) => {
                    &&& s == sink
                    &&& old(self).cache().slot(req) == seq![v]
                    &&& v.spec_kind() == req
                    &&& final(self).pending() == old(self).pending()
                    &&& final(self).next_id() == old(self).next_id()
                },
                RequestOutcome::Send(id, msg) => {
                    &&& !old(self).pending().contains_key(id)
                    &&& first_free(old(self).pending(), old(self).next_id(), id)
                    &&& !old(self).pending().contains_key(old(self).next_id()) ==> id == old(self).next_id()
                    &&& final(self).next_id() == (id + 1) % 65536
                    &&& final(self).pending() == old(self).pending().insert(id, sink)
                    &&& msg == FrontendMessage::Id(id, req)
                },
                RequestOutcome::Exhausted(s) => {
                    &&& s == sink
                    &&& forall|id: u16| old(self).pending().contains_key(id)
                    &&& old(self).pending().contains_key(old(self).next_id())
                    &&& final(self).pending() == old(self).pending()
                },
            },
    {
        if let Some(v) = self.cache.get(req) {
            return RequestOutcome::Cached(sink, v);
        }
        match self.allocate_id() {
            Some(id) => {
                self.pending.insert(id, sink);
                RequestOutcome::Send(id, FrontendMessage::Id(id, req))
            },
            None => RequestOutcome::Exhausted(sink),
        }
    }

    /// Decides what a message from the agent leads to.
    ///
    /// An answer removes its waiting caller whatever became of that caller,
    /// and is cached under its own metric before it is handed over.
    pub fn on_message(&mut self, msg: BackendMessage) -> (r: ResponseOutcome<S>)
        requires
            old(self).wf(),
        ensures
            final(self).wf(),
            final(self).next_id() == old(self).next_id(),
            table_step(old(self).pending(), final(self).pending(), message_event(msg, r)),
            match msg {
                BackendMessage::Id(id, data) => {
                    if old(self).pending().contains_key(id) {
                        &&& r == ResponseOutcome::Deliver(old(self).pending()[id], data)
                        &&& final(self).pending() == old(self).pending().remove(id)
                        &&& final(self).cache().slot(data.spec_kind()) == seq![data]
                        &&& forall|k: IdFrontendMessage|
                            k != data.spec_kind() ==> #[trigger] final(self).cache().slot(k)
                                == old(self).cache().slot(k)
                    } else {
                        &&& r == ResponseOutcome::<S>::UnknownId(id)
                        &&& final(self).pending() == old(self).pending()
                        &&& final(self).cache() == old(self).cache()
                    }
                },
                BackendMessage::NoId(_) => {
                    &&& r is Unexpected
                    &&& final(self).pending() == old(self).pending()
                    &&& final(self).cache() == old(self).cache()
                },
            },
    {
        match msg {
            BackendMessage::Id(id, data) => {
                match self.pending.remove(&id) {
                    Some(sink) => {
                        assert(self.pending@.dom() =~= old(self).pending@.dom().remove(id));
                        self.cache.insert(&data);
                        ResponseOutcome::Deliver(sink, data)
                    },
                    None => {
                        assert(self.pending@.dom() =~= old(self).pending@.dom());
                        ResponseOutcome::UnknownId(id)
                    },
                }
            },
            BackendMessage::NoId(_) => ResponseOutcome::Unexpected,
        }
    }

    /// Ends the connection: every waiting caller is dropped, which tells it
    /// that no answer will come.
    pub fn close(&mut self)
        requires
            old(self).wf(),
        ensures
            final(self).wf(),
            final(self).pending() == Map::<u16, S>::empty(),
            final(self).cache() == old(self).cache(),
    {
        self.pending.clear();
    }
}

} // verus!
