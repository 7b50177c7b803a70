//! The registry of connected agents, keyed by peer address, and the choice of
//! agent for an HTTP request.

use vstd::prelude::*;

verus! {

/// A peer's IP address: IPv4 as a 32-bit and IPv6 as a 128-bit big-endian number.
#[derive(Debug, Clone, Copy, PartialEq, Eq, Structural, Hash)]
pub enum PeerAddr {
    V4(u32),
    V6(u128),
}

/// An IPv6 address of the form `::ffff:a.b.c.d` stands for the IPv4 address `a.b.c.d`.
pub open spec fn spec_canonical(a: PeerAddr) -> PeerAddr {
    match a {
        PeerAddr::V4(v) => PeerAddr::V4(v),
        PeerAddr::V6(v) => if v / 0x1_0000_0000 == 0xffff {
            PeerAddr::V4((v % 0x1_0000_0000) as u32)
        } else {
            PeerAddr::V6(v)
        },
    }
}

impl PeerAddr {
    /// The address in its native family: an IPv4-mapped IPv6 address becomes IPv4.
    pub fn canonical(self) -> (r: PeerAddr)
        ensures
            r == spec_canonical(self),
    {
        match self {
            PeerAddr::V4(v) => PeerAddr::V4(v),
            PeerAddr::V6(v) => {
                if v / 0x1_0000_0000 == 0xffff {
                    PeerAddr::V4((v % 0x1_0000_0000) as u32)
                } else {
                    PeerAddr::V6(v)
                }
            },
        }
    }
}

/// One connected agent.
pub struct AgentInfo<H> {
    pub addr: PeerAddr,
    pub nickname: String,
    /// How requests reach the agent's connection.
    pub handle: H,
    /// Which connection registered this entry.
    pub token: u64,
}

/// Why no agent can serve an HTTP request.
#[derive(Debug, Clone, Copy, PartialEq, Eq, Structural)]
pub enum UpstreamError {
    /// No agent is connected.
    NoBackends,
    /// The chosen agent's connection is gone.
    RequestFailed,
}

impl UpstreamError {
    /// The HTTP status that reports this error.
    pub fn status(&self) -> (r: u16)
        ensures
            *self == UpstreamError::NoBackends ==> r == 503,
            *self == UpstreamError::RequestFailed ==> r == 502,
    {
        match self {
            UpstreamError::NoBackends => 503,
            UpstreamError::RequestFailed => 502,
        }
    }
}

/// The agents a page may choose from, and the one this request uses.
pub struct BackendData {
    /// Address and nickname of each agent, in registry order.
    pub backend_list: Vec<(PeerAddr, String)>,
    /// The chosen agent's address.
    pub current_backend: PeerAddr,
    /// The chosen agent's position in the registry.
    pub current_index: usize,
}

/// The connected agents, at most one entry per address.
pub struct AgentRegistry<H> {
    entries: Vec<AgentInfo<H>>,
    next_token: u64,
}

/// Position of the entry for `addr`, if any.
pub open spec fn position_of<H>(entries: Seq<AgentInfo<H>>, addr: PeerAddr) -> int {
    choose|i: int| 0 <= i < entries.len() && entries[i].addr == addr
}

/// Some entry has this address.
pub open spec fn has_addr<H>(entries: Seq<AgentInfo<H>>, addr: PeerAddr) -> bool {
    exists|i: int| 0 <= i < entries.len() && entries[i].addr == addr
}

/// No address appears twice.
pub open spec fn addrs_unique<H>(entries: Seq<AgentInfo<H>>) -> bool {
    forall|i: int, j: int|
        0 <= i < entries.len() && 0 <= j < entries.len() && i != j ==> entries[i].addr
            != entries[j].addr
}

/// The registration token of each address that has an entry.
pub open spec fn tokens_of<H>(entries: Seq<AgentInfo<H>>) -> Map<PeerAddr, u64> {
    Map::new(
        |a: PeerAddr| has_addr(entries, a),
        |a: PeerAddr| entries[position_of(entries, a)].token,
    )
}

/// With unique addresses, the entry for an address is found where it stands.
proof fn lemma_position<H>(es: Seq<AgentInfo<H>>, i: int)
    requires
        addrs_unique(es),
        0 <= i < es.len(),
    ensures
        has_addr(es, es[i].addr),
        position_of(es, es[i].addr) == i,
{
    let a = es[i].addr;
    assert(es[i].addr == a);
    let p = position_of(es, a);
    assert(0 <= p < es.len() && es[p].addr == a);
}

/// Writing the entry for `addr` (in place, or at the end) and keeping the
/// others changes only the token of `addr`.
proof fn lemma_tokens_after_write<H>(old_es: Seq<AgentInfo<H>>, new_es: Seq<AgentInfo<H>>, addr: PeerAddr, token: u64)
    requires
        addrs_unique(old_es),
        addrs_unique(new_es),
        forall|a: PeerAddr| has_addr(new_es, a) <==> (has_addr(old_es, a) || a == addr),
        has_addr(new_es, addr),
        new_es[position_of(new_es, addr)].token == token,
        old_es.len() <= new_es.len(),
        forall|j: int| 0 <= j < old_es.len() && old_es[j].addr != addr ==> new_es[j] == old_es[j],
    ensures
        tokens_of(new_es) == tokens_of(old_es).insert(addr, token),
{
    assert forall|a: PeerAddr| #[trigger] has_addr(new_es, a) && a != addr implies tokens_of(new_es)[a]
        == tokens_of(old_es)[a] by {
        let j = position_of(old_es, a);
        assert(old_es[j].addr == a);
        assert(new_es[j] == old_es[j]);
        lemma_position(new_es, j);
    }
    assert(tokens_of(new_es) =~= tokens_of(old_es).insert(addr, token));
}

/// A change to the registry: a connection registers under a token, or the
/// connection that holds a token ends.
pub enum RegistryEvent {
    Register(PeerAddr, u64),
    Unregister(PeerAddr, u64),
}

/// The registration tokens after one event: a registration replaces any entry
/// for its address; an ending removes the entry only if it holds that token.
pub open spec fn apply_event(m: Map<PeerAddr, u64>, e: RegistryEvent) -> Map<PeerAddr, u64> {
    match e {
        RegistryEvent::Register(a, t) => m.insert(a, t),
        RegistryEvent::Unregister(a, t) => if m.contains_key(a) && m[a] == t {
            m.remove(a)
        } else {
            m
        },
    }
}

/// The registration tokens after a sequence of events, from an empty registry.
pub open spec fn apply_events(events: Seq<RegistryEvent>) -> Map<PeerAddr, u64>
    decreases events.len(),
{
    if events.len() == 0 {
        Map::empty()
    } else {
        apply_event(apply_events(events.drop_last()), events.last())
    }
}

/// `a` registered under `t` at event `i`, has not registered again since,
/// and that connection has not ended.
pub open spec fn live_since(events: Seq<RegistryEvent>, a: PeerAddr, t: u64, i: int) -> bool {
    &&& 0 <= i < events.len()
    &&& events[i] == RegistryEvent::Register(a, t)
    &&& forall|j: int|
        i < j < events.len() ==> !(#[trigger] events[j] matches RegistryEvent::Register(b, _) && b == a)
            && events[j] != RegistryEvent::Unregister(a, t)
}

/// The agent at `a` is connected: its latest connection has not ended.
pub open spec fn connected(events: Seq<RegistryEvent>, a: PeerAddr) -> bool {
    exists|i: int, t: u64| live_since(events, a, t, i)
}

/// Two witnesses of a live latest registration are the same registration.
proof fn lemma_live_unique(events: Seq<RegistryEvent>, a: PeerAddr, t1: u64, i1: int, t2: u64, i2: int)
    requires
        live_since(events, a, t1, i1),
        live_since(events, a, t2, i2),
    ensures
        i1 == i2,
        t1 == t2,
{
    if i1 < i2 {
        assert(events[i2] matches RegistryEvent::Register(b, _) && b == a);
    } else if i2 < i1 {
        assert(events[i1] matches RegistryEvent::Register(b, _) && b == a);
    }
}

/// Registry lifecycle: after any sequence of connections and disconnections,
/// starting empty, the registry holds exactly the connected agents, each under
/// the token of its latest connection.
pub proof fn lemma_registry_lifecycle(events: Seq<RegistryEvent>)
    ensures
        forall|a: PeerAddr| #[trigger] apply_events(events).contains_key(a) <==> connected(events, a),
        forall|a: PeerAddr|
            #[trigger] apply_events(events).contains_key(a) ==> exists|i: int|
                live_since(events, a, apply_events(events)[a], i),
    decreases events.len(),
{
    if events.len() > 0 {
        let prev = events.drop_last();
        let n = events.len() - 1;
        lemma_registry_lifecycle(prev);
        let m = apply_events(prev);
        let e = events.last();
        assert(events[n] == e);
        assert forall|a: PeerAddr, t: u64, i: int| i < n && live_since(events, a, t, i) implies
            #[trigger] live_since(prev, a, t, i) by {
            assert forall|j: int| i < j < prev.len() implies !(#[trigger] prev[j] matches RegistryEvent::Register(b, _) && b == a)
                && prev[j] != RegistryEvent::Unregister(a, t) by {
                assert(prev[j] == events[j]);
            }
        }
        assert forall|a: PeerAddr, t: u64, i: int| #[trigger] live_since(prev, a, t, i) && !(e matches RegistryEvent::Register(b, _) && b == a)
            && e != RegistryEvent::Unregister(a, t) implies live_since(events, a, t, i) by {
            assert forall|j: int| i < j < events.len() implies !(#[trigger] events[j] matches RegistryEvent::Register(b, _) && b == a)
                && events[j] != RegistryEvent::Unregister(a, t) by {
                if j < n {
                    assert(prev[j] == events[j]);
                }
            }
        }
        assert forall|a: PeerAddr| #[trigger] apply_events(events).contains_key(a) <==> connected(events, a) by {
            match e {
                RegistryEvent::Register(b, t) => {
                    if a == b {
                        assert(live_since(events, a, t, n));
                    } else {
                        if connected(events, a) {
                            let (i, t2) = choose|i: int, t2: u64| live_since(events, a, t2, i);
                            assert(i != n);
                            assert(live_since(prev, a, t2, i));
                        }
                        if connected(prev, a) {
                            let (i, t2) = choose|i: int, t2: u64| live_since(prev, a, t2, i);
                            assert(live_since(events, a, t2, i));
                        }
                    }
                },
                RegistryEvent::Unregister(b, t) => {
                    if connected(events, a) {
                        let (i, t2) = choose|i: int, t2: u64| live_since(events, a, t2, i);
                        assert(i != n);
                        assert(live_since(prev, a, t2, i));
                        assert(m.contains_key(a));
                        let i0 = choose|i0: int| live_since(prev, a, m[a], i0);
                        lemma_live_unique(prev, a, t2, i, m[a], i0);
                        if a == b {
                            assert(events[n] != RegistryEvent::Unregister(a, t2));
                        }
                    }
                    if apply_events(events).contains_key(a) {
                        assert(m.contains_key(a));
                        let i0 = choose|i0: int| live_since(prev, a, m[a], i0);
                        assert(live_since(events, a, m[a], i0));
                    }
                },
            }
        }
        assert forall|a: PeerAddr| #[trigger] apply_events(events).contains_key(a) implies exists|i: int|
            live_since(events, a, apply_events(events)[a], i) by {
            assert(apply_events(events) == apply_event(m, e));
            match e {
                RegistryEvent::Register(b, t) => {
                    if a == b {
                        assert(apply_events(events)[a] == t);
                        assert(live_since(events, a, apply_events(events)[a], n));
                    } else {
                        assert(m.contains_key(a));
                        assert(apply_events(events)[a] == m[a]);
                        let i0 = choose|i0: int| live_since(prev, a, m[a], i0);
                        assert(live_since(events, a, apply_events(events)[a], i0));
                    }
                },
                RegistryEvent::Unregister(b, t) => {
                    assert(m.contains_key(a));
                    assert(apply_events(events)[a] == m[a]);
                    assert(e != RegistryEvent::Unregister(a, m[a]));
                    let i0 = choose|i0: int| live_since(prev, a, m[a], i0);
                    assert(live_since(events, a, apply_events(events)[a], i0));
                },
            }
        }
    }
}

impl<H> AgentRegistry<H> {
    /// The entries, in registry order.
    pub closed spec fn entries(&self) -> Seq<AgentInfo<H>> {
        self.entries@
    }

    /// The token the next registration receives.
    pub closed spec fn next_token(&self) -> u64 {
        self.next_token
    }

    /// The set of registered addresses.
    pub open spec fn addrs(&self) -> Set<PeerAddr> {
        Set::new(|a: PeerAddr| has_addr(self.entries(), a))
    }

    /// The registration token of each registered address.
    pub open spec fn tokens(&self) -> Map<PeerAddr, u64> {
        tokens_of(self.entries())
    }

    /// No address has two entries.
    pub open spec fn wf(&self) -> bool {
        addrs_unique(self.entries())
    }

    /// An empty registry.
    pub fn new() -> (r: AgentRegistry<H>)
        ensures
            r.wf(),
            r.entries() == Seq::<AgentInfo<H>>::empty(),
            r.tokens() == apply_events(Seq::<RegistryEvent>::empty()),
    {
        let r = AgentRegistry { entries: Vec::new(), next_token: 0 };
        assert(r.tokens() =~= Map::<PeerAddr, u64>::empty());
        r
    }

    /// Number of registered agents.
    pub fn len(&self) -> (r: usize)
        ensures
            r == self.entries().len(),
    {
        self.entries.len()
    }

    /// The entry at position `i`.
    pub fn get(&self, i: usize) -> (r: &AgentInfo<H>)
        requires
            i < self.entries().len(),
        ensures
            *r == self.entries()[i as int],
    {
        &self.entries[i]
    }

    /// Position of the entry for `addr`.
    pub fn find(&self, addr: PeerAddr) -> (r: Option<usize>)
        requires
            self.wf(),
        ensures
            r matches Some(i) ==> i < self.entries().len() && self.entries()[i as int].addr == addr,
            r is None <==> !has_addr(self.entries(), addr),
    {
        let mut i: usize = 0;
        while i < self.entries.len()
            invariant
                i <= self.entries@.len(),
                forall|j: int| 0 <= j < i ==> self.entries@[j].addr != addr,
            decreases self.entries@.len() - i,
        {
            if self.entries[i].addr == addr {
                return Some(i);
            }
            i = i + 1;
        }
        None
    }

    /// Registers a connection from `addr`, replacing any entry for that address
    /// (the newest connection wins). Returns the token that identifies this
    /// registration when the connection ends.
    pub fn register(&mut self, addr: PeerAddr, nickname: String, handle: H) -> (token: u64)
        requires
            old(self).wf(),
        ensures
            final(self).wf(),
            token == old(self).next_token(),
            final(self).next_token() == old(self).next_token().wrapping_add(1),
            final(self).addrs() == old(self).addrs().insert(addr),
            final(self).tokens() == apply_event(old(self).tokens(), RegistryEvent::Register(addr, token)),
            final(self).entries().len() == old(self).entries().len() + if has_addr(
                old(self).entries(),
                addr,
            ) {
                0int
            } else {
                1int
            },
            ({
                let e = final(self).entries()[position_of(final(self).entries(), addr)];
                &&& has_addr(final(self).entries(), addr)
                &&& e.nickname == nickname
                &&& e.handle == handle
                &&& e.token == token
            }),
            forall|i: int|
                0 <= i < old(self).entries().len() && old(self).entries()[i].addr != addr
                    ==> #[trigger] final(self).entries()[i] == old(self).entries()[i],
    {
        let token = self.next_token;
        self.next_token = self.next_token.wrapping_add(1);
        let info = AgentInfo { addr, nickname, handle, token };
        let ghost old_entries = self.entries@;
        match self.find(addr) {
            Some(i) => {
                self.entries.set(i, info);
                proof {
                    assert(self.entries@ == old_entries.update(i as int, info));
                    assert(self.entries@[i as int].addr == addr);
                    assert(has_addr(self.entries@, addr));
                    let p = position_of(self.entries@, addr);
                    assert(p == i);
                    assert(self.addrs() =~= old(self).addrs().insert(addr)) by {
                        assert forall|a: PeerAddr| has_addr(self.entries@, a) <==> (has_addr(old_entries, a) || a == addr) by {
                            if has_addr(old_entries, a) && a != addr {
                                let j = choose|j: int| 0 <= j < old_entries.len() && old_entries[j].addr == a;
                                assert(self.entries@[j].addr == a);
                            }
                            if has_addr(self.entries@, a) && a != addr {
                                let j = choose|j: int| 0 <= j < self.entries@.len() && self.entries@[j].addr == a;
                                assert(old_entries[j].addr == a);
                            }
                        }
                    }
                    assert forall|j: int| 0 <= j < old_entries.len() && old_entries[j].addr != addr
                        implies self.entries@[j] == old_entries[j] by {}
                    lemma_tokens_after_write(old_entries, self.entries@, addr, token);
                }
            },
            None => {
                self.entries.push(info);
                proof {
                    let n = old_entries.len() as int;
                    assert(self.entries@[n].addr == addr);
                    assert(has_addr(self.entries@, addr));
                    let p = position_of(self.entries@, addr);
                    assert(p == n);
                    assert forall|a: PeerAddr| has_addr(self.entries@, a) <==> (has_addr(old_entries, a) || a == addr) by {
                        if has_addr(old_entries, a) {
                            let j = choose|j: int| 0 <= j < old_entries.len() && old_entries[j].addr == a;
                            assert(self.entries@[j].addr == a);
                        }
                        if has_addr(self.entries@, a) && a != addr {
                            let j = choose|j: int| 0 <= j < self.entries@.len() && self.entries@[j].addr == a;
                            assert(j < n);
                            assert(old_entries[j].addr == a);
                        }
                    }
                    assert forall|j: int| 0 <= j < old_entries.len() && old_entries[j].addr != addr
                        implies self.entries@[j] == old_entries[j] by {}
                    lemma_tokens_after_write(old_entries, self.entries@, addr, token);
                    assert(self.addrs() =~= old(self).addrs().insert(addr));
                }
            },
        }
        token
    }

    /// Removes the entry for `addr` if the registration `token` made it; a
    /// connection that was replaced by a newer one from the same address
    /// leaves the newer entry alone. Returns whether an entry was removed.
    pub fn unregister(&mut self, addr: PeerAddr, token: u64) -> (removed: bool)
        requires
            old(self).wf(),
        ensures
            final(self).wf(),
            final(self).next_token() == old(self).next_token(),
            removed <==> has_addr(old(self).entries(), addr) && old(self).entries()[position_of(
                old(self).entries(),
                addr,
            )].token == token,
            removed ==> final(self).addrs() == old(self).addrs().remove(addr)
                && final(self).entries().len() == old(self).entries().len() - 1,
            !removed ==> final(self).entries() == old(self).entries(),
            final(self).tokens() == apply_event(old(self).tokens(), RegistryEvent::Unregister(addr, token)),
    {
        let ghost old_entries = self.entries@;
        match self.find(addr) {
            Some(i) => {
                proof {
                    assert(position_of(old_entries, addr) == i);
                }
                if self.entries[i].token == token {
                    self.entries.remove(i);
                    proof {
                        assert(self.entries@ == old_entries.remove(i as int));
                        assert forall|x: int, y: int|
                            0 <= x < self.entries@.len() && 0 <= y < self.entries@.len() && x != y
                                implies self.entries@[x].addr != self.entries@[y].addr by {
                            let ox = if x < i { x } else { x + 1 };
                            let oy = if y < i { y } else { y + 1 };
                            assert(self.entries@[x] == old_entries[ox]);
                            assert(self.entries@[y] == old_entries[oy]);
                        }
                        assert(self.addrs() =~= old(self).addrs().remove(addr)) by {
                            assert forall|a: PeerAddr| has_addr(self.entries@, a) <==> (has_addr(old_entries, a) && a != addr) by {
                                if has_addr(old_entries, a) && a != addr {
                                    let j = choose|j: int| 0 <= j < old_entries.len() && old_entries[j].addr == a;
                                    assert(j != i);
                                    let k = if j < i { j } else { j - 1 };
                                    assert(self.entries@[k].addr == a);
                                }
                                if has_addr(self.entries@, a) {
                                    let j = choose|j: int| 0 <= j < self.entries@.len() && self.entries@[j].addr == a;
                                    let oj = if j < i { j } else { j + 1 };
                                    assert(old_entries[oj].addr == a);
                                    assert(oj != i);
                                }
                            }
                        }
                    }
                    true
                } else {
                    false
                }
            },
            None => false,
        }
    }

    /// Address and nickname of every agent, in registry order.
    pub fn backend_list(&self) -> (r: Vec<(PeerAddr, String)>)
        ensures
            r@.len() == self.entries().len(),
            forall|i: int|
                0 <= i < r@.len() ==> #[trigger] r@[i].0 == self.entries()[i].addr && r@[i].1
                    == self.entries()[i].nickname,
    {
        let mut r: Vec<(PeerAddr, String)> = Vec::with_capacity(self.entries.len());
        let mut i: usize = 0;
        while i < self.entries.len()
            invariant
                i <= self.entries@.len(),
                r@.len() == i,
                forall|j: int|
                    0 <= j < i ==> #[trigger] r@[j].0 == self.entries@[j].addr && r@[j].1
                        == self.entries@[j].nickname,
            decreases self.entries@.len() - i,
        {
            let e = &self.entries[i];
            r.push((e.addr, e.nickname.clone()));
            i = i + 1;
        }
        r
    }

    /// Picks the agent for a request: the one named by the `backend` cookie if
    /// it is registered, else the first in registry order.
    pub fn extract_backends(&self, cookie: Option<PeerAddr>) -> (r: Result<BackendData, UpstreamError>)
        requires
            self.wf(),
        ensures
            self.entries().len() == 0 <==> r == Err::<BackendData, UpstreamError>(UpstreamError::NoBackends),
            self.entries().len() > 0 <==> r is Ok,
            r matches Ok(d) ==> {
                &&& d.current_index < self.entries().len()
                &&& d.current_backend == self.entries()[d.current_index as int].addr
                &&& d.backend_list@.len() == self.entries().len()
                &&& forall|i: int|
                    0 <= i < d.backend_list@.len() ==> #[trigger] d.backend_list@[i].0
                        == self.entries()[i].addr && d.backend_list@[i].1
                        == self.entries()[i].nickname
                &&& match cookie {
                    Some(a) => if has_addr(self.entries(), a) {
                        d.current_backend == a
                    } else {
                        d.current_index == 0
                    },
                    None => d.current_index == 0,
                }
            },
    {
        if self.entries.len() == 0 {
            return Err(UpstreamError::NoBackends);
        }
        let backend_list = self.backend_list();
        let chosen = match cookie {
            Some(a) => match self.find(a) {
                Some(i) => i,
                None => 0,
            },
            None => 0,
        };
        Ok(BackendData {
            backend_list,
            current_backend: self.entries[chosen].addr,
            current_index: chosen,
        })
    }
}

/// The registry holds one entry per registered address: its size is the number
/// of distinct addresses with a live registration.
pub proof fn lemma_size_is_address_count<H>(reg: AgentRegistry<H>)
    requires
        reg.wf(),
    ensures
        reg.addrs().finite(),
        reg.entries().len() == reg.addrs().len(),
{
    let es = reg.entries();
    let s = es.map_values(|e: AgentInfo<H>| e.addr);
    assert(s.no_duplicates()) by {
        assert forall|i: int, j: int| 0 <= i < s.len() && 0 <= j < s.len() && i != j implies s[i] != s[j] by {
            assert(s[i] == es[i].addr && s[j] == es[j].addr);
        }
    }
    s.unique_seq_to_set();
    assert(s.to_set() =~= reg.addrs()) by {
        assert forall|a: PeerAddr| s.to_set().contains(a) <==> has_addr(es, a) by {
            if s.to_set().contains(a) {
                let i = choose|i: int| 0 <= i < s.len() && s[i] == a;
                assert(es[i].addr == a);
            }
            if has_addr(es, a) {
                let i = choose|i: int| 0 <= i < es.len() && es[i].addr == a;
                assert(s[i] == a);
                assert(s.contains(a));
            }
        }
    }
    s.lemma_cardinality_of_set();
    vstd::seq_lib::seq_to_set_is_finite(s);
}

/// A registry that has seen a sequence of connections and disconnections,
/// starting empty, holds one entry per connected agent.
pub proof fn lemma_size_is_connected_count<H>(reg: AgentRegistry<H>, events: Seq<RegistryEvent>)
    requires
        reg.wf(),
        reg.tokens() == apply_events(events),
    ensures
        reg.entries().len() == Set::new(|a: PeerAddr| connected(events, a)).len(),
{
    lemma_size_is_address_count(reg);
    lemma_registry_lifecycle(events);
    assert(reg.addrs() =~= Set::new(|a: PeerAddr| connected(events, a))) by {
        assert forall|a: PeerAddr| reg.addrs().contains(a) <==> connected(events, a) by {
            assert(reg.addrs().contains(a) <==> reg.tokens().contains_key(a));
            assert(reg.tokens().contains_key(a) <==> apply_events(events).contains_key(a));
        }
    }
}

} // verus!
