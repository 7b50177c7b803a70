//! The per-connection response cache: one slot per metric, each an
//! `ephemeropt::EphemeralOption` that forgets its value once the time to live
//! has passed.

use crate::proto::{IdBackendMessage, IdFrontendMessage};
use ephemeropt::EphemeralOption;
use std::time::Duration;
use vstd::prelude::*;

verus! {

/// How long, in milliseconds, a cached reading answers requests.
pub const CACHE_DURATION_MS: u64 = 1500;

#[verifier::external_type_specification]
#[verifier::external_body]
#[verifier::reject_recursive_types(T)]
pub struct ExEphemeralOption<T>(EphemeralOption<T>);

/// The value a slot holds, expired or not: empty, or one reading.
pub uninterp spec fn held(o: EphemeralOption<IdBackendMessage>) -> Seq<IdBackendMessage>;

/// The time to live, in milliseconds, that a slot was made with.
pub uninterp spec fn slot_ttl_ms(o: EphemeralOption<IdBackendMessage>) -> nat;

/// Relies on `EphemeralOption::new_empty`: a slot that holds nothing, with the given time to live.
#[verifier::external_body]
fn slot_new(ttl_ms: u64) -> (r: EphemeralOption<IdBackendMessage>)
    ensures
        held(r) == Seq::<IdBackendMessage>::empty(),
        slot_ttl_ms(r) == ttl_ms,
{
    EphemeralOption::new_empty(Duration::from_millis(ttl_ms))
}

/// Relies on `EphemeralOption::get`: the held value while its time to live has
/// not passed, nothing otherwise; the value stays held either way.
#[verifier::external_body]
fn slot_get(o: &EphemeralOption<IdBackendMessage>) -> (r: Option<IdBackendMessage>)
    ensures
        r matches Some(v) ==> held(*o) =~= seq![v],
        held(*o).len() == 0 ==> r is None,
{
    o.get().cloned()
}

/// Relies on `EphemeralOption::insert`: the slot then holds a copy of `v`, with
/// its timer restarted; the time to live is kept.
#[verifier::external_body]
fn slot_put(o: &mut EphemeralOption<IdBackendMessage>, v: &IdBackendMessage)
    ensures
        held(*final(o)) =~= seq![*v],
        slot_ttl_ms(*final(o)) == slot_ttl_ms(*old(o)),
{
    o.insert(v.clone());
}

/// Recent readings of one agent, one slot per metric.
pub struct ResponseCache {
    cpu: EphemeralOption<IdBackendMessage>,
    temp: EphemeralOption<IdBackendMessage>,
    mem: EphemeralOption<IdBackendMessage>,
    disk: EphemeralOption<IdBackendMessage>,
    net_io: EphemeralOption<IdBackendMessage>,
}

impl ResponseCache {
    spec fn raw_slot(&self, key: IdFrontendMessage) -> EphemeralOption<IdBackendMessage> {
        match key {
            IdFrontendMessage::Cpu => self.cpu,
            IdFrontendMessage::Temp => self.temp,
            IdFrontendMessage::Mem => self.mem,
            IdFrontendMessage::Disk => self.disk,
            IdFrontendMessage::NetIO => self.net_io,
        }
    }

    /// What the slot for `key` holds, expired or not.
    pub closed spec fn slot(&self, key: IdFrontendMessage) -> Seq<IdBackendMessage> {
        held(self.raw_slot(key))
    }

    /// Each slot holds at most one reading, of its own metric, and lives
    /// `CACHE_DURATION_MS`.
    pub closed spec fn wf(&self) -> bool {
        forall|k: IdFrontendMessage| #[trigger] self.slot_ok(k)
    }

    spec fn slot_ok(&self, k: IdFrontendMessage) -> bool {
        &&& held(self.raw_slot(k)).len() <= 1
        &&& held(self.raw_slot(k)).len() == 1 ==> held(self.raw_slot(k))[0].spec_kind() == k
        &&& slot_ttl_ms(self.raw_slot(k)) == CACHE_DURATION_MS
    }

    /// A cache with every slot empty.
    pub fn new() -> (r: ResponseCache)
        ensures
            r.wf(),
            forall|k: IdFrontendMessage| #[trigger] r.slot(k).len() == 0,
    {
        let r = ResponseCache {
            cpu: slot_new(CACHE_DURATION_MS),
            temp: slot_new(CACHE_DURATION_MS),
            mem: slot_new(CACHE_DURATION_MS),
            disk: slot_new(CACHE_DURATION_MS),
            net_io: slot_new(CACHE_DURATION_MS),
        };
        assert forall|k: IdFrontendMessage| #[trigger] r.slot_ok(k) by {
            match k {
                IdFrontendMessage::Cpu => {},
                IdFrontendMessage::Temp => {},
                IdFrontendMessage::Mem => {},
                IdFrontendMessage::Disk => {},
                IdFrontendMessage::NetIO => {},
            }
        }
        r
    }

    /// The cached reading for `key`, if one is held and still fresh.
    pub fn get(&self, key: IdFrontendMessage) -> (r: Option<IdBackendMessage>)
        requires
            self.wf(),
        ensures
            r matches Some(v) ==> self.slot(key) == seq![v] && v.spec_kind() == key,
            self.slot(key).len() == 0 ==> r is None,
    {
        let r = match key {
            IdFrontendMessage::Cpu => slot_get(&self.cpu),
            IdFrontendMessage::Temp => slot_get(&self.temp),
            IdFrontendMessage::Mem => slot_get(&self.mem),
            IdFrontendMessage::Disk => slot_get(&self.disk),
            IdFrontendMessage::NetIO => slot_get(&self.net_io),
        };
        proof {
            assert(self.slot_ok(key));
        }
        r
    }

    /// Stores a copy of `val` in the slot of its own metric, restarting that slot's timer.
    pub fn insert(&mut self, val: &IdBackendMessage)
        requires
            old(self).wf(),
        ensures
            final(self).wf(),
            final(self).slot(val.spec_kind()) == seq![*val],
            forall|k: IdFrontendMessage|
                k != val.spec_kind() ==> #[trigger] final(self).slot(k) == old(self).slot(k),
    {
        match val {
            IdBackendMessage::Cpu(_) => slot_put(&mut self.cpu, val),
            IdBackendMessage::Temp(_) => slot_put(&mut self.temp, val),
            IdBackendMessage::Mem(_) => slot_put(&mut self.mem, val),
            IdBackendMessage::Disk(_) => slot_put(&mut self.disk, val),
            IdBackendMessage::NetIO(_) => slot_put(&mut self.net_io, val),
        }
        proof {
            assert forall|k: IdFrontendMessage| #[trigger] self.slot_ok(k) by {
                assert(old(self).slot_ok(k));
            }
        }
    }
}

} // verus!
