//! The agent's rules: how it greets the hub, how it answers each request, and
//! how raw operating-system readings become reports.

use crate::proto::{
    BackendMessage, DiskInfo, FrontendMessage, Handshake, IdBackendMessage, IdFrontendMessage,
    NetworkResponse, NoIdBackendMessage, NoIdFrontendMessage, SignalAction, UsageData,
    PROTOCOL_VERSION,
};
use std::path::Path;
use vstd::prelude::*;

verus! {

/// The sensor label the temperature report prefers.
pub const PREFERRED_SENSOR: &'static str = "coretemp Package";

/// `pat` occurs somewhere in `s`.
pub open spec fn spec_contains(s: Seq<char>, pat: Seq<char>) -> bool {
    exists|i: int| 0 <= i && i + pat.len() <= s.len() && #[trigger] s.subrange(i, i + pat.len()) == pat
}

/// Relies on `str::contains` with a string pattern: whether `pat` occurs in `s`.
#[verifier::external_body]
fn str_contains(s: &str, pat: &str) -> (r: bool)
    ensures
        r == spec_contains(s@, pat@),
{
    s.contains(pat)
}

/// Whether two path strings name the same path, as `std::path::Path` compares them.
pub uninterp spec fn same_path(a: Seq<char>, b: Seq<char>) -> bool;

/// Relies on `==` of `std::path::Path`: paths compare by their components.
#[verifier::external_body]
fn paths_equal(a: &str, b: &str) -> (r: bool)
    ensures
        r == same_path(a@, b@),
{
    Path::new(a) == Path::new(b)
}

/// The message an agent opens its connection with.
pub fn handshake_message(nickname: String) -> (r: BackendMessage)
    ensures
        r == BackendMessage::NoId(
            NoIdBackendMessage::Handshake(Handshake { nickname, version: PROTOCOL_VERSION }),
        ),
{
    BackendMessage::NoId(
        NoIdBackendMessage::Handshake(Handshake { nickname, version: PROTOCOL_VERSION }),
    )
}

/// What the agent does with a message from the hub.
pub enum AgentTask {
    /// Take the reading `kind` and answer under `id`.
    Sample(u16, IdFrontendMessage),
    /// Pass the bytes to the terminal.
    Terminal(Vec<u8>),
    /// Deliver a signal to a process.
    Signal(SignalAction),
}

/// Sorts a message from the hub into the work it asks for.
pub fn classify(msg: FrontendMessage) -> (r: AgentTask)
    ensures
        match msg {
            FrontendMessage::Id(id, kind) => r == AgentTask::Sample(id, kind),
            FrontendMessage::NoId(NoIdFrontendMessage::Terminal(b)) => r == AgentTask::Terminal(b),
            FrontendMessage::NoId(NoIdFrontendMessage::Signal(s)) => r == AgentTask::Signal(s),
        },
{
    match msg {
        FrontendMessage::Id(id, kind) => AgentTask::Sample(id, kind),
        FrontendMessage::NoId(NoIdFrontendMessage::Terminal(b)) => AgentTask::Terminal(b),
        FrontendMessage::NoId(NoIdFrontendMessage::Signal(s)) => AgentTask::Signal(s),
    }
}

/// The answer to request `id` for `kind`: the reading under the same id, if
/// the reading is of the kind asked for.
pub fn reply(id: u16, kind: IdFrontendMessage, reading: IdBackendMessage) -> (r: Option<BackendMessage>)
    ensures
        reading.spec_kind() == kind ==> r == Some(BackendMessage::Id(id, reading)),
        reading.spec_kind() != kind ==> r is None,
{
    if reading.kind() == kind {
        Some(BackendMessage::Id(id, reading))
    } else {
        None
    }
}

/// Picks the temperature sensor to report among sensors with these labels:
/// the first whose label contains `PREFERRED_SENSOR`, else the first sensor,
/// and none when there is no sensor.
pub fn pick_sensor(labels: &Vec<String>) -> (r: Option<usize>)
    ensures
        labels@.len() == 0 ==> r is None,
        r matches Some(i) ==> i < labels@.len(),
        (exists|i: int| 0 <= i < labels@.len() && spec_contains(#[trigger] labels@[i]@, PREFERRED_SENSOR@))
            ==> (r matches Some(i) && spec_contains(labels@[i as int]@, PREFERRED_SENSOR@)
            && forall|j: int| 0 <= j < i ==> !spec_contains(#[trigger] labels@[j]@, PREFERRED_SENSOR@)),
        labels@.len() > 0 && !(exists|i: int| 0 <= i < labels@.len() && spec_contains(#[trigger] labels@[i]@, PREFERRED_SENSOR@))
            ==> r == Some(0usize),
{
    let mut i: usize = 0;
    while i < labels.len()
        invariant
            i <= labels@.len(),
            forall|j: int| 0 <= j < i ==> !spec_contains(#[trigger] labels@[j]@, PREFERRED_SENSOR@),
        decreases labels@.len() - i,
    {
        if str_contains(labels[i].as_str(), PREFERRED_SENSOR) {
            return Some(i);
        }
        i = i + 1;
    }
    if labels.len() > 0 {
        Some(0)
    } else {
        None
    }
}

/// Some allowed path names the same path as `mount`.
pub open spec fn mount_allowed(mount: Seq<char>, allowed: Seq<String>) -> bool {
    exists|j: int| 0 <= j < allowed.len() && same_path(#[trigger] allowed[j]@, mount)
}

/// Whether `mount` is one of the `allowed` paths.
pub fn is_allowed(mount: &str, allowed: &Vec<String>) -> (r: bool)
    ensures
        r == mount_allowed(mount@, allowed@),
{
    let mut j: usize = 0;
    while j < allowed.len()
        invariant
            j <= allowed@.len(),
            forall|k: int| 0 <= k < j ==> !same_path(#[trigger] allowed@[k]@, mount@),
        decreases allowed@.len() - j,
    {
        if paths_equal(allowed[j].as_str(), mount) {
            return true;
        }
        j = j + 1;
    }
    false
}

/// The positions, in order, of the mounts that are in the allow-list.
pub fn select_disks(mounts: &Vec<String>, allowed: &Vec<String>) -> (r: Vec<usize>)
    ensures
        forall|k: int| 0 <= k < r@.len() ==> #[trigger] r@[k] < mounts@.len() && mount_allowed(
            mounts@[r@[k] as int]@,
            allowed@,
        ),
        forall|k: int, l: int| 0 <= k < l < r@.len() ==> r@[k] < r@[l],
        forall|i: int|
            0 <= i < mounts@.len() && mount_allowed(#[trigger] mounts@[i]@, allowed@) ==> r@.contains(
                i as usize,
            ),
{
    let mut r: Vec<usize> = Vec::new();
    let mut i: usize = 0;
    while i < mounts.len()
        invariant
            i <= mounts@.len(),
            forall|k: int| 0 <= k < r@.len() ==> #[trigger] r@[k] < i && mount_allowed(
                mounts@[r@[k] as int]@,
                allowed@,
            ),
            forall|k: int, l: int| 0 <= k < l < r@.len() ==> r@[k] < r@[l],
            forall|m: int|
                0 <= m < i && mount_allowed(#[trigger] mounts@[m]@, allowed@) ==> r@.contains(
                    m as usize,
                ),
        decreases mounts@.len() - i,
    {
        if is_allowed(mounts[i].as_str(), allowed) {
            let ghost before = r@;
            r.push(i);
            proof {
                assert forall|m: int|
                    0 <= m < i + 1 && mount_allowed(#[trigger] mounts@[m]@, allowed@) implies r@.contains(
                    m as usize,
                ) by {
                    if m < i {
                        let k = choose|k: int| 0 <= k < before.len() && before[k] == m as usize;
                        assert(r@[k] == m as usize);
                    } else {
                        assert(r@[before.len() as int] == m as usize);
                    }
                }
            }
        }
        i = i + 1;
    }
    r
}

/// A disk's usage from its total and available space: used is what is not
/// available (none, should the system report more available than total).
pub fn disk_info(name: String, mnt_point: String, total: u64, available: u64) -> (r: DiskInfo)
    ensures
        r.name == name,
        r.mnt_point == mnt_point,
        r.usage.total == total,
        available <= total ==> r.usage.used == total - available,
        available > total ==> r.usage.used == 0,
{
    let used = if available <= total {
        total - available
    } else {
        0
    };
    DiskInfo { name, mnt_point, usage: UsageData { used, total } }
}

/// Sum of a sequence of counters.
pub open spec fn total(s: Seq<u64>) -> int
    decreases s.len(),
{
    if s.len() == 0 {
        0
    } else {
        total(s.drop_last()) + s.last()
    }
}

/// `v` capped at the largest `u64`.
pub open spec fn capped(v: int) -> int {
    if v > u64::MAX {
        u64::MAX as int
    } else {
        v
    }
}

/// Sums per-interface counters; a sum beyond `u64` stays at its maximum.
pub fn sum_counters(counters: &Vec<u64>) -> (r: u64)
    ensures
        r == capped(total(counters@)),
{
    let mut acc: u64 = 0;
    let mut i: usize = 0;
    while i < counters.len()
        invariant
            i <= counters@.len(),
            acc == capped(total(counters@.subrange(0, i as int))),
            total(counters@.subrange(0, i as int)) >= 0,
        decreases counters@.len() - i,
    {
        let ghost prefix = counters@.subrange(0, i as int);
        let ghost next = counters@.subrange(0, i + 1);
        assert(next.drop_last() == prefix);
        assert(next.last() == counters@[i as int]);
        acc = acc.saturating_add(counters[i]);
        i = i + 1;
    }
    assert(counters@.subrange(0, counters@.len() as int) == counters@);
    acc
}

/// The network report: bytes sent and received summed over all interfaces,
/// each pair given as (received, transmitted).
pub fn network_report(received: &Vec<u64>, transmitted: &Vec<u64>) -> (r: NetworkResponse)
    ensures
        r.recv == capped(total(received@)),
        r.sent == capped(total(transmitted@)),
{
    NetworkResponse { sent: sum_counters(transmitted), recv: sum_counters(received) }
}

} // verus!
