//! The messages exchanged between hub and agent, one per frame payload.
//!
//! Readings that are percentages or temperatures are carried as hundredths
//! (`3750` is 37.50), which is the two-decimal rounding the agent applies.

use vstd::prelude::*;

verus! {

/// The version both ends must agree on exactly.
pub const PROTOCOL_VERSION: u32 = 1;

/// The first message an agent sends.
#[derive(Debug, Clone)]
pub struct Handshake {
    pub nickname: String,
    pub version: u32,
}

/// CPU load in hundredths of a percent, overall and per core.
#[derive(Debug, Clone)]
pub struct CpuResponse {
    pub global_cpu: u32,
    pub cpus: Vec<u32>,
}

/// The chosen sensor's temperature in hundredths of a degree Celsius, if any sensor exists.
#[derive(Debug, Clone)]
pub struct TempResponse {
    pub temp: Option<i32>,
}

/// Used and total bytes of one resource.
#[derive(Debug, Clone, Copy, PartialEq, Eq, Structural)]
pub struct UsageData {
    pub used: u64,
    pub total: u64,
}

/// Memory and swap usage.
#[derive(Debug, Clone, Copy, PartialEq, Eq, Structural)]
pub struct MemResponse {
    pub ram: UsageData,
    pub swap: UsageData,
}

/// One reported disk.
#[derive(Debug, Clone)]
pub struct DiskInfo {
    pub name: String,
    pub mnt_point: String,
    pub usage: UsageData,
}

/// The disks whose mount points the agent is configured to report.
#[derive(Debug, Clone)]
pub struct DiskResponse {
    pub disks: Vec<DiskInfo>,
}

/// Bytes sent and received, summed over all interfaces.
#[derive(Debug, Clone, Copy, PartialEq, Eq, Structural)]
pub struct NetworkResponse {
    pub sent: u64,
    pub recv: u64,
}

/// A reading, answering the request with the same correlation id.
#[derive(Debug, Clone)]
pub enum IdBackendMessage {
    Cpu(CpuResponse),
    Temp(TempResponse),
    Mem(MemResponse),
    Disk(DiskResponse),
    NetIO(NetworkResponse),
}

/// An agent message that answers no request.
#[derive(Debug, Clone)]
pub enum NoIdBackendMessage {
    Handshake(Handshake),
}

/// Everything an agent sends to the hub.
#[derive(Debug, Clone)]
pub enum BackendMessage {
    NoId(NoIdBackendMessage),
    Id(u16, IdBackendMessage),
}

/// The metric a request asks for; it also names the cache slot of its answer.
#[derive(Debug, Clone, Copy, PartialEq, Eq, Structural)]
pub enum IdFrontendMessage {
    Cpu,
    Temp,
    Mem,
    Disk,
    NetIO,
}

/// A signal the hub may ask an agent to deliver to a process.
#[derive(Debug, Clone, Copy, PartialEq, Eq, Structural)]
pub enum Signal {
    Term,
    Pause,
    Resume,
    Kill,
}

/// A process and the signal meant for it.
#[derive(Debug, Clone, Copy, PartialEq, Eq, Structural)]
pub struct SignalAction {
    pub pid: u32,
    pub signal: Signal,
}

/// A hub message that expects no answer.
#[derive(Debug, Clone)]
pub enum NoIdFrontendMessage {
    Terminal(Vec<u8>),
    Signal(SignalAction),
}

/// Everything the hub sends to an agent.
#[derive(Debug, Clone)]
pub enum FrontendMessage {
    Id(u16, IdFrontendMessage),
    NoId(NoIdFrontendMessage),
}

impl IdBackendMessage {
    /// The request that this reading answers.
    pub open spec fn spec_kind(&self) -> IdFrontendMessage {
        match self {
            IdBackendMessage::Cpu(_) => IdFrontendMessage::Cpu,
            IdBackendMessage::Temp(_) => IdFrontendMessage::Temp,
            IdBackendMessage::Mem(_) => IdFrontendMessage::Mem,
            IdBackendMessage::Disk(_) => IdFrontendMessage::Disk,
            IdBackendMessage::NetIO(_) => IdFrontendMessage::NetIO,
        }
    }

    /// The request that this reading answers.
    #[verifier::when_used_as_spec(spec_kind)]
    pub fn kind(&self) -> (r: IdFrontendMessage)
        ensures
            r == self.spec_kind(),
    {
        match self {
            IdBackendMessage::Cpu(_) => IdFrontendMessage::Cpu,
            IdBackendMessage::Temp(_) => IdFrontendMessage::Temp,
            IdBackendMessage::Mem(_) => IdFrontendMessage::Mem,
            IdBackendMessage::Disk(_) => IdFrontendMessage::Disk,
            IdBackendMessage::NetIO(_) => IdFrontendMessage::NetIO,
        }
    }
}

} // verus!
