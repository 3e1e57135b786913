//! The operational state of relay targets.

use vstd::prelude::*;

use crate::ip::Ipv4Addr;

verus! {

/// Operational state of a relay target.
#[derive(Clone, Copy, Debug, PartialEq, Eq, Structural)]
pub enum TargetStatus {
    /// Not reachable: the device is absent from the last scan, or the service
    /// of a fixed URL does not respond.
    Offline,
    /// The device is on the network, but its service does not respond yet.
    /// Only devices known by MAC address are ever in this state.
    Starting,
    /// The service responds.
    Online,
}

/// The state of a target, with the address that its MAC address had.
#[derive(Clone, Copy, Debug, PartialEq, Eq, Structural)]
pub struct TargetInfo {
    pub status: TargetStatus,
    /// Only devices known by MAC address have one.
    pub ip: Option<Ipv4Addr>,
}

} // verus!
