//! What can be commanded to shut down.

use vstd::prelude::*;

use crate::ip::Ipv4Addr;
use crate::network_scanner::{DeviceInfo, NetworkScanner};

verus! {

/// A target that can be commanded to shut down. Stopping is a sequence of
/// steps: each names the outside work to perform next, or says how the stop
/// ended.
pub trait Stoppable {
    /// What is to be done next.
    type Step;

    /// The step with which a stop at an instant begins.
    spec fn stops_with(
        &self,
        devices: Map<Ipv4Addr, DeviceInfo>,
        now: u64,
        step: Self::Step,
    ) -> bool;

    /// Begins to stop the target; `now` is a reading of a monotonic clock in
    /// nanoseconds.
    fn stop(&self, scanner: &NetworkScanner, now: u64) -> (step: Self::Step)
        ensures
            self.stops_with(scanner.devices(), now, step),
    ;
}

} // verus!
