//! What can be commanded to start.

use vstd::prelude::*;

use crate::ip::Ipv4Addr;
use crate::network_scanner::{DeviceInfo, NetworkScanner};

verus! {

/// A target that can be commanded to start. Starting is a sequence of steps:
/// each names the outside work to perform next, or says how the start ended.
pub trait Startable {
    /// What is to be done next.
    type Step;

    /// The step with which a start begins.
    spec fn starts_with(&self, devices: Map<Ipv4Addr, DeviceInfo>, step: Self::Step) -> bool;

    /// Begins to start the target.
    fn start(&self, scanner: &NetworkScanner) -> (step: Self::Step)
        ensures
            self.starts_with(scanner.devices(), step),
    ;
}

} // verus!
