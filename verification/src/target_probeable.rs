//! What can be asked whether it is ready.

use vstd::prelude::*;

use crate::ip::Ipv4Addr;
use crate::network_scanner::{DeviceInfo, NetworkScanner};

verus! {

/// A target whose readiness can be polled without side effects. A probe is a
/// step that names the outside work to perform, or says what the state is.
pub trait Probeable {
    /// What is to be done.
    type Step;

    /// The step with which a probe begins.
    spec fn probes_with(&self, devices: Map<Ipv4Addr, DeviceInfo>, step: Self::Step) -> bool;

    /// Begins to probe the target.
    fn probe(&self, scanner: &NetworkScanner) -> (step: Self::Step)
        ensures
            self.probes_with(scanner.devices(), step),
    ;
}

} // verus!
