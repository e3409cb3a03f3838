//! The messages between the packet engine and its consumer.

use vstd::prelude::*;
use crate::host::Host;
use crate::tally::StatsMap;

verus! {

/// What the engine tells its consumer.
pub enum ScannerEvent {
    /// The name of the interface that the engine works on; sent once at start.
    InterfaceName(String),
    /// A scan has begun.
    BeginScan,
    /// The scan that began last has sent all its probes.
    Complete,
    /// A host has answered.
    HostFound(Host),
    /// The traffic of the second that has just ended.
    StatTick(StatsMap),
}

/// What the consumer asks of the engine.
#[derive(Clone, Copy, Debug, PartialEq, Eq, Structural)]
pub enum ScannerInputEvent {
    /// Probe every address of every IPv4 network of the interface.
    StartScanning,
}

} // verus!
