//! What can go wrong in the packet engine.

use vstd::prelude::*;

verus! {

/// The kinds of failure of the packet engine.
#[derive(Clone, Copy, Debug, PartialEq, Eq, Structural)]
pub enum ScanError {
    /// No interface is up, running and not a loopback.
    InterfaceUnavailable,
    /// The link-layer channel could not be opened.
    ChannelOpenError,
    /// The channel that was opened carries no Ethernet frames.
    UnsupportedChannelKind,
    /// The interface has no hardware address, so that no probe can name its sender.
    InterfaceMissingMac,
    /// A probe could not be built: the interface has no IPv4 address to send it from.
    ProbeEncodeError,
    /// A frame is too short for the headers that it announces.
    FrameDecodeError,
    /// An event could not be handed to its consumer.
    EventDispatchError,
}

} // verus!
