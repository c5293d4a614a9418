//! The optional transports that this build holds.
use vstd::prelude::*;

verus! {

pub const FEATURE_WIREGUARD: bool = true;

pub const FEATURE_WEBSOCKET: bool = true;

pub const FEATURE_QUIC: bool = true;

pub const FEATURE_KCP: bool = true;

pub const FEATURE_FAKETCP: bool = true;

/// The host platform leaves the inspection of network interfaces to this program.
pub const NATIVE_INTERFACE_INSPECTION: bool = true;

} // verus!
