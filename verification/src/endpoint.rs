use vstd::prelude::*;

verus! {

/// A network endpoint: an IPv4 address together with a port.
///
/// The library treats an endpoint purely as an identity; connecting to it and
/// sending datagrams to it are the caller's concern.
#[derive(Clone, Copy, PartialEq, Eq, Structural, Debug, Hash)]
pub struct Endpoint {
    pub ip: u32,
    pub port: u16,
}

/// One entry of the leader schedule: the endpoint of the participant that
/// produces the block of time slot `slot`.
#[derive(Clone, Copy, PartialEq, Eq, Structural, Debug)]
pub struct LeaderSlotEntry {
    pub slot: u64,
    pub leader: Endpoint,
}

} // verus!
