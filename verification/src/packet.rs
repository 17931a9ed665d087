//! What the capture side says of a packet.
use vstd::prelude::*;

use crate::address::IpAddr;

verus! {

/// The layer 4 protocols that are told apart.
#[derive(Clone, Copy, Debug, PartialEq, Eq, Structural)]
pub enum Protocol {
    /// TCP
    Tcp,
    /// UDP
    Udp,
    /// ICMP
    Icmp,
    /// Anything else; not counted in the share of TCP.
    Other,
}

/// The protocol number of a protocol, 0 where it has no name here.
pub open spec fn protocol_number(protocol: Protocol) -> u8 {
    match protocol {
        Protocol::Tcp => 6,
        Protocol::Udp => 17,
        Protocol::Icmp => 1,
        Protocol::Other => 0,
    }
}

/// The name that goes with a protocol number.
pub open spec fn name_of(number: u8) -> Seq<char> {
    if number == 6 {
        "TCP"@
    } else if number == 17 {
        "UDP"@
    } else if number == 1 {
        "ICMP"@
    } else {
        "OTHER"@
    }
}

impl Protocol {
    /// The protocol number.
    pub fn number(self) -> (n: u8)
        ensures
            n == protocol_number(self),
    {
        match self {
            Protocol::Tcp => 6,
            Protocol::Udp => 17,
            Protocol::Icmp => 1,
            Protocol::Other => 0,
        }
    }
}

/// The name that goes with a protocol number.
pub fn protocol_name(number: u8) -> (name: &'static str)
    ensures
        name@ == name_of(number),
{
    if number == 6 {
        "TCP"
    } else if number == 17 {
        "UDP"
    } else if number == 1 {
        "ICMP"
    } else {
        "OTHER"
    }
}

/// One captured packet.
#[derive(Clone, Copy, Debug, PartialEq, Eq, Structural)]
pub struct PacketMeta {
    /// Who sent it.
    pub src_ip: IpAddr,
    /// The port it is for.
    pub dst_port: u16,
    /// The layer 4 protocol.
    pub protocol: Protocol,
}

} // verus!
