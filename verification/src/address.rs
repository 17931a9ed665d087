//! Source addresses, and the index that numbers them in the order in which
//! they are first seen.
use std::collections::HashMap;
use vstd::prelude::*;

verus! {

broadcast use vstd::std_specs::hash::group_hash_axioms;

/// An IP address. An IPv4 address and the IPv6 address that embeds it are
/// different addresses.
#[derive(Clone, Copy, Debug, PartialEq, Eq, Structural)]
pub enum IpAddr {
    /// An IPv4 address, its first octet the most significant.
    V4(u32),
    /// An IPv6 address, its first octet the most significant.
    V6(u128),
}

impl IpAddr {
    /// The IPv4 address `a.b.c.d`.
    pub fn from_octets(a: u8, b: u8, c: u8, d: u8) -> (ip: IpAddr)
        ensures
            ip == IpAddr::V4((a * 0x100_0000 + b * 0x1_0000 + c * 0x100 + d) as u32),
    {
        IpAddr::V4(a as u32 * 0x100_0000 + b as u32 * 0x1_0000 + c as u32 * 0x100 + d as u32)
    }

    /// The number whose sixteen octets stand for the address on the wire: an
    /// IPv4 address is embedded as `::ffff:a.b.c.d`.
    pub open spec fn embedded(self) -> nat {
        match self {
            IpAddr::V4(v) => 0xFFFF_0000_0000 + v as nat,
            IpAddr::V6(v) => v as nat,
        }
    }

    /// The number whose sixteen octets stand for the address on the wire.
    pub fn to_embedded(self) -> (n: u128)
        ensures
            n == self.embedded(),
    {
        match self {
            IpAddr::V4(v) => 0xFFFF_0000_0000 + v as u128,
            IpAddr::V6(v) => v,
        }
    }
}

/// Numbers addresses 0, 1, 2 and so on, in the order of their first mention.
#[derive(Debug)]
pub struct AddressIndex {
    v4: HashMap<u32, usize>,
    v6: HashMap<u128, usize>,
    addresses: Vec<IpAddr>,
}

impl View for AddressIndex {
    type V = Seq<IpAddr>;

    /// The addresses by number.
    closed spec fn view(&self) -> Seq<IpAddr> {
        self.addresses@
    }
}

impl AddressIndex {
    /// The two maps lead from each known address to its number, and from
    /// nothing else to anywhere.
    pub closed spec fn wf(&self) -> bool {
        &&& forall|k: u32| #[trigger]
            self.v4@.contains_key(k) ==> self.v4@[k] < self.addresses@.len()
                && self.addresses@[self.v4@[k] as int] == IpAddr::V4(k)
        &&& forall|k: u128| #[trigger]
            self.v6@.contains_key(k) ==> self.v6@[k] < self.addresses@.len()
                && self.addresses@[self.v6@[k] as int] == IpAddr::V6(k)
        &&& forall|i: int|
            0 <= i < self.addresses@.len() ==> match #[trigger] self.addresses@[i] {
                IpAddr::V4(k) => self.v4@.contains_key(k) && self.v4@[k] == i,
                IpAddr::V6(k) => self.v6@.contains_key(k) && self.v6@[k] == i,
            }
    }

    /// An address has one number.
    pub proof fn lemma_no_duplicates(&self)
        requires
            self.wf(),
        ensures
            self@.no_duplicates(),
    {
        assert forall|i: int, j: int|
            0 <= i < self@.len() && 0 <= j < self@.len() && i != j implies self@[i] != self@[j] by {
            match self.addresses@[i] {
                IpAddr::V4(k) => {},
                IpAddr::V6(k) => {},
            }
        }
    }

    /// An index that knows no address.
    pub fn new() -> (index: AddressIndex)
        ensures
            index.wf(),
            index@ == Seq::<IpAddr>::empty(),
    {
        AddressIndex { v4: HashMap::new(), v6: HashMap::new(), addresses: Vec::new() }
    }

    /// How many addresses are known.
    pub fn len(&self) -> (n: usize)
        ensures
            n == self@.len(),
    {
        self.addresses.len()
    }

    /// The address with the given number.
    pub fn address(&self, number: usize) -> (ip: IpAddr)
        requires
            number < self@.len(),
        ensures
            ip == self@[number as int],
    {
        self.addresses[number]
    }

    /// The number of an address, if it is known.
    pub fn find(&self, ip: IpAddr) -> (number: Option<usize>)
        requires
            self.wf(),
        ensures
            match number {
                Some(i) => i < self@.len() && self@[i as int] == ip,
                None => !self@.contains(ip),
            },
    {
        let found = match ip {
            IpAddr::V4(k) => self.v4.get(&k),
            IpAddr::V6(k) => self.v6.get(&k),
        };
        match found {
            Some(i) => Some(*i),
            None => None,
        }
    }

    /// The number of an address, which is the next free one if the address is
    /// new.
    pub fn intern(&mut self, ip: IpAddr) -> (number: usize)
        requires
            old(self).wf(),
        ensures
            final(self).wf(),
            number < final(self)@.len(),
            final(self)@[number as int] == ip,
            final(self)@ == if old(self)@.contains(ip) {
                old(self)@
            } else {
                old(self)@.push(ip)
            },
    {
        if let Some(i) = self.find(ip) {
            return i;
        }
        let number: usize = self.addresses.len();
        match ip {
            IpAddr::V4(k) => {
                self.v4.insert(k, number);
            },
            IpAddr::V6(k) => {
                self.v6.insert(k, number);
            },
        }
        self.addresses.push(ip);
        number
    }

    /// Forgets every address.
    pub fn clear(&mut self)
        ensures
            final(self).wf(),
            final(self)@ == Seq::<IpAddr>::empty(),
    {
        self.v4.clear();
        self.v6.clear();
        self.addresses.clear();
    }
}

} // verus!
