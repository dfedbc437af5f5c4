//! Where the LAN transport sends a datagram: the global broadcast address
//! plus each non-loopback IPv4 interface's subnet broadcast, once each.
use vstd::prelude::*;

verus! {

/// 255.255.255.255.
pub const GLOBAL_BROADCAST: u32 = 0xffff_ffff;

/// Largest envelope the LAN transport sends in one datagram.
pub const MAX_DATAGRAM: usize = 60000;

/// One local interface as the OS reports it (IPv4 addresses as `u32`,
/// most significant byte first).
#[derive(Debug, Clone, Copy, PartialEq, Eq, Structural)]
pub struct InterfaceV4 {
    pub is_loopback: bool,
    /// `None` for an interface without an IPv4 address.
    pub ipv4: Option<Ipv4Config>,
}

/// An interface's IPv4 address, netmask and (where the OS gives one)
/// broadcast address.
#[derive(Debug, Clone, Copy, PartialEq, Eq, Structural)]
pub struct Ipv4Config {
    pub ip: u32,
    pub netmask: u32,
    pub broadcast: Option<u32>,
}

/// The broadcast address of an interface: the OS's, else `ip | !netmask`.
pub open spec fn subnet_broadcast(c: Ipv4Config) -> u32 {
    match c.broadcast {
        Some(b) => b,
        None => c.ip | !c.netmask,
    }
}

/// The broadcast address an interface contributes, if any.
pub open spec fn candidate(i: InterfaceV4) -> Option<u32> {
    if i.is_loopback {
        None
    } else {
        match i.ipv4 {
            Some(c) => Some(subnet_broadcast(c)),
            None => None,
        }
    }
}

/// The targets after the first `k` interfaces: the global broadcast, then
/// each interface's candidate not already present, in interface order.
pub open spec fn targets_after(ifaces: Seq<InterfaceV4>, k: nat) -> Seq<u32>
    decreases k,
{
    if k == 0 {
        seq![GLOBAL_BROADCAST]
    } else {
        let prev = targets_after(ifaces, (k - 1) as nat);
        match candidate(ifaces[k - 1]) {
            Some(b) => if prev.contains(b) {
                prev
            } else {
                prev.push(b)
            },
            None => prev,
        }
    }
}

/// The datagram targets for a list of interfaces.
pub open spec fn spec_broadcast_targets(ifaces: Seq<InterfaceV4>) -> Seq<u32> {
    targets_after(ifaces, ifaces.len())
}

fn contains_u32(v: &Vec<u32>, x: u32) -> (r: bool)
    ensures
        r == v@.contains(x),
{
    let mut i: usize = 0;
    while i < v.len()
        invariant
            i <= v@.len(),
            forall|j: int| 0 <= j < i ==> v@[j] != x,
        decreases v@.len() - i,
    {
        if v[i] == x {
            return true;
        }
        i += 1;
    }
    false
}

/// The global broadcast plus each interface's subnet broadcast, without
/// repeats.
pub fn broadcast_targets(ifaces: &[InterfaceV4]) -> (r: Vec<u32>)
    ensures
        r@ == spec_broadcast_targets(ifaces@),
        r@.len() >= 1 && r@[0] == GLOBAL_BROADCAST,
        forall|a: int, b: int| 0 <= a < b < r@.len() ==> r@[a] != r@[b],
{
    let mut targets: Vec<u32> = Vec::new();
    targets.push(GLOBAL_BROADCAST);
    proof {
        assert(targets@ =~= targets_after(ifaces@, 0));
    }
    let mut k: usize = 0;
    while k < ifaces.len()
        invariant
            k <= ifaces@.len(),
            targets@ == targets_after(ifaces@, k as nat),
            targets@.len() >= 1 && targets@[0] == GLOBAL_BROADCAST,
            forall|a: int, b: int| 0 <= a < b < targets@.len() ==> targets@[a] != targets@[b],
        decreases ifaces@.len() - k,
    {
        let iface = ifaces[k];
        if !iface.is_loopback {
            match iface.ipv4 {
                Some(c) => {
                    let b = match c.broadcast {
                        Some(b) => b,
                        None => c.ip | !c.netmask,
                    };
                    if !contains_u32(&targets, b) {
                        targets.push(b);
                    }
                },
                None => {},
            }
        }
        k += 1;
    }
    targets
}

} // verus!
