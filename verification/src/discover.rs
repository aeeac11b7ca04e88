//! UDP beacon discovery: which interfaces to announce on, their broadcast
//! addresses, and the beacon text.

use vstd::prelude::*;

use crate::text::{decimal, decimal_text};

verus! {

/// The UDP port on which beacons are sent and received.
pub const DISCOVERY_PORT: u16 = 34254;

/// An address of a local network interface, with the parts the beacon
/// logic reads.
#[derive(Debug, Clone, Copy, PartialEq, Eq)]
pub enum InterfaceAddr {
    /// An IPv4 address with its netmask, each as four octets.
    V4 { ip: [u8; 4], netmask: [u8; 4] },
    /// An IPv6 address; beacons are not sent on these.
    V6,
}

/// Whether the IPv4 address lies in the loopback block 127.0.0.0/8.
pub open spec fn is_loopback(ip: [u8; 4]) -> bool {
    ip@[0] == 127
}

/// The IPv4 addresses and netmasks among `ifaces` that are not loopback,
/// in their order.
pub open spec fn ipv4_interfaces(ifaces: Seq<InterfaceAddr>) -> Seq<([u8; 4], [u8; 4])>
    decreases ifaces.len(),
{
    if ifaces.len() == 0 {
        Seq::empty()
    } else {
        let prev = ipv4_interfaces(ifaces.drop_last());
        match ifaces.last() {
            InterfaceAddr::V4 { ip, netmask } => if !is_loopback(ip) {
                prev.push((ip, netmask))
            } else {
                prev
            },
            InterfaceAddr::V6 => prev,
        }
    }
}

/// Keeps the IPv4 interfaces that are not loopback, with their netmasks.
pub fn select_ipv4_interfaces(ifaces: &Vec<InterfaceAddr>) -> (r: Vec<([u8; 4], [u8; 4])>)
    ensures
        r@ == ipv4_interfaces(ifaces@),
{
    let mut r: Vec<([u8; 4], [u8; 4])> = Vec::new();
    let mut i: usize = 0;
    while i < ifaces.len()
        invariant
            i <= ifaces@.len(),
            r@ == ipv4_interfaces(ifaces@.take(i as int)),
        decreases ifaces@.len() - i,
    {
        assert(ifaces@.take(i + 1).drop_last() =~= ifaces@.take(i as int));
        match ifaces[i] {
            InterfaceAddr::V4 { ip, netmask } => {
                if ip[0] != 127 {
                    r.push((ip, netmask));
                }
            },
            InterfaceAddr::V6 => {},
        }
        i = i + 1;
    }
    assert(ifaces@.take(ifaces@.len() as int) =~= ifaces@);
    r
}

/// The broadcast address of the network of `ip` under `netmask`: the
/// address with every host bit set.
pub open spec fn broadcast_of(ip: [u8; 4], netmask: [u8; 4]) -> Seq<u8> {
    Seq::new(4, |i: int| ip@[i] | !netmask@[i])
}

/// Computes the broadcast address of the network of `ip` under `netmask`.
pub fn compute_broadcast(ip: [u8; 4], netmask: [u8; 4]) -> (b: [u8; 4])
    ensures
        b@ == broadcast_of(ip, netmask),
{
    let b = [ip[0] | !netmask[0], ip[1] | !netmask[1], ip[2] | !netmask[2], ip[3] | !netmask[3]];
    assert(b@ =~= broadcast_of(ip, netmask));
    b
}

/// The broadcast address lies in the same network as `ip` (it agrees with
/// `ip` wherever the mask is set) and has every host bit set.
pub proof fn lemma_broadcast_network(ip: [u8; 4], netmask: [u8; 4])
    ensures
        forall|i: int|
            0 <= i < 4 ==> #[trigger] (broadcast_of(ip, netmask)[i] & netmask@[i]) == ip@[i]
                & netmask@[i],
        forall|i: int| 0 <= i < 4 ==> #[trigger] (broadcast_of(ip, netmask)[i] | netmask@[i]) == 0xffu8,
{
    assert forall|i: int| 0 <= i < 4 implies #[trigger] (broadcast_of(ip, netmask)[i]
        & netmask@[i]) == ip@[i] & netmask@[i] by {
        let a = ip@[i];
        let m = netmask@[i];
        assert((a | !m) & m == a & m) by (bit_vector);
    }
    assert forall|i: int| 0 <= i < 4 implies #[trigger] (broadcast_of(ip, netmask)[i]
        | netmask@[i]) == 0xffu8 by {
        let a = ip@[i];
        let m = netmask@[i];
        assert((a | !m) | m == 0xffu8) by (bit_vector);
    }
}

/// The dotted-quad text of an IPv4 address, as `Ipv4Addr` displays it.
pub open spec fn ipv4_text_spec(ip: Seq<u8>) -> Seq<char> {
    decimal(ip[0] as nat) + "."@ + decimal(ip[1] as nat) + "."@ + decimal(ip[2] as nat) + "."@
        + decimal(ip[3] as nat)
}

/// Writes an IPv4 address in dotted-quad form.
pub fn ipv4_text(ip: [u8; 4]) -> (s: String)
    ensures
        s@ == ipv4_text_spec(ip@),
{
    let mut s = decimal_text(ip[0] as u64);
    s.append(".");
    s.append(decimal_text(ip[1] as u64).as_str());
    s.append(".");
    s.append(decimal_text(ip[2] as u64).as_str());
    s.append(".");
    s.append(decimal_text(ip[3] as u64).as_str());
    s
}

/// The socket address that beacons for the network of `ip` are sent to:
/// its broadcast address and the discovery port.
pub open spec fn beacon_target_spec(ip: [u8; 4], netmask: [u8; 4]) -> Seq<char> {
    ipv4_text_spec(broadcast_of(ip, netmask)) + ":"@ + decimal(DISCOVERY_PORT as nat)
}

/// Writes the socket address that beacons for the network of `ip` go to.
pub fn beacon_target(ip: [u8; 4], netmask: [u8; 4]) -> (s: String)
    ensures
        s@ == beacon_target_spec(ip, netmask),
{
    let b = compute_broadcast(ip, netmask);
    let mut s = ipv4_text(b);
    s.append(":");
    s.append(decimal_text(DISCOVERY_PORT as u64).as_str());
    s
}

/// The beacon text: node id, host name and state, separated by `|`.
pub open spec fn beacon_spec(node_id: Seq<char>, name: Seq<char>, state: Seq<char>) -> Seq<char> {
    node_id + "|"@ + name + "|"@ + state
}

/// Writes the beacon text that a node broadcasts.
pub fn beacon_message(node_id: &str, name: &str, state: &str) -> (s: String)
    ensures
        s@ == beacon_spec(node_id@, name@, state@),
{
    let mut s = node_id.to_owned();
    s.append("|");
    s.append(name);
    s.append("|");
    s.append(state);
    s
}

/// The state text that beacons carry.
pub open spec fn beacon_state() -> Seq<char> {
    "IDLE"@
}

/// The state text that beacons carry; the beacon loop does not change it.
pub fn beacon_state_text() -> (s: &'static str)
    ensures
        s@ == beacon_state(),
{
    "IDLE"
}

/// The name that a node announces: its host name, or a fixed note when the
/// host name is unknown.
pub open spec fn announced_name(host_name: Option<Seq<char>>) -> Seq<char> {
    match host_name {
        Some(n) => n,
        None => "System Name not found"@,
    }
}

/// Chooses the name that a node announces.
pub fn host_name_or_default(host_name: Option<String>) -> (s: String)
    ensures
        s@ == announced_name(
            match host_name {
                Some(n) => Some(n@),
                None => None,
            },
        ),
{
    match host_name {
        Some(n) => n,
        None => "System Name not found".to_owned(),
    }
}


/// Beacons for an interface go to the text of an address that agrees with
/// the interface's address wherever the netmask is set and has every host
/// bit set, at port 34254.
pub proof fn lemma_beacon_target_is_broadcast(ip: [u8; 4], netmask: [u8; 4])
    ensures
        exists|b: Seq<u8>|
            #![trigger ipv4_text_spec(b)]
            b.len() == 4 && beacon_target_spec(ip, netmask) == ipv4_text_spec(b) + ":34254"@
                && forall|i: int|
                0 <= i < 4 ==> (#[trigger] b[i] & netmask@[i]) == ip@[i] & netmask@[i] && (b[i]
                    | netmask@[i]) == 0xffu8,
{
    let b = broadcast_of(ip, netmask);
    lemma_broadcast_network(ip, netmask);
    assert forall|i: int| 0 <= i < 4 implies (#[trigger] b[i] & netmask@[i]) == ip@[i] & netmask@[i]
        && (b[i] | netmask@[i]) == 0xffu8 by {
        assert((broadcast_of(ip, netmask)[i] & netmask@[i]) == ip@[i] & netmask@[i]);
        assert((broadcast_of(ip, netmask)[i] | netmask@[i]) == 0xffu8);
    }
    reveal_strlit(":");
    reveal_strlit(":34254");
    assert(decimal(3) =~= seq!['3']);
    assert(decimal(34) =~= seq!['3', '4']);
    assert(decimal(342) =~= seq!['3', '4', '2']);
    assert(decimal(3425) =~= seq!['3', '4', '2', '5']);
    assert(decimal(34254) =~= seq!['3', '4', '2', '5', '4']);
    assert(":"@ + decimal(34254) =~= ":34254"@);
    assert(ipv4_text_spec(b) + ":"@ + decimal(34254) =~= ipv4_text_spec(b) + ":34254"@);
}

} // verus!
