//! Host addresses and the local-subnet classifier.

use vstd::prelude::*;

verus! {

/// The `index`-th byte of an address, the first one being the most
/// significant byte of the number.
pub open spec fn octet(ip: u32, index: int) -> int {
    if index == 0 {
        ip as int / 0x100_0000
    } else if index == 1 {
        (ip as int / 0x1_0000) % 0x100
    } else if index == 2 {
        (ip as int / 0x100) % 0x100
    } else {
        ip as int % 0x100
    }
}

/// An address belongs to the local subnets when it lies in 192.168.0.0/16
/// or in 10.0.0.0/8.
pub open spec fn is_lan(ip: u32) -> bool {
    (octet(ip, 0) == 192 && octet(ip, 1) == 168) || octet(ip, 0) == 10
}

/// The address `a.b.c.d` as a number.
pub fn host_from_octets(a: u8, b: u8, c: u8, d: u8) -> (ip: u32)
    ensures
        octet(ip, 0) == a,
        octet(ip, 1) == b,
        octet(ip, 2) == c,
        octet(ip, 3) == d,
{
    let a32: u32 = a as u32;
    let b32: u32 = b as u32;
    let c32: u32 = c as u32;
    let d32: u32 = d as u32;
    let ip: u32 = a32 * 0x100_0000 + b32 * 0x1_0000 + c32 * 0x100 + d32;
    assert(ip / 0x100_0000 == a32 && (ip / 0x1_0000) % 0x100 == b32 && (ip / 0x100) % 0x100 == c32
        && ip % 0x100 == d32) by (bit_vector)
        requires
            a32 < 0x100,
            b32 < 0x100,
            c32 < 0x100,
            d32 < 0x100,
            ip == a32 * 0x100_0000 + b32 * 0x1_0000 + c32 * 0x100 + d32,
    ;
    ip
}

/// The four bytes of an address, most significant first.
pub fn host_octets(ip: u32) -> (o: [u8; 4])
    ensures
        forall|i: int| 0 <= i < 4 ==> o[i] as int == octet(ip, i),
{
    let a: u8 = (ip / 0x100_0000) as u8;
    let b: u8 = ((ip / 0x1_0000) % 0x100) as u8;
    let c: u8 = ((ip / 0x100) % 0x100) as u8;
    let d: u8 = (ip % 0x100) as u8;
    [a, b, c, d]
}

/// Whether a host is tracked individually: true for the local subnets,
/// 192.168.0.0/16 and 10.0.0.0/8.
pub fn is_lan_ip(ip: u32) -> (lan: bool)
    ensures
        lan == is_lan(ip),
{
    let first: u32 = ip / 0x100_0000;
    let second: u32 = (ip / 0x1_0000) % 0x100;
    (first == 192 && second == 168) || first == 10
}

/// A network interface as the monitor sees it: its name and its addresses
/// in the order the system lists them, `None` standing for an address that
/// is not IPv4.
pub struct Interface {
    /// Name of the device.
    pub name: String,
    /// The addresses; `None` for one that is not IPv4.
    pub ips: Vec<Option<u32>>,
}

/// Index of the first interface called `name`, or the number of interfaces
/// if there is none.
pub open spec fn first_named(interfaces: Seq<Interface>, name: Seq<char>) -> int
    decreases interfaces.len(),
{
    if interfaces.len() == 0 {
        0
    } else if interfaces[0].name@ == name {
        0
    } else {
        1 + first_named(interfaces.skip(1), name)
    }
}

/// The first IPv4 address among `ips`.
pub open spec fn first_ipv4(ips: Seq<Option<u32>>) -> Option<u32>
    decreases ips.len(),
{
    if ips.len() == 0 {
        None
    } else if ips[0] is Some {
        ips[0]
    } else {
        first_ipv4(ips.skip(1))
    }
}

/// The local address of a device: the first IPv4 address of the first
/// interface with its name.
pub open spec fn local_ip_of(interfaces: Seq<Interface>, name: Seq<char>) -> Option<u32> {
    let at = first_named(interfaces, name);
    if at < interfaces.len() {
        first_ipv4(interfaces[at].ips@)
    } else {
        None
    }
}

/// Finds the local address of the device called `device_name`: the first
/// IPv4 address of the first interface with that name, or `None` if there
/// is no such interface or it has no IPv4 address.
pub fn get_local_ip(interfaces: &Vec<Interface>, device_name: &String) -> (ip: Option<u32>)
    ensures
        ip == local_ip_of(interfaces@, device_name@),
{
    let mut i: usize = 0;
    assert(interfaces@.skip(0) =~= interfaces@);
    while i < interfaces.len()
        invariant
            i <= interfaces@.len(),
            first_named(interfaces@, device_name@) == i + first_named(
                interfaces@.skip(i as int),
                device_name@,
            ),
        decreases interfaces@.len() - i,
    {
        let ghost rest = interfaces@.skip(i as int);
        assert(rest[0] == interfaces@[i as int]);
        assert(rest.skip(1) =~= interfaces@.skip(i + 1));
        if interfaces[i].name == *device_name {
            let ips = &interfaces[i].ips;
            let mut j: usize = 0;
            assert(first_named(rest, device_name@) == 0);
            assert(ips@.skip(0) =~= ips@);
            while j < ips.len()
                invariant
                    j <= ips@.len(),
                    i < interfaces@.len(),
                    first_named(interfaces@, device_name@) == i,
                    ips@ == interfaces@[i as int].ips@,
                    first_ipv4(ips@) == first_ipv4(ips@.skip(j as int)),
                decreases ips@.len() - j,
            {
                let ghost tail = ips@.skip(j as int);
                assert(tail[0] == ips@[j as int]);
                assert(tail.skip(1) =~= ips@.skip(j + 1));
                if ips[j].is_some() {
                    return ips[j];
                }
                j = j + 1;
            }
            return None;
        }
        i = i + 1;
    }
    None
}

} // verus!
