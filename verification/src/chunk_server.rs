//! What a chunk server works out about itself: its address and where it keeps its chunks.

use vstd::prelude::*;

use crate::file_ops::{join_path, joined};
use crate::model::{chunk_name_of, Chunk};
use crate::urls::join3;

verus! {

/// An address of a network interface: its text, and whether it is an IPv4 address.
#[derive(Debug, PartialEq, Eq)]
pub struct InterfaceAddress {
    pub ip: String,
    pub is_ipv4: bool,
}

/// A network interface of the machine with its addresses.
#[derive(Debug, PartialEq, Eq)]
pub struct NetworkInterface {
    pub name: String,
    pub ips: Vec<InterfaceAddress>,
}

/// The operating system that a chunk server runs on.
#[derive(Clone, Copy, Debug, PartialEq, Eq, Structural)]
pub enum TargetOs {
    Linux,
    MacOs,
}

/// The first position from `from` on at which an interface of the given name stands.
pub open spec fn interface_from(interfaces: Seq<NetworkInterface>, name: Seq<char>, from: int) -> Option<int>
    decreases interfaces.len() - from,
{
    if from < 0 || from >= interfaces.len() {
        None
    } else if interfaces[from].name@ == name {
        Some(from)
    } else {
        interface_from(interfaces, name, from + 1)
    }
}

/// The first position from `from` on at which an IPv4 address stands.
pub open spec fn ipv4_from(ips: Seq<InterfaceAddress>, from: int) -> Option<int>
    decreases ips.len() - from,
{
    if from < 0 || from >= ips.len() {
        None
    } else if ips[from].is_ipv4 {
        Some(from)
    } else {
        ipv4_from(ips, from + 1)
    }
}

/// The first IPv4 address of the first interface of the given name.
pub open spec fn private_ip(interfaces: Seq<NetworkInterface>, name: Seq<char>) -> Option<Seq<char>> {
    match interface_from(interfaces, name, 0) {
        None => None,
        Some(i) => match ipv4_from(interfaces[i].ips@, 0) {
            None => None,
            Some(k) => Some(interfaces[i].ips@[k].ip@),
        },
    }
}

/// The name of the interface by which a chunk server is reached, on each system.
pub open spec fn interface_name(os: TargetOs) -> Seq<char> {
    match os {
        TargetOs::Linux => "eth0"@,
        TargetOs::MacOs => "en0"@,
    }
}

/// What an optional text says.
pub open spec fn text_of(text: Option<String>) -> Option<Seq<char>> {
    match text {
        Some(text) => Some(text@),
        None => None,
    }
}

/// Picks, among the interfaces of the machine, the first IPv4 address of the
/// first interface called `target_name`.
pub fn get_private_ip(target_name: &String, interfaces: &Vec<NetworkInterface>) -> (ip: Option<String>)
    ensures
        text_of(ip) == private_ip(interfaces@, target_name@),
{
    let mut i: usize = 0;
    while i < interfaces.len()
        invariant
            i <= interfaces.len(),
            interface_from(interfaces@, target_name@, 0) == interface_from(
                interfaces@,
                target_name@,
                i as int,
            ),
        decreases interfaces.len() - i,
    {
        let interface = &interfaces[i];
        if interface.name.eq(target_name) {
            let mut k: usize = 0;
            while k < interface.ips.len()
                invariant
                    k <= interface.ips.len(),
                    i < interfaces.len(),
                    *interface == interfaces@[i as int],
                    interface_from(interfaces@, target_name@, 0) == Some(i as int),
                    ipv4_from(interface.ips@, 0) == ipv4_from(interface.ips@, k as int),
                decreases interface.ips.len() - k,
            {
                if interface.ips[k].is_ipv4 {
                    return Some(interface.ips[k].ip.clone());
                }
                k = k + 1;
            }
            return None;
        }
        i = i + 1;
    }
    None
}

/// Picks the address under which other machines reach this chunk server.
pub fn get_ip(os: TargetOs, interfaces: &Vec<NetworkInterface>) -> (ip: Option<String>)
    ensures
        text_of(ip) == private_ip(interfaces@, interface_name(os)),
{
    let name = match os {
        TargetOs::Linux => String::from_str("eth0"),
        TargetOs::MacOs => String::from_str("en0"),
    };
    get_private_ip(&name, interfaces)
}

/// The base address that a chunk server advertises: `http://`, its
/// address and, behind a colon, its port. Without an address of its own it
/// advertises the loopback address.
pub open spec fn server_address_of(ip: Option<Seq<char>>, port: Seq<char>) -> Seq<char> {
    "http://"@ + (match ip {
        Some(ip) => ip,
        None => "127.0.0.1"@,
    }) + ":"@ + port
}

/// Gives the base address that a chunk server advertises.
pub fn server_address(ip: Option<String>, port: &str) -> (address: String)
    ensures
        address@ == server_address_of(text_of(ip), port@),
{
    let mut address = String::from_str("http://");
    match ip {
        Some(ip) => address.append(ip.as_str()),
        None => address.append("127.0.0.1"),
    }
    address.append(":");
    address.append(port);
    address
}

/// Gives the address that a chunk server listens on: host and port with a colon between.
pub fn bind_address(host: &str, port: &str) -> (address: String)
    ensures
        address@ == host@ + ":"@ + port@,
{
    join3(host, ":", port)
}

/// Gives the directory in which a chunk server keeps its chunks: the folder
/// `ccfs-uploads` in the home directory of the user that runs it.
pub fn uploads_dir(home: &str) -> (dir: String)
    ensures
        dir@ == joined(home@, "ccfs-uploads"@),
{
    join_path(home, "ccfs-uploads")
}

/// Gives the path of the file in which a chunk server keeps `chunk`: a
/// file of the chunk's name in the directory `uploads_dir`.
pub fn chunk_path(uploads_dir: &str, chunk: &Chunk) -> (path: String)
    ensures
        path@ == joined(uploads_dir@, chunk_name_of(*chunk)),
{
    join_path(uploads_dir, chunk.chunk_name().as_str())
}

} // verus!
