use vstd::prelude::*;

verus! {

/// An IPv4 endpoint: address (host-order 32-bit value) and port.
#[derive(Clone, Copy, PartialEq, Eq, Structural, Debug)]
pub struct Endpoint {
    pub ip: u32,
    pub port: u16,
}

/// The command-line surface of the tunnel, as plain values. Addresses are
/// endpoints; the shared secret is its bytes.
#[derive(Clone)]
pub struct Cli {
    pub server: bool,
    pub silent: bool,
    pub recv_queue: u16,
    pub recv_queue_max_len: u32,
    pub timeout: u128,
    pub queue: u16,
    pub queue_max_len: u32,
    pub ports: Option<Vec<u16>>,
    pub fwmark: u32,
    pub table: u32,
    pub interfaces: Vec<String>,
    pub fragments: u8,
    pub fragment_threshold: u8,
    pub snat: Option<Endpoint>,
    pub ttl: u128,
    pub remote: Option<Endpoint>,
    pub secret: Option<Vec<u8>>,
}

/// What the status display needs from the command line.
pub struct StatusConfiguration {
    pub server: bool,
    pub interfaces: Vec<String>,
}

impl core::convert::From<Cli> for StatusConfiguration {
    fn from(cli: Cli) -> (r: Self) {
        StatusConfiguration { server: cli.server, interfaces: cli.interfaces }
    }
}

impl vstd::std_specs::convert::FromSpecImpl<Cli> for StatusConfiguration {
    open spec fn obeys_from_spec() -> bool {
        true
    }

    open spec fn from_spec(cli: Cli) -> Self {
        StatusConfiguration { server: cli.server, interfaces: cli.interfaces }
    }
}

/// The status display's own view of the configuration.
pub struct Status {
    pub server: bool,
    pub interfaces: Vec<String>,
}

impl core::convert::From<Cli> for Status {
    fn from(cli: Cli) -> (r: Self) {
        Status { server: cli.server, interfaces: cli.interfaces }
    }
}

impl vstd::std_specs::convert::FromSpecImpl<Cli> for Status {
    open spec fn obeys_from_spec() -> bool {
        true
    }

    open spec fn from_spec(cli: Cli) -> Self {
        Status { server: cli.server, interfaces: cli.interfaces }
    }
}

/// Counters shared between the sender, the receiver and the status display.
///
/// `recv_dropped` counts undersized or non-UDP packets and timeout-triggered
/// sequence skips; `recv_out_of_order` counts arrivals whose sequence lies
/// behind the emission cursor.
pub struct Stats {
    pub send_ready: bool,
    pub send_total: u64,
    pub send_current: u64,
    pub send_bytes: u64,
    pub recv_ready: bool,
    pub recv_total: u64,
    pub recv_dropped: u64,
    pub recv_current: u64,
    pub recv_bytes: u64,
    pub recv_out_of_order: u64,
    pub whitelisted: Vec<u32>,
}

impl Stats {
    /// Fresh counters: everything zero, nothing ready, nobody whitelisted.
    pub fn new() -> (r: Self)
        ensures
            !r.send_ready && !r.recv_ready,
            r.send_total == 0 && r.send_current == 0 && r.send_bytes == 0,
            r.recv_total == 0 && r.recv_dropped == 0 && r.recv_current == 0,
            r.recv_bytes == 0 && r.recv_out_of_order == 0,
            r.whitelisted@ =~= Seq::<u32>::empty(),
    {
        Stats {
            send_ready: false,
            send_total: 0,
            send_current: 0,
            send_bytes: 0,
            recv_ready: false,
            recv_total: 0,
            recv_dropped: 0,
            recv_current: 0,
            recv_bytes: 0,
            recv_out_of_order: 0,
            whitelisted: Vec::new(),
        }
    }
}

/// One egress interface: its name, its IPv4 address and its send counters.
/// The raw socket bound to the interface lives with the I/O layer.
pub struct Interface {
    pub name: String,
    pub ip: u32,
    pub send_packets: u64,
    pub send_bytes: u64,
    pub send_last_bytes: u64,
}

impl Interface {
    pub fn new(name: String, ip: u32) -> (r: Self)
        ensures
            r.name == name,
            r.ip == ip,
            r.send_packets == 0 && r.send_bytes == 0 && r.send_last_bytes == 0,
    {
        Interface { name, ip, send_packets: 0, send_bytes: 0, send_last_bytes: 0 }
    }
}

} // verus!
