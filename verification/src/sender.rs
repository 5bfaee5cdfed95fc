use vstd::prelude::*;

use crate::bytes::{be16, push_range, write_be16};
use crate::packet::{
    dest_ip_spec, ip_header_len_spec, protocol_spec, source_ip_spec, total_length_spec,
    udp_dest_spec, udp_protocol, udp_source_spec, write_ip,
};
use crate::receiver::{frag_count_spec, frag_idx_spec, seq_spec};
use crate::trailer::Payload;
use crate::types::{Endpoint, Interface, Stats};

verus! {

/// Everything the sender needs from the command line.
pub struct SenderConfiguration {
    pub server: bool,
    pub queue: u16,
    pub fwmark: u32,
    pub queue_max_len: u32,
    pub ports: Option<Vec<u16>>,
    pub fragments: u8,
    pub fragment_threshold: u8,
    pub snat: Option<Endpoint>,
    pub ttl: u128,
    pub source_port: Option<u16>,
    pub source_rotate_ms: Option<u128>,
    pub destination: Option<Endpoint>,
}

impl core::convert::From<crate::types::Cli> for SenderConfiguration {
    fn from(cli: crate::types::Cli) -> (r: Self) {
        SenderConfiguration {
            server: cli.server,
            queue: cli.queue,
            fwmark: cli.fwmark,
            queue_max_len: cli.queue_max_len,
            ports: cli.ports,
            fragments: cli.fragments,
            fragment_threshold: cli.fragment_threshold,
            snat: cli.snat,
            ttl: cli.ttl,
            source_port: None,
            source_rotate_ms: None,
            destination: None,
        }
    }
}

impl vstd::std_specs::convert::FromSpecImpl<crate::types::Cli> for SenderConfiguration {
    open spec fn obeys_from_spec() -> bool {
        true
    }

    open spec fn from_spec(cli: crate::types::Cli) -> Self {
        SenderConfiguration {
            server: cli.server,
            queue: cli.queue,
            fwmark: cli.fwmark,
            queue_max_len: cli.queue_max_len,
            ports: cli.ports,
            fragments: cli.fragments,
            fragment_threshold: cli.fragment_threshold,
            snat: cli.snat,
            ttl: cli.ttl,
            source_port: None,
            source_rotate_ms: None,
            destination: None,
        }
    }
}

/// The diversion rules the sender installs: for every intercepted port, one
/// rule in the mangle OUTPUT chain sending not-yet-marked UDP traffic for
/// that port (by destination on the client, by source on the server) to the
/// sender's queue.
pub fn iptables(configuration: &SenderConfiguration) -> (r: Vec<crate::utils::IptablesRule>)
    ensures
        ({
            match configuration.ports {
                None => r@.len() == 0,
                Some(ports) => {
                    &&& r@.len() == ports@.len()
                    &&& forall|k: int|
                        0 <= k < r@.len() ==> ({
                            let rule = #[trigger] r@[k];
                            &&& rule.mangle
                            &&& rule.chain is Output
                            &&& (!configuration.server ==> rule.dport == Some(ports@[k])
                                && rule.sport is None)
                            &&& (configuration.server ==> rule.sport == Some(ports@[k])
                                && rule.dport is None)
                            &&& rule.mark == Some(configuration.fwmark)
                            &&& rule.mark_negated
                            &&& rule.src_excluded is None
                            &&& rule.queue_num == configuration.queue
                        })
                },
            }
        }),
{
    let mut rules: Vec<crate::utils::IptablesRule> = Vec::new();
    match &configuration.ports {
        None => {},
        Some(ports) => {
            let n = ports.len();
            let mut i: usize = 0;
            while i < n
                invariant
                    n == ports@.len(),
                    0 <= i <= n,
                    rules@.len() == i,
                    forall|k: int|
                        0 <= k < i ==> ({
                            let rule = #[trigger] rules@[k];
                            &&& rule.mangle
                            &&& rule.chain is Output
                            &&& (!configuration.server ==> rule.dport == Some(ports@[k])
                                && rule.sport is None)
                            &&& (configuration.server ==> rule.sport == Some(ports@[k])
                                && rule.dport is None)
                            &&& rule.mark == Some(configuration.fwmark)
                            &&& rule.mark_negated
                            &&& rule.src_excluded is None
                            &&& rule.queue_num == configuration.queue
                        }),
                decreases n - i,
            {
                let port = ports[i];
                let rule = crate::utils::IptablesRule {
                    mangle: true,
                    chain: crate::utils::Chain::Output,
                    dport: if configuration.server {
                        None
                    } else {
                        Some(port)
                    },
                    sport: if configuration.server {
                        Some(port)
                    } else {
                        None
                    },
                    mark: Some(configuration.fwmark),
                    mark_negated: true,
                    src_excluded: None,
                    queue_num: configuration.queue,
                };
                rules.push(rule);
                i = i + 1;
            }
        },
    }
    rules
}

/// How the sender picks the source port of outgoing copies; only used
/// outside SNAT mode.
pub enum SourceStrategy {
    /// Preserve the captured source port.
    Original,
    /// Overwrite with a fixed port.
    Fixed(u16),
    /// A fresh uniform port in [10000, 65535] for every packet.
    Random,
    /// A random port renewed each `interval` milliseconds.
    Rotating { current: u16, interval: u128, last: u128 },
}

/// Relies on rand::random_range: a uniformly drawn value that lies inside
/// the given, non-empty range.
#[verifier::external_body]
fn random_port() -> (r: u16)
    ensures
        10000 <= r <= 65535,
{
    rand::random_range(10000..=65535u16)
}

/// The strategy a configuration selects: a `source_port` of zero asks for a
/// random port, rotating when an interval is configured; any other port is
/// fixed; no `source_port` keeps the captured one.
pub fn strategy_for(cfg: &SenderConfiguration, now: u128) -> (r: SourceStrategy)
    ensures
        cfg.source_port is None ==> r is Original,
        ({
            match cfg.source_port {
                Some(p) => if p == 0 {
                    match cfg.source_rotate_ms {
                        Some(ms) => r matches SourceStrategy::Rotating { current, interval, last }
                            && 10000 <= current <= 65535 && interval == ms && last == now,
                        None => r is Random,
                    }
                } else {
                    r == SourceStrategy::Fixed(p)
                },
                None => r is Original,
            }
        }),
{
    match cfg.source_port {
        Some(0) => match cfg.source_rotate_ms {
            Some(ms) => SourceStrategy::Rotating {
                current: random_port(),
                interval: ms,
                last: now,
            },
            None => SourceStrategy::Random,
        },
        Some(p) => SourceStrategy::Fixed(p),
        None => SourceStrategy::Original,
    }
}

/// The source port for the next packet, advancing a rotating strategy when
/// its interval has elapsed. Whatever the random draws return, a `Fixed`
/// strategy yields its port, `Original` the captured one, and `Random` and
/// `Rotating` a port in [10000, 65535].
pub fn choose_source_port(strategy: &mut SourceStrategy, original: u16, now: u128) -> (r: u16)
    ensures
        *old(strategy) is Original ==> r == original && *final(strategy) is Original,
        forall|p: u16| *old(strategy) == SourceStrategy::Fixed(p) ==> r == p && *final(strategy)
            == SourceStrategy::Fixed(p),
        *old(strategy) is Random ==> 10000 <= r <= 65535 && *final(strategy) is Random,
        *old(strategy) matches SourceStrategy::Rotating { current, interval, last } ==> ({
            let rotate = now >= last && now - last >= interval;
            &&& (rotate ==> 10000 <= r <= 65535 && *final(strategy)
                == (SourceStrategy::Rotating { current: r, interval, last: now }))
            &&& (!rotate ==> r == current && *final(strategy) == *old(strategy))
        }),
{
    match strategy {
        SourceStrategy::Original => original,
        SourceStrategy::Fixed(p) => *p,
        SourceStrategy::Random => random_port(),
        SourceStrategy::Rotating { current, interval, last } => {
            if now >= *last && now - *last >= *interval {
                *current = random_port();
                *last = now;
            }
            *current
        },
    }
}

/// A captured egress packet the sender can work on: a sound IPv4 header
/// carrying UDP, small enough that the grown length fields still fit.
pub open spec fn sendable(s: Seq<u8>) -> bool {
    &&& 20 <= ip_header_len_spec(s)
    &&& ip_header_len_spec(s) + 8 <= s.len()
    &&& protocol_spec(s) == udp_protocol()
    &&& s.len() + 4 <= 0xffff
}

/// The number of fragments for a captured payload: the configured count,
/// capped by the interface count, when the UDP payload reaches the
/// threshold; one otherwise.
pub open spec fn spec_fragment_count(
    fragments: u8,
    threshold: u8,
    n_interfaces: int,
    udp_payload_len: int,
) -> int {
    if udp_payload_len >= threshold {
        if fragments <= n_interfaces {
            fragments as int
        } else if n_interfaces <= 7 {
            n_interfaces
        } else {
            fragments as int
        }
    } else {
        1
    }
}

pub fn fragment_count(cfg: &SenderConfiguration, n_interfaces: usize, udp_payload_len: usize) -> (r:
    u8)
    requires
        1 <= cfg.fragments <= 7,
        1 <= n_interfaces,
    ensures
        1 <= r <= 7,
        r == spec_fragment_count(
            cfg.fragments,
            cfg.fragment_threshold,
            n_interfaces as int,
            udp_payload_len as int,
        ),
{
    if udp_payload_len >= cfg.fragment_threshold as usize {
        if (cfg.fragments as usize) <= n_interfaces {
            cfg.fragments
        } else if n_interfaces <= 7 {
            n_interfaces as u8
        } else {
            cfg.fragments
        }
    } else {
        1
    }
}

/// The byte length of fragment `frag` out of `f` for a UDP payload of
/// `plen` bytes: an equal share, with the remainder going to the last
/// fragment; a single fragment carries everything.
pub open spec fn chunk_len_spec(plen: int, f: int, frag: int) -> int {
    if f <= 1 {
        plen
    } else if frag == f - 1 {
        plen / f + plen % f
    } else {
        plen / f
    }
}

/// The offset of fragment `frag`'s bytes inside the UDP payload.
pub open spec fn chunk_start_spec(plen: int, f: int, frag: int) -> int {
    if f <= 1 {
        0
    } else {
        (plen / f) * frag
    }
}

/// Builds the tagged copy of fragment `frag` of `f` for the captured packet
/// in `buf`: the IP and UDP headers with the length fields grown for the
/// trailer, the fragment's share of the UDP payload, and the 4-byte trailer
/// carrying `(f, id mod 2^26, frag)`. Both checksums are zeroed.
#[verifier::rlimit(100)]
pub fn build_fragment(buf: &Vec<u8>, ihl: usize, f: u8, frag: u8, id: u32) -> (r: Vec<u8>)
    requires
        sendable(buf@),
        ihl == ip_header_len_spec(buf@),
        1 <= f <= 7,
        frag < f,
    ensures
        ({
            let s = buf@;
            let plen = s.len() - ihl - 8;
            let clen = chunk_len_spec(plen, f as int, frag as int);
            let cstart = ihl + 8 + chunk_start_spec(plen, f as int, frag as int);
            let udp_len = 8 + clen + 4;
            &&& r@.len() == ihl + udp_len
            &&& (forall|i: int|
                0 <= i < ihl && i != 2 && i != 3 && i != 10 && i != 11 ==> r@[i] == s[i])
            &&& total_length_spec(r@) == ihl + udp_len
            &&& r@[10] == 0 && r@[11] == 0
            &&& r@[ihl as int] == s[ihl as int] && r@[ihl + 1] == s[ihl + 1] && r@[ihl + 2] == s[
                ihl + 2
            ] && r@[ihl + 3] == s[ihl + 3]
            &&& be16(r@[ihl + 4], r@[ihl + 5]) == udp_len
            &&& r@[ihl + 6] == 0 && r@[ihl + 7] == 0
            &&& r@.subrange(ihl + 8, ihl + 8 + clen) == s.subrange(cstart, cstart + clen)
            &&& frag_count_spec(r@) == f
            &&& seq_spec(r@) == id % 0x4000000
            &&& frag_idx_spec(r@) == frag
            &&& ip_header_len_spec(r@) == ihl
            &&& protocol_spec(r@) == protocol_spec(s)
        }),
{
    let n = buf.len();
    let plen = n - ihl - 8;
    let flen = plen / (f as usize);
    let rem = plen % (f as usize);
    proof {
        let p = plen as int;
        let ff = f as int;
        let fr = frag as int;
        assert((p / ff) * fr + (p / ff) + (p % ff) <= p) by (nonlinear_arith)
            requires
                1 <= ff && 0 <= fr && fr <= ff - 1 && p >= 0,
        ;
    }
    let cstart: usize = ihl + 8 + if f <= 1 {
        0
    } else {
        flen * (frag as usize)
    };
    let clen: usize = if f <= 1 {
        plen
    } else if frag == f - 1 {
        flen + rem
    } else {
        flen
    };
    let udp_len: usize = 8 + clen + 4;
    let mut r: Vec<u8> = Vec::new();
    push_range(&mut r, buf, 0, ihl + 8);
    push_range(&mut r, buf, cstart, cstart + clen);
    let trailer = Payload::new().with_fragments(f).with_sequence(id).with_fragment(frag);
    let tb = trailer.into_bytes();
    r.push(tb[0]);
    r.push(tb[1]);
    r.push(tb[2]);
    r.push(tb[3]);
    write_be16(&mut r, 2, (ihl + udp_len) as u16);
    let zero: u16 = 0;
    write_be16(&mut r, 10, zero);
    write_be16(&mut r, ihl + 4, udp_len as u16);
    write_be16(&mut r, ihl + 6, zero);
    proof {
        let s = buf@;
        let w = trailer.spec_word();
        crate::trailer::lemma_trailer_round_trip(trailer);
        assert(r@.subrange(r@.len() - 4, r@.len() as int) =~= trailer.spec_bytes());
        assert(crate::receiver::trailer_word(r@) == w);
        assert(r@.subrange(ihl + 8, ihl + 8 + clen) =~= s.subrange(cstart as int, cstart + clen));
    }
    r
}

/// Rewrites the addressing of a tagged copy: the IP source and destination
/// addresses and the UDP source and destination ports. Nothing else moves.
pub fn set_addressing(b: &mut Vec<u8>, ihl: usize, src: Endpoint, dst: Endpoint)
    requires
        ihl == ip_header_len_spec(old(b)@),
        20 <= ihl,
        ihl + 8 <= old(b)@.len(),
    ensures
        final(b)@.len() == old(b)@.len(),
        source_ip_spec(final(b)@) == src.ip,
        udp_source_spec(final(b)@) == src.port,
        dest_ip_spec(final(b)@) == dst.ip,
        udp_dest_spec(final(b)@) == dst.port,
        ip_header_len_spec(final(b)@) == ihl,
        protocol_spec(final(b)@) == protocol_spec(old(b)@),
        forall|i: int|
            0 <= i < old(b)@.len() && !(12 <= i < 20) && !(ihl <= i < ihl + 4) ==> final(b)@[i]
                == old(b)@[i],
{
    write_ip(b, 12, src.ip);
    write_ip(b, 16, dst.ip);
    write_be16(b, ihl, src.port);
    write_be16(b, ihl + 2, dst.port);
}

/// One tagged copy ready to leave: the interface it goes out of, the address
/// `send_to` is given, and the datagram bytes.
pub struct OutgoingPacket {
    pub interface: usize,
    pub destination: Endpoint,
    pub bytes: Vec<u8>,
}

/// The copies the sender emits for one captured packet, one per egress
/// interface, fragment `k mod f` on interface `k`. Outside SNAT mode each
/// copy's source becomes the interface address with the chosen source port,
/// and the destination address may be overridden by the configuration. In
/// SNAT mode each interface instead carries one copy per remote endpoint
/// recorded for the source keyed by `src_port`, readdressed from the
/// source's stable address to that endpoint.
#[verifier::rlimit(100)]
pub fn prepare_packets(
    cfg: &SenderConfiguration,
    interfaces: &Vec<Interface>,
    sources: &crate::snat::SourceTable,
    buf: &Vec<u8>,
    ihl: usize,
    id: u32,
    src_port: u16,
) -> (r: Vec<OutgoingPacket>)
    requires
        sendable(buf@),
        ihl == ip_header_len_spec(buf@),
        1 <= cfg.fragments <= 7,
        1 <= interfaces@.len(),
        sources.wf(),
    ensures
        ({
            let s = buf@;
            let plen = s.len() - ihl - 8;
            let f = spec_fragment_count(
                cfg.fragments,
                cfg.fragment_threshold,
                interfaces@.len() as int,
                plen,
            );
            let dst_ip = match cfg.destination {
                Some(d) => d.ip,
                None => dest_ip_spec(s),
            };
            &&& (cfg.snat is None ==> ({
                &&& r@.len() == interfaces@.len()
                &&& forall|k: int|
                    0 <= k < r@.len() ==> ({
                        let b = (#[trigger] r@[k]).bytes@;
                        let frag = k % f;
                        let clen = chunk_len_spec(plen, f, frag);
                        let cstart = ihl + 8 + chunk_start_spec(plen, f, frag);
                        &&& r@[k].interface == k
                        &&& r@[k].destination == (Endpoint { ip: dst_ip, port: udp_dest_spec(s) })
                        &&& b.len() == ihl + 12 + clen
                        &&& source_ip_spec(b) == interfaces@[k].ip
                        &&& udp_source_spec(b) == src_port
                        &&& dest_ip_spec(b) == dst_ip
                        &&& udp_dest_spec(b) == udp_dest_spec(s)
                        &&& total_length_spec(b) == b.len()
                        &&& be16(b[ihl + 4], b[ihl + 5]) == b.len() - ihl
                        &&& b[10] == 0 && b[11] == 0 && b[ihl + 6] == 0 && b[ihl + 7] == 0
                        &&& b.subrange(ihl + 8, b.len() - 4) == s.subrange(
                            cstart as int,
                            cstart + clen,
                        )
                        &&& frag_count_spec(b) == f
                        &&& seq_spec(b) == id % 0x4000000
                        &&& frag_idx_spec(b) == frag
                    })
            }))
            &&& (cfg.snat is Some ==> ({
                let found = crate::snat::has_port(sources.entries@, src_port);
                let src = sources.entries@[crate::snat::port_index(sources.entries@, src_port)].1;
                &&& (!found ==> r@.len() == 0)
                &&& (found ==> ({
                    let na = src.addrs@.len();
                    &&& r@.len() == interfaces@.len() * na
                    &&& forall|k: int|
                        0 <= k < r@.len() ==> ({
                            let b = (#[trigger] r@[k]).bytes@;
                            let addr = src.addrs@[k % (na as int)].0;
                            let frag = (k / (na as int)) % f;
                            &&& r@[k].interface == k / (na as int)
                            &&& r@[k].destination == addr
                            &&& source_ip_spec(b) == src.ip
                            &&& udp_source_spec(b) == src.port
                            &&& dest_ip_spec(b) == addr.ip
                            &&& udp_dest_spec(b) == addr.port
                            &&& b.len() == ihl + 12 + chunk_len_spec(plen, f, frag)
                            &&& total_length_spec(b) == b.len()
                            &&& be16(b[ihl + 4], b[ihl + 5]) == b.len() - ihl
                            &&& b[10] == 0 && b[11] == 0 && b[ihl + 6] == 0 && b[ihl + 7] == 0
                            &&& b.subrange(ihl + 8, b.len() - 4) == s.subrange(
                                ihl + 8 + chunk_start_spec(plen, f, frag),
                                ihl + 8 + chunk_start_spec(plen, f, frag) + chunk_len_spec(
                                    plen,
                                    f,
                                    frag,
                                ),
                            )
                            &&& frag_count_spec(b) == f
                            &&& seq_spec(b) == id % 0x4000000
                            &&& frag_idx_spec(b) == frag
                        })
                }))
            }))
        }),
{
    let s_len = buf.len();
    let plen = s_len - ihl - 8;
    let nif = interfaces.len();
    let f = fragment_count(cfg, nif, plen);
    let dst_ip = match cfg.destination {
        Some(d) => d.ip,
        None => crate::packet::read_ip(buf, 16),
    };
    let dst_port = crate::bytes::read_be16(buf, ihl + 2);
    let mut out: Vec<OutgoingPacket> = Vec::new();
    match cfg.snat {
        None => {
            let mut k: usize = 0;
            while k < nif
                invariant
                    nif == interfaces@.len(),
                    0 <= k <= nif,
                    out@.len() == k,
                    sendable(buf@),
                    ihl == ip_header_len_spec(buf@),
                    1 <= f <= 7,
                    plen == buf@.len() - ihl - 8,
                    f == spec_fragment_count(
                        cfg.fragments,
                        cfg.fragment_threshold,
                        nif as int,
                        plen as int,
                    ),
                    dst_ip == (match cfg.destination {
                        Some(d) => d.ip,
                        None => dest_ip_spec(buf@),
                    }),
                    dst_port == udp_dest_spec(buf@),
                    forall|j: int|
                        0 <= j < k ==> ({
                            let b = (#[trigger] out@[j]).bytes@;
                            let frag = j % (f as int);
                            let clen = chunk_len_spec(plen as int, f as int, frag);
                            let cstart = ihl + 8 + chunk_start_spec(plen as int, f as int, frag);
                            &&& out@[j].interface == j
                            &&& out@[j].destination == (Endpoint { ip: dst_ip, port: dst_port })
                            &&& b.len() == ihl + 12 + clen
                            &&& source_ip_spec(b) == interfaces@[j].ip
                            &&& udp_source_spec(b) == src_port
                            &&& dest_ip_spec(b) == dst_ip
                            &&& udp_dest_spec(b) == dst_port
                            &&& total_length_spec(b) == b.len()
                            &&& be16(b[ihl + 4], b[ihl + 5]) == b.len() - ihl
                            &&& b[10] == 0 && b[11] == 0 && b[ihl + 6] == 0 && b[ihl + 7] == 0
                            &&& b.subrange(ihl + 8, b.len() - 4) == buf@.subrange(
                                cstart as int,
                                cstart + clen,
                            )
                            &&& frag_count_spec(b) == f
                            &&& seq_spec(b) == id % 0x4000000
                            &&& frag_idx_spec(b) == frag
                        }),
                decreases nif - k,
            {
                let frag = (k % f as usize) as u8;
                let mut b = build_fragment(buf, ihl, f, frag, id);
                let ghost built = b@;
                set_addressing(
                    &mut b,
                    ihl,
                    Endpoint { ip: interfaces[k].ip, port: src_port },
                    Endpoint { ip: dst_ip, port: dst_port },
                );
                proof {
                    assert(b@.subrange(ihl + 8, b@.len() - 4) =~= built.subrange(
                        ihl + 8,
                        built.len() - 4,
                    ));
                    assert(b@.subrange(b@.len() - 4, b@.len() as int) =~= built.subrange(
                        built.len() - 4,
                        built.len() as int,
                    ));
                    assert(crate::receiver::trailer_word(b@) == crate::receiver::trailer_word(
                        built,
                    ));
                }
                out.push(OutgoingPacket {
                    interface: k,
                    destination: Endpoint { ip: dst_ip, port: dst_port },
                    bytes: b,
                });
                k = k + 1;
            }
        },
        Some(_) => {
            match sources.find(src_port) {
                None => {},
                Some(si) => {
                    let source = &sources.entries[si].1;
                    let na = source.addrs.len();
                    let mut k: usize = 0;
                    while k < nif
                        invariant
                            nif == interfaces@.len(),
                            0 <= k <= nif,
                            na == source.addrs@.len(),
                            out@.len() == k * na,
                            sendable(buf@),
                            ihl == ip_header_len_spec(buf@),
                            1 <= f <= 7,
                            plen == buf@.len() - ihl - 8,
                            f == spec_fragment_count(
                                cfg.fragments,
                                cfg.fragment_threshold,
                                nif as int,
                                plen as int,
                            ),
                            source == sources.entries@[si as int].1,
                            forall|j: int|
                                0 <= j < out@.len() ==> ({
                                    let b = (#[trigger] out@[j]).bytes@;
                                    let addr = source.addrs@[j % (na as int)].0;
                                    let frag = (j / (na as int)) % (f as int);
                                    &&& out@[j].interface == j / (na as int)
                                    &&& out@[j].destination == addr
                                    &&& source_ip_spec(b) == source.ip
                                    &&& udp_source_spec(b) == source.port
                                    &&& dest_ip_spec(b) == addr.ip
                                    &&& udp_dest_spec(b) == addr.port
                                    &&& b.len() == ihl + 12 + chunk_len_spec(
                                        plen as int,
                                        f as int,
                                        frag,
                                    )
                                    &&& total_length_spec(b) == b.len()
                                    &&& be16(b[ihl + 4], b[ihl + 5]) == b.len() - ihl
                                    &&& b[10] == 0 && b[11] == 0 && b[ihl + 6] == 0 && b[ihl
                                        + 7] == 0
                                    &&& b.subrange(ihl + 8, b.len() - 4) == buf@.subrange(
                                        ihl + 8 + chunk_start_spec(plen as int, f as int, frag),
                                        ihl + 8 + chunk_start_spec(plen as int, f as int, frag)
                                            + chunk_len_spec(plen as int, f as int, frag),
                                    )
                                    &&& frag_count_spec(b) == f
                                    &&& seq_spec(b) == id % 0x4000000
                                    &&& frag_idx_spec(b) == frag
                                }),
                        decreases nif - k,
                    {
                        let frag = (k % f as usize) as u8;
                        let mut a: usize = 0;
                        while a < na
                            invariant
                                nif == interfaces@.len(),
                                0 <= k < nif,
                                0 <= a <= na,
                                na == source.addrs@.len(),
                                out@.len() == k * na + a,
                                sendable(buf@),
                                ihl == ip_header_len_spec(buf@),
                                1 <= f <= 7,
                                plen == buf@.len() - ihl - 8,
                                frag == (k as int % f as int),
                                f == spec_fragment_count(
                                    cfg.fragments,
                                    cfg.fragment_threshold,
                                    nif as int,
                                    plen as int,
                                ),
                                source == sources.entries@[si as int].1,
                                forall|j: int|
                                    0 <= j < out@.len() ==> ({
                                        let b = (#[trigger] out@[j]).bytes@;
                                        let addr = source.addrs@[j % (na as int)].0;
                                        let fr = (j / (na as int)) % (f as int);
                                        &&& out@[j].interface == j / (na as int)
                                        &&& out@[j].destination == addr
                                        &&& source_ip_spec(b) == source.ip
                                        &&& udp_source_spec(b) == source.port
                                        &&& dest_ip_spec(b) == addr.ip
                                        &&& udp_dest_spec(b) == addr.port
                                        &&& b.len() == ihl + 12 + chunk_len_spec(
                                            plen as int,
                                            f as int,
                                            fr,
                                        )
                                        &&& total_length_spec(b) == b.len()
                                        &&& be16(b[ihl + 4], b[ihl + 5]) == b.len() - ihl
                                        &&& b[10] == 0 && b[11] == 0 && b[ihl + 6] == 0 && b[ihl
                                            + 7] == 0
                                        &&& b.subrange(ihl + 8, b.len() - 4) == buf@.subrange(
                                            ihl + 8 + chunk_start_spec(plen as int, f as int, fr),
                                            ihl + 8 + chunk_start_spec(plen as int, f as int, fr)
                                                + chunk_len_spec(plen as int, f as int, fr),
                                        )
                                        &&& frag_count_spec(b) == f
                                        &&& seq_spec(b) == id % 0x4000000
                                        &&& frag_idx_spec(b) == fr
                                    }),
                            decreases na - a,
                        {
                            let addr = source.addrs[a].0;
                            let mut b = build_fragment(buf, ihl, f, frag, id);
                            let ghost built = b@;
                            set_addressing(
                                &mut b,
                                ihl,
                                Endpoint { ip: source.ip, port: source.port },
                                addr,
                            );
                            proof {
                                assert(b@.subrange(b@.len() - 4, b@.len() as int) =~= built
                                    .subrange(built.len() - 4, built.len() as int));
                                assert(crate::receiver::trailer_word(b@)
                                    == crate::receiver::trailer_word(built));
                                assert((k * na + a) / (na as int) == k && (k * na + a) % (
                                na as int) == a) by (nonlinear_arith)
                                    requires
                                        na > 0 && 0 <= a < na && 0 <= k,
                                ;
                            }
                            out.push(
                                OutgoingPacket { interface: k, destination: addr, bytes: b },
                            );
                            a = a + 1;
                        }
                        k = k + 1;
                        proof {
                            assert((k - 1) * na + na == k * na) by (nonlinear_arith);
                        }
                    }
                },
            }
        },
    }
    out
}

/// Counts one sent copy of `bytes` bytes against an interface.
pub fn record_interface_send(interface: &mut Interface, bytes: u64)
    ensures
        final(interface).send_packets == old(interface).send_packets.wrapping_add(1),
        final(interface).send_bytes == old(interface).send_bytes.wrapping_add(bytes),
        final(interface).name == old(interface).name,
        final(interface).ip == old(interface).ip,
        final(interface).send_last_bytes == old(interface).send_last_bytes,
{
    interface.send_packets = interface.send_packets.wrapping_add(1);
    interface.send_bytes = interface.send_bytes.wrapping_add(bytes);
}

/// Counts one logical packet against the sender totals and publishes the
/// next sequence number.
pub fn record_logical_packet(stats: &mut Stats, bytes: u64, next_id: u32)
    ensures
        *final(stats) == (Stats {
            send_total: old(stats).send_total.wrapping_add(1),
            send_bytes: old(stats).send_bytes.wrapping_add(bytes),
            send_current: next_id as u64,
            ..*old(stats)
        }),
{
    stats.send_total = stats.send_total.wrapping_add(1);
    stats.send_bytes = stats.send_bytes.wrapping_add(bytes);
    stats.send_current = next_id as u64;
}

} // verus!
