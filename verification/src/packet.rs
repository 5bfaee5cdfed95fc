use vstd::prelude::*;

use crate::bytes::{be16, be32, read_be16, write_be16};

verus! {

/// IP protocol number of UDP.
pub open spec fn udp_protocol() -> u8 {
    17
}

/// Byte length of a UDP header.
pub open spec fn udp_header_len() -> int {
    8
}

/// Minimum length the receiver accepts: a minimal IPv4 header, a UDP header
/// and the 4-byte trailer.
pub open spec fn min_tagged_len() -> int {
    32
}

/// The IPv4 header length in bytes, read from the low nibble of the first byte.
pub open spec fn ip_header_len_spec(s: Seq<u8>) -> int {
    4 * ((s[0] & 0x0f) as int)
}

/// The IP protocol field.
pub open spec fn protocol_spec(s: Seq<u8>) -> u8 {
    s[9]
}

/// The IP total-length field.
pub open spec fn total_length_spec(s: Seq<u8>) -> u16 {
    be16(s[2], s[3])
}

/// The IP source address, as a host-order 32-bit value.
pub open spec fn source_ip_spec(s: Seq<u8>) -> u32 {
    be32(s[12], s[13], s[14], s[15])
}

/// The IP destination address, as a host-order 32-bit value.
pub open spec fn dest_ip_spec(s: Seq<u8>) -> u32 {
    be32(s[16], s[17], s[18], s[19])
}

/// The UDP source port.
pub open spec fn udp_source_spec(s: Seq<u8>) -> u16 {
    be16(s[ip_header_len_spec(s)], s[ip_header_len_spec(s) + 1])
}

/// The UDP destination port.
pub open spec fn udp_dest_spec(s: Seq<u8>) -> u16 {
    be16(s[ip_header_len_spec(s) + 2], s[ip_header_len_spec(s) + 3])
}

/// The UDP length field.
pub open spec fn udp_length_spec(s: Seq<u8>) -> u16 {
    be16(s[ip_header_len_spec(s) + 4], s[ip_header_len_spec(s) + 5])
}

/// A buffer that the tunnel will work on: long enough to hold a tagged UDP
/// datagram, carrying UDP, with a structurally sound header length.
pub open spec fn parseable(s: Seq<u8>) -> bool {
    &&& s.len() >= min_tagged_len()
    &&& protocol_spec(s) == udp_protocol()
    &&& 20 <= ip_header_len_spec(s)
    &&& ip_header_len_spec(s) + udp_header_len() + 4 <= s.len()
}

/// The fields of a parsed tagged packet.
pub struct Parsed {
    pub ip_header_len: usize,
    pub source_ip: u32,
    pub source_port: u16,
    pub dest_ip: u32,
    pub dest_port: u16,
    pub udp_length: u16,
}

impl Parsed {
    pub open spec fn matches(self, s: Seq<u8>) -> bool {
        &&& self.ip_header_len == ip_header_len_spec(s)
        &&& self.source_ip == source_ip_spec(s)
        &&& self.source_port == udp_source_spec(s)
        &&& self.dest_ip == dest_ip_spec(s)
        &&& self.dest_port == udp_dest_spec(s)
        &&& self.udp_length == udp_length_spec(s)
    }
}

/// Parses the IPv4 and UDP headers of a tagged packet. Returns `None` exactly
/// on the undersized, non-UDP or structurally broken buffers that the tunnel
/// drops.
pub fn parse_packet(buf: &Vec<u8>) -> (r: Option<Parsed>)
    ensures
        r is Some <==> parseable(buf@),
        r is Some ==> r->Some_0.matches(buf@),
{
    let n = buf.len();
    if n < 32 {
        return None;
    }
    if buf[9] != 17 {
        return None;
    }
    let ihl: usize = 4 * ((buf[0] & 0x0f) as usize);
    if ihl < 20 || ihl + 12 > n {
        return None;
    }
    let source_ip = read_ip(buf, 12);
    let dest_ip = read_ip(buf, 16);
    let source_port = read_be16(buf, ihl);
    let dest_port = read_be16(buf, ihl + 2);
    let udp_length = read_be16(buf, ihl + 4);
    Some(Parsed { ip_header_len: ihl, source_ip, source_port, dest_ip, dest_port, udp_length })
}

/// Reads the 32-bit network-order address stored at `pos`.
pub fn read_ip(buf: &Vec<u8>, pos: usize) -> (r: u32)
    requires
        pos + 4 <= buf@.len(),
    ensures
        r == be32(buf@[pos as int], buf@[pos + 1], buf@[pos + 2], buf@[pos + 3]),
{
    let n = buf.len();
    buf[pos] as u32 * 0x1000000 + buf[pos + 1] as u32 * 0x10000 + buf[pos + 2] as u32 * 0x100
        + buf[pos + 3] as u32
}

/// Writes `ip` at `pos` as four network-order bytes.
pub fn write_ip(buf: &mut Vec<u8>, pos: usize, ip: u32)
    requires
        pos + 4 <= old(buf)@.len(),
    ensures
        final(buf)@.len() == old(buf)@.len(),
        be32(
            final(buf)@[pos as int],
            final(buf)@[pos + 1],
            final(buf)@[pos + 2],
            final(buf)@[pos + 3],
        ) == ip,
        forall|i: int|
            0 <= i < old(buf)@.len() && !(pos <= i < pos + 4) ==> final(buf)@[i] == old(buf)@[i],
{
    let b0 = (ip >> 24) as u8;
    let b1 = ((ip >> 16) & 0xff) as u8;
    let b2 = ((ip >> 8) & 0xff) as u8;
    let b3 = (ip & 0xff) as u8;
    proof {
        assert(b0 as u32 * 0x1000000 + b1 as u32 * 0x10000 + b2 as u32 * 0x100 + b3 as u32 == ip)
            by (bit_vector)
            requires
                b0 == (ip >> 24) as u8 && b1 == ((ip >> 16) & 0xff) as u8 && b2 == ((ip >> 8)
                    & 0xff) as u8 && b3 == (ip & 0xff) as u8,
        ;
    }
    let n = buf.len();
    buf.set(pos, b0);
    buf.set(pos + 1, b1);
    buf.set(pos + 2, b2);
    buf.set(pos + 3, b3);
}

/// Sets the IP total-length field.
pub fn set_total_length(buf: &mut Vec<u8>, v: u16)
    requires
        old(buf)@.len() >= 20,
    ensures
        final(buf)@.len() == old(buf)@.len(),
        total_length_spec(final(buf)@) == v,
        final(buf)@[2] == v as int / 256,
        final(buf)@[3] == v as int % 256,
        forall|i: int|
            0 <= i < old(buf)@.len() && i != 2 && i != 3 ==> final(buf)@[i] == old(buf)@[i],
        ip_header_len_spec(final(buf)@) == ip_header_len_spec(old(buf)@),
        protocol_spec(final(buf)@) == protocol_spec(old(buf)@),
{
    write_be16(buf, 2, v);
}

/// Sets the UDP length field of the datagram that starts at `ihl`.
pub fn set_udp_length(buf: &mut Vec<u8>, ihl: usize, v: u16)
    requires
        ihl + 6 <= old(buf)@.len(),
        ihl >= 6,
    ensures
        final(buf)@.len() == old(buf)@.len(),
        be16(final(buf)@[ihl + 4], final(buf)@[ihl + 5]) == v,
        final(buf)@[ihl + 4] == v as int / 256,
        final(buf)@[ihl + 5] == v as int % 256,
        forall|i: int|
            0 <= i < old(buf)@.len() && i != ihl + 4 && i != ihl + 5 ==> final(buf)@[i] == old(
                buf,
            )@[i],
{
    let n = buf.len();
    write_be16(buf, ihl + 4, v);
}

/// Zeroes the IP header checksum (bytes 10 and 11).
pub fn zero_ip_checksum(buf: &mut Vec<u8>)
    requires
        old(buf)@.len() >= 20,
    ensures
        final(buf)@.len() == old(buf)@.len(),
        final(buf)@[10] == 0u8 && final(buf)@[11] == 0u8,
        forall|i: int|
            0 <= i < old(buf)@.len() && i != 10 && i != 11 ==> final(buf)@[i] == old(buf)@[i],
{
    let n = buf.len();
    buf.set(10, 0);
    buf.set(11, 0);
}

/// Zeroes the UDP checksum (bytes 6 and 7 of the datagram that starts at
/// `ihl`); a zero UDP checksum is legal for IPv4.
pub fn zero_udp_checksum(buf: &mut Vec<u8>, ihl: usize)
    requires
        ihl + 8 <= old(buf)@.len(),
    ensures
        final(buf)@.len() == old(buf)@.len(),
        final(buf)@[ihl + 6] == 0u8 && final(buf)@[ihl + 7] == 0u8,
        forall|i: int|
            0 <= i < old(buf)@.len() && i != ihl + 6 && i != ihl + 7 ==> final(buf)@[i] == old(
                buf,
            )@[i],
{
    let n = buf.len();
    buf.set(ihl + 6, 0);
    buf.set(ihl + 7, 0);
}

} // verus!
