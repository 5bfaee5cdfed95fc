use vstd::prelude::*;

use crate::bytes::{be32, push_range, u32_to_be};
use crate::packet::{
    ip_header_len_spec, protocol_spec, set_total_length, set_udp_length, udp_length_spec,
    udp_protocol, zero_ip_checksum, zero_udp_checksum,
};

verus! {

/// What became of one queued message in the plain tag-and-order variant.
pub enum MessageStatus {
    /// The tag was read; it carries the packet's position in the stream.
    Processed(u32),
    Invalid,
}

/// A buffer the plain variant can untag: IPv4 carrying UDP, with a UDP
/// length field that covers its header, at least four tag bytes, and no
/// more than the buffer holds.
pub open spec fn taggable(s: Seq<u8>) -> bool {
    &&& 20 <= ip_header_len_spec(s)
    &&& ip_header_len_spec(s) + 12 <= s.len()
    &&& protocol_spec(s) == udp_protocol()
    &&& udp_length_spec(s) >= 12
    &&& ip_header_len_spec(s) + udp_length_spec(s) <= s.len()
}

/// Strips the 4-byte tag of the plain variant: reads the stream position
/// from the last four buffer bytes, zeroes everything past the shrunk UDP
/// payload, shrinks the UDP and IP length fields by four, and zeroes both
/// checksums. An undersized or non-UDP buffer is left untouched.
pub fn process_message(payload: &mut Vec<u8>) -> (r: MessageStatus)
    ensures
        r is Invalid <==> !taggable(old(payload)@),
        r is Invalid ==> final(payload)@ == old(payload)@,
        r matches MessageStatus::Processed(id) ==> ({
            let s = old(payload)@;
            let ihl = ip_header_len_spec(s);
            let ulen = udp_length_spec(s) as int;
            &&& id == be32(s[s.len() - 4], s[s.len() - 3], s[s.len() - 2], s[s.len() - 1])
            &&& final(payload)@.len() == s.len()
            &&& udp_length_spec(final(payload)@) == ulen - 4
            &&& crate::packet::total_length_spec(final(payload)@) == (ihl + ulen - 4) % 0x10000
            &&& final(payload)@[10] == 0 && final(payload)@[11] == 0
            &&& final(payload)@[ihl + 6] == 0 && final(payload)@[ihl + 7] == 0
            &&& (forall|i: int| ihl + ulen - 4 <= i < s.len() ==> final(payload)@[i] == 0)
            &&& (forall|i: int|
                0 <= i < ihl + ulen - 4 && i != 2 && i != 3 && i != 10 && i != 11 && i != ihl + 4
                    && i != ihl + 5 && i != ihl + 6 && i != ihl + 7 ==> final(payload)@[i] == s[i])
        }),
{
    let n = payload.len();
    if n < 20 {
        return MessageStatus::Invalid;
    }
    if payload[9] != 17 {
        return MessageStatus::Invalid;
    }
    let ihl: usize = 4 * ((payload[0] & 0x0f) as usize);
    if ihl < 20 || ihl + 12 > n {
        return MessageStatus::Invalid;
    }
    let ulen = crate::bytes::read_be16(payload, ihl + 4) as usize;
    if ulen < 12 || ihl + ulen > n {
        return MessageStatus::Invalid;
    }
    let id = crate::packet::read_ip(payload, n - 4);
    let mut i: usize = ihl + ulen - 4;
    while i < n
        invariant
            ihl + ulen - 4 <= i <= n,
            n == payload@.len(),
            forall|j: int| ihl + ulen - 4 <= j < i ==> payload@[j] == 0,
            forall|j: int| 0 <= j < ihl + ulen - 4 ==> payload@[j] == old(payload)@[j],
            forall|j: int| i <= j < n ==> payload@[j] == old(payload)@[j],
            ihl >= 20 && ihl + 12 <= n && ulen >= 12 && ihl + ulen <= n,
        decreases n - i,
    {
        payload.set(i, 0);
        i = i + 1;
    }
    let new_udp_len: u16 = (ulen - 4) as u16;
    set_udp_length(payload, ihl, new_udp_len);
    let new_total: u16 = ((ihl + ulen - 4) % 0x10000) as u16;
    set_total_length(payload, new_total);
    zero_udp_checksum(payload, ihl);
    zero_ip_checksum(payload);
    MessageStatus::Processed(id)
}

/// Appends the plain 4-byte stream tag to a packet's bytes.
pub fn tag_packet(packet: &Vec<u8>, id: u32) -> (r: Vec<u8>)
    ensures
        r@.len() == packet@.len() + 4,
        r@.subrange(0, packet@.len() as int) == packet@,
        be32(r@[r@.len() - 4], r@[r@.len() - 3], r@[r@.len() - 2], r@[r@.len() - 1]) == id,
{
    let n = packet.len();
    let mut r: Vec<u8> = Vec::new();
    push_range(&mut r, packet, 0, n);
    let (b0, b1, b2, b3) = u32_to_be(id);
    r.push(b0);
    r.push(b1);
    r.push(b2);
    r.push(b3);
    proof {
        assert(r@.subrange(0, packet@.len() as int) =~= packet@);
    }
    r
}

} // verus!
