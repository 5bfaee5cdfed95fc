use vstd::prelude::*;

use crate::bytes::be16;
use crate::packet::{
    dest_ip_spec, ip_header_len_spec, parse_packet, parseable, set_total_length, set_udp_length,
    source_ip_spec, total_length_spec, udp_dest_spec, udp_length_spec, udp_source_spec, write_ip,
    zero_ip_checksum, zero_udp_checksum,
};
use crate::bytes::{push_range, write_be16};
use crate::snat::SourceTable;
use crate::trailer::Payload;
use crate::types::{Endpoint, Stats};

verus! {

/// The bytes a fragment slot holds: none while the slot is empty.
pub open spec fn slot_bytes(o: Option<Vec<u8>>) -> Seq<u8> {
    match o {
        Some(v) => v@,
        None => Seq::empty(),
    }
}

/// The concatenation of the first `n` fragment slots, in index order.
pub open spec fn slots_concat(frags: Seq<Option<Vec<u8>>>, n: int) -> Seq<u8>
    decreases n,
{
    if n <= 0 {
        Seq::empty()
    } else {
        slots_concat(frags, n - 1) + slot_bytes(frags[n - 1])
    }
}

/// The total byte count held by the first `n` fragment slots.
pub open spec fn slots_total(frags: Seq<Option<Vec<u8>>>, n: int) -> int
    decreases n,
{
    if n <= 0 {
        0
    } else {
        slots_total(frags, n - 1) + slot_bytes(frags[n - 1]).len()
    }
}

/// Concatenating fragment payloads yields exactly as many bytes as the
/// fragments held together.
pub proof fn lemma_concat_len_is_total(frags: Seq<Option<Vec<u8>>>, n: int)
    ensures
        slots_concat(frags, n).len() == slots_total(frags, n),
    decreases n,
{
    if n > 0 {
        lemma_concat_len_is_total(frags, n - 1);
    }
}

/// One logical packet being reassembled: the headers (and, once complete, the
/// rebuilt payload), the per-index fragment slots, and the original
/// destination. `msg` holds the queue-message handle when the packet is to be
/// forwarded in place.
pub struct ReassembledPacket {
    pub id: u32,
    pub payload: Vec<u8>,
    pub ip_header_length: usize,
    pub fragments: Vec<Option<Vec<u8>>>,
    pub destination: Endpoint,
    pub completed: bool,
    pub msg: Option<u64>,
}

impl ReassembledPacket {
    pub open spec fn wf(self) -> bool {
        &&& 20 <= self.ip_header_length
        &&& self.ip_header_length + 8 <= self.payload@.len()
        &&& self.fragments@.len() <= 7
        &&& self.id < 0x4000000
        &&& (self.completed <==> (self.fragments@.len() < 2 || forall|i: int|
            0 <= i < self.fragments@.len() ==> (#[trigger] self.fragments@[i]) is Some))
    }

    /// The bytes this packet will emit: its buffered header-and-payload bytes
    /// followed by the fragment payloads in index order, before the length
    /// fields are patched.
    pub open spec fn assembled(self) -> Seq<u8> {
        if self.fragments@.len() > 1 {
            self.payload@ + slots_concat(self.fragments@, self.fragments@.len() as int)
        } else {
            self.payload@
        }
    }

    /// Rebuilds the emitted datagram: appends the fragment payloads in index
    /// order, recomputes the UDP and IP total lengths from the rebuilt size,
    /// and zeroes both checksums. The concatenated payload grows by exactly
    /// the number of bytes the fragment slots held.
    pub fn finalize(&mut self)
        requires
            old(self).wf(),
            old(self).completed,
        ensures
            final(self).id == old(self).id,
            final(self).ip_header_length == old(self).ip_header_length,
            final(self).destination == old(self).destination,
            final(self).msg == old(self).msg,
            final(self).payload@.len() == old(self).assembled().len(),
            ({
                let full = old(self).assembled();
                let ihl = old(self).ip_header_length as int;
                let ulen = (full.len() - ihl) % 0x10000;
                let tlen = (ihl + ulen) % 0x10000;
                &&& (forall|i: int|
                    0 <= i < full.len() && i != 2 && i != 3 && i != 10 && i != 11 && i != ihl + 4
                        && i != ihl + 5 && i != ihl + 6 && i != ihl + 7
                        ==> final(self).payload@[i] == full[i])
                &&& total_length_spec(final(self).payload@) == tlen
                &&& be16(final(self).payload@[ihl + 4], final(self).payload@[ihl + 5]) == ulen
                &&& final(self).payload@[10] == 0 && final(self).payload@[11] == 0
                &&& final(self).payload@[ihl + 6] == 0 && final(self).payload@[ihl + 7] == 0
                &&& final(self).payload@ == patched(full, ihl)
            }),
    {
        let ihl = self.ip_header_length;
        let nf = self.fragments.len();
        if nf > 1 {
            let ghost frags0 = self.fragments@;
            let ghost base = self.payload@;
            let mut k: usize = 0;
            while k < nf
                invariant
                    nf == self.fragments@.len() == frags0.len(),
                    0 <= k <= nf,
                    self.payload@ == base + slots_concat(frags0, k as int),
                    forall|i: int| k <= i < nf ==> self.fragments@[i] == frags0[i],
                    self.id == old(self).id,
                    self.ip_header_length == old(self).ip_header_length,
                    self.destination == old(self).destination,
                    self.msg == old(self).msg,
                decreases nf - k,
            {
                let slot = self.fragments.remove(k);
                self.fragments.insert(k, None);
                match slot {
                    Some(mut data) => {
                        proof {
                            assert(slots_concat(frags0, k + 1) == slots_concat(frags0, k as int)
                                + slot_bytes(frags0[k as int]));
                        }
                        self.payload.append(&mut data);
                    },
                    None => {
                        proof {
                            assert(slots_concat(frags0, k + 1) == slots_concat(frags0, k as int)
                                + slot_bytes(frags0[k as int]));
                            assert(slot_bytes(frags0[k as int]) =~= Seq::<u8>::empty());
                            assert(self.payload@ =~= base + slots_concat(frags0, k + 1));
                        }
                    },
                }
                k = k + 1;
            }
            proof {
                assert(self.payload@ == old(self).assembled());
            }
        }
        let total = self.payload.len();
        let ulen: u16 = ((total - ihl) % 0x10000) as u16;
        let tlen: u16 = ((ihl as u128 + ulen as u128) % 0x10000) as u16;
        set_udp_length(&mut self.payload, ihl, ulen);
        set_total_length(&mut self.payload, tlen);
        zero_udp_checksum(&mut self.payload, ihl);
        zero_ip_checksum(&mut self.payload);
        proof {
            let full = old(self).assembled();
            let h = ihl as int;
            assert(self.payload@ =~= patched(full, h));
        }
    }
}

/// What becomes of the queue message a packet arrived in: held for a later
/// in-order forward, or answered with a drop verdict at once.
#[derive(Clone, Copy, PartialEq, Eq, Structural, Debug)]
pub enum Disposition {
    Held,
    DropNow,
}

/// How a reassembled packet leaves the receiver.
pub enum EmissionKind {
    /// Replace the held queue message's payload and accept it.
    Forward { handle: u64 },
    /// Send the rebuilt datagram from the SNAT source socket to the original
    /// destination.
    Proxy { destination: Endpoint },
}

/// One in-order reassembled packet leaving the receiver.
pub struct Emission {
    pub sequence: u32,
    pub payload: Vec<u8>,
    pub kind: EmissionKind,
}

/// The sequence numbers of a list of emissions, in emission order.
pub open spec fn emission_ids(s: Seq<Emission>) -> Seq<u32> {
    s.map_values(|e: Emission| e.sequence)
}

/// The successor of a sequence number in the 26-bit sequence space.
pub open spec fn wrap_inc(x: u32) -> u32 {
    if x == 0x3ffffff {
        0
    } else {
        (x + 1) as u32
    }
}

/// A buffer byte sequence with the length fields rebuilt and the checksums
/// zeroed: the IP total length becomes the full length, the UDP length the
/// full length minus the IP header, both reduced to 16 bits.
pub open spec fn patched(full: Seq<u8>, ihl: int) -> Seq<u8> {
    let ulen = (full.len() - ihl) % 0x10000;
    let tlen = (ihl + ulen) % 0x10000;
    full.update(2, (tlen / 256) as u8).update(3, (tlen % 256) as u8).update(10, 0u8).update(
        11,
        0u8,
    ).update(ihl + 4, (ulen / 256) as u8).update(ihl + 5, (ulen % 256) as u8).update(
        ihl + 6,
        0u8,
    ).update(ihl + 7, 0u8)
}

/// The datagram the receiver emits for an untagged single-fragment packet:
/// the tagged bytes with the trailer cut off and the length fields rebuilt.
pub open spec fn strip_single(s: Seq<u8>) -> Seq<u8> {
    patched(s.subrange(0, s.len() - 4), ip_header_len_spec(s))
}

/// A tagged packet the receiver will work on: parseable headers and a
/// trailer whose fragment index lies inside its fragment count.
pub open spec fn acceptable(s: Seq<u8>) -> bool {
    &&& parseable(s)
    &&& (frag_count_spec(s) <= 1 || frag_idx_spec(s) < frag_count_spec(s))
}

/// The packed trailer word carried in the last four bytes of a tagged packet.
pub open spec fn trailer_word(s: Seq<u8>) -> u32 {
    crate::bytes::be32(s[s.len() - 4], s[s.len() - 3], s[s.len() - 2], s[s.len() - 1])
}

/// The fragment count of a tagged packet's trailer.
pub open spec fn frag_count_spec(s: Seq<u8>) -> u32 {
    trailer_word(s) >> 29
}

/// The sequence number of a tagged packet's trailer.
pub open spec fn seq_spec(s: Seq<u8>) -> u32 {
    (trailer_word(s) >> 3) & 0x3ffffff
}

/// The fragment index of a tagged packet's trailer.
pub open spec fn frag_idx_spec(s: Seq<u8>) -> u32 {
    trailer_word(s) & 0x7
}

/// The ordered reassembly state: the buffered logical packets sorted by
/// sequence, the next expected sequence, and the instant of the last
/// progress. `emitted` records the sequences emitted since the last
/// bootstrap; the receiver keeps it strictly increasing.
pub struct Receiver {
    pub packets: Vec<ReassembledPacket>,
    pub current: u32,
    pub last: u128,
    pub timeout: u128,
    pub snat: Option<Endpoint>,
    pub emitted: Ghost<Seq<u32>>,
}

/// The index of the buffered packet with sequence `seq`; meaningful when the
/// buffer holds one.
pub open spec fn buffer_index(s: Seq<ReassembledPacket>, seq: u32) -> int {
    choose|i: int| 0 <= i < s.len() && s[i].id == seq
}

/// Whether the buffer holds a packet with sequence `seq`.
pub open spec fn buffer_has(s: Seq<ReassembledPacket>, seq: u32) -> bool {
    exists|i: int| 0 <= i < s.len() && s[i].id == seq
}

impl Receiver {
    /// Nothing is waiting to leave: the head of the buffer, if any, is not a
    /// completed packet at the cursor.
    pub open spec fn quiescent(self) -> bool {
        self.packets@.len() > 0 ==> !(self.packets@[0].id == self.current
            && self.packets@[0].completed)
    }

    pub open spec fn wf(self) -> bool {
        &&& forall|i: int| 0 <= i < self.packets@.len() ==> (#[trigger] self.packets@[i]).wf()
        &&& forall|i: int, j: int|
            0 <= i < j < self.packets@.len() ==> self.packets@[i].id < self.packets@[j].id
        &&& forall|i: int|
            0 <= i < self.packets@.len() ==> (#[trigger] self.packets@[i]).id >= self.current
        &&& self.current < 0x4000000
        &&& (self.snat is None ==> forall|i: int|
            0 <= i < self.packets@.len() ==> (#[trigger] self.packets@[i]).msg is Some)
        &&& (self.snat is Some ==> forall|i: int|
            0 <= i < self.packets@.len() ==> (#[trigger] self.packets@[i]).msg is None)
        &&& forall|i: int, j: int|
            0 <= i < j < self.emitted@.len() ==> self.emitted@[i] < self.emitted@[j]
        &&& (self.emitted@.len() > 0 ==> (self.current == 0 || self.emitted@.last()
            < self.current))
        &&& (self.current == 0 && self.packets@.len() > 0 ==> self.emitted@.len() == 0)
    }

    /// A fresh receiver: empty buffer, cursor at zero, so that the first
    /// packet observed bootstraps the expected sequence.
    pub fn new(timeout: u128, snat: Option<Endpoint>) -> (r: Self)
        ensures
            r.wf(),
            r.packets@.len() == 0,
            r.current == 0,
            r.last == 0,
            r.timeout == timeout,
            r.snat == snat,
            r.emitted@ =~= Seq::<u32>::empty(),
    {
        Receiver {
            packets: Vec::new(),
            current: 0,
            last: 0,
            timeout,
            snat,
            emitted: Ghost(Seq::empty()),
        }
    }

    /// The insertion point for `seq`: the index of the first buffered packet
    /// whose sequence is not below it, and whether that packet has exactly
    /// sequence `seq`.
    fn position_for(&self, seq: u32) -> (r: (usize, bool))
        requires
            self.wf(),
        ensures
            r.0 <= self.packets@.len(),
            forall|j: int| 0 <= j < r.0 ==> self.packets@[j].id < seq,
            r.1 <==> (r.0 < self.packets@.len() && self.packets@[r.0 as int].id == seq),
            !r.1 && r.0 < self.packets@.len() ==> self.packets@[r.0 as int].id > seq,
            r.1 <==> (exists|k: int| 0 <= k < self.packets@.len() && self.packets@[k].id == seq),
    {
        let n = self.packets.len();
        let mut i: usize = 0;
        while i < n
            invariant
                n == self.packets@.len(),
                0 <= i <= n,
                forall|j: int| 0 <= j < i ==> self.packets@[j].id < seq,
                self.wf(),
            decreases n - i,
        {
            if self.packets[i].id >= seq {
                let found = self.packets[i].id == seq;
                proof {
                    if found {
                        assert(self.packets@[i as int].id == seq);
                    } else {
                        assert forall|k: int|
                            0 <= k < self.packets@.len() implies self.packets@[k].id != seq by {
                            if k > i {
                                assert(self.packets@[i as int].id < self.packets@[k].id);
                            }
                        }
                    }
                }
                return (i, found);
            }
            i = i + 1;
        }
        (n, false)
    }

    /// Buffers a newly observed logical packet at `pos`: one fragment slot
    /// per trailer fragment with the arriving chunk at its index, the IP and
    /// UDP headers buffered for the reassembly (the whole untagged datagram
    /// for a single fragment), and the queue handle held in forward mode.
    fn insert_new(
        &mut self,
        buf: &Vec<u8>,
        ihl: usize,
        fcount: u8,
        idx: u8,
        seq: u32,
        destination: Endpoint,
        handle: u64,
        pos: usize,
    ) -> (r: Disposition)
        requires
            old(self).wf(),
            20 <= ihl,
            ihl + 12 <= buf@.len(),
            fcount <= 7,
            fcount > 1 ==> idx < fcount,
            seq < 0x4000000,
            seq >= old(self).current,
            pos <= old(self).packets@.len(),
            forall|j: int| 0 <= j < pos ==> old(self).packets@[j].id < seq,
            pos < old(self).packets@.len() ==> old(self).packets@[pos as int].id > seq,
            old(self).current == 0 ==> old(self).emitted@.len() == 0,
        ensures
            final(self).wf(),
            final(self).current == old(self).current,
            final(self).last == old(self).last,
            final(self).timeout == old(self).timeout,
            final(self).snat == old(self).snat,
            final(self).emitted@ == old(self).emitted@,
            r is Held <==> old(self).snat is None,
            ({
                let e = final(self).packets@[pos as int];
                &&& final(self).packets@ == old(self).packets@.insert(pos as int, e)
                &&& e.id == seq
                &&& e.ip_header_length == ihl
                &&& e.destination == destination
                &&& (e.completed <==> fcount <= 1)
                &&& e.fragments@.len() == fcount
                &&& (fcount > 1 ==> e.fragments@[idx as int] is Some && slot_bytes(
                    e.fragments@[idx as int],
                ) == buf@.subrange(ihl + 8, buf@.len() - 4) && (forall|j: int|
                    0 <= j < fcount && j != idx ==> (#[trigger] e.fragments@[j]) is None)
                    && e.payload@ == buf@.subrange(0, ihl + 8))
                &&& (fcount <= 1 ==> e.payload@ == buf@.subrange(0, buf@.len() - 4))
                &&& (old(self).snat is None ==> e.msg == Some(handle))
                &&& (old(self).snat is Some ==> e.msg is None)
            }),
    {
        let n = buf.len();
        let fc = fcount as usize;
        let mut fragments: Vec<Option<Vec<u8>>> = Vec::new();
        let mut t: usize = 0;
        while t < fc
            invariant
                0 <= t <= fc,
                fragments@.len() == t,
                forall|i: int| 0 <= i < t ==> (#[trigger] fragments@[i]) is None,
            decreases fc - t,
        {
            fragments.push(None);
            t = t + 1;
        }
        let mut payload: Vec<u8> = Vec::new();
        let completed;
        if fc > 1 {
            push_range(&mut payload, buf, 0, ihl + 8);
            let mut chunk: Vec<u8> = Vec::new();
            push_range(&mut chunk, buf, ihl + 8, n - 4);
            fragments.set(idx as usize, Some(chunk));
            completed = false;
            proof {
                let w: int = if idx == 0 {
                    1
                } else {
                    0
                };
                assert(fragments@[w] is None);
            }
        } else {
            push_range(&mut payload, buf, 0, n - 4);
            completed = true;
        }
        let msg = match self.snat {
            Some(_) => None,
            None => Some(handle),
        };
        let rp = ReassembledPacket {
            id: seq,
            payload,
            ip_header_length: ihl,
            fragments,
            destination,
            completed,
            msg,
        };
        self.packets.insert(pos, rp);
        match self.snat {
            Some(_) => Disposition::DropNow,
            None => Disposition::Held,
        }
    }

    /// The liveness rule: when more than `timeout` milliseconds have passed
    /// since the last progress and something is buffered, the cursor jumps to
    /// the smallest buffered sequence, and the skipped distance is counted as
    /// dropped. The advance happens only when the age strictly exceeds the
    /// timeout.
    pub fn timeout_advance(&mut self, now: u128, stats: &mut Stats)
        requires
            old(self).wf(),
        ensures
            final(self).wf(),
            ({
                let fired = now > old(self).last && now - old(self).last > old(self).timeout
                    && old(self).packets@.len() > 0;
                if fired {
                    &&& final(self).current == old(self).packets@[0].id
                    &&& final(stats).recv_dropped == old(stats).recv_dropped.wrapping_add(
                        (old(self).packets@[0].id - old(self).current) as u64,
                    )
                } else {
                    &&& final(self).current == old(self).current
                    &&& final(stats).recv_dropped == old(stats).recv_dropped
                }
            }),
            *final(self) == (Receiver { current: final(self).current, ..*old(self) }),
            *final(stats) == (Stats { recv_dropped: final(stats).recv_dropped, ..*old(stats) }),
    {
        if self.packets.len() > 0 && now > self.last && now - self.last > self.timeout {
            let first = self.packets[0].id;
            let skip = first - self.current;
            stats.recv_dropped = stats.recv_dropped.wrapping_add(skip as u64);
            self.current = first;
        }
    }

    /// Emits the longest run of completed packets starting exactly at the
    /// cursor, in sequence order, advancing the cursor past each; emitting
    /// resets the progress instant. Each emitted datagram is the packet's
    /// reassembly with its length fields rebuilt and checksums zeroed.
    pub fn drain(&mut self, now: u128) -> (r: Vec<Emission>)
        requires
            old(self).wf(),
        ensures
            final(self).wf(),
            final(self).timeout == old(self).timeout && final(self).snat == old(self).snat,
            r@.len() <= old(self).packets@.len(),
            final(self).packets@ == old(self).packets@.skip(r@.len() as int),
            final(self).emitted@ == old(self).emitted@ + emission_ids(r@),
            forall|k: int|
                0 <= k < r@.len() ==> ({
                    let p = old(self).packets@[k];
                    &&& (#[trigger] r@[k]).sequence == p.id
                    &&& p.id == old(self).current + k
                    &&& p.completed
                    &&& r@[k].payload@ == patched(p.assembled(), p.ip_header_length as int)
                    &&& (old(self).snat is None ==> r@[k].kind == (EmissionKind::Forward {
                        handle: p.msg->Some_0,
                    }))
                    &&& (old(self).snat is Some ==> r@[k].kind == (EmissionKind::Proxy {
                        destination: p.destination,
                    }))
                }),
            r@.len() == 0 ==> final(self).current == old(self).current && final(self).last == old(
                self,
            ).last,
            r@.len() > 0 ==> final(self).current == wrap_inc(r@.last().sequence)
                && final(self).last == now,
            r@.len() == 0 ==> (old(self).packets@.len() == 0 || old(self).packets@[0].id != old(
                self,
            ).current || !old(self).packets@[0].completed),
    {
        let mut out: Vec<Emission> = Vec::new();
        while self.packets.len() > 0 && self.packets[0].id == self.current
            && self.packets[0].completed
            invariant
                self.wf(),
                self.timeout == old(self).timeout && self.snat == old(self).snat,
                out@.len() <= old(self).packets@.len(),
                self.packets@ == old(self).packets@.skip(out@.len() as int),
                self.emitted@ == old(self).emitted@ + emission_ids(out@),
                forall|k: int|
                    0 <= k < out@.len() ==> ({
                        let p = old(self).packets@[k];
                        &&& (#[trigger] out@[k]).sequence == p.id
                        &&& p.id == old(self).current + k
                        &&& p.completed
                        &&& out@[k].payload@ == patched(p.assembled(), p.ip_header_length as int)
                        &&& (old(self).snat is None ==> out@[k].kind == (EmissionKind::Forward {
                            handle: p.msg->Some_0,
                        }))
                        &&& (old(self).snat is Some ==> out@[k].kind == (EmissionKind::Proxy {
                            destination: p.destination,
                        }))
                    }),
                out@.len() == 0 ==> self.current == old(self).current && self.last == old(
                    self,
                ).last,
                out@.len() > 0 ==> self.current == wrap_inc(out@.last().sequence) && self.last
                    == now,
            decreases self.packets@.len(),
        {
            let ghost pre = *self;
            let ghost k = out@.len() as int;
            let mut p = self.packets.remove(0);
            proof {
                assert(old(self).packets@.skip(k)[0] == old(self).packets@[k]);
                assert(p == old(self).packets@[k]);
                if k > 0 {
                    assert(out@.last().sequence == old(self).packets@[k - 1].id);
                    assert(old(self).packets@[k - 1].id == old(self).current + k - 1);
                    assert(pre.current == wrap_inc(out@.last().sequence));
                    if out@.last().sequence == 0x3ffffff {
                        assert(pre.current == 0);
                        assert(pre.packets@.len() > 0);
                        assert(pre.emitted@.len() == 0);
                        assert(emission_ids(out@).len() == out@.len());
                        assert(false);
                    }
                }
            }
            p.finalize();
            let kind = match p.msg {
                Some(handle) => EmissionKind::Forward { handle },
                None => EmissionKind::Proxy { destination: p.destination },
            };
            let id = p.id;
            out.push(Emission { sequence: id, payload: p.payload, kind });
            self.current = if id == 0x3ffffff {
                0
            } else {
                id + 1
            };
            self.last = now;
            proof {
                self.emitted@ = self.emitted@.push(id);
            }
            proof {
                assert(self.packets@ =~= old(self).packets@.skip(k + 1));
                assert(emission_ids(out@) =~= emission_ids(out@.drop_last()).push(id));
                assert(self.emitted@ =~= old(self).emitted@ + emission_ids(out@));
                if id == 0x3ffffff {
                    if self.packets@.len() > 0 {
                        assert(self.packets@[0] == old(self).packets@[k + 1]);
                        assert(old(self).packets@[k + 1].id > old(self).packets@[k].id);
                        assert(false);
                    }
                    assert(self.packets@.len() == 0);
                }
            }
        }
        out
    }

    /// Handles one queued message at instant `now`. An undersized, non-UDP
    /// or malformed-trailer buffer is dropped and counted in `recv_dropped`;
    /// an arrival behind the cursor is dropped and counted in
    /// `recv_out_of_order`; anything else is buffered (the first observation
    /// of a `(sequence, fragment)` pair wins), the timeout rule may advance
    /// the cursor, and every completed packet in order from the cursor is
    /// emitted. When the cursor is zero and nothing is buffered, the first
    /// packet observed bootstraps the cursor to its own sequence.
    #[verifier::rlimit(100)]
    pub fn handle_message(
        &mut self,
        buf: Vec<u8>,
        handle: u64,
        now: u128,
        table: &mut SourceTable,
        stats: &mut Stats,
    ) -> (r: (Disposition, Vec<Emission>))
        requires
            old(self).wf(),
            old(table).wf(),
        ensures
            final(self).wf(),
            final(table).wf(),
            final(self).timeout == old(self).timeout && final(self).snat == old(self).snat,
            !acceptable(buf@) ==> ({
                &&& r.0 is DropNow && r.1@.len() == 0
                &&& *final(self) == *old(self) && *final(table) == *old(table)
                &&& *final(stats) == (Stats {
                    recv_dropped: old(stats).recv_dropped.wrapping_add(1),
                    ..*old(stats)
                })
            }),
            acceptable(buf@) && seq_spec(buf@) < old(self).current ==> ({
                &&& r.0 is DropNow && r.1@.len() == 0
                &&& *final(self) == *old(self) && *final(table) == *old(table)
                &&& *final(stats) == (Stats {
                    recv_out_of_order: old(stats).recv_out_of_order.wrapping_add(1),
                    ..*old(stats)
                })
            }),
            acceptable(buf@) && seq_spec(buf@) >= old(self).current ==> ({
                let s = buf@;
                let seq = seq_spec(s);
                let boot = old(self).current == 0 && old(self).packets@.len() == 0;
                let base = if boot {
                    Seq::<u32>::empty()
                } else {
                    old(self).emitted@
                };
                let vacant = !(exists|k: int|
                    0 <= k < old(self).packets@.len() && old(self).packets@[k].id == seq);
                let fired = now > old(self).last && now - old(self).last > old(self).timeout;
                let cur0 = if boot {
                    seq
                } else {
                    old(self).current
                };
                let min_after: u32 = if old(self).packets@.len() == 0 {
                    seq
                } else if vacant && seq < old(self).packets@[0].id {
                    seq
                } else {
                    old(self).packets@[0].id
                };
                &&& *final(stats) == (Stats {
                    recv_total: old(stats).recv_total.wrapping_add(1),
                    recv_bytes: old(stats).recv_bytes.wrapping_add(s.len() as u64),
                    recv_current: final(self).current as u64,
                    recv_dropped: final(stats).recv_dropped,
                    ..*old(stats)
                })
                &&& (fired ==> final(stats).recv_dropped == old(stats).recv_dropped.wrapping_add(
                    (min_after - cur0) as u64,
                ))
                &&& (!fired ==> final(stats).recv_dropped == old(stats).recv_dropped)
                &&& final(self).emitted@ == base + emission_ids(r.1@)
                &&& (r.1@.len() == 0 ==> final(self).last == old(self).last)
                &&& (r.1@.len() > 0 ==> final(self).last == now)
                &&& (old(self).snat is None ==> *final(table) == *old(table))
                &&& (r.0 is Held <==> (old(self).snat is None && vacant))
                &&& (old(self).snat is Some ==> ({
                    let dest_port = udp_dest_spec(s);
                    let remote = (Endpoint {
                        ip: source_ip_spec(s),
                        port: udp_source_spec(s),
                    });
                    &&& crate::snat::has_port(final(table).entries@, dest_port)
                    &&& ({
                        let src = final(table).entries@[crate::snat::port_index(
                            final(table).entries@,
                            dest_port,
                        )].1;
                        &&& crate::snat::has_endpoint(src.addrs@, remote)
                        &&& src.addrs@[crate::snat::endpoint_index(src.addrs@, remote)].1.last
                            == now
                    })
                    &&& forall|i: int|
                        0 <= i < old(table).entries@.len() && old(table).entries@[i].0 != dest_port
                            ==> final(table).entries@[i] == old(table).entries@[i]
                }))
                &&& (old(self).packets@.len() == 0 && frag_count_spec(s) <= 1 && (boot || seq
                    == old(self).current) ==> ({
                    &&& r.1@.len() == 1
                    &&& r.1@[0].sequence == seq
                    &&& final(self).current == wrap_inc(seq)
                    &&& final(self).packets@.len() == 0
                    &&& (old(self).snat is None ==> r.1@[0].payload@ == strip_single(s)
                        && r.1@[0].kind == (EmissionKind::Forward { handle }))
                }))
                &&& (old(self).packets@.len() == 0 && seq > cur0 && !fired ==> ({
                    &&& r.1@.len() == 0
                    &&& final(self).current == cur0
                    &&& final(self).packets@.len() == 1
                    &&& final(self).packets@[0].id == seq
                }))
                &&& (old(self).packets@.len() == 0 && seq > cur0 && fired && frag_count_spec(s)
                    <= 1 ==> ({
                    &&& r.1@.len() == 1
                    &&& r.1@[0].sequence == seq
                    &&& final(self).current == wrap_inc(seq)
                    &&& final(self).packets@.len() == 0
                }))
                &&& (vacant && frag_count_spec(s) > 1 ==> ({
                    let ihl = ip_header_len_spec(s);
                    let idx = frag_idx_spec(s) as int;
                    let e = final(self).packets@[buffer_index(final(self).packets@, seq)];
                    &&& buffer_has(final(self).packets@, seq)
                    &&& e.id == seq
                    &&& e.ip_header_length == ihl
                    &&& e.destination == (Endpoint { ip: dest_ip_spec(s), port: udp_dest_spec(s) })
                    &&& !e.completed
                    &&& e.fragments@.len() == frag_count_spec(s)
                    &&& e.fragments@[idx] is Some
                    &&& slot_bytes(e.fragments@[idx]) == s.subrange(ihl + 8, s.len() - 4)
                    &&& (forall|j: int|
                        0 <= j < e.fragments@.len() && j != idx ==> (#[trigger] e.fragments@[j])
                            is None)
                    &&& e.payload@.len() == ihl + 8
                    &&& (old(self).snat is None ==> e.payload@ == s.subrange(0, ihl + 8) && e.msg
                        == Some(handle))
                    &&& (old(self).snat is Some ==> ({
                        let snat = old(self).snat->Some_0;
                        &&& e.msg is None
                        &&& source_ip_spec(e.payload@) == snat.ip
                        &&& be16(e.payload@[ihl as int], e.payload@[ihl + 1]) == snat.port
                        &&& (forall|i: int|
                            0 <= i < ihl + 8 && !(12 <= i < 16) && i != ihl && i != ihl + 1
                                ==> e.payload@[i] == s[i])
                    }))
                    &&& (forall|k: int| 0 <= k < r.1@.len() ==> (#[trigger] r.1@[k]).sequence
                        != seq)
                }))
                &&& (vacant && frag_count_spec(s) <= 1 && buffer_has(final(self).packets@, seq)
                    ==> ({
                    let ihl = ip_header_len_spec(s);
                    let e = final(self).packets@[buffer_index(final(self).packets@, seq)];
                    &&& e.id == seq
                    &&& e.ip_header_length == ihl
                    &&& e.destination == (Endpoint { ip: dest_ip_spec(s), port: udp_dest_spec(s) })
                    &&& e.completed
                    &&& (old(self).snat is None ==> e.payload@ == s.subrange(0, s.len() - 4)
                        && e.msg == Some(handle))
                    &&& (old(self).snat is Some ==> ({
                        let snat = old(self).snat->Some_0;
                        &&& e.msg is None
                        &&& e.payload@.len() == s.len() - 4
                        &&& source_ip_spec(e.payload@) == snat.ip
                        &&& be16(e.payload@[ihl as int], e.payload@[ihl + 1]) == snat.port
                        &&& (forall|i: int|
                            0 <= i < s.len() - 4 && !(12 <= i < 16) && i != ihl && i != ihl + 1
                                ==> e.payload@[i] == s[i])
                    }))
                }))
                &&& (vacant && frag_count_spec(s) > 1 && seq == cur0 ==> ({
                    &&& r.1@.len() == 0
                    &&& final(self).current == cur0
                    &&& final(self).packets@.len() == old(self).packets@.len() + 1
                }))
                &&& (old(self).quiescent() && !fired && !vacant && seq != cur0 ==> ({
                    let bi = buffer_index(old(self).packets@, seq);
                    let e = old(self).packets@[bi].fragments@;
                    let idx = frag_idx_spec(s) as int;
                    let fits = frag_count_spec(s) > 1 && idx < e.len();
                    let chunk = buf@.subrange(ip_header_len_spec(s) + 8, s.len() - 4);
                    &&& r.1@.len() == 0
                    &&& r.0 is DropNow
                    &&& final(self).current == old(self).current
                    &&& final(self).last == old(self).last
                    &&& final(self).emitted@ == old(self).emitted@
                    &&& final(self).packets@.len() == old(self).packets@.len()
                    &&& (forall|i: int|
                        0 <= i < old(self).packets@.len() && i != bi ==> final(self).packets@[i]
                            == old(self).packets@[i])
                    &&& final(self).packets@[bi].id == seq
                    &&& final(self).packets@[bi].payload == old(self).packets@[bi].payload
                    &&& final(self).packets@[bi].fragments@.len() == e.len()
                    &&& (forall|j: int|
                        0 <= j < e.len() && (#[trigger] e[j]) is Some
                            ==> final(self).packets@[bi].fragments@[j] == e[j])
                    &&& (fits && e[idx] is None ==> final(self).packets@[bi].fragments@[idx]
                        is Some && slot_bytes(final(self).packets@[bi].fragments@[idx]) == chunk)
                    &&& (!(fits && e[idx] is None) ==> final(self).packets@[bi] == old(
                        self,
                    ).packets@[bi])
                }))
            }),
    {
        let n = buf.len();
        let parsed = match parse_packet(&buf) {
            Some(p) => p,
            None => {
                stats.recv_dropped = stats.recv_dropped.wrapping_add(1);
                return (Disposition::DropNow, Vec::new());
            },
        };
        let extra = Payload::from_bytes([buf[n - 4], buf[n - 3], buf[n - 2], buf[n - 1]]);
        let fcount = extra.fragments();
        let idx = extra.fragment();
        let seq = extra.sequence();
        if fcount > 1 && idx >= fcount {
            stats.recv_dropped = stats.recv_dropped.wrapping_add(1);
            return (Disposition::DropNow, Vec::new());
        }
        if self.current == 0 && self.packets.len() == 0 {
            proof {
                self.emitted@ = Seq::empty();
            }
            self.current = seq;
        }
        if seq < self.current {
            stats.recv_out_of_order = stats.recv_out_of_order.wrapping_add(1);
            return (Disposition::DropNow, Vec::new());
        }
        let mut buf = buf;
        let ihl = parsed.ip_header_len;
        let destination = Endpoint { ip: parsed.dest_ip, port: parsed.dest_port };
        match self.snat {
            Some(snat) => {
                let remote = Endpoint { ip: parsed.source_ip, port: parsed.source_port };
                write_ip(&mut buf, 12, snat.ip);
                write_be16(&mut buf, ihl, snat.port);
                table.observe(destination, remote, now);
            },
            None => {},
        }
        let (pos, found) = self.position_for(seq);
        let ghost pre_insert = *self;
        let ghost mut g_pos: int = 0;
        let disposition;
        if !found {
            proof {
                g_pos = pos as int;
            }
            disposition = self.insert_new(&buf, ihl, fcount, idx, seq, destination, handle, pos);
        } else {
            if fcount > 1 {
                let ghost pre = self.packets@;
                let mut entry = self.packets.remove(pos);
                if (idx as usize) < entry.fragments.len() {
                    if entry.fragments[idx as usize].is_none() {
                        let mut chunk: Vec<u8> = Vec::new();
                        push_range(&mut chunk, &buf, ihl + 8, n - 4);
                        entry.fragments.set(idx as usize, Some(chunk));
                        entry.completed = all_filled(&entry.fragments);
                    }
                }
                self.packets.insert(pos, entry);
                proof {
                    assert(self.packets@ =~= pre.update(pos as int, self.packets@[pos as int]));
                }
            }
            disposition = Disposition::DropNow;
        }
        let ghost post_insert = *self;
        self.timeout_advance(now, stats);
        let ghost post_timeout = *self;
        let out = self.drain(now);
        proof {
            if !found && fcount > 1 {
                let drained = out@.len() as int;
                assert(post_timeout.packets@ == post_insert.packets@);
                assert(post_insert.packets@[g_pos].id == seq);
                assert(!post_insert.packets@[g_pos].completed);
                if g_pos < drained {
                    assert(out@[g_pos].sequence == post_timeout.packets@[g_pos].id);
                    assert(post_timeout.packets@[g_pos].completed);
                    assert(false);
                }
                assert(self.packets@[g_pos - drained] == post_insert.packets@[g_pos]);
                assert(buffer_has(self.packets@, seq));
                let bi = buffer_index(self.packets@, seq);
                assert(0 <= bi < self.packets@.len() && self.packets@[bi].id == seq);
                if bi != g_pos - drained {
                    assert(self.packets@[bi].id != self.packets@[g_pos - drained].id);
                }
                assert forall|k: int|
                    0 <= k < out@.len() implies (#[trigger] out@[k]).sequence != seq by {
                    assert(out@[k].sequence == post_timeout.packets@[k].id);
                    if post_timeout.packets@[k].id == seq {
                        assert(post_timeout.packets@[k].id != post_timeout.packets@[g_pos].id);
                    }
                }
                if seq == pre_insert.current {
                    assert(g_pos == 0);
                    if out@.len() > 0 {
                        assert(post_timeout.packets@[0].completed);
                        assert(false);
                    }
                    assert(self.current == post_timeout.current);
                    assert(post_timeout.current == pre_insert.current);
                }
            }
            if !found && fcount <= 1 && buffer_has(self.packets@, seq) {
                let drained = out@.len() as int;
                assert(post_timeout.packets@ == post_insert.packets@);
                assert(post_insert.packets@[g_pos].id == seq);
                let bi = buffer_index(self.packets@, seq);
                assert(0 <= bi < self.packets@.len() && self.packets@[bi].id == seq);
                assert(self.packets@[bi] == post_timeout.packets@[bi + drained]);
                if bi + drained != g_pos {
                    assert(post_insert.packets@[bi + drained].id != post_insert.packets@[
                        g_pos
                    ].id);
                }
                assert(self.packets@[bi] == post_insert.packets@[g_pos]);
            }
        }
        stats.recv_total = stats.recv_total.wrapping_add(1);
        stats.recv_bytes = stats.recv_bytes.wrapping_add(n as u64);
        stats.recv_current = self.current as u64;
        (disposition, out)
    }
}

/// Everything the receiver needs from the command line.
pub struct ReceiverConfiguration {
    pub server: bool,
    pub ports: Option<Vec<u16>>,
    pub recv_queue: u16,
    pub recv_queue_max_len: u32,
    pub timeout: u128,
    pub snat: Option<Endpoint>,
}

impl core::convert::From<crate::types::Cli> for ReceiverConfiguration {
    fn from(cli: crate::types::Cli) -> (r: Self) {
        ReceiverConfiguration {
            server: cli.server,
            ports: cli.ports,
            recv_queue: cli.recv_queue,
            recv_queue_max_len: cli.recv_queue_max_len,
            timeout: cli.timeout,
            snat: cli.snat,
        }
    }
}

impl vstd::std_specs::convert::FromSpecImpl<crate::types::Cli> for ReceiverConfiguration {
    open spec fn obeys_from_spec() -> bool {
        true
    }

    open spec fn from_spec(cli: crate::types::Cli) -> Self {
        ReceiverConfiguration {
            server: cli.server,
            ports: cli.ports,
            recv_queue: cli.recv_queue,
            recv_queue_max_len: cli.recv_queue_max_len,
            timeout: cli.timeout,
            snat: cli.snat,
        }
    }
}

/// The sentinel source that stands in the server rule when no SNAT address
/// is configured.
pub open spec fn snat_sentinel() -> u32 {
    0x01020304
}

/// The diversion rules the receiver installs: on the client, one mangle
/// PREROUTING rule per intercepted port matching by source port; on the
/// server, one mangle INPUT rule per port matching by destination port,
/// excluding traffic from the SNAT address (or a sentinel) and taking only
/// unmarked packets.
pub fn iptables(configuration: &ReceiverConfiguration) -> (r: Vec<crate::utils::IptablesRule>)
    ensures
        ({
            match configuration.ports {
                None => r@.len() == 0,
                Some(ports) => {
                    &&& r@.len() == ports@.len()
                    &&& forall|k: int|
                        0 <= k < r@.len() ==> ({
                            let rule = #[trigger] r@[k];
                            &&& rule.mangle
                            &&& rule.queue_num == configuration.recv_queue
                            &&& (!configuration.server ==> rule.chain is Prerouting && rule.sport
                                == Some(ports@[k]) && rule.dport is None && rule.mark is None
                                && rule.src_excluded is None)
                            &&& (configuration.server ==> rule.chain is Input && rule.dport
                                == Some(ports@[k]) && rule.sport is None && rule.mark == Some(0u32)
                                && !rule.mark_negated && rule.src_excluded == Some(
                                match configuration.snat {
                                    Some(e) => e.ip,
                                    None => snat_sentinel(),
                                },
                            ))
                        })
                },
            }
        }),
{
    let mut rules: Vec<crate::utils::IptablesRule> = Vec::new();
    match &configuration.ports {
        None => {},
        Some(ports) => {
            let n = ports.len();
            let excluded: u32 = match configuration.snat {
                Some(e) => e.ip,
                None => 0x01020304,
            };
            let mut i: usize = 0;
            while i < n
                invariant
                    n == ports@.len(),
                    0 <= i <= n,
                    rules@.len() == i,
                    excluded == (match configuration.snat {
                        Some(e) => e.ip,
                        None => snat_sentinel(),
                    }),
                    forall|k: int|
                        0 <= k < i ==> ({
                            let rule = #[trigger] rules@[k];
                            &&& rule.mangle
                            &&& rule.queue_num == configuration.recv_queue
                            &&& (!configuration.server ==> rule.chain is Prerouting && rule.sport
                                == Some(ports@[k]) && rule.dport is None && rule.mark is None
                                && rule.src_excluded is None)
                            &&& (configuration.server ==> rule.chain is Input && rule.dport
                                == Some(ports@[k]) && rule.sport is None && rule.mark == Some(0u32)
                                && !rule.mark_negated && rule.src_excluded == Some(excluded))
                        }),
                decreases n - i,
            {
                let port = ports[i];
                let rule = if configuration.server {
                    crate::utils::IptablesRule {
                        mangle: true,
                        chain: crate::utils::Chain::Input,
                        dport: Some(port),
                        sport: None,
                        mark: Some(0),
                        mark_negated: false,
                        src_excluded: Some(excluded),
                        queue_num: configuration.recv_queue,
                    }
                } else {
                    crate::utils::IptablesRule {
                        mangle: true,
                        chain: crate::utils::Chain::Prerouting,
                        dport: None,
                        sport: Some(port),
                        mark: None,
                        mark_negated: false,
                        src_excluded: None,
                        queue_num: configuration.recv_queue,
                    }
                };
                rules.push(rule);
                i = i + 1;
            }
        },
    }
    rules
}

/// Removing the trailer keeps the length fields consistent: when the tagged
/// packet's UDP length field covers the whole datagram, the emitted packet's
/// UDP length is exactly 4 less, and its IP total length is the header
/// length plus that UDP length.
pub proof fn lemma_strip_lengths(s: Seq<u8>)
    requires
        parseable(s),
        udp_length_spec(s) == s.len() - ip_header_len_spec(s),
        s.len() - 4 <= 0xffff,
    ensures
        udp_length_spec(strip_single(s)) == udp_length_spec(s) - 4,
        total_length_spec(strip_single(s)) == ip_header_len_spec(s) + udp_length_spec(
            strip_single(s),
        ),
{
    let ihl = ip_header_len_spec(s);
    let out = strip_single(s);
    let m = s.len() - 4;
    let ulen = (m - ihl) % 0x10000;
    let tlen = (ihl + ulen) % 0x10000;
    assert(out[0] == s[0]);
    assert(ip_header_len_spec(out) == ihl);
    assert(out[ihl + 4] == (ulen / 256) as u8 && out[ihl + 5] == (ulen % 256) as u8);
    assert(out[2] == (tlen / 256) as u8 && out[3] == (tlen % 256) as u8);
    assert(ulen == m - ihl && tlen == ihl + ulen);
    assert(be16((ulen / 256) as u8, (ulen % 256) as u8) == ulen);
    assert(be16((tlen / 256) as u8, (tlen % 256) as u8) == tlen);
}

/// Stripping a tagged single-fragment copy recovers the captured packet up
/// to its rebuilt length fields: the tagged copy differs from the original
/// only in the four trailer bytes and the length and checksum fields, all
/// of which the strip rewrites from the restored size.
pub proof fn lemma_strip_recovers_original(s: Seq<u8>, t: Seq<u8>)
    requires
        20 <= ip_header_len_spec(s),
        ip_header_len_spec(s) + 8 <= s.len(),
        ip_header_len_spec(t) == ip_header_len_spec(s),
        t.len() == s.len() + 4,
        forall|i: int|
            0 <= i < s.len() && i != 2 && i != 3 && i != 10 && i != 11 && i != ip_header_len_spec(
                s,
            ) + 4 && i != ip_header_len_spec(s) + 5 && i != ip_header_len_spec(s) + 6 && i
                != ip_header_len_spec(s) + 7 ==> t[i] == s[i],
    ensures
        strip_single(t) =~= patched(s, ip_header_len_spec(s)),
{
    let ihl = ip_header_len_spec(s);
    let cut = t.subrange(0, t.len() - 4);
    assert(cut.len() == s.len());
    assert(cut[0] == t[0]);
    assert(strip_single(t) == patched(cut, ihl));
    assert forall|i: int| 0 <= i < s.len() implies patched(cut, ihl)[i] == patched(s, ihl)[i] by {
        if i != 2 && i != 3 && i != 10 && i != 11 && i != ihl + 4 && i != ihl + 5 && i != ihl + 6
            && i != ihl + 7 {
            assert(cut[i] == t[i]);
        }
    }
}

/// A packet whose length fields already cover its bytes and whose checksums
/// are already zero is a fixed point of the length rebuild.
pub proof fn lemma_patched_identity(s: Seq<u8>)
    requires
        20 <= ip_header_len_spec(s),
        ip_header_len_spec(s) + 8 <= s.len(),
        s.len() <= 0xffff,
        total_length_spec(s) == s.len(),
        udp_length_spec(s) == s.len() - ip_header_len_spec(s),
        s[10] == 0 && s[11] == 0,
        s[ip_header_len_spec(s) + 6] == 0 && s[ip_header_len_spec(s) + 7] == 0,
    ensures
        patched(s, ip_header_len_spec(s)) =~= s,
{
    let ihl = ip_header_len_spec(s);
    let ulen = (s.len() - ihl) % 0x10000;
    let tlen = (ihl + ulen) % 0x10000;
    assert(ulen == s.len() - ihl && tlen == s.len());
    lemma_be16_bytes(s[2], s[3], s.len() as int);
    lemma_be16_bytes(s[ihl + 4], s[ihl + 5], (s.len() - ihl) as int);
}

/// The two bytes of a 16-bit network-order field are its quotient and
/// remainder by 256.
proof fn lemma_be16_bytes(hi: u8, lo: u8, v: int)
    requires
        be16(hi, lo) == v,
    ensures
        hi == v / 256,
        lo == v % 256,
{
    assert(hi as int * 256 + lo as int == v);
    assert(hi == v / 256 && lo == v % 256) by (nonlinear_arith)
        requires
            hi as int * 256 + lo as int == v && 0 <= lo < 256 && 0 <= hi < 256,
    ;
}

/// What a reassembled fragmented packet emits: when the buffered bytes are
/// exactly the IP and UDP headers, the emitted datagram is those headers
/// followed by the fragment payloads concatenated in index order — its UDP
/// payload length is the sum of the observed fragment payload lengths — and
/// its UDP length field is the UDP header plus that sum, its IP total
/// length the header length plus the UDP length, both reduced to 16 bits,
/// with both checksums zeroed.
pub proof fn lemma_emitted_fragmented_payload(p: ReassembledPacket)
    requires
        p.wf(),
        p.fragments@.len() > 1,
        p.payload@.len() == p.ip_header_length + 8,
    ensures
        ({
            let out = patched(p.assembled(), p.ip_header_length as int);
            let ihl = p.ip_header_length as int;
            let cat = slots_concat(p.fragments@, p.fragments@.len() as int);
            &&& out.len() == ihl + 8 + slots_total(p.fragments@, p.fragments@.len() as int)
            &&& out.subrange(ihl + 8, out.len() as int) == cat
            &&& be16(out[ihl + 4], out[ihl + 5]) == (8 + cat.len()) % 0x10000
            &&& total_length_spec(out) == (ihl + (8 + cat.len()) % 0x10000) % 0x10000
            &&& out[10] == 0 && out[11] == 0 && out[ihl + 6] == 0 && out[ihl + 7] == 0
        }),
{
    let ihl = p.ip_header_length as int;
    let full = p.assembled();
    let cat = slots_concat(p.fragments@, p.fragments@.len() as int);
    let out = patched(full, ihl);
    lemma_concat_len_is_total(p.fragments@, p.fragments@.len() as int);
    assert(full.len() == ihl + 8 + cat.len());
    assert(out.subrange(ihl + 8, out.len() as int) =~= cat);
    let ulen = (full.len() - ihl) % 0x10000;
    let tlen = (ihl + ulen) % 0x10000;
    assert(be16(out[ihl + 4], out[ihl + 5]) == ((ulen / 256) as u8) as int * 256 + ((ulen
        % 256) as u8) as int);
    assert(ulen == (8 + cat.len()) % 0x10000);
    assert(0 <= ulen < 0x10000);
    assert((ulen / 256) * 256 + ulen % 256 == ulen);
    assert(be16(out[2], out[3]) == ((tlen / 256) as u8) as int * 256 + ((tlen % 256) as u8) as int);
    assert((tlen / 256) * 256 + tlen % 256 == tlen);
}

/// Sequences emitted since the last bootstrap are strictly increasing: any
/// gap between consecutive emissions can only come from the timeout rule,
/// which counts the skipped distance in `recv_dropped`.
pub proof fn lemma_emitted_strictly_increasing(r: Receiver)
    requires
        r.wf(),
    ensures
        forall|i: int, j: int| 0 <= i < j < r.emitted@.len() ==> r.emitted@[i] < r.emitted@[j],
{
}

/// No sequence is emitted twice within one bootstrap window, so no
/// `(sequence, fragment)` pair leaves the receiver more than once.
pub proof fn lemma_no_duplicate_emission(r: Receiver)
    requires
        r.wf(),
    ensures
        forall|i: int, j: int| 0 <= i < j < r.emitted@.len() ==> r.emitted@[i] != r.emitted@[j],
{
}

/// A reassembled logical packet is exactly as long as its buffered headers
/// plus the sum of the observed fragment payload lengths.
pub proof fn lemma_reassembled_length(p: ReassembledPacket)
    requires
        p.fragments@.len() > 1,
    ensures
        p.assembled().len() == p.payload@.len() + slots_total(
            p.fragments@,
            p.fragments@.len() as int,
        ),
{
    lemma_concat_len_is_total(p.fragments@, p.fragments@.len() as int);
}

/// The emission cursor after the first `k` packets of a stream: it starts
/// at the first packet's sequence and advances by one exactly on each
/// packet that carries it.
pub open spec fn stream_cursor(pkts: Seq<Vec<u8>>, k: int) -> int
    decreases k,
{
    if k <= 0 {
        seq_spec(pkts[0]@) as int
    } else if seq_spec(pkts[k - 1]@) == stream_cursor(pkts, k - 1) {
        stream_cursor(pkts, k - 1) + 1
    } else {
        stream_cursor(pkts, k - 1)
    }
}

/// One in-order stream step: with nothing buffered, a single-fragment
/// packet either carries exactly the expected sequence (or bootstraps a
/// fresh receiver) and is emitted stripped, or lies behind the cursor and
/// leaves the receiver unchanged.
#[verifier::rlimit(100)]
fn step_in_order(
    receiver: &mut Receiver,
    p: Vec<u8>,
    now: u128,
    table: &mut SourceTable,
    stats: &mut Stats,
) -> (r: Vec<Emission>)
    requires
        old(receiver).wf(),
        old(receiver).packets@.len() == 0,
        old(receiver).snat is None,
        old(table).wf(),
        acceptable(p@),
        frag_count_spec(p@) <= 1,
        seq_spec(p@) < 0x3ffffff,
        seq_spec(p@) <= old(receiver).current || old(receiver).current == 0,
    ensures
        final(receiver).wf(),
        final(receiver).packets@.len() == 0,
        final(receiver).snat is None,
        final(receiver).timeout == old(receiver).timeout,
        final(table).wf(),
        ({
            let seq = seq_spec(p@);
            let fresh = seq == old(receiver).current || old(receiver).current == 0;
            &&& (fresh ==> r@.len() == 1 && r@[0].sequence == seq && r@[0].payload@
                == strip_single(p@) && final(receiver).current == seq + 1)
            &&& (!fresh ==> r@.len() == 0 && *final(receiver) == *old(receiver))
        }),
{
    let (_, emissions) = receiver.handle_message(p, 0, now, table, stats);
    emissions
}

/// The stream cursor never moves backwards, and advances by at most one
/// per packet.
pub proof fn lemma_stream_cursor_monotone(pkts: Seq<Vec<u8>>, a: int, b: int)
    requires
        0 <= a <= b,
    ensures
        stream_cursor(pkts, a) <= stream_cursor(pkts, b),
        stream_cursor(pkts, b) <= stream_cursor(pkts, a) + (b - a),
    decreases b - a,
{
    if a < b {
        lemma_stream_cursor_monotone(pkts, a, b - 1);
    }
}

/// Feeding a fresh forward-mode receiver a stream of single-fragment
/// packets in sequence order, with duplicates of already delivered
/// sequences interleaved anywhere, reproduces the distinct packets: each
/// sequence is emitted exactly once, in order, with only its trailer
/// removed and its length fields rebuilt; duplicates are dropped and
/// nothing stays buffered.
#[verifier::rlimit(100)]
pub fn process_in_order(
    timeout: u128,
    packets: Vec<Vec<u8>>,
    now: u128,
    table: &mut SourceTable,
    stats: &mut Stats,
) -> (r: Vec<Emission>)
    requires
        old(table).wf(),
        packets@.len() > 0,
        forall|k: int|
            0 <= k < packets@.len() ==> acceptable((#[trigger] packets@[k])@) && frag_count_spec(
                packets@[k]@,
            ) <= 1 && seq_spec(packets@[k]@) <= stream_cursor(packets@, k),
        seq_spec(packets@[0]@) + packets@.len() < 0x4000000,
    ensures
        r@.len() == stream_cursor(packets@, packets@.len() as int) - seq_spec(packets@[0]@),
        forall|j: int|
            0 <= j < r@.len() ==> (#[trigger] r@[j]).sequence == seq_spec(packets@[0]@) + j,
        forall|k: int|
            0 <= k < packets@.len() && seq_spec((#[trigger] packets@[k])@) == stream_cursor(
                packets@,
                k,
            ) ==> r@[seq_spec(packets@[k]@) - seq_spec(packets@[0]@)].payload@ == strip_single(
                packets@[k]@,
            ),
{
    let mut receiver = Receiver::new(timeout, None);
    let mut out: Vec<Emission> = Vec::new();
    let n = packets.len();
    let ghost orig = packets@;
    let ghost seq0 = seq_spec(orig[0]@) as int;
    let mut k: usize = 0;
    let mut rest = packets;
    while k < n
        invariant
            n == orig.len(),
            0 <= k <= n,
            rest@ == orig.skip(k as int),
            out@.len() == stream_cursor(orig, k as int) - seq0,
            receiver.wf(),
            receiver.packets@.len() == 0,
            receiver.snat is None,
            table.wf(),
            seq0 == seq_spec(orig[0]@),
            seq0 + n < 0x4000000,
            seq0 <= stream_cursor(orig, k as int) <= seq0 + k,
            k >= 1 ==> receiver.current == stream_cursor(orig, k as int),
            k == 0 ==> receiver.current == 0,
            forall|j: int|
                0 <= j < n ==> acceptable((#[trigger] orig[j])@) && frag_count_spec(orig[j]@)
                    <= 1 && seq_spec(orig[j]@) <= stream_cursor(orig, j),
            forall|j: int| 0 <= j < out@.len() ==> (#[trigger] out@[j]).sequence == seq0 + j,
            forall|j: int|
                0 <= j < k && seq_spec((#[trigger] orig[j])@) == stream_cursor(orig, j)
                    ==> out@[seq_spec(orig[j]@) - seq0].payload@ == strip_single(orig[j]@),
        decreases n - k,
    {
        let p = rest.remove(0);
        let ghost pk = k as int;
        proof {
            assert(orig.skip(pk)[0] == orig[pk]);
            assert(rest@ =~= orig.skip(pk + 1));
            assert(stream_cursor(orig, pk + 1) == (if seq_spec(orig[pk]@) == stream_cursor(
                orig,
                pk,
            ) {
                stream_cursor(orig, pk) + 1
            } else {
                stream_cursor(orig, pk)
            }));
        }
        let ghost pre_out = out@;
        let mut emissions = step_in_order(&mut receiver, p, now, table, stats);
        out.append(&mut emissions);
        proof {
            assert forall|j: int|
                0 <= j < pk + 1 && seq_spec((#[trigger] orig[j])@) == stream_cursor(
                    orig,
                    j,
                ) implies out@[seq_spec(orig[j]@) - seq0].payload@ == strip_single(orig[j]@) by {
                let idx = seq_spec(orig[j]@) - seq0;
                lemma_stream_cursor_monotone(orig, 0, j);
                if j < pk {
                    lemma_stream_cursor_monotone(orig, j + 1, pk);
                    assert(idx < pre_out.len());
                    assert(out@[idx] == pre_out[idx]);
                } else {
                    assert(idx == pre_out.len());
                }
            }
        }
        k = k + 1;
    }
    out
}

/// Whether every fragment slot is filled.
fn all_filled(v: &Vec<Option<Vec<u8>>>) -> (r: bool)
    ensures
        r <==> (forall|i: int| 0 <= i < v@.len() ==> (#[trigger] v@[i]) is Some),
{
    let n = v.len();
    let mut i: usize = 0;
    while i < n
        invariant
            n == v@.len(),
            0 <= i <= n,
            forall|j: int| 0 <= j < i ==> (#[trigger] v@[j]) is Some,
        decreases n - i,
    {
        if v[i].is_none() {
            return false;
        }
        i = i + 1;
    }
    true
}

} // verus!
