use mpudp::receiver::{process_in_order, Disposition, EmissionKind, Receiver};
use mpudp::sender::build_fragment;
use mpudp::snat::SourceTable;
use mpudp::types::{Endpoint, Stats};

fn packet(src_ip: u32, src_port: u16, dst_ip: u32, dst_port: u16, payload: &[u8]) -> Vec<u8> {
    let mut v = vec![0u8; 20];
    v[0] = 0x45;
    v[9] = 17;
    v[12..16].copy_from_slice(&src_ip.to_be_bytes());
    v[16..20].copy_from_slice(&dst_ip.to_be_bytes());
    v.extend_from_slice(&src_port.to_be_bytes());
    v.extend_from_slice(&dst_port.to_be_bytes());
    let ulen = (8 + payload.len()) as u16;
    v.extend_from_slice(&ulen.to_be_bytes());
    v.extend_from_slice(&[0, 0]);
    v.extend_from_slice(payload);
    let total = v.len() as u16;
    v[2..4].copy_from_slice(&total.to_be_bytes());
    v
}

fn tagged(payload: &[u8], f: u8, seq: u32, frag: u8) -> Vec<u8> {
    let base = packet(0x0A000001, 1234, 0x0A000002, 4321, payload);
    build_fragment(&base, 20, f, frag, seq)
}

/// The stripped form the receiver emits for a single-fragment packet built
/// from `packet(...)`: the same bytes, since our base packets already carry
/// consistent lengths and zero checksums.
fn stripped(payload: &[u8]) -> Vec<u8> {
    packet(0x0A000001, 1234, 0x0A000002, 4321, payload)
}

#[test]
fn in_order_stream_is_reproduced() {
    // Three packets, trailers (1,0,0), (1,1,0), (1,2,0): emitted in order,
    // cursor ends at 3, nothing dropped.
    let mut rx = Receiver::new(100, None);
    let mut table = SourceTable::new();
    let mut stats = Stats::new();
    let inputs: [&[u8]; 3] = [b"first", b"second", b"third"];
    for (k, p) in inputs.iter().enumerate() {
        let buf = tagged(p, 1, k as u32, 0);
        let (disp, emissions) = rx.handle_message(buf, k as u64, 0, &mut table, &mut stats);
        assert_eq!(disp, Disposition::Held);
        assert_eq!(emissions.len(), 1);
        assert_eq!(emissions[0].sequence, k as u32);
        assert_eq!(emissions[0].payload, stripped(p));
        match emissions[0].kind {
            EmissionKind::Forward { handle } => assert_eq!(handle, k as u64),
            EmissionKind::Proxy { .. } => panic!("forward mode"),
        }
    }
    assert_eq!(stats.recv_current, 3);
    assert_eq!(stats.recv_dropped, 0);
    assert_eq!(stats.recv_total, 3);
}

#[test]
fn duplicate_delivery_emits_once() {
    // The same packet on two interfaces: the second arrival lies behind the
    // cursor and is dropped without touching recv_dropped.
    let mut rx = Receiver::new(100, None);
    let mut table = SourceTable::new();
    let mut stats = Stats::new();
    let buf = tagged(b"only", 1, 0, 0);
    let (_, emissions) = rx.handle_message(buf.clone(), 1, 0, &mut table, &mut stats);
    assert_eq!(emissions.len(), 1);
    let (disp, emissions) = rx.handle_message(buf, 2, 0, &mut table, &mut stats);
    assert_eq!(disp, Disposition::DropNow);
    assert_eq!(emissions.len(), 0);
    assert_eq!(stats.recv_dropped, 0);
    assert_eq!(stats.recv_out_of_order, 1);
}

#[test]
fn lost_sequence_is_skipped_after_timeout() {
    // Packet 0 arrives and is emitted; packet 2 arrives and is buffered;
    // sequence 1 is lost. When the timeout has strictly passed, the cursor
    // jumps to 2, the skip is counted, and packet 2 is emitted.
    let mut rx = Receiver::new(100, None);
    let mut table = SourceTable::new();
    let mut stats = Stats::new();
    let (_, e0) = rx.handle_message(tagged(b"zero", 1, 0, 0), 1, 0, &mut table, &mut stats);
    assert_eq!(e0.len(), 1);
    let (_, e2) = rx.handle_message(tagged(b"two", 1, 2, 0), 2, 0, &mut table, &mut stats);
    assert_eq!(e2.len(), 0);
    // a duplicate of packet 2 arrives after the timeout window
    let (_, e3) = rx.handle_message(tagged(b"two", 1, 2, 0), 3, 150, &mut table, &mut stats);
    assert_eq!(e3.len(), 1);
    assert_eq!(e3[0].sequence, 2);
    assert_eq!(e3[0].payload, stripped(b"two"));
    assert_eq!(stats.recv_dropped, 1);
    assert_eq!(stats.recv_current, 3);
}

#[test]
fn fragments_reassemble_in_order() {
    // F=3, in-order arrival: one emission whose payload is the
    // concatenation and whose lengths match the original packet.
    let mut rx = Receiver::new(100, None);
    let mut table = SourceTable::new();
    let mut stats = Stats::new();
    let payload = b"abcdefghi";
    let f0 = tagged(payload, 3, 0, 0);
    let f1 = tagged(payload, 3, 0, 1);
    let f2 = tagged(payload, 3, 0, 2);
    let (d0, e0) = rx.handle_message(f0, 1, 0, &mut table, &mut stats);
    assert_eq!(d0, Disposition::Held);
    assert_eq!(e0.len(), 0);
    let (d1, e1) = rx.handle_message(f1, 2, 0, &mut table, &mut stats);
    assert_eq!(d1, Disposition::DropNow);
    assert_eq!(e1.len(), 0);
    let (d2, e2) = rx.handle_message(f2, 3, 0, &mut table, &mut stats);
    assert_eq!(d2, Disposition::DropNow);
    assert_eq!(e2.len(), 1);
    assert_eq!(e2[0].sequence, 0);
    assert_eq!(e2[0].payload, stripped(payload));
}

#[test]
fn duplicate_fragment_keeps_first_observation() {
    // The first observation of a (sequence, fragment) pair wins: a second
    // copy of fragment 0 changes nothing, and the packet still completes.
    let mut rx = Receiver::new(100, None);
    let mut table = SourceTable::new();
    let mut stats = Stats::new();
    let payload = b"abcdef";
    let _ = rx.handle_message(tagged(payload, 2, 0, 0), 1, 0, &mut table, &mut stats);
    let (d, e) = rx.handle_message(tagged(payload, 2, 0, 0), 2, 0, &mut table, &mut stats);
    assert_eq!(d, Disposition::DropNow);
    assert_eq!(e.len(), 0);
    let (_, e) = rx.handle_message(tagged(payload, 2, 0, 1), 3, 0, &mut table, &mut stats);
    assert_eq!(e.len(), 1);
    assert_eq!(e[0].payload, stripped(payload));
}

#[test]
fn first_packet_bootstraps_cursor() {
    // A fresh receiver accepts whatever sequence it sees first.
    let mut rx = Receiver::new(100, None);
    let mut table = SourceTable::new();
    let mut stats = Stats::new();
    let (_, e) = rx.handle_message(tagged(b"boot", 1, 4242, 0), 1, 0, &mut table, &mut stats);
    assert_eq!(e.len(), 1);
    assert_eq!(e[0].sequence, 4242);
    assert_eq!(stats.recv_current, 4243);
    assert_eq!(stats.recv_dropped, 0);
}

#[test]
fn wraparound_sequence_bootstraps_again() {
    // After emitting sequence 2^26-1 the cursor wraps to 0, so the next
    // packet with sequence 0 is taken as a bootstrap and emitted.
    let max = (1u32 << 26) - 1;
    let mut rx = Receiver::new(100, None);
    let mut table = SourceTable::new();
    let mut stats = Stats::new();
    let (_, e) = rx.handle_message(tagged(b"last", 1, max, 0), 1, 0, &mut table, &mut stats);
    assert_eq!(e.len(), 1);
    assert_eq!(e[0].sequence, max);
    assert_eq!(stats.recv_current, 0);
    let (_, e) = rx.handle_message(tagged(b"fresh", 1, 0, 0), 2, 0, &mut table, &mut stats);
    assert_eq!(e.len(), 1);
    assert_eq!(e[0].sequence, 0);
    assert_eq!(stats.recv_current, 1);
}

#[test]
fn timeout_equal_age_does_not_advance() {
    // The advance fires only when the age strictly exceeds the timeout.
    let mut rx = Receiver::new(100, None);
    let mut table = SourceTable::new();
    let mut stats = Stats::new();
    let _ = rx.handle_message(tagged(b"zero", 1, 0, 0), 1, 0, &mut table, &mut stats);
    let _ = rx.handle_message(tagged(b"two", 1, 2, 0), 2, 0, &mut table, &mut stats);
    rx.timeout_advance(100, &mut stats); // age == timeout: no advance
    assert_eq!(stats.recv_dropped, 0);
    rx.timeout_advance(101, &mut stats); // age > timeout: advance
    assert_eq!(stats.recv_dropped, 1);
    let out = rx.drain(101);
    assert_eq!(out.len(), 1);
    assert_eq!(out[0].sequence, 2);
}

#[test]
fn undersized_and_non_udp_are_counted_dropped() {
    let mut rx = Receiver::new(100, None);
    let mut table = SourceTable::new();
    let mut stats = Stats::new();
    let (d, e) = rx.handle_message(vec![0u8; 31], 1, 0, &mut table, &mut stats);
    assert_eq!(d, Disposition::DropNow);
    assert!(e.is_empty());
    assert_eq!(stats.recv_dropped, 1);
    let mut tcp = tagged(b"data", 1, 0, 0);
    tcp[9] = 6;
    let (d, e) = rx.handle_message(tcp, 2, 0, &mut table, &mut stats);
    assert_eq!(d, Disposition::DropNow);
    assert!(e.is_empty());
    assert_eq!(stats.recv_dropped, 2);
    assert_eq!(stats.recv_total, 0);
}

#[test]
fn missing_fragment_blocks_until_buffered() {
    // Six of seven fragments: the packet stays buffered and incomplete,
    // nothing is emitted.
    let mut rx = Receiver::new(100, None);
    let mut table = SourceTable::new();
    let mut stats = Stats::new();
    let payload = b"abcdefghijklmn";
    for frag in 0..7u8 {
        if frag == 3 {
            continue;
        }
        let (_, e) = rx.handle_message(tagged(payload, 7, 0, frag), frag as u64, 0, &mut table, &mut stats);
        assert_eq!(e.len(), 0);
    }
    assert_eq!(rx.packets.len(), 1);
    assert!(!rx.packets[0].completed);
}

#[test]
fn trailer_removal_shrinks_lengths_by_four() {
    // After trailer removal the UDP length field is the tagged one minus 4,
    // and the IP total length is the header length plus that UDP length.
    let mut rx = Receiver::new(100, None);
    let mut table = SourceTable::new();
    let mut stats = Stats::new();
    let buf = tagged(b"payload", 1, 0, 0);
    let tagged_udp = u16::from_be_bytes([buf[24], buf[25]]);
    let tagged_total = u16::from_be_bytes([buf[2], buf[3]]);
    let (_, e) = rx.handle_message(buf, 1, 0, &mut table, &mut stats);
    let out = &e[0].payload;
    let udp = u16::from_be_bytes([out[24], out[25]]);
    let total = u16::from_be_bytes([out[2], out[3]]);
    assert_eq!(udp, tagged_udp - 4);
    assert_eq!(total, tagged_total - 4);
    assert_eq!(total, 20 + udp);
}

#[test]
fn fragment_index_outside_count_is_dropped() {
    // A trailer claiming fragment 5 of 3 is malformed and never buffered.
    let mut rx = Receiver::new(100, None);
    let mut table = SourceTable::new();
    let mut stats = Stats::new();
    let mut buf = tagged(b"abcdef", 3, 0, 0);
    let last = buf.len() - 1;
    buf[last] = (buf[last] & !7) | 5;
    let (d, e) = rx.handle_message(buf, 1, 0, &mut table, &mut stats);
    assert_eq!(d, Disposition::DropNow);
    assert!(e.is_empty());
    assert_eq!(stats.recv_dropped, 1);
    assert_eq!(rx.packets.len(), 0);
}

#[test]
fn process_in_order_matches_inputs() {
    let mut table = SourceTable::new();
    let mut stats = Stats::new();
    let inputs: [&[u8]; 3] = [b"aa", b"bb", b"cc"];
    let packets: Vec<Vec<u8>> = inputs
        .iter()
        .enumerate()
        .map(|(k, p)| tagged(p, 1, 10 + k as u32, 0))
        .collect();
    let out = process_in_order(100, packets, 0, &mut table, &mut stats);
    assert_eq!(out.len(), 3);
    for (k, p) in inputs.iter().enumerate() {
        assert_eq!(out[k].sequence, 10 + k as u32);
        assert_eq!(out[k].payload, stripped(p));
    }
}

#[test]
fn process_in_order_drops_interleaved_duplicates() {
    // Duplicate copies of already delivered sequences, interleaved anywhere,
    // change nothing: each distinct packet still comes out exactly once.
    let mut table = SourceTable::new();
    let mut stats = Stats::new();
    let p0 = tagged(b"aa", 1, 10, 0);
    let p1 = tagged(b"bb", 1, 11, 0);
    let p2 = tagged(b"cc", 1, 12, 0);
    let stream = vec![p0.clone(), p1.clone(), p0, p2, p1];
    let out = process_in_order(100, stream, 0, &mut table, &mut stats);
    assert_eq!(out.len(), 3);
    for (k, p) in [b"aa", b"bb", b"cc"].iter().enumerate() {
        assert_eq!(out[k].sequence, 10 + k as u32);
        assert_eq!(out[k].payload, stripped(*p));
    }
    assert_eq!(stats.recv_out_of_order, 2);
}

#[test]
fn snat_mode_proxies_and_records_source() {
    // Inbound to dst port 5000 from 10.0.0.5:40000: the source table gains
    // an entry keyed by 5000 recording the remote endpoint, the emission is
    // a proxy send to the original destination, and the emitted bytes carry
    // the SNAT source.
    let snat = Endpoint { ip: 0xCB007101, port: 17566 };
    let mut rx = Receiver::new(100, Some(snat));
    let mut table = SourceTable::new();
    let mut stats = Stats::new();
    let base = packet(0x0A000005, 40000, 0xC0A80001, 5000, b"inbound");
    let buf = build_fragment(&base, 20, 1, 0, 0);
    let (d, e) = rx.handle_message(buf, 1, 7, &mut table, &mut stats);
    assert_eq!(d, Disposition::DropNow);
    assert_eq!(e.len(), 1);
    match e[0].kind {
        EmissionKind::Proxy { destination } => {
            assert_eq!(destination, Endpoint { ip: 0xC0A80001, port: 5000 });
        }
        EmissionKind::Forward { .. } => panic!("proxy mode"),
    }
    // the emitted datagram's source is rewritten to the SNAT address
    assert_eq!(&e[0].payload[12..16], &0xCB007101u32.to_be_bytes());
    assert_eq!(&e[0].payload[20..22], &17566u16.to_be_bytes());
    // the source table records the client endpoint
    let idx = table.find(5000).expect("source created");
    let source = &table.entries[idx].1;
    assert_eq!(source.port, 5000);
    assert_eq!(source.addrs.len(), 1);
    assert_eq!(source.addrs[0].0, Endpoint { ip: 0x0A000005, port: 40000 });
    assert_eq!(source.addrs[0].1.last, 7);
}
