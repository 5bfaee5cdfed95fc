use mpudp::receiver::Receiver;
use mpudp::sender::{
    build_fragment, choose_source_port, fragment_count, iptables, prepare_packets, strategy_for,
    SenderConfiguration, SourceStrategy,
};
use mpudp::snat::SourceTable;
use mpudp::trailer::Payload;
use mpudp::types::{Endpoint, Interface, Stats};
use mpudp::utils::Chain;

fn packet(src_ip: u32, src_port: u16, dst_ip: u32, dst_port: u16, payload: &[u8]) -> Vec<u8> {
    let mut v = vec![0u8; 20];
    v[0] = 0x45;
    v[9] = 17;
    v[12..16].copy_from_slice(&src_ip.to_be_bytes());
    v[16..20].copy_from_slice(&dst_ip.to_be_bytes());
    v.extend_from_slice(&src_port.to_be_bytes());
    v.extend_from_slice(&dst_port.to_be_bytes());
    let ulen = (8 + payload.len()) as u16;
    v.extend_from_slice(&ulen.to_be_bytes());
    v.extend_from_slice(&[0, 0]);
    v.extend_from_slice(payload);
    let total = v.len() as u16;
    v[2..4].copy_from_slice(&total.to_be_bytes());
    v
}

fn config() -> SenderConfiguration {
    SenderConfiguration {
        server: false,
        queue: 0,
        fwmark: 1970170112,
        queue_max_len: 1310712,
        ports: None,
        fragments: 1,
        fragment_threshold: 100,
        snat: None,
        ttl: 60000,
        source_port: None,
        source_rotate_ms: None,
        destination: None,
    }
}

#[test]
fn fragment_count_follows_threshold_and_interfaces() {
    let mut cfg = config();
    cfg.fragments = 3;
    cfg.fragment_threshold = 100;
    assert_eq!(fragment_count(&cfg, 4, 99), 1); // below the threshold
    assert_eq!(fragment_count(&cfg, 4, 100), 3); // at the threshold
    assert_eq!(fragment_count(&cfg, 2, 200), 2); // capped by interfaces
}

#[test]
fn build_fragment_single_appends_trailer_and_grows_lengths() {
    let base = packet(0x0A000001, 1111, 0x0A000002, 2222, b"hello");
    let out = build_fragment(&base, 20, 1, 0, 9);
    assert_eq!(out.len(), base.len() + 4);
    // UDP length grew by 4; IP total length consistently
    assert_eq!(&out[24..26], &(8u16 + 5 + 4).to_be_bytes());
    assert_eq!(&out[2..4], &(20u16 + 8 + 5 + 4).to_be_bytes());
    // payload intact, trailer decodes back
    assert_eq!(&out[28..33], b"hello");
    let trailer = Payload::from_bytes([out[33], out[34], out[35], out[36]]);
    assert_eq!(trailer.fragments(), 1);
    assert_eq!(trailer.sequence(), 9);
    assert_eq!(trailer.fragment(), 0);
}

#[test]
fn build_fragment_splits_payload_with_remainder_on_last() {
    let base = packet(1, 1, 2, 2, b"aabbccdd"); // 8 bytes, f=3: 2,2,4
    let f0 = build_fragment(&base, 20, 3, 0, 0);
    let f1 = build_fragment(&base, 20, 3, 1, 0);
    let f2 = build_fragment(&base, 20, 3, 2, 0);
    assert_eq!(&f0[28..f0.len() - 4], b"aa");
    assert_eq!(&f1[28..f1.len() - 4], b"bb");
    assert_eq!(&f2[28..f2.len() - 4], b"ccdd");
}

#[test]
fn prepare_packets_forward_mode_one_copy_per_interface() {
    let mut cfg = config();
    cfg.fragments = 7;
    cfg.fragment_threshold = 10;
    let interfaces: Vec<Interface> = (0..7u32)
        .map(|k| Interface::new(format!("wg{}", k), 0x0A000100 + k))
        .collect();
    let sources = SourceTable::new();
    let base = packet(0x0A000001, 1111, 0x0A000002, 2222, b"abcdefghijklmn");
    let out = prepare_packets(&cfg, &interfaces, &sources, &base, 20, 5, 33333);
    assert_eq!(out.len(), 7);
    for (k, o) in out.iter().enumerate() {
        assert_eq!(o.interface, k);
        assert_eq!(o.destination, Endpoint { ip: 0x0A000002, port: 2222 });
        // each interface carries exactly one distinct fragment index
        let b = &o.bytes;
        let t = Payload::from_bytes([b[b.len() - 4], b[b.len() - 3], b[b.len() - 2], b[b.len() - 1]]);
        assert_eq!(t.fragment(), k as u8);
        assert_eq!(t.fragments(), 7);
        assert_eq!(t.sequence(), 5);
        // source rewritten to the interface address and the chosen port
        assert_eq!(&b[12..16], &(0x0A000100 + k as u32).to_be_bytes());
        assert_eq!(&b[20..22], &33333u16.to_be_bytes());
    }
}

#[test]
fn prepare_packets_destination_override() {
    let mut cfg = config();
    cfg.destination = Some(Endpoint { ip: 0x08080808, port: 9 });
    let interfaces = vec![Interface::new("wg0".to_string(), 1)];
    let sources = SourceTable::new();
    let base = packet(0x0A000001, 1111, 0x0A000002, 2222, b"x");
    let out = prepare_packets(&cfg, &interfaces, &sources, &base, 20, 0, 1111);
    assert_eq!(out.len(), 1);
    // the IP destination is overridden, the UDP port kept
    assert_eq!(out[0].destination, Endpoint { ip: 0x08080808, port: 2222 });
    assert_eq!(&out[0].bytes[16..20], &0x08080808u32.to_be_bytes());
}

#[test]
fn prepare_packets_snat_mode_sends_to_recorded_endpoints() {
    // Return traffic for service port 5000: the sender consults the source
    // table and readdresses each copy to the recorded client endpoint.
    let mut cfg = config();
    cfg.snat = Some(Endpoint { ip: 0xCB007101, port: 17566 });
    let mut table = SourceTable::new();
    table.observe(
        Endpoint { ip: 0xC0A80001, port: 5000 },
        Endpoint { ip: 0x0A000005, port: 40000 },
        0,
    );
    let interfaces = vec![Interface::new("wg0".to_string(), 1)];
    let base = packet(0xC0A80001, 5000, 0x0A000005, 40000, b"reply");
    let out = prepare_packets(&cfg, &interfaces, &table, &base, 20, 0, 5000);
    assert_eq!(out.len(), 1);
    assert_eq!(out[0].destination, Endpoint { ip: 0x0A000005, port: 40000 });
    assert_eq!(&out[0].bytes[12..16], &0xC0A80001u32.to_be_bytes());
    assert_eq!(&out[0].bytes[20..22], &5000u16.to_be_bytes());
    assert_eq!(&out[0].bytes[16..20], &0x0A000005u32.to_be_bytes());
    assert_eq!(&out[0].bytes[22..24], &40000u16.to_be_bytes());
}

#[test]
fn prepare_packets_snat_mode_without_source_sends_nothing() {
    let mut cfg = config();
    cfg.snat = Some(Endpoint { ip: 1, port: 2 });
    let table = SourceTable::new();
    let interfaces = vec![Interface::new("wg0".to_string(), 1)];
    let base = packet(1, 7000, 2, 8000, b"zz");
    let out = prepare_packets(&cfg, &interfaces, &table, &base, 20, 0, 7000);
    assert!(out.is_empty());
}

#[test]
fn sender_and_receiver_round_trip_via_tunnel() {
    // Packets leaving prepare_packets feed a receiver and come out as the
    // original datagrams.
    let cfg = config();
    let interfaces = vec![Interface::new("wg0".to_string(), 0x0A000101)];
    let sources = SourceTable::new();
    let mut rx = Receiver::new(100, None);
    let mut table = SourceTable::new();
    let mut stats = Stats::new();
    for (k, body) in [b"one".as_slice(), b"two", b"three"].iter().enumerate() {
        let base = packet(0x0A000001, 1111, 0x0A000002, 2222, body);
        let out = prepare_packets(&cfg, &interfaces, &sources, &base, 20, k as u32, 1111);
        assert_eq!(out.len(), 1);
        let (_, emissions) =
            rx.handle_message(out[0].bytes.clone(), k as u64, 0, &mut table, &mut stats);
        assert_eq!(emissions.len(), 1);
        // the emitted packet carries the interface source and the payload
        assert_eq!(&emissions[0].payload[28..], *body);
        assert_eq!(&emissions[0].payload[12..16], &0x0A000101u32.to_be_bytes());
    }
    assert_eq!(stats.recv_current, 3);
}

#[test]
fn source_strategy_fixed_and_original() {
    let mut s = SourceStrategy::Original;
    assert_eq!(choose_source_port(&mut s, 777, 0), 777);
    let mut s = SourceStrategy::Fixed(1234);
    assert_eq!(choose_source_port(&mut s, 777, 0), 1234);
}

#[test]
fn source_strategy_random_stays_in_range() {
    let mut s = SourceStrategy::Random;
    for _ in 0..100 {
        let p = choose_source_port(&mut s, 777, 0);
        assert!((10000..=65535).contains(&p));
    }
}

#[test]
fn source_strategy_rotating_renews_after_interval() {
    let mut s = SourceStrategy::Rotating { current: 20000, interval: 50, last: 0 };
    let before = choose_source_port(&mut s, 777, 10);
    assert_eq!(before, 20000); // interval not yet elapsed
    let after = choose_source_port(&mut s, 777, 50);
    assert!((10000..=65535).contains(&after));
    match s {
        SourceStrategy::Rotating { current, last, .. } => {
            assert_eq!(current, after);
            assert_eq!(last, 50);
        }
        _ => panic!("still rotating"),
    }
}

#[test]
fn strategy_for_selects_by_configuration() {
    let mut cfg = config();
    assert!(matches!(strategy_for(&cfg, 0), SourceStrategy::Original));
    cfg.source_port = Some(5555);
    assert!(matches!(strategy_for(&cfg, 0), SourceStrategy::Fixed(5555)));
    cfg.source_port = Some(0);
    assert!(matches!(strategy_for(&cfg, 0), SourceStrategy::Random));
    cfg.source_rotate_ms = Some(250);
    match strategy_for(&cfg, 3) {
        SourceStrategy::Rotating { current, interval, last } => {
            assert!((10000..=65535).contains(&current));
            assert_eq!(interval, 250);
            assert_eq!(last, 3);
        }
        _ => panic!("expected rotating"),
    }
}

#[test]
fn sender_rules_client_and_server() {
    let mut cfg = config();
    cfg.ports = Some(vec![4000, 4001]);
    let rules = iptables(&cfg);
    assert_eq!(rules.len(), 2);
    for (k, rule) in rules.iter().enumerate() {
        assert!(rule.mangle);
        assert!(matches!(rule.chain, Chain::Output));
        assert_eq!(rule.dport, Some(4000 + k as u16));
        assert_eq!(rule.sport, None);
        assert_eq!(rule.mark, Some(cfg.fwmark));
        assert!(rule.mark_negated);
        assert_eq!(rule.queue_num, 0);
    }
    cfg.server = true;
    let rules = iptables(&cfg);
    assert_eq!(rules[0].sport, Some(4000));
    assert_eq!(rules[0].dport, None);
}
