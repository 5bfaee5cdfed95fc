use mpudp::receiver::{iptables as receiver_iptables, ReceiverConfiguration};
use mpudp::snat::{Source, SourceTable};
use mpudp::types::{Cli, Endpoint, Stats};
use mpudp::utils::{forwarding, xor_in_place, Chain, CommandGuard};
use mpudp::whitelist::{client_tag, u64_to_ascii, WhitelistConfiguration, WhitelistServer};

fn cli() -> Cli {
    Cli {
        server: true,
        silent: false,
        recv_queue: 1,
        recv_queue_max_len: 1310712,
        timeout: 100,
        queue: 0,
        queue_max_len: 1310712,
        ports: Some(vec![5000]),
        fwmark: 1970170112,
        table: 230,
        interfaces: vec!["wg0".to_string()],
        fragments: 1,
        fragment_threshold: 100,
        snat: Some(Endpoint { ip: 0xCB007101, port: 17566 }),
        ttl: 60000,
        remote: None,
        secret: Some(b"shared".to_vec()),
    }
}

#[test]
fn ascii_rendering_matches_decimal() {
    assert_eq!(u64_to_ascii(0), b"0");
    assert_eq!(u64_to_ascii(7), b"7");
    assert_eq!(u64_to_ascii(1234567890), b"1234567890");
    assert_eq!(u64_to_ascii(u64::MAX), format!("{}", u64::MAX).into_bytes());
}

#[test]
fn client_tag_is_real_hmac() {
    // The beacon tag is a genuine digest: 32 bytes, not the message bytes,
    // and different for different timestamps and secrets.
    let secret = b"shared".to_vec();
    let t1 = client_tag(&secret, 1000);
    let t2 = client_tag(&secret, 1001);
    assert_ne!(t1, t2);
    assert_ne!(&t1[..], &u64_to_ascii(1000)[..]);
    let other = client_tag(&b"other".to_vec(), 1000);
    assert_ne!(t1, other);
}

#[test]
fn server_accepts_fresh_tag_within_window() {
    let secret = b"shared".to_vec();
    let mut server = WhitelistServer::new(1000);
    let mut stats = Stats::new();
    // the client beaconed 30 seconds ago; still inside the 60 s window
    let datagram = client_tag(&secret, 1030).to_vec();
    let accepted = server.handle_datagram(&secret, &datagram, 0x0A000005, 1060, &mut stats);
    assert_eq!(accepted, Some(1030));
    assert_eq!(server.minimum, 1030);
    assert_eq!(stats.whitelisted, vec![0x0A000005]);
}

#[test]
fn server_rejects_replay_from_other_source() {
    // An accepted tag replayed from a different address 30 seconds later is
    // rejected: its timestamp no longer exceeds the stored minimum.
    let secret = b"shared".to_vec();
    let mut server = WhitelistServer::new(1000);
    let mut stats = Stats::new();
    let datagram = client_tag(&secret, 1030).to_vec();
    assert_eq!(
        server.handle_datagram(&secret, &datagram, 0x0A000005, 1031, &mut stats),
        Some(1030)
    );
    let replay = server.handle_datagram(&secret, &datagram, 0x0A000099, 1060, &mut stats);
    assert_eq!(replay, None);
    assert_eq!(stats.whitelisted, vec![0x0A000005]);
}

#[test]
fn server_accepted_timestamps_strictly_increase() {
    let secret = b"shared".to_vec();
    let mut server = WhitelistServer::new(1000);
    let mut stats = Stats::new();
    let first = server.handle_datagram(
        &secret,
        &client_tag(&secret, 1010).to_vec(),
        1,
        1010,
        &mut stats,
    );
    let second = server.handle_datagram(
        &secret,
        &client_tag(&secret, 1011).to_vec(),
        2,
        1011,
        &mut stats,
    );
    let stale = server.handle_datagram(
        &secret,
        &client_tag(&secret, 1011).to_vec(),
        3,
        1012,
        &mut stats,
    );
    assert_eq!(first, Some(1010));
    assert_eq!(second, Some(1011));
    assert_eq!(stale, None);
}

#[test]
fn server_ignores_wrong_sizes_and_stale_tags() {
    let secret = b"shared".to_vec();
    let mut server = WhitelistServer::new(1000);
    let mut stats = Stats::new();
    // not 32 bytes
    assert_eq!(server.handle_datagram(&secret, &vec![0u8; 31], 1, 1060, &mut stats), None);
    // a tag older than the window
    let old = client_tag(&secret, 990).to_vec();
    assert_eq!(server.handle_datagram(&secret, &old, 1, 1060, &mut stats), None);
    // garbage of the right size
    assert_eq!(server.handle_datagram(&secret, &vec![0u8; 32], 1, 1060, &mut stats), None);
    assert!(stats.whitelisted.is_empty());
}

#[test]
fn server_ignores_already_whitelisted_source() {
    let secret = b"shared".to_vec();
    let mut server = WhitelistServer::new(1000);
    let mut stats = Stats::new();
    stats.whitelisted.push(0x0A000005);
    let datagram = client_tag(&secret, 1030).to_vec();
    assert_eq!(server.handle_datagram(&secret, &datagram, 0x0A000005, 1031, &mut stats), None);
    assert_eq!(stats.whitelisted.len(), 1);
}

#[test]
fn source_attach_refreshes_and_inserts() {
    let mut source = Source::new(0xC0A80001, 5000);
    let e1 = Endpoint { ip: 1, port: 10 };
    let e2 = Endpoint { ip: 2, port: 20 };
    source.attach(e1, 100);
    source.attach(e2, 150);
    assert_eq!(source.addrs.len(), 2);
    source.attach(e1, 200);
    assert_eq!(source.addrs.len(), 2);
    assert_eq!(source.addrs[0].0, e1);
    assert_eq!(source.addrs[0].1.last, 200);
    assert_eq!(source.addrs[1].1.last, 150);
}

#[test]
fn sweep_prunes_only_expired_entries() {
    let mut table = SourceTable::new();
    table.observe(Endpoint { ip: 9, port: 5000 }, Endpoint { ip: 1, port: 10 }, 0);
    table.observe(Endpoint { ip: 9, port: 5000 }, Endpoint { ip: 2, port: 20 }, 500);
    // at now=1000 with ttl=1000 both survive: age equal to the TTL is kept
    table.sweep(1000, 1000);
    assert_eq!(table.entries[0].1.addrs.len(), 2);
    // at now=1400 the first entry's age 1400 exceeds the TTL
    table.sweep(1000, 1400);
    assert_eq!(table.entries[0].1.addrs.len(), 1);
    assert_eq!(table.entries[0].1.addrs[0].0, Endpoint { ip: 2, port: 20 });
    // sources themselves are never removed
    assert_eq!(table.entries.len(), 1);
}

#[test]
fn receiver_rules_client_and_server() {
    let mut cfg = ReceiverConfiguration::from(cli());
    cfg.server = false;
    let rules = receiver_iptables(&cfg);
    assert_eq!(rules.len(), 1);
    assert!(matches!(rules[0].chain, Chain::Prerouting));
    assert_eq!(rules[0].sport, Some(5000));
    assert_eq!(rules[0].mark, None);
    cfg.server = true;
    let rules = receiver_iptables(&cfg);
    assert!(matches!(rules[0].chain, Chain::Input));
    assert_eq!(rules[0].dport, Some(5000));
    assert_eq!(rules[0].mark, Some(0));
    assert!(!rules[0].mark_negated);
    assert_eq!(rules[0].src_excluded, Some(0xCB007101));
    // without a SNAT address the sentinel stands in
    cfg.snat = None;
    let rules = receiver_iptables(&cfg);
    assert_eq!(rules[0].src_excluded, Some(0x01020304));
}

#[test]
fn command_guard_records_call_and_cleanup() {
    let guard = CommandGuard::new("iptables")
        .call("-I INPUT -s 10.0.0.5 -j ACCEPT".to_string())
        .cleanup("-D INPUT -s 10.0.0.5 -j ACCEPT".to_string());
    assert_eq!(guard.command, "iptables");
    assert!(!guard.server);
    assert_eq!(guard.call_args.as_deref(), Some("-I INPUT -s 10.0.0.5 -j ACCEPT"));
    assert_eq!(guard.cleanup_args.as_deref(), Some("-D INPUT -s 10.0.0.5 -j ACCEPT"));
    let guard = CommandGuard::server("ip");
    assert!(guard.server);
}

#[test]
fn forwarding_guard_records_sysctl_and_restore() {
    // forwarding was off before: the cleanup restores it to off
    let guard = forwarding(false);
    assert_eq!(guard.command, "sysctl");
    assert_eq!(guard.call_args.as_deref(), Some("-w net.ipv4.ip_forward=1"));
    assert_eq!(guard.cleanup_args.as_deref(), Some("-w net.ipv4.ip_forward=0"));
    // forwarding was already on: the cleanup writes the saved value back
    let guard = forwarding(true);
    assert_eq!(guard.cleanup_args.as_deref(), Some("-w net.ipv4.ip_forward=1"));
}

#[test]
fn xor_in_place_is_an_involution() {
    let original = b"some packet bytes".to_vec();
    let mut buf = original.clone();
    xor_in_place(&mut buf, 3);
    assert_ne!(buf, original);
    xor_in_place(&mut buf, 3);
    assert_eq!(buf, original);
}

#[test]
fn xor_in_place_uses_seed_offset() {
    let mut a = vec![0u8; 4];
    let mut b = vec![0u8; 4];
    xor_in_place(&mut a, 0);
    xor_in_place(&mut b, 1);
    // seed 0 starts at 'v' of the key, seed 1 at 'e'
    assert_eq!(a[0], b'v');
    assert_eq!(b[0], b'e');
}

#[test]
fn configurations_take_their_slice_of_the_cli() {
    let c = cli();
    let sender = mpudp::sender::SenderConfiguration::from(c.clone());
    assert_eq!(sender.queue, 0);
    assert_eq!(sender.fwmark, 1970170112);
    assert_eq!(sender.ttl, 60000);
    assert_eq!(sender.snat, Some(Endpoint { ip: 0xCB007101, port: 17566 }));
    let receiver = ReceiverConfiguration::from(c.clone());
    assert_eq!(receiver.recv_queue, 1);
    assert_eq!(receiver.timeout, 100);
    let whitelist = WhitelistConfiguration::from(c.clone());
    assert_eq!(whitelist.secret.as_deref(), Some(b"shared".as_slice()));
    assert!(whitelist.server);
    let status = mpudp::types::StatusConfiguration::from(c);
    assert_eq!(status.interfaces, vec!["wg0".to_string()]);
}

#[test]
fn stats_start_at_zero() {
    let stats = Stats::new();
    assert_eq!(stats.send_total, 0);
    assert_eq!(stats.recv_total, 0);
    assert_eq!(stats.recv_dropped, 0);
    assert!(!stats.send_ready);
    assert!(!stats.recv_ready);
    assert!(stats.whitelisted.is_empty());
}
