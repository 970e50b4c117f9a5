use duckwatch::wireguard::config::{base64_decode, parse_wg_conf};
use duckwatch::wireguard::crypto::CryptoError;
use duckwatch::wireguard::engine::{new_handshake, timestamp_lt, Config, CountMinSketch, Message, PeerIndex, Sessions};
use duckwatch::wireguard::messages::{mac1_key, HandshakeInit, IpAddress, SocketAddress};
use duckwatch::wireguard::protocol::{monotonic_tai64n, public_key, static_private_key, StaticPeerConfig, Tai64N};
use duckwatch::wireguard::replay::AntiReplay;
use duckwatch::wireguard::session::{Error, PeerId};
use duckwatch::wireguard::transport::{constant_time_eq, frame_payload, nonce, unframe_payload, DecryptionKey, EncryptionKey};
use rand_core::SeedableRng;

fn hex(s: &str) -> Vec<u8> {
    (0..s.len()).step_by(2).map(|i| u8::from_str_radix(&s[i..i + 2], 16).unwrap()).collect()
}

fn arr32(v: &[u8]) -> [u8; 32] {
    let mut a = [0u8; 32];
    a.copy_from_slice(v);
    a
}

#[test]
fn base64_keys_decode() {
    let k = base64_decode(b"AQIDBAUGBwgJCgsMDQ4PEBESExQVFhcYGRobHB0eHyA=").unwrap();
    let want: Vec<u8> = (1..=32).collect();
    assert_eq!(k.to_vec(), want);
    assert!(base64_decode(b"AQIDBAUGBwgJCgsMDQ4PEBESExQVFhcYGRobHB0eHyA").is_none());
    assert!(base64_decode(b"AQIDBAUGBwgJCgsMDQ4PEBESExQVFhcYGRobHB0eH*A=").is_none());
    assert!(base64_decode(b"AQIDBAUGBwgJCgsMDQ4PEBESExQVFhcYGRobHB0eHyA?").is_none());
}

#[test]
fn configuration_file_is_read() {
    let text = b"[Interface]\nPrivateKey = AQIDBAUGBwgJCgsMDQ4PEBESExQVFhcYGRobHB0eHyA=\nAddress = 10.0.0.2/24\nDNS = 1.1.1.1\n\n[Peer]\nPublicKey = ZWZnaGlqa2xtbm9wcXJzdHV2d3h5ent8fX5/gIGCg4Q=\nEndpoint = vpn.example.com:51820\nPersistentKeepalive = 25\n";
    let c = parse_wg_conf(text).unwrap();
    assert_eq!(c.private_key.to_vec(), (1..=32).collect::<Vec<u8>>());
    assert_eq!(c.peer_public_key.to_vec(), (101..=132).collect::<Vec<u8>>());
    assert_eq!(c.endpoint_host, b"vpn.example.com".to_vec());
    assert_eq!(c.endpoint_port, 51820);
    assert_eq!((c.address.address, c.address.prefix_len), ([10, 0, 0, 2], 24));
    assert_eq!(c.dns, Some([1, 1, 1, 1]));
    assert_eq!(c.persistent_keepalive, 25);
    let no_peer = b"[Interface]\nPrivateKey = AQIDBAUGBwgJCgsMDQ4PEBESExQVFhcYGRobHB0eHyA=\nAddress = 10.0.0.2/24\n";
    assert!(parse_wg_conf(no_peer).is_none());
}

#[test]
fn x25519_public_key_matches_the_rfc_vector() {
    let sk = arr32(&hex("77076d0a7318a57d3c16c17251b26645df4c2f87ebc0992ab177fba51db92c2a"));
    let cfg = Config::new(static_private_key(&sk));
    assert!(cfg.static_.private_key.0 == sk);
    assert_eq!(cfg.static_.public_key.0.to_vec(), hex("8520f0098930a754748b7ddcb43ef75a0dbf3a0d26381af4eba4a98eaa9b4e6a"));
    assert_eq!(cfg.static_.mac1_key, mac1_key(&cfg.static_.public_key.0));
    assert!(public_key(&[5; 32]).0 == [5; 32]);
}

#[test]
fn mac1_key_is_blake2s_of_label_and_key() {
    let k = mac1_key(&[7u8; 32]);
    assert_eq!(k.to_vec(), hex("ad12395d018396ce38e3746dec16720d5fb99e24b77324cbb3a760369d8c9970"));
}

#[test]
fn nonce_is_zero_prefixed_little_endian_counter() {
    assert_eq!(nonce(0x0102030405060708), [0, 0, 0, 0, 8, 7, 6, 5, 4, 3, 2, 1]);
    assert!(constant_time_eq(b"abc", b"abc"));
    assert!(!constant_time_eq(b"abc", b"abd"));
    assert!(!constant_time_eq(b"abc", b"ab"));
}

#[test]
fn transport_keys_round_trip_and_refuse_replays() {
    let key = [42u8; 32];
    let mut tx = EncryptionKey::new(key);
    let mut rx = DecryptionKey::new(key);
    let plain = *b"sixteen byte msg";
    let mut buf = plain.to_vec();
    let tag = tx.encrypt(&mut buf);
    assert_ne!(buf, plain.to_vec());
    assert_eq!(tx.counter(), 1);
    buf.extend_from_slice(&tag.0);
    let sealed = buf.clone();
    assert_eq!(rx.decrypt(0, &mut buf), Ok(16));
    assert_eq!(&buf[..16], &plain);
    let mut again = sealed.clone();
    assert_eq!(rx.decrypt(0, &mut again), Err(CryptoError::Rejected));
    assert_eq!(again, sealed);
    let mut forged = sealed.clone();
    forged[0] ^= 1;
    assert_eq!(rx.decrypt(1, &mut forged), Err(CryptoError::DecryptionError));
    let mut wrong_key = DecryptionKey::new([1u8; 32]);
    let mut other = sealed.clone();
    assert_eq!(wrong_key.decrypt(0, &mut other), Err(CryptoError::DecryptionError));
    assert_eq!(other, sealed);
}

#[test]
fn replay_window_accepts_each_counter_once() {
    let mut w = AntiReplay::default();
    assert!(w.would_accept(0));
    w.mark_seen(0);
    assert!(!w.would_accept(0));
    assert!(w.would_accept(5));
    w.mark_seen(5000);
    assert!(w.would_accept(4000));
    assert!(!w.would_accept(5000 - 1984));
    assert!(w.would_accept(5000 - 1983));
    w.mark_seen(4999);
    assert!(!w.would_accept(4999));
    assert!(w.would_accept(5001));
}

#[test]
fn framing_pads_to_sixteen_and_unframes() {
    let mut out = [0xAAu8; 40];
    let n = frame_payload(b"hello", &mut out);
    assert_eq!(n, 16);
    assert_eq!(&out[..7], &[0, 5, b'h', b'e', b'l', b'l', b'o']);
    assert!(out[7..16].iter().all(|&b| b == 0));
    assert!(out[16..].iter().all(|&b| b == 0xAA));
    assert_eq!(unframe_payload(&out[..n]), Some(&b"hello"[..]));
    assert_eq!(unframe_payload(&[0]), None);
    assert_eq!(unframe_payload(&[0, 9, 1, 2]), None);
    let mut big = [0u8; 32];
    assert_eq!(frame_payload(&[1u8; 14], &mut big), 16);
    assert_eq!(frame_payload(&[1u8; 15], &mut big), 32);
}

#[test]
fn timestamps_compare_and_advance() {
    let t = monotonic_tai64n(2_500_000);
    assert!(t == Tai64N { secs: 0x6000_0000 + 2, nanos: 500_000_000 });
    assert_eq!(t.to_bytes(), [0, 0, 0, 0, 0x60, 0, 0, 2, 0x1D, 0xCD, 0x65, 0]);
    assert!(t.lt(&t.add_secs(1)));
    assert!(!t.lt(&t));
    assert!(timestamp_lt(&[0; 12], &t.to_bytes()));
    assert!(!timestamp_lt(&t.to_bytes(), &t.to_bytes()));
}

#[test]
fn rate_limit_sketch_counts_a_key() {
    let mut s = CountMinSketch::with_params(7);
    assert_eq!(s.count(&99), 1);
    assert_eq!(s.count(&99), 2);
    assert!(s.count(&100) >= 1);
    s.reset(8);
    assert_eq!(s.count(&99), 1);
}

#[test]
fn peers_are_found_by_public_key() {
    let mut idx = PeerIndex::new();
    assert!(idx.find(&[1; 32]).is_none());
    idx.insert_unique([1; 32], PeerId(0));
    idx.insert_unique([2; 32], PeerId(1));
    assert!(idx.find(&[2; 32]) == Some(PeerId(1)));
    let mut cfg = Config::new(static_private_key(&[9; 32]));
    let a = cfg.insert_peer(StaticPeerConfig::new(public_key(&[1; 32]), None, None));
    let b = cfg.insert_peer(StaticPeerConfig::new(public_key(&[2; 32]), None, None));
    let a2 = cfg.insert_peer(StaticPeerConfig::new(public_key(&[1; 32]), Some([5; 32]), None));
    assert!(a == PeerId(0) && b == PeerId(1) && a2 == a);
    assert!(cfg.get_peer_idx(&public_key(&[2; 32])) == Some(PeerId(1)));
    assert!(cfg.get_peer_idx(&public_key(&[3; 32])).is_none());
    assert_eq!(cfg.peers.len(), 2);
    assert_eq!(cfg.peers[0].preshared_key, [5; 32]);
}

fn addr(last: u8) -> SocketAddress {
    SocketAddress { ip: IpAddress::V4([192, 168, 1, last]), port: 51820 }
}

fn engine(own: u8, peer: u8, peer_addr: SocketAddress, seed: u64) -> Sessions {
    let peer_public = Config::new(static_private_key(&[peer; 32])).static_.public_key;
    let mut cfg = Config::new(static_private_key(&[own; 32]));
    cfg.insert_peer(StaticPeerConfig::new(peer_public, Some([3; 32]), Some(peer_addr)));
    let mut rng = rand_chacha::ChaCha20Rng::seed_from_u64(seed);
    let mut s = Sessions::new(cfg, &mut rng);
    s.turn(monotonic_tai64n(1_000_000), &mut rng);
    s
}

#[test]
fn handshake_then_data_between_two_engines() {
    let mut alice = engine(1, 2, addr(2), 11);
    let mut bob = engine(2, 1, addr(1), 22);
    let init = new_handshake(&mut alice, PeerId(0)).ok().unwrap();
    let mut wire = init.to_bytes();
    assert_eq!(wire.len(), 148);
    assert_eq!(&wire[..4], &[1, 0, 0, 0]);
    let parsed = HandshakeInit::from_bytes(&wire).unwrap();
    assert_eq!(parsed.to_bytes(), wire);

    let n = match bob.recv_message(addr(1), &mut wire) {
        Ok(Message::Write(n)) => n,
        _ => panic!("initiation not answered"),
    };
    assert_eq!(n, 92);
    let mut resp = wire[..n].to_vec();
    assert_eq!(&resp[..4], &[2, 0, 0, 0]);
    let enc = match alice.recv_message(addr(2), &mut resp) {
        Ok(Message::HandshakeComplete(e)) => e,
        _ => panic!("response not taken"),
    };

    let mut packet = vec![0u8; 16 + 16 + 16];
    frame_payload(b"ping", &mut packet[16..32]);
    assert!(enc.encrypt_and_frame(&mut alice, &mut packet));
    assert_eq!(&packet[..4], &[4, 0, 0, 0]);
    let mut replayed = packet.clone();
    match bob.recv_message(addr(1), &mut packet) {
        Ok(Message::Read(peer, len)) => {
            assert!(peer == PeerId(0));
            assert_eq!(len, 16);
            assert_eq!(unframe_payload(&packet[16..16 + len]), Some(&b"ping"[..]));
        },
        _ => panic!("data not decrypted"),
    }
    assert!(matches!(bob.recv_message(addr(1), &mut replayed), Err(Error::Rejected)));
}

#[test]
fn unknown_or_short_messages_are_invalid() {
    let mut s = engine(1, 2, addr(2), 5);
    assert!(matches!(s.recv_message(addr(2), &mut [1, 0]), Err(Error::InvalidMessage)));
    assert!(matches!(s.recv_message(addr(2), &mut [9, 0, 0, 0, 0, 0]), Err(Error::InvalidMessage)));
    assert!(matches!(s.recv_message(addr(2), &mut [1, 0, 0, 0, 0, 0]), Err(Error::InvalidMessage)));
    let mut forged = vec![0u8; 148];
    forged[0] = 1;
    assert!(matches!(s.recv_message(addr(2), &mut forged), Err(Error::Rejected)));
}

#[test]
fn unanswered_handshake_is_retried_when_its_timer_runs_out() {
    let mut alice = engine(1, 2, addr(2), 31);
    let mut rng = rand_chacha::ChaCha20Rng::seed_from_u64(32);
    assert!(new_handshake(&mut alice, PeerId(0)).is_ok());
    assert!(alice.turn(monotonic_tai64n(3_000_000), &mut rng).is_none());
    let retry = alice.turn(monotonic_tai64n(6_500_000), &mut rng).unwrap();
    assert!(retry.to() == addr(2));
    let data = retry.data();
    assert_eq!(data.len(), 148);
    assert_eq!(&data[..4], &[1, 0, 0, 0]);
}

#[test]
fn replayed_or_stale_initiations_are_refused() {
    let mut alice = engine(1, 2, addr(2), 41);
    let mut bob = engine(2, 1, addr(1), 42);
    let init = new_handshake(&mut alice, PeerId(0)).ok().unwrap();
    let wire = init.to_bytes();
    let mut first = wire.clone();
    assert!(matches!(bob.recv_message(addr(1), &mut first), Ok(Message::Write(92))));
    // The same initiation again is answered too: its timestamp is not older.
    let mut again = wire.clone();
    assert!(matches!(bob.handle_handshake_init(addr(1), &mut again), Ok(92)));
    // An initiation from a key bob does not know opens to an unknown peer.
    let mut carol = engine(3, 2, addr(2), 43);
    let stranger = new_handshake(&mut carol, PeerId(0)).ok().unwrap();
    let mut w = stranger.to_bytes();
    assert!(matches!(bob.handle_handshake_init(addr(3), &mut w), Err(Error::KeyExchangeError)));
}

#[test]
fn initiation_with_bad_tag_is_a_decryption_error() {
    let mut alice = engine(1, 2, addr(2), 51);
    let mut bob = engine(2, 1, addr(1), 52);
    let init = new_handshake(&mut alice, PeerId(0)).ok().unwrap();
    let mut tampered = init;
    tampered.static_key.tag.0[0] ^= 1;
    tampered.mac1 = tampered.compute_mac1(&mac1_key(&bob.config.static_.public_key.0));
    let mut w = tampered.to_bytes();
    let before = w.clone();
    assert!(matches!(bob.handle_handshake_init(addr(1), &mut w), Err(Error::DecryptionError)));
    assert_eq!(w, before);
}

#[test]
fn response_to_no_handshake_is_rejected() {
    let mut alice = engine(1, 2, addr(2), 61);
    let mut bob = engine(2, 1, addr(1), 62);
    let init = new_handshake(&mut alice, PeerId(0)).ok().unwrap();
    let mut wire = init.to_bytes();
    assert!(matches!(bob.recv_message(addr(1), &mut wire), Ok(Message::Write(92))));
    let mut resp = wire[..92].to_vec();
    // Point the response at an index alice never used.
    resp[8] ^= 0xFF;
    let m = mac1_key(&alice.config.static_.public_key.0);
    let mut r = duckwatch::wireguard::messages::HandshakeResp::from_bytes(&resp).unwrap();
    r.mac1 = r.compute_mac1(&m);
    let mut forged = r.to_bytes();
    assert!(matches!(alice.handle_handshake_resp(addr(2), &mut forged), Err(Error::Rejected)));
    assert!(matches!(alice.handle_handshake_resp(addr(2), &mut [2, 0, 0, 0]), Err(Error::InvalidMessage)));
}

#[test]
fn marking_inside_the_window_keeps_other_verdicts() {
    let mut w = AntiReplay::default();
    w.mark_seen(100);
    w.mark_seen(90);
    assert!(!w.would_accept(90));
    assert!(w.would_accept(95));
    w.mark_seen(150);
    assert!(w.would_accept(95));
    assert!(!w.would_accept(90));
    assert!(!w.would_accept(100));
    assert!(w.would_accept(120));
    assert!(w.would_accept(151));
}

#[test]
fn configuration_is_read_as_utf8_text() {
    let good = "[Interface]\nPrivateKey = AQIDBAUGBwgJCgsMDQ4PEBESExQVFhcYGRobHB0eHyA=\u{a0}\nAddress =\u{2003}10.0.0.2/24\n\n[Peer]\nPublic\u{212a}ey = ZWZnaGlqa2xtbm9wcXJzdHV2d3h5ent8fX5/gIGCg4Q=\nEndpoint = vpn.example.com:51820\u{3000}\n";
    let c = parse_wg_conf(good.as_bytes()).unwrap();
    assert_eq!(c.private_key.to_vec(), (1..=32).collect::<Vec<u8>>());
    assert_eq!(c.peer_public_key.to_vec(), (101..=132).collect::<Vec<u8>>());
    assert_eq!((c.address.address, c.address.prefix_len), ([10, 0, 0, 2], 24));
    assert_eq!(c.endpoint_port, 51820);
    let mut bad = good.as_bytes().to_vec();
    bad.push(0xFF);
    assert!(parse_wg_conf(&bad).is_none());
    let mut cut = good.as_bytes().to_vec();
    cut.extend_from_slice(&[0xE2, 0x82]);
    assert!(parse_wg_conf(&cut).is_none());
}
