use blitzguard::envelope::{decode, encode, MTU};
use blitzguard::registry::PeerRegistry;
use blitzguard::relay::{
    inbound_step, CloseReason, InboundAction, InboundEvent, OutboundAction, OutboundEvent,
    OutboundPump,
};

// A stand-in for the encryption gateway: a tag byte, then the bytes xor-ed
// with a key. Decryption fails on a wrong tag.
fn seal(p: &[u8]) -> Vec<u8> {
    let mut c = vec![0xa5];
    c.extend(p.iter().map(|b| b ^ 0x3c));
    c
}

fn open(c: &[u8]) -> Result<Vec<u8>, String> {
    match c.split_first() {
        Some((0xa5, rest)) => Ok(rest.iter().map(|b| b ^ 0x3c).collect()),
        _ => Err("bad tag".to_string()),
    }
}

fn ip_packet(n: usize) -> Vec<u8> {
    let mut p = vec![0x45, 0x00];
    p.extend((0..n).map(|i| (i % 256) as u8));
    p
}

#[test]
fn inbound_encrypts_tun_packet() {
    let p = ip_packet(40);
    match inbound_step(InboundEvent::TunPacket(p.clone())) {
        InboundAction::Encrypt(q) => assert_eq!(q, p),
        _ => panic!("expected Encrypt"),
    }
}

#[test]
fn inbound_drops_packet_over_mtu() {
    let p = vec![0u8; MTU + 1];
    assert!(matches!(inbound_step(InboundEvent::TunPacket(p)), InboundAction::ReadTun));
    let q = vec![0u8; MTU];
    assert!(matches!(inbound_step(InboundEvent::TunPacket(q)), InboundAction::Encrypt(_)));
}

#[test]
fn inbound_continues_after_errors() {
    assert!(matches!(inbound_step(InboundEvent::TunFailed), InboundAction::ReadTun));
    assert!(matches!(inbound_step(InboundEvent::EncryptFailed), InboundAction::ReadTun));
    let huge = vec![0u8; 70000];
    assert!(matches!(inbound_step(InboundEvent::Encrypted(huge)), InboundAction::ReadTun));
}

#[test]
fn inbound_envelopes_ciphertext() {
    let c = seal(&ip_packet(10));
    match inbound_step(InboundEvent::Encrypted(c.clone())) {
        InboundAction::Send(e) => assert_eq!(e, encode(&c).unwrap()),
        _ => panic!("expected Send"),
    }
}

#[test]
fn outbound_writes_decrypted_packet() {
    let packet = ip_packet(60);
    let envelope = encode(&seal(&packet)).unwrap();
    let mut pump = OutboundPump::new();
    let c = match pump.step(OutboundEvent::Received(envelope)) {
        OutboundAction::Decrypt(c) => c,
        _ => panic!("expected Decrypt"),
    };
    let plain = open(&c).unwrap();
    match pump.step(OutboundEvent::Decrypted(plain)) {
        OutboundAction::WriteTun(w) => assert_eq!(w, packet),
        _ => panic!("expected WriteTun"),
    }
    assert!(matches!(pump.step(OutboundEvent::Written), OutboundAction::Read));
}

#[test]
fn tun_packet_reaches_every_other_peer() {
    let packet = ip_packet(80);
    let mut peers: PeerRegistry<Vec<Vec<u8>>> = PeerRegistry::new();
    for id in 0..3u64 {
        peers.insert(id, Vec::new());
    }
    let origin = 1u64;
    let q = match inbound_step(InboundEvent::TunPacket(packet.clone())) {
        InboundAction::Encrypt(q) => q,
        _ => panic!("expected Encrypt"),
    };
    let e = match inbound_step(InboundEvent::Encrypted(seal(&q))) {
        InboundAction::Send(e) => e,
        _ => panic!("expected Send"),
    };
    let targets = peers.broadcast_targets(Some(origin));
    assert_eq!(targets.len(), 2);
    for id in &targets {
        let mut inbox = peers.remove(*id).unwrap();
        inbox.push(e.clone());
        peers.insert(*id, inbox);
    }
    for id in 0..3u64 {
        let inbox = peers.get(id).unwrap();
        if id == origin {
            assert!(inbox.is_empty());
        } else {
            assert_eq!(inbox.len(), 1);
            assert_eq!(open(&decode(&inbox[0]).unwrap()).unwrap(), packet);
        }
    }
}

#[test]
fn fragment_then_disconnect_closes_as_truncated() {
    let envelope = encode(&seal(&ip_packet(20))).unwrap();
    let mut pump = OutboundPump::new();
    assert!(matches!(
        pump.step(OutboundEvent::Received(envelope[..3].to_vec())),
        OutboundAction::Read
    ));
    match pump.step(OutboundEvent::Received(Vec::new())) {
        OutboundAction::Close(reason) => assert_eq!(reason, CloseReason::Truncated),
        _ => panic!("expected Close"),
    }
}

#[test]
fn orderly_close_between_envelopes() {
    let mut pump = OutboundPump::new();
    match pump.step(OutboundEvent::Received(Vec::new())) {
        OutboundAction::Close(reason) => assert_eq!(reason, CloseReason::Orderly),
        _ => panic!("expected Close"),
    }
}

#[test]
fn socket_error_closes() {
    let mut pump = OutboundPump::new();
    match pump.step(OutboundEvent::Failed) {
        OutboundAction::Close(reason) => assert_eq!(reason, CloseReason::SocketError),
        _ => panic!("expected Close"),
    }
}

#[test]
fn corrupted_envelope_is_dropped_and_next_delivered() {
    let good = ip_packet(5);
    let mut stream = encode(&[0x00, 0x01, 0x02]).unwrap();
    stream.extend(encode(&seal(&good)).unwrap());
    let mut pump = OutboundPump::new();
    let c = match pump.step(OutboundEvent::Received(stream)) {
        OutboundAction::Decrypt(c) => c,
        _ => panic!("expected Decrypt"),
    };
    assert!(open(&c).is_err());
    let c2 = match pump.step(OutboundEvent::DecryptFailed) {
        OutboundAction::Decrypt(c) => c,
        _ => panic!("expected second Decrypt"),
    };
    assert_eq!(open(&c2).unwrap(), good);
}

#[test]
fn oversized_header_closes_as_malformed() {
    let mut pump = OutboundPump::new();
    match pump.step(OutboundEvent::Received(vec![0, 0, 0, 0, 1, 0, 0, 0, 7])) {
        OutboundAction::Close(reason) => assert_eq!(reason, CloseReason::Malformed),
        _ => panic!("expected Close"),
    }
}
