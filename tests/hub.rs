use dashboard::hub::{check_handshake, determine_nickname, HandshakeError};
use dashboard::proto::{
    BackendMessage, Handshake, IdBackendMessage, NetworkResponse, NoIdBackendMessage, PROTOCOL_VERSION,
};
use dashboard::registry::{AgentRegistry, PeerAddr, UpstreamError};

fn handshake(nickname: &str, version: u32) -> Option<BackendMessage> {
    Some(BackendMessage::NoId(NoIdBackendMessage::Handshake(Handshake {
        nickname: nickname.to_string(),
        version,
    })))
}

const IP: PeerAddr = PeerAddr::V4(0x0a00_0001);

#[test]
fn handshake_happy_path_registers_and_replaces() {
    let mut reg: AgentRegistry<u32> = AgentRegistry::new();
    let h = check_handshake(handshake("n1", PROTOCOL_VERSION)).unwrap();
    let nick = determine_nickname(h, "10.0.0.1".to_string());
    assert_eq!(nick, "n1");
    let first = reg.register(IP, nick, 1);
    assert_eq!(reg.len(), 1);
    assert_eq!(reg.get(0).nickname, "n1");

    let h2 = check_handshake(handshake("n2", PROTOCOL_VERSION)).unwrap();
    let second = reg.register(IP, determine_nickname(h2, "10.0.0.1".to_string()), 2);
    assert_ne!(first, second);
    assert_eq!(reg.len(), 1);
    assert_eq!(reg.get(0).nickname, "n2");
    assert_eq!(reg.get(0).handle, 2);
    // the replaced connection's teardown leaves the newer entry in place
    assert!(!reg.unregister(IP, first));
    assert_eq!(reg.len(), 1);
    assert!(reg.unregister(IP, second));
    assert_eq!(reg.len(), 0);
}

#[test]
fn version_mismatch_is_rejected() {
    let reg: AgentRegistry<u32> = AgentRegistry::new();
    let r = check_handshake(handshake("n1", PROTOCOL_VERSION - 1));
    assert_eq!(r.err(), Some(HandshakeError::VersionMismatch(PROTOCOL_VERSION - 1)));
    assert_eq!(reg.len(), 0);
}

#[test]
fn handshake_other_failures() {
    assert_eq!(check_handshake(None).err(), Some(HandshakeError::Disconnected));
    let reading = BackendMessage::Id(0, IdBackendMessage::NetIO(NetworkResponse { sent: 0, recv: 0 }));
    assert_eq!(check_handshake(Some(reading)).err(), Some(HandshakeError::NotHandshake));
}

#[test]
fn empty_nickname_uses_address() {
    let h = Handshake { nickname: String::new(), version: PROTOCOL_VERSION };
    assert_eq!(determine_nickname(h, "::1".to_string()), "::1");
}

#[test]
fn registry_size_tracks_connections() {
    let mut reg: AgentRegistry<()> = AgentRegistry::new();
    let a = PeerAddr::V4(1);
    let b = PeerAddr::V6(2);
    let c = PeerAddr::V4(3);
    let ta = reg.register(a, "a".into(), ());
    let tb = reg.register(b, "b".into(), ());
    let tc = reg.register(c, "c".into(), ());
    assert_eq!(reg.len(), 3);
    assert!(reg.unregister(b, tb));
    assert_eq!(reg.len(), 2);
    assert!(!reg.unregister(b, tb));
    assert!(reg.unregister(a, ta));
    assert!(reg.unregister(c, tc));
    assert_eq!(reg.len(), 0);
}

#[test]
fn backend_selection() {
    let mut reg: AgentRegistry<&str> = AgentRegistry::new();
    let err = reg.extract_backends(None).err().unwrap();
    assert_eq!(err, UpstreamError::NoBackends);
    assert_eq!(err.status(), 503);
    assert_eq!(UpstreamError::RequestFailed.status(), 502);

    reg.register(PeerAddr::V4(1), "one".into(), "h1");
    reg.register(PeerAddr::V4(2), "two".into(), "h2");
    let d = reg.extract_backends(Some(PeerAddr::V4(2))).ok().unwrap();
    assert_eq!(d.current_backend, PeerAddr::V4(2));
    assert_eq!(*reg.get(d.current_index).handle, *"h2");
    assert_eq!(d.backend_list.len(), 2);
    assert_eq!(d.backend_list[0], (PeerAddr::V4(1), "one".to_string()));

    let d = reg.extract_backends(Some(PeerAddr::V4(9))).ok().unwrap();
    assert_eq!(d.current_index, 0);
    let d = reg.extract_backends(None).ok().unwrap();
    assert_eq!(d.current_backend, PeerAddr::V4(1));
}

#[test]
fn mapped_ipv6_becomes_ipv4() {
    let mapped = PeerAddr::V6(0xffff_0102_0304);
    assert_eq!(mapped.canonical(), PeerAddr::V4(0x0102_0304));
    let plain = PeerAddr::V6(1);
    assert_eq!(plain.canonical(), plain);
    assert_eq!(PeerAddr::V4(7).canonical(), PeerAddr::V4(7));
}
