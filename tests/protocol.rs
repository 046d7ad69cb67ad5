use mycelium_bridge::discovery::{
    announcement_signing_bytes, build_announcement, capacity_report, discovery_poll_delay,
    verify_server_announcement, AnnounceError, DiscoveryService,
};
use mycelium_bridge::relay::{
    federation_poll_delay, federation_topic, messages_to_forward, translate_to_mycelium,
    verify_federation_message,
};
use mycelium_bridge::registry::RegistryError;
use mycelium_bridge::signing::{public_key_text, sign_message, verify_signature};
use mycelium_bridge::types::{FederationEvent, ServerAnnouncement, ServerCapacity, ServerStatus};

fn keypair(seed: u8) -> Vec<u8> {
    let secret = ed25519_dalek::SecretKey::from_bytes(&[seed; 32]).unwrap();
    let public: ed25519_dalek::PublicKey = (&secret).into();
    let mut kp = Vec::new();
    kp.extend_from_slice(secret.as_bytes());
    kp.extend_from_slice(public.as_bytes());
    kp
}

fn announcement(name: &str, seed: u8, now: i64) -> ServerAnnouncement {
    let cap = ServerCapacity { max_users: 10, current_users: 1, available: true };
    build_announcement(name.to_string(), format!("addr-{}", name), &keypair(seed), cap, now).unwrap()
}

#[test]
fn public_key_text_is_base64_of_public_half() {
    let kp = keypair(3);
    assert_eq!(public_key_text(&kp), base64::encode(&kp[32..]));
    assert_eq!(public_key_text(&kp).len(), 44);
}

#[test]
fn signatures_verify_only_with_the_right_key_and_message() {
    let kp = keypair(1);
    let other = keypair(2);
    let sig = sign_message(&kp, b"hello").unwrap();
    assert_eq!(sig.len(), 88);
    let pk = public_key_text(&kp);
    assert!(verify_signature(b"hello", &sig, &pk));
    assert!(!verify_signature(b"hellO", &sig, &pk));
    assert!(!verify_signature(b"hello", &sig, &public_key_text(&other)));
    assert!(!verify_signature(b"hello", "", &pk));
    assert!(!verify_signature(b"hello", "not base64!", &pk));
    assert!(sign_message(&kp[..63], b"hello").is_none());
}

#[test]
fn announcement_is_signed_and_verifies() {
    let a = announcement("node1", 4, 1_700_000_000);
    assert_eq!(a.capabilities, vec!["matrix_federation".to_string(), "tf_connect_auth".to_string()]);
    assert_eq!(a.timestamp, "2023-11-14T22:13:20+00:00");
    assert_eq!(a.public_key, public_key_text(&keypair(4)));
    assert!(verify_server_announcement(&a, &a.public_key));
    let mut tampered = a.clone();
    tampered.capacity.current_users = 0;
    assert!(!verify_server_announcement(&tampered, &a.public_key));
    assert!(!verify_server_announcement(&a, &public_key_text(&keypair(5))));
}

#[test]
fn signing_bytes_frame_fields_by_length() {
    let mut a = announcement("ab", 4, 0);
    let body = announcement_signing_bytes(&a);
    assert_eq!(&body[..8], &[0, 0, 0, 0, 0, 0, 0, 2]);
    assert_eq!(&body[8..10], b"ab");
    a.server_name = "a".to_string();
    a.mycelium_address = format!("b{}", a.mycelium_address);
    assert_ne!(announcement_signing_bytes(&a), body);
}

#[test]
fn capacity_report_defaults_to_zero_users() {
    let c = capacity_report(100, None);
    assert_eq!((c.max_users, c.current_users, c.available), (100, 0, true));
    let c = capacity_report(100, Some(100));
    assert_eq!((c.current_users, c.available), (100, false));
    let c = capacity_report(100, Some(99));
    assert!(c.available);
    let c = capacity_report(u32::MAX, Some(u64::MAX));
    assert_eq!((c.current_users, c.available), (u32::MAX, false));
}

#[test]
fn process_announcement_stores_verified_and_drops_forged() {
    let mut svc = DiscoveryService::new();
    let a = announcement("node1", 4, 100);
    assert_eq!(svc.process_server_announcement(a, 500), Ok(false));
    let stored = svc.get_server("node1").unwrap();
    assert_eq!(stored.last_seen, 500);
    assert_eq!(stored.status, ServerStatus::Online);
    let mut forged = announcement("node1", 4, 200);
    forged.signature = String::new();
    assert_eq!(svc.process_server_announcement(forged, 600), Err(AnnounceError::SignatureInvalid));
    assert_eq!(svc.get_server("node1").unwrap().last_seen, 500);
    let impostor = announcement("node1", 9, 300);
    assert_eq!(svc.process_server_announcement(impostor, 700), Err(AnnounceError::SignatureInvalid));
    let again = announcement("node1", 4, 400);
    assert_eq!(svc.process_server_announcement(again, 800), Ok(true));
    assert_eq!(svc.get_server("node1").unwrap().last_seen, 800);
}

#[test]
fn process_batch_keeps_going_past_bad_entries() {
    let mut svc = DiscoveryService::with_max_servers(2);
    let mut bad = announcement("bad", 1, 0);
    bad.signature = "AAAA".to_string();
    let batch = vec![
        announcement("a", 1, 0),
        bad,
        announcement("b", 2, 0),
        announcement("c", 3, 0),
    ];
    assert_eq!(svc.process_announcements(batch, 42), 2);
    assert!(svc.get_server("a").is_some());
    assert!(svc.get_server("b").is_some());
    assert!(svc.get_server("bad").is_none());
    assert!(svc.get_server("c").is_none());
    let c = announcement("c", 3, 0);
    assert_eq!(
        svc.process_server_announcement(c, 43),
        Err(AnnounceError::Refused(RegistryError::CapacityExceeded))
    );
}

#[test]
fn discovery_service_selects_and_cleans() {
    let mut svc = DiscoveryService::new();
    let mut busy = announcement("busy", 1, 0);
    busy.capacity.current_users = 9;
    svc.add_server(busy, 1000).unwrap();
    svc.add_server(announcement("idle", 2, 0), 100).unwrap();
    assert_eq!(svc.get_available_servers().len(), 2);
    assert_eq!(svc.select_server_for_user().unwrap().server_name, "idle");
    assert_eq!(svc.cleanup_stale_servers(1000, 10), 1);
    assert_eq!(svc.select_server_for_user().unwrap().server_name, "busy");
    assert_eq!(svc.add_server(announcement("fresh", 3, 0), 5000), Ok(false));
    assert_eq!(svc.add_server(announcement("fresh", 3, 0), 4000), Ok(true));
    assert_eq!(svc.get_server("fresh").unwrap().last_seen, 5000);
    assert_eq!(svc.cleanup_stale_servers(5000, 60), 1);
    assert!(svc.get_server("fresh").is_some());
    assert!(svc.get_server("busy").is_none());
}

#[test]
fn poll_delays() {
    assert_eq!(discovery_poll_delay(true), 60);
    assert_eq!(discovery_poll_delay(false), 90);
    assert_eq!(federation_poll_delay(true), 5);
    assert_eq!(federation_poll_delay(false), 15);
}

#[test]
fn federation_topic_is_prefixed() {
    assert_eq!(federation_topic("node1"), "matrix.federation.node1");
}

#[test]
fn envelope_round_trip_and_forwarding() {
    let kp = keypair(4);
    let mut svc = DiscoveryService::new();
    svc.process_server_announcement(announcement("sender", 4, 0), 10).unwrap();
    let event = FederationEvent {
        destination: "me".to_string(),
        event_type: "m.room.message".to_string(),
        event_data: "{\"body\":\"hi\"}".to_string(),
    };
    let env = translate_to_mycelium(event, "sender".to_string(), &kp, 1_700_000_000).unwrap();
    assert_eq!(env.version, "1.0");
    assert_eq!(env.message_type, "federation_event");
    assert_eq!(env.destination_server, "me");
    assert_eq!(env.timestamp, "2023-11-14T22:13:20+00:00");
    assert!(verify_federation_message(&env, &public_key_text(&kp)));

    let mut forged = env.clone();
    forged.payload = "{\"body\":\"evil\"}".to_string();
    let mut stranger = env.clone();
    stranger.source_server = "unknown".to_string();
    let out = messages_to_forward(svc.directory(), vec![forged, env.clone(), stranger]);
    assert_eq!(out, vec!["{\"body\":\"hi\"}".to_string()]);
}

#[test]
fn keypair_consistency_is_checked() {
    let kp = keypair(6);
    assert!(mycelium_bridge::signing::keypair_consistent(&kp));
    let mut mixed = kp[..32].to_vec();
    mixed.extend_from_slice(&keypair(7)[32..]);
    assert!(!mycelium_bridge::signing::keypair_consistent(&mixed));
    assert!(!mycelium_bridge::signing::keypair_consistent(&kp[..63]));
    let sig = sign_message(&mixed, b"m").unwrap();
    assert!(!verify_signature(b"m", &sig, &public_key_text(&mixed)));
}

#[test]
fn announcement_and_envelope_need_a_usable_key() {
    let cap = ServerCapacity { max_users: 1, current_users: 0, available: true };
    assert!(build_announcement("n".to_string(), "a".to_string(), &[0u8; 10], cap, 0).is_none());
    let event = FederationEvent {
        destination: "d".to_string(),
        event_type: "t".to_string(),
        event_data: "{}".to_string(),
    };
    assert!(translate_to_mycelium(event.clone(), "s".to_string(), &[0u8; 10], 0).is_none());
    assert!(translate_to_mycelium(event, "s".to_string(), &keypair(1), 0).is_some());
}
