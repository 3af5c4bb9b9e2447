use bullg::crypto::{remove_special_characters, BullGCrypto};
use bullg::sync::{custom_decrypt, custom_encrypt, sync_step, SyncAction, SyncEvent, SyncPhase};

#[test]
fn special_characters_are_removed() {
    assert_eq!(remove_special_characters("a-b_c d!"), "abc d");
    assert_eq!(remove_special_characters("Ab9 ?*"), "Ab9 ");
    assert_eq!(remove_special_characters(""), "");
}

#[test]
fn b64_nopad_round_trips() {
    let encoded = bullg::crypto::b64_encode_nopad("hello world");
    let decoded = bullg::crypto::b64_decode_nopad(&encoded);
    assert_eq!(decoded, b"hello world".to_vec());
}

#[test]
fn invalid_b64_decodes_to_empty() {
    assert_eq!(bullg::crypto::b64_decode_nopad("!!!"), Vec::<u8>::new());
}

#[test]
fn key_to_salt_is_plain_and_stable() {
    let s1 = bullg::crypto::key_to_salt("secret");
    let s2 = bullg::crypto::key_to_salt("secret");
    assert_eq!(s1, s2);
    assert!(s1.chars().all(|c| c.is_ascii_alphanumeric() || c == ' '));
    assert!(!s1.is_empty());
}

#[test]
fn decode_data_strips_the_salt() {
    let salt = bullg::crypto::key_to_salt("token");
    let payload = format!("{}hello{}", salt, salt);
    let wire = bullg::crypto::b64_encode_nopad(&payload);
    assert_eq!(BullGCrypto::decode_data(&wire, "token"), "hello");
}

#[test]
fn encode_data_wraps_payload_in_salt() {
    let salt = bullg::crypto::key_to_salt("k");
    let enc = BullGCrypto::encode_data("data", "k");
    assert!(enc.starts_with(&salt));
    assert!(enc.ends_with(&salt));
}

#[test]
fn encrypt_data_keeps_keys_and_encodes_values() {
    let map = vec![(String::from("user"), String::from("alice"))];
    let enc = BullGCrypto::encrypt_data(map, "k");
    assert_eq!(enc.len(), 1);
    assert_eq!(enc[0].0, "user");
    assert_eq!(enc[0].1, BullGCrypto::encode_data("alice", "k"));
}

#[test]
fn map_encryption_key_depends_on_machine_and_container() {
    let c = BullGCrypto::new("key-1", "1.0");
    let a = c.map_encryption_key(Some("m1"), Some("c1"));
    let b = c.map_encryption_key(Some("m1"), Some("c1"));
    let d = c.map_encryption_key(Some("m2"), Some("c1"));
    assert_eq!(a, b);
    assert_ne!(a, d);
    assert!(!a.is_empty());
}

#[test]
fn wire_frames_round_trip() {
    let frame = custom_encrypt(b"{\"services\":[]}");
    let text = String::from_utf8(frame).unwrap();
    let back = custom_decrypt(&text).expect("a frame it encoded must decode");
    assert_eq!(back, b"{\"services\":[]}".to_vec());
}

#[test]
fn broken_frames_are_dropped_whole() {
    assert!(custom_decrypt("not base64 !!!").is_none());
}

#[test]
fn sync_loop_falls_back_to_polling_and_returns_to_streaming() {
    let (p1, a1) = sync_step(SyncPhase::TryStream, SyncEvent::StreamFailed);
    assert_eq!(p1, SyncPhase::Polling);
    assert_eq!(a1, SyncAction::Poll);
    let (p2, a2) = sync_step(p1, SyncEvent::PollCompleted);
    assert_eq!(p2, SyncPhase::WaitRestream);
    assert_eq!(a2, SyncAction::SleepPoll);
    let (p3, a3) = sync_step(p2, SyncEvent::SleepElapsed);
    assert_eq!(p3, SyncPhase::TryStream);
    assert_eq!(a3, SyncAction::ConnectStream);
}

#[test]
fn streaming_delivers_frames_until_the_stream_ends() {
    let (p1, a1) = sync_step(SyncPhase::TryStream, SyncEvent::StreamConnected);
    assert_eq!(p1, SyncPhase::Streaming);
    assert_eq!(a1, SyncAction::ReadFrame);
    let (p2, a2) = sync_step(p1, SyncEvent::FrameReceived);
    assert_eq!(p2, SyncPhase::Streaming);
    assert_eq!(a2, SyncAction::DeliverAndRead);
    let (p3, a3) = sync_step(p2, SyncEvent::StreamEnded);
    assert_eq!(p3, SyncPhase::WaitRestream);
    assert_eq!(a3, SyncAction::SleepOne);
}

#[test]
fn node_defaults_match_the_documented_values() {
    assert_eq!(bullg::node::def_host(), "0.0.0.0");
    assert_eq!(bullg::node::def_port(), 8000);
    assert_eq!(bullg::node::def_ssl_port(), 8443);
    assert_eq!(bullg::node::def_logging(), "debug");
    assert_eq!(bullg::node::def_controlplane_poll(), 5);
    assert_eq!(bullg::node::def_engine(), "lmdb");
    let m = <bullg::node::MetricsCfg as Default>::default();
    assert_eq!(m.port, 9090);
    assert_eq!(m.format, "prometheus");
}

#[test]
fn patterns_match_key_modes() {
    assert!(bullg::patterns::match_key("user:*", "user:17"));
    assert!(!bullg::patterns::match_key("user:*", "admin"));
    assert!(bullg::patterns::match_key("regex:^a+$", "aaa"));
    assert!(!bullg::patterns::match_key("regex:^a+$", "ab"));
    assert!(!bullg::patterns::match_key("regex:(", "anything"));
    assert!(bullg::patterns::match_key("bc", "abcd"));
    assert!(bullg::patterns::match_key("abcd", "bc"));
    assert!(bullg::patterns::match_key("same", "same"));
}

#[test]
fn glob_and_substring_helpers() {
    assert!(bullg::patterns::glob_match("a*c", "abbbc"));
    assert!(bullg::patterns::glob_match("*", ""));
    assert!(!bullg::patterns::glob_match("a*c", "abd"));
    assert!(bullg::patterns::contains_sub("haystack", "stack"));
    assert!(!bullg::patterns::contains_sub("haystack", "needle"));
    assert!(bullg::patterns::starts_with_str("prefix-rest", "prefix"));
    assert!(!bullg::patterns::starts_with_str("pre", "prefix"));
}
