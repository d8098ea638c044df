use base64::engine::general_purpose::{STANDARD, URL_SAFE_NO_PAD};
use base64::Engine;
use ed25519_dalek::Verifier;

use tamichat::api::{
    create_post, create_username, decode_explore_response, decode_query_response, events_body, events_url,
    explore_url, generate_identity, generate_process, identity_from_secret, post_event, post_outcome, sign_event,
    topic_query, topic_query_url, username_event,
};
use tamichat::content::Post;
use tamichat::crypto::{signing_key_from_slice, SigningKey};
use tamichat::event::{Event, Events, Reference, SignedEvent};
use tamichat::keys::{Process, PublicKey};
use tamichat::query::{QueryReferencesRequest, QueryReferencesResponse, ResultEventsAndRelatedEventsAndCursor};
use tamichat::session::Identity;
use tamichat::storage::{
    should_refresh_username_at, CachedUsername, StoredIdentity, StoredProcess, StoredPublicKey, UsernameCache,
};

fn fixed_identity() -> (SigningKey, PublicKey, Process) {
    let (sk, pk) = identity_from_secret(&[7u8; 32]);
    (sk, pk, Process { process: vec![9u8; 16] })
}

fn verify(pk: &PublicKey, se: &SignedEvent) -> bool {
    let key: [u8; 32] = pk.key.clone().try_into().unwrap();
    let vk = ed25519_dalek::VerifyingKey::from_bytes(&key).unwrap();
    let sig = ed25519_dalek::Signature::from_slice(&se.signature).unwrap();
    vk.verify(&se.event, &sig).is_ok()
}

#[test]
fn identity_of_a_secret_matches_dalek() {
    let (sk, pk) = identity_from_secret(&[7u8; 32]);
    let dalek = ed25519_dalek::SigningKey::from_bytes(&[7u8; 32]);
    assert_eq!(pk.key_type, 1);
    assert_eq!(pk.key, dalek.verifying_key().to_bytes().to_vec());
    assert_eq!(sk.to_bytes(), [7u8; 32]);
    assert_ne!(pk.key, vec![7u8; 32]);
}

#[test]
fn generated_identities_are_fresh() {
    let (sk1, pk1) = generate_identity();
    let (sk2, _) = generate_identity();
    assert_ne!(sk1.to_bytes(), sk2.to_bytes());
    let dalek = ed25519_dalek::SigningKey::from_bytes(&sk1.to_bytes());
    assert_eq!(pk1.key, dalek.verifying_key().to_bytes().to_vec());
    assert_eq!(pk1.key.len(), 32);
    let p = generate_process();
    assert_eq!(p.process.len(), 16);
    let id = Identity::generate();
    assert_eq!(id.logical_clock, 1);
    assert_eq!(id.process.process.len(), 16);
}

#[test]
fn signing_key_from_slice_checks_length() {
    assert!(signing_key_from_slice(&[1u8; 31]).is_none());
    assert_eq!(signing_key_from_slice(&[1u8; 32]).unwrap().to_bytes(), [1u8; 32]);
}

#[test]
fn post_event_fields() {
    let (_, pk, process) = fixed_identity();
    let e = post_event(&pk, &process, 5, &"hello".to_string(), &Some("tamichat".to_string()), 1234);
    assert_eq!(e.system, Some(pk.clone()));
    assert_eq!(e.process, Some(process.clone()));
    assert_eq!(e.logical_clock, 5);
    assert_eq!(e.content_type, 3);
    assert_eq!(Post::decode(&e.content), Some(Post { content: Some("hello".to_string()), images: vec![] }));
    assert_eq!(e.references, vec![Reference { reference_type: 3, reference: b"tamichat".to_vec() }]);
    assert_eq!(e.unix_milliseconds, Some(1234));
    assert!(e.vector_clock.unwrap().logical_clocks.is_empty());
    assert!(e.indices.unwrap().indices.is_empty());
    let untagged = post_event(&pk, &process, 5, &"hello".to_string(), &None, 1234);
    assert!(untagged.references.is_empty());
}

#[test]
fn signed_post_verifies_and_decodes() {
    let (sk, pk, process) = fixed_identity();
    let se = create_post(&sk, &pk, &process, 11, "hi there".to_string(), Some("music".to_string())).unwrap();
    assert!(verify(&pk, &se));
    assert_eq!(se.signature.len(), 64);
    assert!(se.moderation_tags.is_empty());
    let e = Event::decode(&se.event).unwrap();
    assert_eq!(e.logical_clock, 11);
    assert_eq!(e.content_type, 3);
    assert_eq!(e.references[0].reference, b"music".to_vec());
    assert!(e.unix_milliseconds.unwrap() > 1_600_000_000_000);
    let again = sign_event(&sk, &e);
    assert_eq!(again, se);
}

#[test]
fn username_event_fields() {
    let (sk, pk, process) = fixed_identity();
    let e = username_event(&pk, &process, 2, &"alice".to_string(), 99);
    assert_eq!(e.content_type, 5);
    assert!(e.content.is_empty());
    let lww = e.lww_element.clone().unwrap();
    assert_eq!(lww.value, b"alice".to_vec());
    assert_eq!(lww.unix_milliseconds, 99);
    assert_eq!(e.unix_milliseconds, Some(99));
    let se = create_username(&sk, &pk, &process, 2, "alice".to_string()).unwrap();
    assert!(verify(&pk, &se));
    assert_eq!(Event::decode(&se.event).unwrap().lww_element.unwrap().value, b"alice".to_vec());
}

#[test]
fn topic_query_and_url() {
    let q = topic_query("tamichat");
    assert_eq!(q.reference, Some(Reference { reference_type: 3, reference: b"tamichat".to_vec() }));
    assert_eq!(q.request_events.clone().unwrap().from_type, Some(3));
    let url = topic_query_url("tamichat");
    let prefix = "https://serv1.polycentric.io/query_references?query=";
    let suffix = "&moderation_filters=[]";
    assert!(url.starts_with(prefix));
    assert!(url.ends_with(suffix));
    let encoded = &url[prefix.len()..url.len() - suffix.len()];
    let bytes = URL_SAFE_NO_PAD.decode(encoded).unwrap();
    assert_eq!(QueryReferencesRequest::decode(&bytes), Some(q));
}

#[test]
fn addresses() {
    assert_eq!(explore_url(), "https://serv1.polycentric.io/explore?limit=10");
    assert_eq!(events_url(), "https://serv1.polycentric.io/events");
}

#[test]
fn events_body_holds_the_event() {
    let se = SignedEvent { signature: vec![1; 64], event: vec![8, 1], moderation_tags: vec![] };
    let body = events_body(se.clone());
    assert_eq!(Events::decode(&body), Some(Events { events: vec![se] }));
}

#[test]
fn responses_decode_or_fail() {
    let resp = QueryReferencesResponse { counts: vec![3], ..Default::default() };
    assert_eq!(decode_query_response(&resp.encode()), Ok(resp));
    assert_eq!(decode_query_response(&[0x0a, 0x09]), Err("failed to decode Protobuf message".to_string()));
    let trending = Events {
        events: vec![SignedEvent { signature: vec![2; 64], event: vec![8, 1], moderation_tags: vec![] }],
    };
    assert_eq!(
        decode_explore_response(&trending.encode()),
        Ok(ResultEventsAndRelatedEventsAndCursor { result_events: Some(trending), related_events: None, cursor: None })
    );
    assert_eq!(
        decode_explore_response(&[]),
        Ok(ResultEventsAndRelatedEventsAndCursor {
            result_events: Some(Events { events: vec![] }),
            related_events: None,
            cursor: None,
        })
    );
    assert_eq!(decode_explore_response(&[0xff]), Err("failed to decode Protobuf message".to_string()));
}

#[test]
fn post_outcomes() {
    assert_eq!(post_outcome(200, "200 OK", None), Ok(()));
    assert_eq!(post_outcome(299, "299", Some("x".to_string())), Ok(()));
    assert_eq!(
        post_outcome(404, "404 Not Found", Some("no such route".to_string())),
        Err("Server returned error 404 Not Found: no such route".to_string())
    );
    assert_eq!(
        post_outcome(500, "500 Internal Server Error", None),
        Err("Server returned error 500 Internal Server Error: Unknown error".to_string())
    );
    assert!(post_outcome(199, "199", None).is_err());
    assert!(post_outcome(300, "300", None).is_err());
}

#[test]
fn stored_identity_round_trip() {
    let (sk, pk, process) = fixed_identity();
    let stored = StoredIdentity::from_identity(&sk, &pk, &process, 42);
    assert_eq!(stored.signing_key, STANDARD.encode([7u8; 32]));
    assert_eq!(stored.public_key.key, STANDARD.encode(&pk.key));
    assert_eq!(stored.process.process, STANDARD.encode([9u8; 16]));
    assert_eq!(stored.logical_clock, 42);
    let (sk2, pk2, process2, clock) = stored.to_identity().unwrap();
    assert_eq!(sk2.to_bytes(), sk.to_bytes());
    assert_eq!(pk2, pk);
    assert_eq!(process2, process);
    assert_eq!(clock, 42);
}

fn stored(signing_key: &str, key: &str, process: &str) -> StoredIdentity {
    StoredIdentity {
        signing_key: signing_key.to_string(),
        public_key: StoredPublicKey { key_type: 1, key: key.to_string() },
        process: StoredProcess { process: process.to_string() },
        logical_clock: 1,
    }
}

#[test]
fn stored_identity_errors() {
    let good = STANDARD.encode([1u8; 32]);
    let e = stored("%%", "AA==", "AA==").to_identity().err().unwrap();
    assert!(e.starts_with("Failed to decode signing key: "), "{}", e);
    let short = STANDARD.encode([1u8; 31]);
    let e = stored(&short, "AA==", "AA==").to_identity().err().unwrap();
    assert_eq!(e, "Invalid signing key length: expected 32 bytes, got 31");
    let e = stored(&good, "%%", "AA==").to_identity().err().unwrap();
    assert!(e.starts_with("Failed to decode public key: "), "{}", e);
    let e = stored(&good, "AA==", "%%").to_identity().err().unwrap();
    assert!(e.starts_with("Failed to decode process: "), "{}", e);
    assert!(stored(&good, "", "").to_identity().is_ok());
}

#[test]
fn username_refresh_thresholds() {
    let named = CachedUsername { username: "bob".to_string(), cached_at: 1_000 };
    assert!(!should_refresh_username_at(&named, 1_000 + 3_600_000));
    assert!(should_refresh_username_at(&named, 1_000 + 3_600_001));
    assert!(!should_refresh_username_at(&named, 0));
    let empty = CachedUsername { username: String::new(), cached_at: 1_000 };
    assert!(!should_refresh_username_at(&empty, 1_000 + 300_000));
    assert!(should_refresh_username_at(&empty, 1_000 + 300_001));
}

#[test]
fn username_cache_read_after_write() {
    let mut cache = UsernameCache::new();
    assert_eq!(cache.get(&"k1".to_string()), None);
    cache.record_at("k1", "alice", 10);
    cache.record_at("k2", "bob", 20);
    cache.record_at("k1", "carol", 30);
    assert_eq!(cache.get(&"k1".to_string()), Some(CachedUsername { username: "carol".to_string(), cached_at: 30 }));
    assert_eq!(cache.get(&"k2".to_string()), Some(CachedUsername { username: "bob".to_string(), cached_at: 20 }));
    let mut entries = cache.entries();
    entries.sort_by(|a, b| a.0.cmp(&b.0));
    assert_eq!(entries.len(), 2);
    assert_eq!(entries[0].0, "k1");
    assert_eq!(entries[1].1.username, "bob");
    cache.record("k3", "dave");
    assert!(cache.get(&"k3".to_string()).unwrap().cached_at > 1_600_000_000_000);
    assert!(cache.get_fresh_now(&"k3".to_string()).is_some());
    assert_eq!(cache.get_fresh_now(&"k1".to_string()), None);
}

#[test]
fn username_cache_drops_expired_entries() {
    let mut cache = UsernameCache::new();
    cache.record_at("empty", "", 0);
    cache.record_at("named", "alice", 0);
    assert_eq!(cache.get_fresh(&"empty".to_string(), 300_000), Some(CachedUsername { username: String::new(), cached_at: 0 }));
    assert_eq!(cache.get_fresh(&"empty".to_string(), 400_000), None);
    assert_eq!(
        cache.get_fresh(&"named".to_string(), 400_000),
        Some(CachedUsername { username: "alice".to_string(), cached_at: 0 })
    );
    assert_eq!(cache.get_fresh(&"named".to_string(), 3_600_001), None);
    assert_eq!(cache.get_fresh(&"missing".to_string(), 0), None);
    assert!(cache.get(&"empty".to_string()).is_some());
}

#[test]
fn signed_post_shows_in_chat() {
    let (sk, pk, process) = fixed_identity();
    let e = post_event(&pk, &process, 3, &"hey".to_string(), &Some("tamichat".to_string()), 4321);
    let se = sign_event(&sk, &e);
    let m = tamichat::chat::chat_message_of(&se).unwrap();
    assert_eq!(m.content, "hey");
    assert_eq!(m.timestamp, 4321);
    assert_eq!(m.system_key, STANDARD.encode(&pk.key));
}
