use base64::engine::general_purpose::{STANDARD, URL_SAFE_NO_PAD};
use base64::Engine;

use tamichat::chat::{chat_message_of, chat_messages, key_prefix, ChatMessage};
use tamichat::content::{Claim, ClaimFieldEntry, Delete, Post};
use tamichat::display::{
    content_type_name, content_view, event_view, explore_view, lww_operation_name, response_view,
    signed_event_view, short_std, ContentView, EventBodyView,
};
use tamichat::event::{Event, Events, LwwElement, LwwElementSet, ModerationTag, Reference, SignedEvent};
use tamichat::keys::{Process, PublicKey};
use tamichat::query::{QueryReferencesResponse, QueryReferencesResponseEventItem, ResultEventsAndRelatedEventsAndCursor};

fn post_signed(text: Option<&str>, time: Option<u64>, key: Option<Vec<u8>>) -> SignedEvent {
    let e = Event {
        system: key.map(|k| PublicKey { key_type: 1, key: k }),
        content_type: 3,
        content: Post { content: text.map(|t| t.to_string()), images: vec![] }.encode(),
        unix_milliseconds: time,
        ..Default::default()
    };
    SignedEvent { signature: vec![0; 64], event: e.encode(), moderation_tags: vec![] }
}

fn item(se: SignedEvent) -> QueryReferencesResponseEventItem {
    QueryReferencesResponseEventItem { event: Some(se), counts: vec![] }
}

#[test]
fn chat_message_of_a_post() {
    let se = post_signed(Some("hello"), Some(5), Some(vec![1, 2, 3]));
    assert_eq!(
        chat_message_of(&se),
        Some(ChatMessage { content: "hello".to_string(), timestamp: 5, system_key: "AQID".to_string() })
    );
    let anon = post_signed(Some("x"), None, None);
    assert_eq!(
        chat_message_of(&anon),
        Some(ChatMessage { content: "x".to_string(), timestamp: 0, system_key: String::new() })
    );
    assert_eq!(chat_message_of(&post_signed(None, Some(1), None)), None);
    let not_post = SignedEvent {
        event: Event { content_type: 5, ..Default::default() }.encode(),
        ..Default::default()
    };
    assert_eq!(chat_message_of(&not_post), None);
    let garbage = SignedEvent { event: vec![0xff], ..Default::default() };
    assert_eq!(chat_message_of(&garbage), None);
}

#[test]
fn chat_is_sorted_by_time_and_stable() {
    let response = QueryReferencesResponse {
        items: vec![
            item(post_signed(Some("c"), Some(30), None)),
            item(post_signed(Some("a1"), Some(10), None)),
            QueryReferencesResponseEventItem { event: None, counts: vec![1] },
            item(post_signed(None, Some(5), None)),
            item(post_signed(Some("b"), Some(20), None)),
            item(post_signed(Some("a2"), Some(10), None)),
        ],
        ..Default::default()
    };
    let texts: Vec<String> = chat_messages(&response).into_iter().map(|m| m.content).collect();
    assert_eq!(texts, vec!["a1", "a2", "b", "c"]);
    let empty = chat_messages(&QueryReferencesResponse::default());
    assert!(empty.is_empty());
}

#[test]
fn key_prefixes() {
    assert_eq!(key_prefix("ABCDEFGHIJ"), "ABCDEFGH");
    assert_eq!(key_prefix("ABCDEFGH"), "ABCDEFGH");
    assert_eq!(key_prefix("ééééé"), "éééé");
}

#[test]
fn content_type_names() {
    let names = [
        (1, "Delete"),
        (2, "SystemProcesses"),
        (3, "Post"),
        (4, "Follow"),
        (5, "Username"),
        (6, "Description"),
        (7, "BlobMeta"),
        (8, "BlobSection"),
        (9, "Avatar"),
        (10, "Server"),
        (11, "Vouch"),
        (12, "Claim"),
        (13, "Banner"),
        (0, "Unknown"),
        (14, "Unknown"),
    ];
    for (n, name) in names {
        assert_eq!(content_type_name(n), name);
    }
    assert_eq!(lww_operation_name(0), "ADD");
    assert_eq!(lww_operation_name(1), "REMOVE");
    assert_eq!(lww_operation_name(2), "UNKNOWN");
    assert_eq!(lww_operation_name(-1), "UNKNOWN");
}

#[test]
fn shortened_base64() {
    assert_eq!(short_std(&[0u8; 3], 20), "AAAA");
    assert_eq!(short_std(&[0xffu8; 30], 20), format!("{}...", &STANDARD.encode([0xffu8; 30])[..20]));
}

#[test]
fn content_views() {
    assert!(matches!(content_view(3, &[]), ContentView::Empty));
    let post = Post { content: Some("hi".to_string()), images: vec![] };
    match content_view(3, &post.encode()) {
        ContentView::Post(p) => assert_eq!(p, post),
        other => panic!("{:?}", other),
    }
    match content_view(3, &[0xff, 0x41]) {
        ContentView::PostRaw(t) => assert_eq!(t, String::from_utf8_lossy(&[0xff, 0x41]).to_string()),
        other => panic!("{:?}", other),
    }
    let claim = Claim { claim_type: 2, claim_fields: vec![ClaimFieldEntry { key: 1, value: "v".to_string() }], images: vec![] };
    match content_view(12, &claim.encode()) {
        ContentView::Claim(c) => assert_eq!(c, claim),
        other => panic!("{:?}", other),
    }
    match content_view(12, &[0xff; 60]) {
        ContentView::ClaimRaw(t) => assert_eq!(t, format!("{}...", &STANDARD.encode([0xffu8; 60])[..50])),
        other => panic!("{:?}", other),
    }
    let delete = Delete { process: Some(Process { process: vec![1; 16] }), logical_clock: 4, content_type: 3, ..Default::default() };
    match content_view(1, &delete.encode()) {
        ContentView::Delete(d, p) => {
            assert_eq!(d, delete);
            assert_eq!(p, "AQEBAQEBAQEBAQEBAQEBAQ==".chars().take(16).collect::<String>() + "...");
        },
        other => panic!("{:?}", other),
    }
    let no_process = Delete { logical_clock: 4, ..Default::default() };
    match content_view(1, &no_process.encode()) {
        ContentView::Delete(_, p) => assert_eq!(p, "None"),
        other => panic!("{:?}", other),
    }
    match content_view(1, &[0xff]) {
        ContentView::DeleteRaw(t) => assert_eq!(t, "/w=="),
        other => panic!("{:?}", other),
    }
    assert!(matches!(content_view(11, b"anything"), ContentView::Vouch));
    match content_view(6, b"about me") {
        ContentView::Text(t) => assert_eq!(t, "about me"),
        other => panic!("{:?}", other),
    }
    match content_view(6, &[0xff]) {
        ContentView::Bytes(t) => assert_eq!(t, "/w=="),
        other => panic!("{:?}", other),
    }
}

#[test]
fn event_views() {
    let e = Event {
        system: Some(PublicKey { key_type: 1, key: vec![0xab; 32] }),
        process: None,
        logical_clock: 9,
        content_type: 5,
        content: vec![],
        lww_element: Some(LwwElement { value: b"alice".to_vec(), unix_milliseconds: 77 }),
        lww_element_set: Some(LwwElementSet { operation: 1, value: vec![0xff], unix_milliseconds: 78 }),
        references: vec![Reference { reference_type: 3, reference: b"tamichat".to_vec() }],
        unix_milliseconds: Some(77),
        ..Default::default()
    };
    let v = event_view(&e);
    assert_eq!(v.system, format!("{}...", &STANDARD.encode([0xabu8; 32])[..20]));
    assert_eq!(v.process, "None");
    assert_eq!(v.logical_clock, 9);
    assert_eq!(v.content_type, 5);
    assert_eq!(v.content_type_name, "Username");
    assert_eq!(v.unix_milliseconds, Some(77));
    assert!(matches!(v.content, ContentView::Empty));
    let lww = v.lww_element.unwrap();
    assert_eq!(lww.value, "alice");
    assert_eq!(lww.unix_milliseconds, 77);
    let set = v.lww_element_set.unwrap();
    assert_eq!(set.operation, "REMOVE");
    assert_eq!(set.value, "\u{fffd}");
    assert_eq!(v.references.len(), 1);
    assert_eq!(v.references[0].reference_type, 3);
    assert_eq!(v.references[0].text, "dGFtaWNoYXQ=");
}

#[test]
fn signed_event_views() {
    let se = SignedEvent {
        signature: vec![1; 64],
        event: Event { logical_clock: 2, ..Default::default() }.encode(),
        moderation_tags: vec![
            ModerationTag { name: "spam".to_string(), level: 0 },
            ModerationTag { name: "nsfw".to_string(), level: 12 },
        ],
    };
    let v = signed_event_view(&se);
    assert_eq!(v.signature, format!("{}...", &STANDARD.encode([1u8; 64])[..20]));
    match &v.body {
        EventBodyView::Parsed(e) => assert_eq!(e.logical_clock, 2),
        other => panic!("{:?}", other),
    }
    assert_eq!(v.moderation_tags, vec!["spam: 0".to_string(), "nsfw: 12".to_string()]);
    let raw = SignedEvent { signature: vec![], event: vec![0xff; 40], moderation_tags: vec![] };
    match signed_event_view(&raw).body {
        EventBodyView::Raw(t) => assert_eq!(t, format!("{}...", &STANDARD.encode([0xffu8; 40])[..50])),
        other => panic!("{:?}", other),
    }
}

#[test]
fn answer_views() {
    let se = post_signed(Some("x"), Some(1), None);
    let response = QueryReferencesResponse {
        items: vec![item(se.clone()), QueryReferencesResponseEventItem { event: None, counts: vec![4, 5] }],
        related_events: vec![se.clone()],
        cursor: Some(vec![0xfb, 0xff]),
        counts: vec![1],
    };
    let v = response_view(&response);
    assert_eq!(v.items.len(), 2);
    assert!(v.items[0].event.is_some());
    assert_eq!(v.items[1].counts, vec![4, 5]);
    assert_eq!(v.related_events.len(), 1);
    assert_eq!(v.cursor, Some("+/8=".to_string()));
    assert_eq!(v.counts, vec![1]);
    let explore = ResultEventsAndRelatedEventsAndCursor {
        result_events: Some(Events { events: vec![se.clone(), se] }),
        related_events: None,
        cursor: None,
    };
    let ev = explore_view(&explore);
    assert_eq!(ev.result_events.unwrap().len(), 2);
    assert!(ev.related_events.is_none());
    assert!(ev.cursor.is_none());
}
