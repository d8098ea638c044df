use tamichat::account_page::{AccountAction, AccountState};
use tamichat::api::{default_query_url, explore_url, identity_from_secret, topic_query_url};
use tamichat::chat_page::{ChatAction, ChatState, FetchReason};
use tamichat::content::Post;
use tamichat::event::{Event, SignedEvent};
use tamichat::keys::Process;
use tamichat::post_page::{is_error_status, PostPageAction, PostPageState};
use tamichat::query::{QueryReferencesResponse, QueryReferencesResponseEventItem, ResultEventsAndRelatedEventsAndCursor};
use tamichat::query_page::{debug_button_class, DebugPage, ExplorePageState, QueryAction, QueryPageState};
use tamichat::session::Identity;
use tamichat::storage::{StoredIdentity, StoredProcess, StoredPublicKey};

fn identity(clock: u64) -> Identity {
    let (signing_key, public_key) = identity_from_secret(&[3u8; 32]);
    Identity { signing_key, public_key, process: Process { process: vec![4u8; 16] }, logical_clock: clock }
}

fn posted_event(actions: &[ChatAction]) -> Event {
    match &actions[0] {
        ChatAction::PostEvent(se) => Event::decode(&se.event).unwrap(),
        other => panic!("{:?}", other),
    }
}

fn response_with(texts: &[(&str, u64)]) -> QueryReferencesResponse {
    let items = texts
        .iter()
        .map(|(t, time)| {
            let e = Event {
                content_type: 3,
                content: Post { content: Some(t.to_string()), images: vec![] }.encode(),
                unix_milliseconds: Some(*time),
                ..Default::default()
            };
            QueryReferencesResponseEventItem {
                event: Some(SignedEvent { signature: vec![], event: e.encode(), moderation_tags: vec![] }),
                counts: vec![],
            }
        })
        .collect();
    QueryReferencesResponse { items, ..Default::default() }
}

#[test]
fn chat_mount_loads_identity_and_messages() {
    let s = ChatState::new();
    let actions = s.mount();
    assert_eq!(actions.len(), 2);
    assert!(matches!(actions[0], ChatAction::LoadIdentity));
    assert!(matches!(actions[1], ChatAction::FetchMessages(FetchReason::Initial)));
}

#[test]
fn chat_identity_is_made_when_none_is_stored() {
    let mut s = ChatState::new();
    let actions = s.identity_loaded(Ok(None));
    let id = s.identity.as_ref().unwrap();
    assert_eq!(id.logical_clock, 1);
    match &actions[..] {
        [ChatAction::SaveIdentity(stored)] => assert_eq!(*stored, id.stored()),
        other => panic!("{:?}", other),
    }
    let mut t = ChatState::new();
    assert!(t.identity_loaded(Err("no storage".to_string())).is_empty());
    assert!(t.identity.is_some());
    let mut u = ChatState::new();
    assert!(u.identity_loaded(Ok(Some(identity(8)))).is_empty());
    assert_eq!(u.identity.unwrap().logical_clock, 8);
}

#[test]
fn chat_send_flow() {
    let mut s = ChatState::new();
    s.identity_loaded(Ok(Some(identity(5))));
    s.set_input("   ".to_string());
    assert!(!s.can_send());
    assert!(s.send().is_empty());
    s.set_input("hello".to_string());
    assert!(s.can_send());
    let actions = s.send();
    assert_eq!(actions.len(), 1);
    let e = posted_event(&actions);
    assert_eq!(e.logical_clock, 5);
    assert_eq!(e.references[0].reference, b"tamichat".to_vec());
    assert_eq!(Post::decode(&e.content).unwrap().content, Some("hello".to_string()));
    assert_eq!(s.sending, Some(5));
    assert!(!s.can_send());
    assert!(s.send().is_empty());
    let after = s.post_result(Ok(()));
    assert_eq!(s.identity.as_ref().unwrap().logical_clock, 6);
    assert_eq!(s.input, "");
    match &after[..] {
        [ChatAction::SaveIdentity(stored), ChatAction::FetchMessages(FetchReason::AfterSend)] => {
            assert_eq!(stored.logical_clock, 6)
        },
        other => panic!("{:?}", other),
    }
    let arrived = s.messages_fetched(FetchReason::AfterSend, Ok(response_with(&[("hello", 3)])));
    assert!(matches!(arrived[..], [ChatAction::ScrollToBottom]));
    assert_eq!(s.sending, None);
    assert_eq!(s.messages.len(), 1);
}

#[test]
fn chat_send_failure_keeps_clock() {
    let mut s = ChatState::new();
    s.identity_loaded(Ok(Some(identity(5))));
    s.set_input("hello".to_string());
    s.send();
    assert!(s.post_result(Err("offline".to_string())).is_empty());
    assert_eq!(s.error, Some("Failed to send: offline".to_string()));
    assert_eq!(s.identity.as_ref().unwrap().logical_clock, 5);
    assert_eq!(s.input, "hello");
    assert!(s.can_send());
}

#[test]
fn chat_without_identity_does_not_send() {
    let mut s = ChatState::new();
    s.set_input("hello".to_string());
    assert!(s.send().is_empty());
    assert_eq!(s.sending, None);
}

#[test]
fn chat_refresh_scrolls_only_for_new_messages() {
    let mut s = ChatState::new();
    let first = s.messages_fetched(FetchReason::Initial, Ok(response_with(&[("a", 1), ("b", 2)])));
    assert!(matches!(first[..], [ChatAction::ScrollToBottom]));
    assert_eq!(s.previous_message_count, 2);
    let tick = s.tick();
    assert!(matches!(tick[..], [ChatAction::FetchMessages(FetchReason::Refresh(2))]));
    assert!(s.messages_fetched(FetchReason::Refresh(2), Ok(response_with(&[("a", 1), ("b", 2)]))).is_empty());
    let more = s.messages_fetched(FetchReason::Refresh(2), Ok(response_with(&[("a", 1), ("b", 2), ("c", 3)])));
    assert!(matches!(more[..], [ChatAction::ScrollToBottom]));
    assert_eq!(s.previous_message_count, 3);
    assert!(s.messages_fetched(FetchReason::Refresh(3), Err("down".to_string())).is_empty());
    assert_eq!(s.error, Some("Failed to load messages: down".to_string()));
    assert_eq!(s.messages.len(), 3);
}

#[test]
fn status_lines() {
    assert!(is_error_status("Error: Username cannot be empty"));
    assert!(!is_error_status("Identity created successfully!"));
}

#[test]
fn post_page_identity_creation() {
    let mut s = PostPageState::new();
    assert!(matches!(s.mount()[..], [PostPageAction::LoadIdentity]));
    let actions = s.create_identity();
    assert!(matches!(actions[..], [PostPageAction::SaveNewIdentity(_)]));
    assert!(s.identity.is_none());
    s.identity_saved(Err("full".to_string()));
    assert!(s.identity.is_none());
    assert_eq!(s.status, Some("Error saving identity: full".to_string()));
    s.create_identity();
    s.identity_saved(Ok(()));
    assert_eq!(s.identity.as_ref().unwrap().logical_clock, 1);
    assert_eq!(s.status, Some("Identity created successfully!".to_string()));
    assert!(s.mount().is_empty());
}

#[test]
fn post_page_requires_identity_and_text() {
    let mut s = PostPageState::new();
    assert!(s.submit_post().is_empty());
    assert_eq!(s.status, Some("Error: Please create an identity first".to_string()));
    assert!(s.submit_username().is_empty());
    s.identity_loaded(Ok(Some(identity(3))));
    assert!(s.submit_post().is_empty());
    assert_eq!(s.status, Some("Error: Post content cannot be empty".to_string()));
    assert!(s.submit_username().is_empty());
    assert_eq!(s.status, Some("Error: Username cannot be empty".to_string()));
}

#[test]
fn post_page_publish_flow() {
    let mut s = PostPageState::new();
    s.identity_loaded(Ok(Some(identity(3))));
    s.set_post_content("my post".to_string());
    let actions = s.submit_post();
    assert_eq!(s.status, Some("Creating and posting event...".to_string()));
    let se = match &actions[..] {
        [PostPageAction::PostEvent(se)] => se.clone(),
        other => panic!("{:?}", other),
    };
    let e = Event::decode(&se.event).unwrap();
    assert_eq!(e.logical_clock, 3);
    assert!(e.references.is_empty());
    let saved = s.post_published(Ok(()));
    assert_eq!(s.status, Some("Post created and published successfully! Logical clock: 3".to_string()));
    assert_eq!(s.identity.as_ref().unwrap().logical_clock, 4);
    assert_eq!(s.created_post, Some(se));
    assert_eq!(s.post_content, "");
    match &saved[..] {
        [PostPageAction::SaveIdentity(stored)] => assert_eq!(stored.logical_clock, 4),
        other => panic!("{:?}", other),
    }
    s.set_post_content("second".to_string());
    s.set_topic("music".to_string());
    let actions = s.submit_post();
    match &actions[..] {
        [PostPageAction::PostEvent(se)] => {
            let e = Event::decode(&se.event).unwrap();
            assert_eq!(e.logical_clock, 4);
            assert_eq!(e.references[0].reference, b"music".to_vec());
        },
        other => panic!("{:?}", other),
    }
    assert!(s.post_published(Err("503".to_string())).is_empty());
    assert_eq!(s.status, Some("Error posting to server: 503".to_string()));
    assert_eq!(s.identity.as_ref().unwrap().logical_clock, 4);
    assert_eq!(s.topic, "music");
}

#[test]
fn post_page_username_flow() {
    let mut s = PostPageState::new();
    s.identity_loaded(Ok(Some(identity(7))));
    s.set_username_text("alice".to_string());
    let actions = s.submit_username();
    assert_eq!(s.status, Some("Setting username...".to_string()));
    match &actions[..] {
        [PostPageAction::PostUsername(se)] => {
            let e = Event::decode(&se.event).unwrap();
            assert_eq!(e.content_type, 5);
            assert_eq!(e.logical_clock, 7);
        },
        other => panic!("{:?}", other),
    }
    let saved = s.username_posted(Ok(()));
    assert_eq!(s.current_username, Some("alice".to_string()));
    assert_eq!(s.status, Some("Username set successfully! Logical clock: 7".to_string()));
    assert_eq!(s.identity.as_ref().unwrap().logical_clock, 8);
    assert_eq!(s.username, "");
    assert!(matches!(saved[..], [PostPageAction::SaveIdentity(_)]));
}

fn stored_record(clock: u64) -> StoredIdentity {
    identity(clock).stored()
}

#[test]
fn account_page_flows() {
    let mut s = AccountState::new();
    assert!(matches!(s.mount()[..], [AccountAction::LoadIdentity]));
    s.identity_loaded(Ok(None));
    assert_eq!(s.status, Some("No identity found. Create one in the 'Create Post' page.".to_string()));
    assert!(s.export().is_empty());
    assert_eq!(s.status, Some("No identity to export.".to_string()));
    s.identity_loaded(Ok(Some(identity(2))));
    match &s.export()[..] {
        [AccountAction::ExportIdentity(stored)] => assert_eq!(*stored, stored_record(2)),
        other => panic!("{:?}", other),
    }
    s.exported(Ok("{json}".to_string()));
    assert_eq!(s.export_data, Some("{json}".to_string()));
    s.toggle_import();
    assert!(s.show_import);
    s.set_import_input("  ".to_string());
    assert!(s.import().is_empty());
    assert_eq!(s.status, Some("Error: Import data is empty".to_string()));
    s.set_import_input("{json}".to_string());
    assert!(matches!(&s.import()[..], [AccountAction::ParseIdentity(j)] if j == "{json}"));
    let saved = s.import_parsed(Ok(stored_record(9)));
    assert!(matches!(&saved[..], [AccountAction::SaveImportedIdentity(r)] if *r == stored_record(9)));
    s.import_saved(Ok(()));
    assert_eq!(s.identity.as_ref().unwrap().logical_clock, 9);
    assert_eq!(s.status, Some("Identity imported successfully!".to_string()));
    assert!(!s.show_import);
    assert_eq!(s.import_input, "");
    assert_eq!(s.export_data, None);
    s.identity_deleted(Ok(()));
    assert!(s.identity.is_none());
}

#[test]
fn account_page_import_errors() {
    let mut s = AccountState::new();
    assert!(s.import_parsed(Err("Failed to deserialize identity: eof".to_string())).is_empty());
    assert_eq!(s.status, Some("Error importing identity: Failed to deserialize identity: eof".to_string()));
    let bad = StoredIdentity {
        signing_key: "AAAA".to_string(),
        public_key: StoredPublicKey { key_type: 1, key: String::new() },
        process: StoredProcess { process: String::new() },
        logical_clock: 1,
    };
    assert!(s.import_parsed(Ok(bad)).is_empty());
    assert_eq!(
        s.status,
        Some("Error importing identity: Invalid signing key length: expected 32 bytes, got 3".to_string())
    );
    s.identity_deleted(Err("denied".to_string()));
    assert_eq!(s.status, Some("Error deleting identity: denied".to_string()));
    s.identity_loaded(Err("broken".to_string()));
    assert_eq!(s.status, Some("Error loading identity: broken".to_string()));
}

#[test]
fn query_page_flows() {
    let mut s = QueryPageState::new();
    assert_eq!(s.fetch_default(), QueryAction::Fetch(default_query_url().to_string()));
    assert!(s.loading);
    s.fetched(Err("timeout".to_string()));
    assert!(!s.loading);
    assert_eq!(s.error, Some("Error: timeout".to_string()));
    assert_eq!(s.fetch_topic(), None);
    assert_eq!(s.error, Some("Error: Topic cannot be empty".to_string()));
    s.set_topic("music".to_string());
    assert_eq!(s.fetch_topic(), Some(QueryAction::Fetch(topic_query_url("music"))));
    assert_eq!(s.error, None);
    s.fetched(Ok(QueryReferencesResponse::default()));
    assert_eq!(s.data, Some(QueryReferencesResponse::default()));
    s.decode();
    assert_eq!(s.decoded, Some("Error: Input is empty".to_string()));
}

#[test]
fn explore_page_flow() {
    let mut s = ExplorePageState::new();
    assert_eq!(s.fetch(), QueryAction::Fetch(explore_url().to_string()));
    s.fetched(Ok(ResultEventsAndRelatedEventsAndCursor::default()));
    assert!(!s.loading);
    assert!(s.data.is_some());
}

#[test]
fn debug_menu_classes() {
    assert_eq!(debug_button_class(DebugPage::Query, DebugPage::Query), "debug-btn active");
    assert_eq!(debug_button_class(DebugPage::Query, DebugPage::Explore), "debug-btn");
}
