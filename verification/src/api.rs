//! What the client asks of the server and posts to it: new identities, post
//! and username events signed by an identity, the query for a topic, and the
//! body that posts events.

use vstd::prelude::*;
use vstd::string::*;
use vstd::utf8::*;

use crate::clock::now_unix_millis;
use crate::content::{spec_encode_post, Post, SpecPost};
use crate::crypto::{random_bytes, signing_key_from_slice, spec_ed25519_public_key, spec_ed25519_signature, SigningKey};
use crate::event::{
    lemma_event_round_trip, lemma_events_round_trip, spec_decode_events, spec_decode_event, spec_encode_event,
    spec_encode_events, Event, Events, Indices, LwwElement, Reference, SignedEvent, SpecEvent, SpecEvents,
    SpecIndices, SpecLwwElement, SpecReference, SpecSignedEvent, SpecVectorClock, VectorClock,
};
use crate::keys::{Process, PublicKey, SpecProcess, SpecPublicKey};
use crate::query::{
    lemma_query_references_request_round_trip, spec_decode_query_references_request,
    spec_decode_query_references_response,
    spec_encode_query_references_request, QueryReferencesRequest, QueryReferencesRequestEvents,
    QueryReferencesResponse, ResultEventsAndRelatedEventsAndCursor, SpecQueryReferencesRequest,
    SpecQueryReferencesRequestEvents, SpecResultEventsAndRelatedEventsAndCursor,
};
use crate::text::{
    base64_url_encode, lemma_base64_url_decode, push_str, spec_base64_url, spec_base64_url_decode, string_bytes,
};

verus! {

/// The key type of ed25519 public keys.
pub const KEY_TYPE_ED25519: u64 = 1;

/// The content type of post events.
pub const CONTENT_TYPE_POST: u64 = 3;

/// The content type of username events.
pub const CONTENT_TYPE_USERNAME: u64 = 5;

/// The reference type of byte references, such as topics.
pub const REFERENCE_TYPE_BYTES: u64 = 3;

/// The length of a process identifier, in bytes.
pub const PROCESS_ID_LEN: usize = 16;

/// The public key record of a signing key.
pub open spec fn spec_identity_public_key(secret: Seq<u8>) -> SpecPublicKey {
    SpecPublicKey { key_type: KEY_TYPE_ED25519, key: spec_ed25519_public_key(secret) }
}

/// The identity of a secret key: the signing key, and its public key record
/// (an ed25519 key).
pub fn identity_from_secret(secret: &[u8; 32]) -> (r: (SigningKey, PublicKey))
    ensures
        r.0@ == secret@,
        r.1@ == spec_identity_public_key(secret@),
        r.1@.key.len() == 32,
{
    let signing_key = SigningKey::from_bytes(secret);
    let verifying = signing_key.verifying_key_bytes();
    let public_key = PublicKey { key_type: KEY_TYPE_ED25519, key: vstd::slice::slice_to_vec(verifying.as_slice()) };
    (signing_key, public_key)
}

/// A new identity: a random signing key and its public key record.
pub fn generate_identity() -> (r: (SigningKey, PublicKey))
    ensures
        r.0@.len() == 32,
        r.1@ == spec_identity_public_key(r.0@),
        r.1@.key.len() == 32,
{
    let bytes = random_bytes(32);
    match signing_key_from_slice(bytes.as_slice()) {
        Some(k) => {
            let secret = k.to_bytes();
            identity_from_secret(&secret)
        },
        None => {
            proof {
                assert(false);
            }
            identity_from_secret(&[0u8; 32])
        },
    }
}

/// A new process: a random identifier of sixteen bytes.
pub fn generate_process() -> (r: Process)
    ensures
        r@.process.len() == PROCESS_ID_LEN,
{
    Process { process: random_bytes(PROCESS_ID_LEN) }
}

/// The parts that every event of an identity carries: its system and process,
/// its logical clock, an empty vector clock and empty indices, and its time.
pub open spec fn spec_event_frame(
    public_key: SpecPublicKey,
    process: SpecProcess,
    logical_clock: u64,
    content_type: u64,
    content: Seq<u8>,
    lww_element: Option<SpecLwwElement>,
    references: Seq<SpecReference>,
    unix_milliseconds: u64,
) -> SpecEvent {
    SpecEvent {
        system: Some(public_key),
        process: Some(process),
        logical_clock,
        content_type,
        content,
        vector_clock: Some(SpecVectorClock { logical_clocks: seq![] }),
        indices: Some(SpecIndices { indices: seq![] }),
        lww_element_set: None,
        lww_element,
        references,
        unix_milliseconds: Some(unix_milliseconds),
    }
}

/// The post of a post event: its text, and no images.
pub open spec fn spec_post_content(content: Seq<char>) -> SpecPost {
    SpecPost { content: Some(content), images: seq![] }
}

/// The references of a post: a byte reference to its topic, where it has one.
pub open spec fn spec_topic_references(topic: Option<Seq<char>>) -> Seq<SpecReference> {
    match topic {
        Some(t) => seq![SpecReference { reference_type: REFERENCE_TYPE_BYTES, reference: encode_utf8(t) }],
        None => seq![],
    }
}

/// The event of a post: content type 3, the encoded post as content, and a
/// byte reference to the topic where there is one.
pub open spec fn spec_post_event(
    public_key: SpecPublicKey,
    process: SpecProcess,
    logical_clock: u64,
    content: Seq<char>,
    topic: Option<Seq<char>>,
    unix_milliseconds: u64,
) -> SpecEvent {
    spec_event_frame(
        public_key,
        process,
        logical_clock,
        CONTENT_TYPE_POST,
        spec_encode_post(spec_post_content(content)),
        None,
        spec_topic_references(topic),
        unix_milliseconds,
    )
}

/// The event that sets a username: content type 5, no content, and the
/// username's UTF-8 bytes as a last-writer-wins value written at the event's
/// time.
pub open spec fn spec_username_event(
    public_key: SpecPublicKey,
    process: SpecProcess,
    logical_clock: u64,
    username: Seq<char>,
    unix_milliseconds: u64,
) -> SpecEvent {
    spec_event_frame(
        public_key,
        process,
        logical_clock,
        CONTENT_TYPE_USERNAME,
        seq![],
        Some(SpecLwwElement { value: encode_utf8(username), unix_milliseconds }),
        seq![],
        unix_milliseconds,
    )
}

/// A signed event: the encoding of the event, its signature under the key,
/// and no moderation tags.
pub open spec fn spec_sign_event(secret: Seq<u8>, event: SpecEvent) -> SpecSignedEvent {
    SpecSignedEvent {
        signature: spec_ed25519_signature(secret, spec_encode_event(event)),
        event: spec_encode_event(event),
        moderation_tags: seq![],
    }
}

/// The view of an optional string.
pub open spec fn opt_text(t: Option<String>) -> Option<Seq<char>> {
    match t {
        Some(s) => Some(s@),
        None => None,
    }
}

/// The frame of an event, built from the identity's records.
fn event_frame(
    public_key: &PublicKey,
    process: &Process,
    logical_clock: u64,
    content_type: u64,
    content: Vec<u8>,
    lww_element: Option<LwwElement>,
    references: Vec<Reference>,
    unix_milliseconds: u64,
) -> (r: Event)
    ensures
        r@ == spec_event_frame(
            public_key@,
            process@,
            logical_clock,
            content_type,
            content@,
            match lww_element {
                Some(l) => Some(l@),
                None => None,
            },
            crate::event::view_references(references@),
            unix_milliseconds,
        ),
{
    let r = Event {
        system: Some(public_key.duplicate()),
        process: Some(process.duplicate()),
        logical_clock,
        content_type,
        content,
        vector_clock: Some(VectorClock { logical_clocks: Vec::new() }),
        indices: Some(Indices { indices: Vec::new() }),
        lww_element_set: None,
        lww_element,
        references,
        unix_milliseconds: Some(unix_milliseconds),
    };
    assert(r@.vector_clock =~= Some(SpecVectorClock { logical_clocks: seq![] }));
    assert(r@.indices =~= Some(SpecIndices { indices: seq![] }));
    assert(r@ =~= spec_event_frame(
        public_key@,
        process@,
        logical_clock,
        content_type,
        content@,
        match lww_element {
            Some(l) => Some(l@),
            None => None,
        },
        crate::event::view_references(references@),
        unix_milliseconds,
    ));
    r
}

/// The event of a post, at the given time.
pub fn post_event(
    public_key: &PublicKey,
    process: &Process,
    logical_clock: u64,
    content: &String,
    topic: &Option<String>,
    unix_milliseconds: u64,
) -> (r: Event)
    ensures
        r@ == spec_post_event(public_key@, process@, logical_clock, content@, opt_text(*topic), unix_milliseconds),
{
    let post = Post { content: Some(content.clone()), images: Vec::new() };
    assert(post@ =~= spec_post_content(content@));
    let post_bytes = post.encode();
    let mut references: Vec<Reference> = Vec::new();
    match topic {
        Some(t) => {
            references.push(Reference { reference_type: REFERENCE_TYPE_BYTES, reference: string_bytes(t.as_str()) });
        },
        None => {},
    }
    assert(crate::event::view_references(references@) =~= spec_topic_references(opt_text(*topic)));
    event_frame(public_key, process, logical_clock, CONTENT_TYPE_POST, post_bytes, None, references, unix_milliseconds)
}

/// The event that sets a username, at the given time.
pub fn username_event(
    public_key: &PublicKey,
    process: &Process,
    logical_clock: u64,
    username: &String,
    unix_milliseconds: u64,
) -> (r: Event)
    ensures
        r@ == spec_username_event(public_key@, process@, logical_clock, username@, unix_milliseconds),
{
    let lww = LwwElement { value: string_bytes(username.as_str()), unix_milliseconds };
    let references: Vec<Reference> = Vec::new();
    assert(crate::event::view_references(references@) =~= Seq::<SpecReference>::empty());
    event_frame(
        public_key,
        process,
        logical_clock,
        CONTENT_TYPE_USERNAME,
        Vec::new(),
        Some(lww),
        references,
        unix_milliseconds,
    )
}

/// Signs an event: encodes it, and signs the encoding with the key.
pub fn sign_event(signing_key: &SigningKey, event: &Event) -> (r: SignedEvent)
    ensures
        r@ == spec_sign_event(signing_key@, event@),
        spec_decode_event(r@.event) == Some(event@),
        r@.signature.len() == 64,
{
    let event_bytes = event.encode();
    let signature = signing_key.sign(event_bytes.as_slice());
    proof {
        assert(event_bytes@.len() == event_bytes.len());
        lemma_event_round_trip(event@);
    }
    let r = SignedEvent {
        signature: vstd::slice::slice_to_vec(signature.as_slice()),
        event: event_bytes,
        moderation_tags: Vec::new(),
    };
    assert(r@ =~= spec_sign_event(signing_key@, event@));
    r
}

/// Creates and signs the event of a post, stamped with the time now; its
/// references name the topic where one is given. Never fails.
pub fn create_post(
    signing_key: &SigningKey,
    public_key: &PublicKey,
    process: &Process,
    logical_clock: u64,
    content: String,
    topic: Option<String>,
) -> (r: Result<SignedEvent, String>)
    ensures
        r matches Ok(s) && s@.signature.len() == 64 && exists|t: u64|
            s@ == spec_sign_event(
                signing_key@,
                #[trigger] spec_post_event(public_key@, process@, logical_clock, content@, opt_text(topic), t),
            ) && spec_decode_event(s@.event) == Some(
                spec_post_event(public_key@, process@, logical_clock, content@, opt_text(topic), t),
            ),
{
    let unix_milliseconds = now_unix_millis() as u64;
    let event = post_event(public_key, process, logical_clock, &content, &topic, unix_milliseconds);
    let signed = sign_event(signing_key, &event);
    Ok(signed)
}

/// Creates and signs the event that sets a username, stamped with the time
/// now. Never fails.
pub fn create_username(
    signing_key: &SigningKey,
    public_key: &PublicKey,
    process: &Process,
    logical_clock: u64,
    username: String,
) -> (r: Result<SignedEvent, String>)
    ensures
        r matches Ok(s) && s@.signature.len() == 64 && exists|t: u64|
            s@ == spec_sign_event(
                signing_key@,
                #[trigger] spec_username_event(public_key@, process@, logical_clock, username@, t),
            ) && spec_decode_event(s@.event) == Some(
                spec_username_event(public_key@, process@, logical_clock, username@, t),
            ),
{
    let unix_milliseconds = now_unix_millis() as u64;
    let event = username_event(public_key, process, logical_clock, &username, unix_milliseconds);
    let signed = sign_event(signing_key, &event);
    Ok(signed)
}

/// The query for the posts of a topic: a byte reference to the topic's UTF-8
/// bytes, asking for the referencing events of content type 3 (posts).
pub open spec fn spec_topic_query(topic: Seq<char>) -> SpecQueryReferencesRequest {
    SpecQueryReferencesRequest {
        reference: Some(SpecReference { reference_type: REFERENCE_TYPE_BYTES, reference: encode_utf8(topic) }),
        cursor: None,
        request_events: Some(
            SpecQueryReferencesRequestEvents {
                from_type: Some(CONTENT_TYPE_POST),
                count_lww_element_references: seq![],
                count_references: seq![],
            },
        ),
        count_lww_element_references: seq![],
        count_references: seq![],
        extra_byte_references: seq![],
    }
}

/// The query for the posts of a topic.
pub fn topic_query(topic: &str) -> (r: QueryReferencesRequest)
    ensures
        r@ == spec_topic_query(topic@),
{
    let r = QueryReferencesRequest {
        reference: Some(Reference { reference_type: REFERENCE_TYPE_BYTES, reference: string_bytes(topic) }),
        cursor: None,
        request_events: Some(
            QueryReferencesRequestEvents {
                from_type: Some(CONTENT_TYPE_POST),
                count_lww_element_references: Vec::new(),
                count_references: Vec::new(),
            },
        ),
        count_lww_element_references: Vec::new(),
        count_references: Vec::new(),
        extra_byte_references: Vec::new(),
    };
    assert(r@ =~= spec_topic_query(topic@));
    r
}

/// The address of the server's reference queries, up to the query itself.
pub open spec fn query_references_prefix() -> Seq<char> {
    "https://serv1.polycentric.io/query_references?query="@
}

/// What follows the query in the address of a reference query.
pub open spec fn query_references_suffix() -> Seq<char> {
    "&moderation_filters=[]"@
}

/// The address that fetches the posts of a topic: the topic query, encoded
/// and written in URL-safe base64 without padding, as the `query` parameter.
pub open spec fn spec_topic_query_url(topic: Seq<char>) -> Seq<char> {
    query_references_prefix() + spec_base64_url(spec_encode_query_references_request(spec_topic_query(topic)))
        + query_references_suffix()
}

/// The address that fetches the posts of a topic.
pub fn topic_query_url(topic: &str) -> (r: String)
    ensures
        r@ == spec_topic_query_url(topic@),
{
    let request = topic_query(topic);
    let request_bytes = request.encode();
    let encoded = base64_url_encode(request_bytes.as_slice());
    let mut url = String::new();
    push_str(&mut url, "https://serv1.polycentric.io/query_references?query=");
    push_str(&mut url, encoded.as_str());
    push_str(&mut url, "&moderation_filters=[]");
    assert(url@ =~= spec_topic_query_url(topic@));
    url
}

/// The body that posts a signed event to the server: an `Events` message
/// holding the one event.
pub fn events_body(signed_event: SignedEvent) -> (r: Vec<u8>)
    ensures
        r@ == spec_encode_events(SpecEvents { events: seq![signed_event@] }),
{
    let mut events: Vec<SignedEvent> = Vec::new();
    events.push(signed_event);
    let body = Events { events };
    assert(body@ =~= SpecEvents { events: seq![signed_event@] });
    body.encode()
}

/// The default reference query, in URL-safe base64.
pub open spec fn default_query() -> Seq<char> {
    "CmYIAhJiCiQIARIg1agZt9hNnBewSwAJ4b0HAzP5ujWZBLx43BE6nOYtuvgSEgoQSayWYqLjA0QDdZ3V_tkaWRgHIiQIARIgaWBgT3ALTZXnqqfRfLjAwJJUED_qYwofgA4X8nEhcHcaAggD"@
}

/// The address of the default reference query.
pub open spec fn spec_default_query_url() -> Seq<char> {
    query_references_prefix() + default_query() + query_references_suffix()
}

/// The address of the explore query: ten events.
pub open spec fn spec_explore_url() -> Seq<char> {
    "https://serv1.polycentric.io/explore?limit=10"@
}

/// The address that events are posted to.
pub open spec fn spec_events_url() -> Seq<char> {
    "https://serv1.polycentric.io/events"@
}

/// The address of the default reference query.
pub fn default_query_url() -> (r: &'static str)
    ensures
        r@ == spec_default_query_url(),
{
    proof {
        reveal_strlit("https://serv1.polycentric.io/query_references?query=CmYIAhJiCiQIARIg1agZt9hNnBewSwAJ4b0HAzP5ujWZBLx43BE6nOYtuvgSEgoQSayWYqLjA0QDdZ3V_tkaWRgHIiQIARIgaWBgT3ALTZXnqqfRfLjAwJJUED_qYwofgA4X8nEhcHcaAggD&moderation_filters=[]");
        reveal_strlit("https://serv1.polycentric.io/query_references?query=");
        reveal_strlit("CmYIAhJiCiQIARIg1agZt9hNnBewSwAJ4b0HAzP5ujWZBLx43BE6nOYtuvgSEgoQSayWYqLjA0QDdZ3V_tkaWRgHIiQIARIgaWBgT3ALTZXnqqfRfLjAwJJUED_qYwofgA4X8nEhcHcaAggD");
        reveal_strlit("&moderation_filters=[]");
    }
    let r = "https://serv1.polycentric.io/query_references?query=CmYIAhJiCiQIARIg1agZt9hNnBewSwAJ4b0HAzP5ujWZBLx43BE6nOYtuvgSEgoQSayWYqLjA0QDdZ3V_tkaWRgHIiQIARIgaWBgT3ALTZXnqqfRfLjAwJJUED_qYwofgA4X8nEhcHcaAggD&moderation_filters=[]";
    assert(r@ =~= spec_default_query_url());
    r
}

/// The address of the explore query: ten events.
pub fn explore_url() -> (r: &'static str)
    ensures
        r@ == spec_explore_url(),
{
    "https://serv1.polycentric.io/explore?limit=10"
}

/// The address that events are posted to.
pub fn events_url() -> (r: &'static str)
    ensures
        r@ == spec_events_url(),
{
    "https://serv1.polycentric.io/events"
}

/// The text of a body that is not a message of the expected kind.
pub open spec fn decode_failure() -> Seq<char> {
    "failed to decode Protobuf message"@
}

/// The server's answer to a reference query, read from the body of its
/// reply; an error where the body is not such an answer.
pub fn decode_query_response(body: &[u8]) -> (r: Result<QueryReferencesResponse, String>)
    ensures
        match spec_decode_query_references_response(body@) {
            Some(m) => r matches Ok(x) && x@ == m,
            None => r matches Err(e) && e@ == decode_failure(),
        },
{
    match QueryReferencesResponse::decode(body) {
        Some(m) => Ok(m),
        None => Err("failed to decode Protobuf message".to_owned()),
    }
}

/// What the explore page shows of the trending events: them as its result
/// events, with no related events and no cursor.
pub open spec fn spec_explore_answer(trending: SpecEvents) -> SpecResultEventsAndRelatedEventsAndCursor {
    SpecResultEventsAndRelatedEventsAndCursor { result_events: Some(trending), related_events: None, cursor: None }
}

/// The server's answer to the explore query, read from the body of its reply:
/// the body is an `Events` message of trending events, which become the
/// answer's result events; an error where the body is not such a message.
pub fn decode_explore_response(body: &[u8]) -> (r: Result<ResultEventsAndRelatedEventsAndCursor, String>)
    ensures
        match spec_decode_events(body@) {
            Some(trending) => r matches Ok(x) && x@ == spec_explore_answer(trending),
            None => r matches Err(e) && e@ == decode_failure(),
        },
{
    match Events::decode(body) {
        Some(trending) => Ok(
            ResultEventsAndRelatedEventsAndCursor { result_events: Some(trending), related_events: None, cursor: None },
        ),
        None => Err("failed to decode Protobuf message".to_owned()),
    }
}

/// What a reply to posting events means: success for a status from 200 to
/// 299; else the error `Server returned error `, the status as text, `: `, and
/// the reply's text (`Unknown error` where it could not be read).
pub open spec fn spec_post_outcome(status: u16, status_text: Seq<char>, body: Option<Seq<char>>) -> Result<
    (),
    Seq<char>,
> {
    if 200 <= status <= 299 {
        Ok(())
    } else {
        Err(
            "Server returned error "@ + status_text + ": "@ + match body {
                Some(b) => b,
                None => "Unknown error"@,
            },
        )
    }
}

/// What a reply to posting events means.
pub fn post_outcome(status: u16, status_text: &str, body: Option<String>) -> (r: Result<(), String>)
    ensures
        match spec_post_outcome(status, status_text@, match body { Some(b) => Some(b@), None => None }) {
            Ok(_) => r is Ok,
            Err(m) => r matches Err(e) && e@ == m,
        },
{
    if 200 <= status && status <= 299 {
        return Ok(());
    }
    let mut m = String::new();
    push_str(&mut m, "Server returned error ");
    push_str(&mut m, status_text);
    push_str(&mut m, ": ");
    match &body {
        Some(b) => push_str(&mut m, b.as_str()),
        None => push_str(&mut m, "Unknown error"),
    }
    assert(m@ =~= "Server returned error "@ + status_text@ + ": "@ + match body {
        Some(b) => b@,
        None => "Unknown error"@,
    });
    Err(m)
}

/// The address of a topic holds the topic query: its query parameter, read
/// as URL-safe base64 and then as a query, gives the topic query back (for
/// every topic whose query's encoding fits a 64-bit length).
pub proof fn lemma_topic_query_url_round_trip(topic: Seq<char>)
    requires
        spec_encode_query_references_request(spec_topic_query(topic)).len() < 0x1_0000_0000_0000_0000,
    ensures
        ({
            let bytes = spec_encode_query_references_request(spec_topic_query(topic));
            let query = spec_base64_url(bytes);
            &&& spec_topic_query_url(topic) == query_references_prefix() + query + query_references_suffix()
            &&& spec_base64_url_decode(query) == Some(bytes)
            &&& spec_decode_query_references_request(bytes) == Some(spec_topic_query(topic))
        }),
{
    let bytes = spec_encode_query_references_request(spec_topic_query(topic));
    lemma_base64_url_decode(bytes);
    lemma_query_references_request_round_trip(spec_topic_query(topic));
}

/// The body that posts a signed event reads back as that one event (for
/// every event whose body fits a 64-bit length).
pub proof fn lemma_events_body_round_trip(signed_event: SpecSignedEvent)
    requires
        spec_encode_events(SpecEvents { events: seq![signed_event] }).len() < 0x1_0000_0000_0000_0000,
    ensures
        spec_decode_events(spec_encode_events(SpecEvents { events: seq![signed_event] })) == Some(
            SpecEvents { events: seq![signed_event] },
        ),
{
    lemma_events_round_trip(SpecEvents { events: seq![signed_event] });
}

} // verus!
