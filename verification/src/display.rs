//! What the client shows of protocol values: an event's content read by its
//! content type, an event and a signed event field by field, and the events
//! of a query's answer. Each is a value of plain text and numbers that the
//! user interface lays out.

use vstd::prelude::*;
use vstd::string::*;
use vstd::utf8::*;

use crate::content::{
    lemma_post_round_trip, spec_decode_claim, spec_decode_delete, spec_decode_post, spec_encode_post, Claim, Delete,
    Post, SpecClaim, SpecDelete, SpecPost,
};
use crate::format::{lemma_base64_ascii, lemma_truncate_ascii, short_base64, spec_short_base64};
use crate::event::{
    spec_decode_event, Event, LwwElement, LwwElementSet, ModerationTag, Reference, SignedEvent, SpecEvent,
    SpecLwwElement, SpecLwwElementSet, SpecModerationTag, SpecReference, SpecSignedEvent,
};
use crate::event::{view_signed_events, Events, SpecEvents};
use crate::keys::{Process, PublicKey, SpecProcess, SpecPublicKey};
use crate::query::{
    QueryReferencesResponse, QueryReferencesResponseEventItem, ResultEventsAndRelatedEventsAndCursor,
    SpecQueryReferencesResponse, SpecQueryReferencesResponseEventItem, SpecResultEventsAndRelatedEventsAndCursor,
};
use crate::text::{
    base64_std_encode, decimal, push_str, spec_base64_std, spec_decimal, spec_utf8_text, string_from_utf8,
};

verus! {

broadcast use vstd::utf8::group_utf8_lib;

// ---------------------------------------------------------------- pieces

/// What `String::from_utf8_lossy` gives for the bytes `b`.
pub uninterp spec fn spec_utf8_lossy(b: Seq<u8>) -> Seq<char>;

/// `String::from_utf8_lossy`: its documentation says that valid UTF-8 comes
/// back as the text it encodes, and that each invalid sequence is replaced by
/// U+FFFD. The contract names the result and states the first of these; the
/// text made of invalid bytes is not stated.
#[verifier::external_body]
fn utf8_lossy(bytes: &[u8]) -> (r: String)
    ensures
        r@ == spec_utf8_lossy(bytes@),
        valid_utf8(bytes@) ==> r@ == decode_utf8(bytes@),
{
    String::from_utf8_lossy(bytes).into_owned()
}

/// Standard base64 of `b`, shortened to `max_len` characters and `...`.
pub open spec fn spec_short_std(b: Seq<u8>, max_len: nat) -> Seq<char> {
    spec_short_base64(spec_base64_std(b), max_len)
}

/// Standard base64 of `bytes`, shortened for display.
pub fn short_std(bytes: &[u8], max_len: usize) -> (r: String)
    ensures
        r@ == spec_short_std(bytes@, max_len as nat),
{
    let e = base64_std_encode(bytes);
    let text = e.as_str();
    proof {
        lemma_base64_ascii(bytes@, false, true);
        lemma_truncate_ascii(text@, max_len as nat);
        assert(text.spec_bytes() == encode_utf8(text@));
    }
    short_base64(text, max_len)
}

/// The name of a content type: 1 Delete, 2 SystemProcesses, 3 Post, 4 Follow,
/// 5 Username, 6 Description, 7 BlobMeta, 8 BlobSection, 9 Avatar, 10 Server,
/// 11 Vouch, 12 Claim, 13 Banner, and Unknown for any other number.
pub open spec fn spec_content_type_name(content_type: u64) -> Seq<char> {
    if content_type == 1 {
        "Delete"@
    } else if content_type == 2 {
        "SystemProcesses"@
    } else if content_type == 3 {
        "Post"@
    } else if content_type == 4 {
        "Follow"@
    } else if content_type == 5 {
        "Username"@
    } else if content_type == 6 {
        "Description"@
    } else if content_type == 7 {
        "BlobMeta"@
    } else if content_type == 8 {
        "BlobSection"@
    } else if content_type == 9 {
        "Avatar"@
    } else if content_type == 10 {
        "Server"@
    } else if content_type == 11 {
        "Vouch"@
    } else if content_type == 12 {
        "Claim"@
    } else if content_type == 13 {
        "Banner"@
    } else {
        "Unknown"@
    }
}

/// The name of a content type.
pub fn content_type_name(content_type: u64) -> (r: &'static str)
    ensures
        r@ == spec_content_type_name(content_type),
{
    if content_type == 1 {
        "Delete"
    } else if content_type == 2 {
        "SystemProcesses"
    } else if content_type == 3 {
        "Post"
    } else if content_type == 4 {
        "Follow"
    } else if content_type == 5 {
        "Username"
    } else if content_type == 6 {
        "Description"
    } else if content_type == 7 {
        "BlobMeta"
    } else if content_type == 8 {
        "BlobSection"
    } else if content_type == 9 {
        "Avatar"
    } else if content_type == 10 {
        "Server"
    } else if content_type == 11 {
        "Vouch"
    } else if content_type == 12 {
        "Claim"
    } else if content_type == 13 {
        "Banner"
    } else {
        "Unknown"
    }
}

/// The name of an element-set operation: 0 ADD, 1 REMOVE, UNKNOWN otherwise.
pub open spec fn spec_lww_operation_name(operation: i32) -> Seq<char> {
    if operation == 0 {
        "ADD"@
    } else if operation == 1 {
        "REMOVE"@
    } else {
        "UNKNOWN"@
    }
}

/// The name of an element-set operation.
pub fn lww_operation_name(operation: i32) -> (r: &'static str)
    ensures
        r@ == spec_lww_operation_name(operation),
{
    if operation == 0 {
        "ADD"
    } else if operation == 1 {
        "REMOVE"
    } else {
        "UNKNOWN"
    }
}

/// A process as shown: its standard base64 shortened to 16 characters, or
/// `None`.
pub open spec fn spec_process_text(p: Option<SpecProcess>) -> Seq<char> {
    match p {
        Some(p) => spec_short_std(p.process, 16),
        None => "None"@,
    }
}

/// A process as shown.
pub fn process_text(p: &Option<Process>) -> (r: String)
    ensures
        r@ == spec_process_text(match p { Some(x) => Some(x@), None => None }),
{
    match p {
        Some(x) => short_std(x.process.as_slice(), 16),
        None => "None".to_owned(),
    }
}

// ---------------------------------------------------------------- content

/// What is shown of an event's content.
#[derive(Clone, Debug, PartialEq, Eq)]
pub enum ContentView {
    /// The content is empty.
    Empty,
    /// A post that decoded.
    Post(Post),
    /// A post that did not decode: its bytes as text, invalid UTF-8 replaced.
    PostRaw(String),
    /// A claim that decoded.
    Claim(Claim),
    /// A claim that did not decode: its base64, shortened to 50 characters.
    ClaimRaw(String),
    /// A delete that decoded, with its process as shown.
    Delete(Delete, String),
    /// A delete that did not decode: its base64, shortened to 50 characters.
    DeleteRaw(String),
    /// A vouch, whose content is not read.
    Vouch,
    /// Any other content that is UTF-8 text.
    Text(String),
    /// Any other content: its base64, shortened to 100 characters.
    Bytes(String),
}

/// The value of a [`ContentView`].
pub enum SpecContentView {
    Empty,
    Post(SpecPost),
    PostRaw(Seq<char>),
    Claim(SpecClaim),
    ClaimRaw(Seq<char>),
    Delete(SpecDelete, Seq<char>),
    DeleteRaw(Seq<char>),
    Vouch,
    Text(Seq<char>),
    Bytes(Seq<char>),
}

impl View for ContentView {
    type V = SpecContentView;

    open spec fn view(&self) -> SpecContentView {
        match self {
            ContentView::Empty => SpecContentView::Empty,
            ContentView::Post(p) => SpecContentView::Post(p@),
            ContentView::PostRaw(t) => SpecContentView::PostRaw(t@),
            ContentView::Claim(c) => SpecContentView::Claim(c@),
            ContentView::ClaimRaw(t) => SpecContentView::ClaimRaw(t@),
            ContentView::Delete(d, t) => SpecContentView::Delete(d@, t@),
            ContentView::DeleteRaw(t) => SpecContentView::DeleteRaw(t@),
            ContentView::Vouch => SpecContentView::Vouch,
            ContentView::Text(t) => SpecContentView::Text(t@),
            ContentView::Bytes(t) => SpecContentView::Bytes(t@),
        }
    }
}

/// What is shown of content `b` of type `content_type`: nothing where it is
/// empty; a post (3), claim (12) or delete (1) where it decodes as one, and
/// otherwise its bytes (a post as lossy text, a claim or a delete as base64
/// shortened to 50); a vouch (11) as such; and any other content as its text
/// where it is UTF-8, else as base64 shortened to 100.
pub open spec fn spec_content_view(content_type: u64, b: Seq<u8>) -> SpecContentView {
    if b.len() == 0 {
        SpecContentView::Empty
    } else if content_type == 3 {
        match spec_decode_post(b) {
            Some(p) => SpecContentView::Post(p),
            None => SpecContentView::PostRaw(spec_utf8_lossy(b)),
        }
    } else if content_type == 12 {
        match spec_decode_claim(b) {
            Some(c) => SpecContentView::Claim(c),
            None => SpecContentView::ClaimRaw(spec_short_std(b, 50)),
        }
    } else if content_type == 1 {
        match spec_decode_delete(b) {
            Some(d) => SpecContentView::Delete(d, spec_process_text(d.process)),
            None => SpecContentView::DeleteRaw(spec_short_std(b, 50)),
        }
    } else if content_type == 11 {
        SpecContentView::Vouch
    } else {
        match spec_utf8_text(b) {
            Some(t) => SpecContentView::Text(t),
            None => SpecContentView::Bytes(spec_short_std(b, 100)),
        }
    }
}

/// What is shown of an event's content.
pub fn content_view(content_type: u64, content: &[u8]) -> (r: ContentView)
    ensures
        r@ == spec_content_view(content_type, content@),
{
    if content.len() == 0 {
        ContentView::Empty
    } else if content_type == 3 {
        match Post::decode(content) {
            Some(p) => ContentView::Post(p),
            None => ContentView::PostRaw(utf8_lossy(content)),
        }
    } else if content_type == 12 {
        match Claim::decode(content) {
            Some(c) => ContentView::Claim(c),
            None => ContentView::ClaimRaw(short_std(content, 50)),
        }
    } else if content_type == 1 {
        match Delete::decode(content) {
            Some(d) => {
                let t = process_text(&d.process);
                ContentView::Delete(d, t)
            },
            None => ContentView::DeleteRaw(short_std(content, 50)),
        }
    } else if content_type == 11 {
        ContentView::Vouch
    } else {
        match string_from_utf8(content) {
            Some(t) => ContentView::Text(t),
            None => ContentView::Bytes(short_std(content, 100)),
        }
    }
}

/// The content of a post event shows as the post it encodes (for every post
/// whose encoding is not empty and fits a 64-bit length).
pub proof fn lemma_post_content_shows_post(p: SpecPost)
    requires
        0 < spec_encode_post(p).len() < 0x1_0000_0000_0000_0000,
    ensures
        spec_content_view(3, spec_encode_post(p)) == SpecContentView::Post(p),
{
    lemma_post_round_trip(p);
}

// ---------------------------------------------------------------- events

/// A system key as shown: its standard base64 shortened to 20 characters, or
/// `None`.
pub open spec fn spec_system_text(k: Option<SpecPublicKey>) -> Seq<char> {
    match k {
        Some(k) => spec_short_std(k.key, 20),
        None => "None"@,
    }
}

/// A system key as shown.
pub fn system_text(k: &Option<PublicKey>) -> (r: String)
    ensures
        r@ == spec_system_text(match k { Some(x) => Some(x@), None => None }),
{
    match k {
        Some(x) => short_std(x.key.as_slice(), 20),
        None => "None".to_owned(),
    }
}

/// A reference as shown: its type, and its bytes in base64 shortened to 30.
#[derive(Clone, Debug, PartialEq, Eq)]
pub struct ReferenceView {
    pub reference_type: u64,
    pub text: String,
}

/// The value of a [`ReferenceView`].
pub struct SpecReferenceView {
    pub reference_type: u64,
    pub text: Seq<char>,
}

impl View for ReferenceView {
    type V = SpecReferenceView;

    open spec fn view(&self) -> SpecReferenceView {
        SpecReferenceView { reference_type: self.reference_type, text: self.text@ }
    }
}

/// What is shown of a reference.
pub open spec fn spec_reference_view(r: SpecReference) -> SpecReferenceView {
    SpecReferenceView { reference_type: r.reference_type, text: spec_short_std(r.reference, 30) }
}

/// The values of a list of [`ReferenceView`]s.
pub open spec fn view_reference_views(v: Seq<ReferenceView>) -> Seq<SpecReferenceView> {
    v.map_values(|x: ReferenceView| x@)
}

/// A last-writer-wins element as shown: its value as lossy text, and its time.
#[derive(Clone, Debug, PartialEq, Eq)]
pub struct LwwElementView {
    pub value: String,
    pub unix_milliseconds: u64,
}

/// The value of a [`LwwElementView`].
pub struct SpecLwwElementView {
    pub value: Seq<char>,
    pub unix_milliseconds: u64,
}

impl View for LwwElementView {
    type V = SpecLwwElementView;

    open spec fn view(&self) -> SpecLwwElementView {
        SpecLwwElementView { value: self.value@, unix_milliseconds: self.unix_milliseconds }
    }
}

/// What is shown of a last-writer-wins element.
pub open spec fn spec_lww_element_view(e: SpecLwwElement) -> SpecLwwElementView {
    SpecLwwElementView { value: spec_utf8_lossy(e.value), unix_milliseconds: e.unix_milliseconds }
}

/// An element-set change as shown: the operation's name, the value as lossy
/// text, and its time.
#[derive(Clone, Debug, PartialEq, Eq)]
pub struct LwwElementSetView {
    pub operation: String,
    pub value: String,
    pub unix_milliseconds: u64,
}

/// The value of a [`LwwElementSetView`].
pub struct SpecLwwElementSetView {
    pub operation: Seq<char>,
    pub value: Seq<char>,
    pub unix_milliseconds: u64,
}

impl View for LwwElementSetView {
    type V = SpecLwwElementSetView;

    open spec fn view(&self) -> SpecLwwElementSetView {
        SpecLwwElementSetView {
            operation: self.operation@,
            value: self.value@,
            unix_milliseconds: self.unix_milliseconds,
        }
    }
}

/// What is shown of an element-set change.
pub open spec fn spec_lww_element_set_view(e: SpecLwwElementSet) -> SpecLwwElementSetView {
    SpecLwwElementSetView {
        operation: spec_lww_operation_name(e.operation),
        value: spec_utf8_lossy(e.value),
        unix_milliseconds: e.unix_milliseconds,
    }
}

/// What is shown of an event.
#[derive(Clone, Debug, PartialEq, Eq)]
pub struct EventView {
    pub system: String,
    pub process: String,
    pub logical_clock: u64,
    pub content_type: u64,
    pub content_type_name: String,
    pub unix_milliseconds: Option<u64>,
    pub content: ContentView,
    pub lww_element: Option<LwwElementView>,
    pub lww_element_set: Option<LwwElementSetView>,
    pub references: Vec<ReferenceView>,
}

/// The value of an [`EventView`].
pub struct SpecEventView {
    pub system: Seq<char>,
    pub process: Seq<char>,
    pub logical_clock: u64,
    pub content_type: u64,
    pub content_type_name: Seq<char>,
    pub unix_milliseconds: Option<u64>,
    pub content: SpecContentView,
    pub lww_element: Option<SpecLwwElementView>,
    pub lww_element_set: Option<SpecLwwElementSetView>,
    pub references: Seq<SpecReferenceView>,
}

impl View for EventView {
    type V = SpecEventView;

    open spec fn view(&self) -> SpecEventView {
        SpecEventView {
            system: self.system@,
            process: self.process@,
            logical_clock: self.logical_clock,
            content_type: self.content_type,
            content_type_name: self.content_type_name@,
            unix_milliseconds: self.unix_milliseconds,
            content: self.content@,
            lww_element: match self.lww_element { Some(x) => Some(x@), None => None },
            lww_element_set: match self.lww_element_set { Some(x) => Some(x@), None => None },
            references: view_reference_views(self.references@),
        }
    }
}

/// What is shown of an event: its system key shortened to 20 and its process
/// to 16 (or `None`), its logical clock, its content type with its name, its
/// time where it has one, its content, its last-writer-wins element and
/// element-set change where it has them, and each reference.
pub open spec fn spec_event_view(e: SpecEvent) -> SpecEventView {
    SpecEventView {
        system: spec_system_text(e.system),
        process: spec_process_text(e.process),
        logical_clock: e.logical_clock,
        content_type: e.content_type,
        content_type_name: spec_content_type_name(e.content_type),
        unix_milliseconds: e.unix_milliseconds,
        content: spec_content_view(e.content_type, e.content),
        lww_element: match e.lww_element { Some(x) => Some(spec_lww_element_view(x)), None => None },
        lww_element_set: match e.lww_element_set {
            Some(x) => Some(spec_lww_element_set_view(x)),
            None => None,
        },
        references: e.references.map_values(|r: SpecReference| spec_reference_view(r)),
    }
}

fn lww_element_view(e: &LwwElement) -> (r: LwwElementView)
    ensures
        r@ == spec_lww_element_view(e@),
{
    LwwElementView { value: utf8_lossy(e.value.as_slice()), unix_milliseconds: e.unix_milliseconds }
}

fn lww_element_set_view(e: &LwwElementSet) -> (r: LwwElementSetView)
    ensures
        r@ == spec_lww_element_set_view(e@),
{
    LwwElementSetView {
        operation: lww_operation_name(e.operation).to_owned(),
        value: utf8_lossy(e.value.as_slice()),
        unix_milliseconds: e.unix_milliseconds,
    }
}

fn reference_views(refs: &Vec<Reference>) -> (r: Vec<ReferenceView>)
    ensures
        view_reference_views(r@) == refs@.map_values(|x: Reference| x@).map_values(
            |x: SpecReference| spec_reference_view(x),
        ),
{
    let mut out: Vec<ReferenceView> = Vec::new();
    let mut i: usize = 0;
    while i < refs.len()
        invariant
            i <= refs.len(),
            out@.len() == i,
            forall|j: int| 0 <= j < i ==> #[trigger] out@[j]@ == spec_reference_view(refs@[j]@),
        decreases refs.len() - i,
    {
        let r = &refs[i];
        let v = ReferenceView { reference_type: r.reference_type, text: short_std(r.reference.as_slice(), 30) };
        out.push(v);
        i = i + 1;
    }
    assert(view_reference_views(out@) =~= refs@.map_values(|x: Reference| x@).map_values(
        |x: SpecReference| spec_reference_view(x),
    ));
    out
}

/// What is shown of an event.
pub fn event_view(event: &Event) -> (r: EventView)
    ensures
        r@ == spec_event_view(event@),
{
    let lww_element = match &event.lww_element {
        Some(x) => Some(lww_element_view(x)),
        None => None,
    };
    let lww_element_set = match &event.lww_element_set {
        Some(x) => Some(lww_element_set_view(x)),
        None => None,
    };
    let references = reference_views(&event.references);
    let r = EventView {
        system: system_text(&event.system),
        process: process_text(&event.process),
        logical_clock: event.logical_clock,
        content_type: event.content_type,
        content_type_name: content_type_name(event.content_type).to_owned(),
        unix_milliseconds: event.unix_milliseconds,
        content: content_view(event.content_type, event.content.as_slice()),
        lww_element,
        lww_element_set,
        references,
    };
    proof {
        assert(event@.references == event.references@.map_values(|x: Reference| x@));
    }
    r
}

// ---------------------------------------------------------------- signed events

/// The event inside a signed event, as shown: read where it decodes, else its
/// bytes in base64 shortened to 50.
#[derive(Clone, Debug, PartialEq, Eq)]
pub enum EventBodyView {
    Parsed(EventView),
    Raw(String),
}

/// The value of an [`EventBodyView`].
pub enum SpecEventBodyView {
    Parsed(SpecEventView),
    Raw(Seq<char>),
}

impl View for EventBodyView {
    type V = SpecEventBodyView;

    open spec fn view(&self) -> SpecEventBodyView {
        match self {
            EventBodyView::Parsed(e) => SpecEventBodyView::Parsed(e@),
            EventBodyView::Raw(t) => SpecEventBodyView::Raw(t@),
        }
    }
}

/// What is shown of a signed event.
#[derive(Clone, Debug, PartialEq, Eq)]
pub struct SignedEventView {
    /// The signature in base64, shortened to 20.
    pub signature: String,
    pub body: EventBodyView,
    /// Each moderation tag as `name: level`.
    pub moderation_tags: Vec<String>,
}

/// The value of a [`SignedEventView`].
pub struct SpecSignedEventView {
    pub signature: Seq<char>,
    pub body: SpecEventBodyView,
    pub moderation_tags: Seq<Seq<char>>,
}

impl View for SignedEventView {
    type V = SpecSignedEventView;

    open spec fn view(&self) -> SpecSignedEventView {
        SpecSignedEventView {
            signature: self.signature@,
            body: self.body@,
            moderation_tags: self.moderation_tags@.map_values(|t: String| t@),
        }
    }
}

/// A moderation tag as shown: its name, `: ` and its level.
pub open spec fn spec_moderation_tag_text(t: SpecModerationTag) -> Seq<char> {
    t.name + ": "@ + spec_decimal(t.level as nat)
}

/// What is shown of a signed event: its signature in base64 shortened to 20,
/// its event where it decodes (else the event's bytes in base64 shortened to
/// 50), and its moderation tags.
pub open spec fn spec_signed_event_view(e: SpecSignedEvent) -> SpecSignedEventView {
    SpecSignedEventView {
        signature: spec_short_std(e.signature, 20),
        body: match spec_decode_event(e.event) {
            Some(ev) => SpecEventBodyView::Parsed(spec_event_view(ev)),
            None => SpecEventBodyView::Raw(spec_short_std(e.event, 50)),
        },
        moderation_tags: e.moderation_tags.map_values(|t: SpecModerationTag| spec_moderation_tag_text(t)),
    }
}

fn moderation_tag_text(t: &ModerationTag) -> (r: String)
    ensures
        r@ == spec_moderation_tag_text(t@),
{
    let mut s = t.name.clone();
    push_str(&mut s, ": ");
    let d = decimal(t.level as u64);
    push_str(&mut s, d.as_str());
    s
}

/// What is shown of a signed event.
pub fn signed_event_view(event: &SignedEvent) -> (r: SignedEventView)
    ensures
        r@ == spec_signed_event_view(event@),
{
    let body = match Event::decode(event.event.as_slice()) {
        Some(ev) => EventBodyView::Parsed(event_view(&ev)),
        None => EventBodyView::Raw(short_std(event.event.as_slice(), 50)),
    };
    let mut tags: Vec<String> = Vec::new();
    let mut i: usize = 0;
    while i < event.moderation_tags.len()
        invariant
            i <= event.moderation_tags.len(),
            tags@.len() == i,
            forall|j: int| 0 <= j < i ==> #[trigger] tags@[j]@ == spec_moderation_tag_text(
                event.moderation_tags@[j]@,
            ),
        decreases event.moderation_tags.len() - i,
    {
        tags.push(moderation_tag_text(&event.moderation_tags[i]));
        i = i + 1;
    }
    let r = SignedEventView { signature: short_std(event.signature.as_slice(), 20), body, moderation_tags: tags };
    assert(r@.moderation_tags =~= event@.moderation_tags.map_values(
        |t: SpecModerationTag| spec_moderation_tag_text(t),
    ));
    r
}

/// What is shown of each of a list of signed events.
pub open spec fn spec_signed_event_views(v: Seq<SpecSignedEvent>) -> Seq<SpecSignedEventView> {
    v.map_values(|e: SpecSignedEvent| spec_signed_event_view(e))
}

/// The values of a list of [`SignedEventView`]s.
pub open spec fn view_signed_event_views(v: Seq<SignedEventView>) -> Seq<SpecSignedEventView> {
    v.map_values(|x: SignedEventView| x@)
}

/// What is shown of each of a list of signed events.
pub fn signed_event_views(events: &Vec<SignedEvent>) -> (r: Vec<SignedEventView>)
    ensures
        view_signed_event_views(r@) == spec_signed_event_views(view_signed_events(events@)),
{
    let mut out: Vec<SignedEventView> = Vec::new();
    let mut i: usize = 0;
    while i < events.len()
        invariant
            i <= events.len(),
            out@.len() == i,
            forall|j: int| 0 <= j < i ==> #[trigger] out@[j]@ == spec_signed_event_view(events@[j]@),
        decreases events.len() - i,
    {
        out.push(signed_event_view(&events[i]));
        i = i + 1;
    }
    assert(view_signed_event_views(out@) =~= spec_signed_event_views(view_signed_events(events@)));
    out
}

// ---------------------------------------------------------------- answers

/// An item of a reference query's answer as shown: its event, and its counts.
#[derive(Clone, Debug, PartialEq, Eq)]
pub struct EventItemView {
    pub event: Option<SignedEventView>,
    pub counts: Vec<u64>,
}

/// The value of an [`EventItemView`].
pub struct SpecEventItemView {
    pub event: Option<SpecSignedEventView>,
    pub counts: Seq<u64>,
}

impl View for EventItemView {
    type V = SpecEventItemView;

    open spec fn view(&self) -> SpecEventItemView {
        SpecEventItemView {
            event: match self.event { Some(e) => Some(e@), None => None },
            counts: self.counts@,
        }
    }
}

/// What is shown of an item of a reference query's answer.
pub open spec fn spec_event_item_view(item: SpecQueryReferencesResponseEventItem) -> SpecEventItemView {
    SpecEventItemView {
        event: match item.event { Some(e) => Some(spec_signed_event_view(e)), None => None },
        counts: item.counts,
    }
}

/// What is shown of a reference query's answer.
#[derive(Clone, Debug, PartialEq, Eq)]
pub struct ResponseView {
    pub items: Vec<EventItemView>,
    pub related_events: Vec<SignedEventView>,
    /// The cursor in standard base64.
    pub cursor: Option<String>,
    pub counts: Vec<u64>,
}

/// The value of a [`ResponseView`].
pub struct SpecResponseView {
    pub items: Seq<SpecEventItemView>,
    pub related_events: Seq<SpecSignedEventView>,
    pub cursor: Option<Seq<char>>,
    pub counts: Seq<u64>,
}

impl View for ResponseView {
    type V = SpecResponseView;

    open spec fn view(&self) -> SpecResponseView {
        SpecResponseView {
            items: self.items@.map_values(|x: EventItemView| x@),
            related_events: view_signed_event_views(self.related_events@),
            cursor: match self.cursor { Some(c) => Some(c@), None => None },
            counts: self.counts@,
        }
    }
}

/// What is shown of a reference query's answer: each item, each related
/// event, the cursor in standard base64, and the counts.
pub open spec fn spec_response_view(r: SpecQueryReferencesResponse) -> SpecResponseView {
    SpecResponseView {
        items: r.items.map_values(|x: SpecQueryReferencesResponseEventItem| spec_event_item_view(x)),
        related_events: spec_signed_event_views(r.related_events),
        cursor: match r.cursor { Some(c) => Some(spec_base64_std(c)), None => None },
        counts: r.counts,
    }
}

fn event_item_view(item: &QueryReferencesResponseEventItem) -> (r: EventItemView)
    ensures
        r@ == spec_event_item_view(item@),
{
    let event = match &item.event {
        Some(e) => Some(signed_event_view(e)),
        None => None,
    };
    EventItemView { event, counts: item.counts.clone() }
}

/// What is shown of a reference query's answer.
pub fn response_view(data: &QueryReferencesResponse) -> (r: ResponseView)
    ensures
        r@ == spec_response_view(data@),
{
    let mut items: Vec<EventItemView> = Vec::new();
    let mut i: usize = 0;
    while i < data.items.len()
        invariant
            i <= data.items.len(),
            items@.len() == i,
            forall|j: int| 0 <= j < i ==> #[trigger] items@[j]@ == spec_event_item_view(data.items@[j]@),
        decreases data.items.len() - i,
    {
        items.push(event_item_view(&data.items[i]));
        i = i + 1;
    }
    let cursor = match &data.cursor {
        Some(c) => Some(base64_std_encode(c.as_slice())),
        None => None,
    };
    let r = ResponseView {
        items,
        related_events: signed_event_views(&data.related_events),
        cursor,
        counts: data.counts.clone(),
    };
    assert(r@.items =~= data@.items.map_values(
        |x: SpecQueryReferencesResponseEventItem| spec_event_item_view(x),
    ));
    r
}

/// What is shown of an explore answer.
#[derive(Clone, Debug, PartialEq, Eq)]
pub struct ExploreView {
    pub result_events: Option<Vec<SignedEventView>>,
    pub related_events: Option<Vec<SignedEventView>>,
    /// The cursor in standard base64.
    pub cursor: Option<String>,
}

/// The value of an [`ExploreView`].
pub struct SpecExploreView {
    pub result_events: Option<Seq<SpecSignedEventView>>,
    pub related_events: Option<Seq<SpecSignedEventView>>,
    pub cursor: Option<Seq<char>>,
}

impl View for ExploreView {
    type V = SpecExploreView;

    open spec fn view(&self) -> SpecExploreView {
        SpecExploreView {
            result_events: match self.result_events { Some(v) => Some(view_signed_event_views(v@)), None => None },
            related_events: match self.related_events { Some(v) => Some(view_signed_event_views(v@)), None => None },
            cursor: match self.cursor { Some(c) => Some(c@), None => None },
        }
    }
}

/// The events of a list as shown, where there is a list.
pub open spec fn spec_events_view(e: Option<SpecEvents>) -> Option<Seq<SpecSignedEventView>> {
    match e {
        Some(e) => Some(spec_signed_event_views(e.events)),
        None => None,
    }
}

/// What is shown of an explore answer: its result events and its related
/// events, where it has them, and the cursor in standard base64.
pub open spec fn spec_explore_view(r: SpecResultEventsAndRelatedEventsAndCursor) -> SpecExploreView {
    SpecExploreView {
        result_events: spec_events_view(r.result_events),
        related_events: spec_events_view(r.related_events),
        cursor: match r.cursor { Some(c) => Some(spec_base64_std(c)), None => None },
    }
}

fn events_view(e: &Option<Events>) -> (r: Option<Vec<SignedEventView>>)
    ensures
        match r { Some(v) => Some(view_signed_event_views(v@)), None => None::<Seq<SpecSignedEventView>> }
            == spec_events_view(match e { Some(x) => Some(x@), None => None }),
{
    match e {
        Some(x) => Some(signed_event_views(&x.events)),
        None => None,
    }
}

/// What is shown of an explore answer.
pub fn explore_view(data: &ResultEventsAndRelatedEventsAndCursor) -> (r: ExploreView)
    ensures
        r@ == spec_explore_view(data@),
{
    let cursor = match &data.cursor {
        Some(c) => Some(base64_std_encode(c.as_slice())),
        None => None,
    };
    ExploreView {
        result_events: events_view(&data.result_events),
        related_events: events_view(&data.related_events),
        cursor,
    }
}

/// A list of signed events is shown element by element, in order: its view
/// has one entry for each event, and the `i`th entry is the view of the `i`th
/// event.
pub proof fn lemma_signed_event_views_elementwise(v: Seq<SpecSignedEvent>)
    ensures
        spec_signed_event_views(v).len() == v.len(),
        forall|i: int| 0 <= i < v.len() ==> #[trigger] spec_signed_event_views(v)[i] == spec_signed_event_view(v[i]),
{
}

/// What a signed event shows: its signature in standard base64 shortened to
/// 20, one `name: level` line for each moderation tag in order, and its event
/// where the bytes decode (else those bytes in base64 shortened to 50).
pub proof fn lemma_signed_event_view_parts(e: SpecSignedEvent)
    ensures
        ({
            let v = spec_signed_event_view(e);
            &&& v.signature == spec_short_base64(spec_base64_std(e.signature), 20)
            &&& v.moderation_tags.len() == e.moderation_tags.len()
            &&& forall|i: int|
                0 <= i < e.moderation_tags.len() ==> #[trigger] v.moderation_tags[i] == e.moderation_tags[i].name
                    + ": "@ + spec_decimal(e.moderation_tags[i].level as nat)
            &&& v.body == match spec_decode_event(e.event) {
                Some(ev) => SpecEventBodyView::Parsed(spec_event_view(ev)),
                None => SpecEventBodyView::Raw(spec_short_base64(spec_base64_std(e.event), 50)),
            }
        }),
{
}

/// An event shows each of its references in order: its type, and its bytes in
/// standard base64 shortened to 30.
pub proof fn lemma_event_view_references(e: SpecEvent)
    ensures
        spec_event_view(e).references.len() == e.references.len(),
        forall|i: int|
            0 <= i < e.references.len() ==> #[trigger] spec_event_view(e).references[i] == (SpecReferenceView {
                reference_type: e.references[i].reference_type,
                text: spec_short_base64(spec_base64_std(e.references[i].reference), 30),
            }),
{
}

/// An explore answer shows each of its result events and each of its related
/// events, in order, where it has them, and its cursor in standard base64.
pub proof fn lemma_explore_view_elementwise(r: SpecResultEventsAndRelatedEventsAndCursor)
    ensures
        match r.result_events {
            Some(ev) => spec_explore_view(r).result_events matches Some(vs) && vs.len() == ev.events.len() && (
            forall|i: int| 0 <= i < ev.events.len() ==> #[trigger] vs[i] == spec_signed_event_view(ev.events[i])),
            None => spec_explore_view(r).result_events is None,
        },
        match r.related_events {
            Some(ev) => spec_explore_view(r).related_events matches Some(vs) && vs.len() == ev.events.len() && (
            forall|i: int| 0 <= i < ev.events.len() ==> #[trigger] vs[i] == spec_signed_event_view(ev.events[i])),
            None => spec_explore_view(r).related_events is None,
        },
        spec_explore_view(r).cursor == match r.cursor {
            Some(c) => Some(spec_base64_std(c)),
            None => None,
        },
{
}

/// A reference query's answer shows each item in order (its signed event where
/// it has one, and its counts), each related event in order, its cursor in
/// standard base64 and its counts.
pub proof fn lemma_response_view_elementwise(r: SpecQueryReferencesResponse)
    ensures
        spec_response_view(r).items.len() == r.items.len(),
        forall|i: int|
            0 <= i < r.items.len() ==> #[trigger] spec_response_view(r).items[i] == (SpecEventItemView {
                event: match r.items[i].event {
                    Some(e) => Some(spec_signed_event_view(e)),
                    None => None,
                },
                counts: r.items[i].counts,
            }),
        spec_response_view(r).related_events.len() == r.related_events.len(),
        forall|i: int|
            0 <= i < r.related_events.len() ==> #[trigger] spec_response_view(r).related_events[i]
                == spec_signed_event_view(r.related_events[i]),
        spec_response_view(r).cursor == match r.cursor {
            Some(c) => Some(spec_base64_std(c)),
            None => None,
        },
        spec_response_view(r).counts == r.counts,
{
}

/// What content shows, by its type: nothing where it is empty; a post (3), a
/// claim (12) or a delete (1) that decodes shows as the decoded message (a
/// delete with its process as shown); a vouch (11) shows as such; any other
/// type shows its UTF-8 text where it has one; and content that does not read
/// as its type shows its bytes (a post as lossy text, a claim or delete in
/// standard base64 shortened to 50, anything else shortened to 100).
pub proof fn lemma_content_view_by_type(content_type: u64, b: Seq<u8>)
    ensures
        b.len() == 0 ==> spec_content_view(content_type, b) == SpecContentView::Empty,
        b.len() > 0 && content_type == 3 ==> spec_content_view(content_type, b) == match spec_decode_post(b) {
            Some(p) => SpecContentView::Post(p),
            None => SpecContentView::PostRaw(spec_utf8_lossy(b)),
        },
        b.len() > 0 && content_type == 12 ==> spec_content_view(content_type, b) == match spec_decode_claim(b) {
            Some(c) => SpecContentView::Claim(c),
            None => SpecContentView::ClaimRaw(spec_short_base64(spec_base64_std(b), 50)),
        },
        b.len() > 0 && content_type == 1 ==> spec_content_view(content_type, b) == match spec_decode_delete(b) {
            Some(d) => SpecContentView::Delete(
                d,
                match d.process {
                    Some(p) => spec_short_base64(spec_base64_std(p.process), 16),
                    None => "None"@,
                },
            ),
            None => SpecContentView::DeleteRaw(spec_short_base64(spec_base64_std(b), 50)),
        },
        b.len() > 0 && content_type == 11 ==> spec_content_view(content_type, b) == SpecContentView::Vouch,
        b.len() > 0 && content_type != 1 && content_type != 3 && content_type != 11 && content_type != 12
            ==> spec_content_view(content_type, b) == if valid_utf8(b) {
            SpecContentView::Text(decode_utf8(b))
        } else {
            SpecContentView::Bytes(spec_short_base64(spec_base64_std(b), 100))
        },
{
}

/// What an event shows: its system key and process in standard base64
/// shortened to 20 and 16 (`None` where absent), its logical clock, its
/// content type with that type's name, its time where it has one, and its
/// content as shown for its type.
pub proof fn lemma_event_view_fields(e: SpecEvent)
    ensures
        spec_event_view(e).system == match e.system {
            Some(k) => spec_short_base64(spec_base64_std(k.key), 20),
            None => "None"@,
        },
        spec_event_view(e).process == match e.process {
            Some(p) => spec_short_base64(spec_base64_std(p.process), 16),
            None => "None"@,
        },
        spec_event_view(e).logical_clock == e.logical_clock,
        spec_event_view(e).content_type == e.content_type,
        spec_event_view(e).content_type_name == spec_content_type_name(e.content_type),
        spec_event_view(e).unix_milliseconds == e.unix_milliseconds,
        spec_event_view(e).content == spec_content_view(e.content_type, e.content),
        spec_event_view(e).lww_element == match e.lww_element {
            Some(x) => Some(SpecLwwElementView { value: spec_utf8_lossy(x.value), unix_milliseconds: x.unix_milliseconds }),
            None => None,
        },
        spec_event_view(e).lww_element_set == match e.lww_element_set {
            Some(x) => Some(
                SpecLwwElementSetView {
                    operation: spec_lww_operation_name(x.operation),
                    value: spec_utf8_lossy(x.value),
                    unix_milliseconds: x.unix_milliseconds,
                },
            ),
            None => None,
        },
{
}

} // verus!
