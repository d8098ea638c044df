//! The chat: the messages of a topic, taken from the server's answer to the
//! topic query and put in the order of their times.

use vstd::prelude::*;
use vstd::string::*;
use vstd::utf8::*;

use crate::api::{spec_post_content, spec_post_event, spec_sign_event};
use crate::content::{lemma_post_round_trip, spec_decode_post, spec_encode_post, Post, SpecPost};
use crate::keys::{SpecProcess, SpecPublicKey};
use crate::event::{
    lemma_event_round_trip, spec_decode_event, spec_encode_event, Event, SignedEvent, SpecEvent, SpecSignedEvent,
};
use crate::query::{
    view_query_references_response_event_items, QueryReferencesResponse, SpecQueryReferencesResponse,
    SpecQueryReferencesResponseEventItem,
};
use crate::format::lemma_truncate_ascii;
use crate::text::{base64_std_encode, spec_base64_std};

verus! {

/// A message of the chat: its text, its time (UNIX milliseconds) and the
/// public key of its author in standard base64.
#[derive(Clone, Debug, PartialEq, Eq)]
pub struct ChatMessage {
    pub content: String,
    pub timestamp: u64,
    pub system_key: String,
}

/// The value of a [`ChatMessage`].
pub struct SpecChatMessage {
    pub content: Seq<char>,
    pub timestamp: u64,
    pub system_key: Seq<char>,
}

impl View for ChatMessage {
    type V = SpecChatMessage;

    open spec fn view(&self) -> SpecChatMessage {
        SpecChatMessage { content: self.content@, timestamp: self.timestamp, system_key: self.system_key@ }
    }
}

/// The values of a list of chat messages.
pub open spec fn view_chat_messages(v: Seq<ChatMessage>) -> Seq<SpecChatMessage> {
    v.map_values(|m: ChatMessage| m@)
}

/// The chat message of a signed event: where its event decodes, is a post
/// (content type 3) and its post decodes with text, that text, the event's
/// time (0 where it has none) and its system's key in base64 (empty where it
/// has no system).
pub open spec fn spec_chat_message_of(se: SpecSignedEvent) -> Option<SpecChatMessage> {
    match spec_decode_event(se.event) {
        Some(e) => if e.content_type == 3 {
            match spec_decode_post(e.content) {
                Some(p) => match p.content {
                    Some(text) => Some(
                        SpecChatMessage {
                            content: text,
                            timestamp: match e.unix_milliseconds {
                                Some(t) => t,
                                None => 0,
                            },
                            system_key: match e.system {
                                Some(k) => spec_base64_std(k.key),
                                None => seq![],
                            },
                        },
                    ),
                    None => None,
                },
                None => None,
            }
        } else {
            None
        },
        None => None,
    }
}

/// The chat messages of the items of an answer, in the items' order.
pub open spec fn spec_collect_messages(items: Seq<SpecQueryReferencesResponseEventItem>) -> Seq<SpecChatMessage>
    decreases items.len(),
{
    if items.len() == 0 {
        seq![]
    } else {
        let rest = spec_collect_messages(items.drop_last());
        match items.last().event {
            Some(se) => match spec_chat_message_of(se) {
                Some(m) => rest.push(m),
                None => rest,
            },
            None => rest,
        }
    }
}

/// `x` put into `s` after every message whose time is not later than its own
/// (from the end, it passes the messages that are later).
pub open spec fn spec_insert_by_time(s: Seq<SpecChatMessage>, x: SpecChatMessage) -> Seq<SpecChatMessage>
    decreases s.len(),
{
    if s.len() == 0 {
        seq![x]
    } else if s.last().timestamp <= x.timestamp {
        s.push(x)
    } else {
        spec_insert_by_time(s.drop_last(), x).push(s.last())
    }
}

/// The messages in the order of their times; messages with equal times keep
/// their order (a stable sort by time).
pub open spec fn spec_sort_by_time(s: Seq<SpecChatMessage>) -> Seq<SpecChatMessage>
    decreases s.len(),
{
    if s.len() == 0 {
        seq![]
    } else {
        spec_insert_by_time(spec_sort_by_time(s.drop_last()), s.last())
    }
}

/// The chat of an answer to the topic query: its messages in time order.
pub open spec fn spec_chat_messages(response: SpecQueryReferencesResponse) -> Seq<SpecChatMessage> {
    spec_sort_by_time(spec_collect_messages(response.items))
}

/// The chat message of a signed event, where it holds one.
pub fn chat_message_of(se: &SignedEvent) -> (r: Option<ChatMessage>)
    ensures
        match spec_chat_message_of(se@) {
            Some(m) => r matches Some(x) && x@ == m,
            None => r is None,
        },
{
    let event = match Event::decode(se.event.as_slice()) {
        Some(e) => e,
        None => return None,
    };
    if event.content_type != 3 {
        return None;
    }
    let post = match Post::decode(event.content.as_slice()) {
        Some(p) => p,
        None => return None,
    };
    match post.content {
        Some(text) => {
            let timestamp = match event.unix_milliseconds {
                Some(t) => t,
                None => 0,
            };
            let system_key = match &event.system {
                Some(k) => base64_std_encode(k.key.as_slice()),
                None => String::new(),
            };
            Some(ChatMessage { content: text, timestamp, system_key })
        },
        None => None,
    }
}

/// Puts `x` into the list after every message whose time is not later.
fn insert_by_time(v: &mut Vec<ChatMessage>, x: ChatMessage)
    ensures
        view_chat_messages(final(v)@) == spec_insert_by_time(view_chat_messages(old(v)@), x@),
{
    let ghost s = view_chat_messages(v@);
    let mut p = v.len();
    assert(s.take(p as int) =~= s);
    assert(s.skip(p as int) =~= Seq::<SpecChatMessage>::empty());
    assert(spec_insert_by_time(s, x@) =~= spec_insert_by_time(s.take(p as int), x@) + s.skip(p as int));
    while p > 0 && v[p - 1].timestamp > x.timestamp
        invariant
            p <= v@.len(),
            v@ == old(v)@,
            s == view_chat_messages(v@),
            spec_insert_by_time(s, x@) == spec_insert_by_time(s.take(p as int), x@) + s.skip(p as int),
        decreases p,
    {
        let ghost t = s.take(p as int);
        assert(t.drop_last() =~= s.take(p - 1));
        assert(t.last() == s[p - 1]);
        assert(s.skip(p - 1) =~= seq![s[p - 1]] + s.skip(p as int));
        assert(spec_insert_by_time(t, x@) == spec_insert_by_time(s.take(p - 1), x@).push(s[p - 1]));
        assert(spec_insert_by_time(s.take(p - 1), x@).push(s[p - 1]) + s.skip(p as int) =~= spec_insert_by_time(
            s.take(p - 1),
            x@,
        ) + s.skip(p - 1));
        p = p - 1;
    }
    let ghost t = s.take(p as int);
    if p == 0 {
        assert(t =~= Seq::<SpecChatMessage>::empty());
    } else {
        assert(t.last() == s[p - 1]);
    }
    assert(spec_insert_by_time(t, x@) =~= t.push(x@));
    v.insert(p, x);
    assert(view_chat_messages(v@) =~= t.push(x@) + s.skip(p as int));
}

/// The chat of an answer to the topic query: the messages of its items, in
/// the order of their times (equal times in the items' order).
pub fn chat_messages(response: &QueryReferencesResponse) -> (r: Vec<ChatMessage>)
    ensures
        view_chat_messages(r@) == spec_chat_messages(response@),
{
    let items = &response.items;
    let ghost all = view_query_references_response_event_items(items@);
    let mut collected: Vec<ChatMessage> = Vec::new();
    let mut sorted: Vec<ChatMessage> = Vec::new();
    let mut i: usize = 0;
    while i < items.len()
        invariant
            i <= items@.len(),
            all == view_query_references_response_event_items(items@),
            view_chat_messages(collected@) == spec_collect_messages(all.take(i as int)),
            view_chat_messages(sorted@) == spec_sort_by_time(spec_collect_messages(all.take(i as int))),
        decreases items@.len() - i,
    {
        let ghost before = view_chat_messages(collected@);
        assert(all.take(i + 1).drop_last() =~= all.take(i as int));
        assert(all.take(i + 1).last() == items@[i as int]@);
        match &items[i].event {
            Some(se) => match chat_message_of(se) {
                Some(m) => {
                    let ghost mv = m@;
                    insert_by_time(&mut sorted, m.clone_message());
                    collected.push(m);
                    assert(view_chat_messages(collected@) =~= before.push(mv));
                    assert(spec_collect_messages(all.take(i + 1)) == before.push(mv));
                    assert(before.push(mv).drop_last() =~= before);
                },
                None => {},
            },
            None => {},
        }
        i = i + 1;
    }
    assert(all.take(i as int) =~= all);
    sorted
}

impl ChatMessage {
    /// A copy.
    pub fn clone_message(&self) -> (r: Self)
        ensures
            r@ == self@,
    {
        ChatMessage {
            content: self.content.clone(),
            timestamp: self.timestamp,
            system_key: self.system_key.clone(),
        }
    }
}

/// The messages are in time order.
pub open spec fn sorted_by_time(s: Seq<SpecChatMessage>) -> bool {
    forall|i: int, j: int| 0 <= i < j < s.len() ==> s[i].timestamp <= s[j].timestamp
}

/// Putting a message into a list keeps its messages and adds the new one.
pub proof fn lemma_insert_by_time_multiset(s: Seq<SpecChatMessage>, x: SpecChatMessage)
    ensures
        spec_insert_by_time(s, x).to_multiset() == s.to_multiset().insert(x),
    decreases s.len(),
{
    broadcast use vstd::seq_lib::group_to_multiset_ensures, vstd::multiset::group_multiset_axioms;

    if s.len() == 0 {
        assert(seq![x] =~= Seq::<SpecChatMessage>::empty().push(x));
        vstd::seq_lib::to_multiset_build(Seq::<SpecChatMessage>::empty(), x);
        assert(Seq::<SpecChatMessage>::empty().to_multiset() =~= vstd::multiset::Multiset::empty());
        assert(s =~= Seq::<SpecChatMessage>::empty());
    } else if s.last().timestamp <= x.timestamp {
        vstd::seq_lib::to_multiset_build(s, x);
    } else {
        lemma_insert_by_time_multiset(s.drop_last(), x);
        vstd::seq_lib::to_multiset_build(spec_insert_by_time(s.drop_last(), x), s.last());
        vstd::seq_lib::to_multiset_build(s.drop_last(), s.last());
        assert(s.drop_last().push(s.last()) =~= s);
        assert(s.drop_last().to_multiset().insert(x).insert(s.last()) =~= s.drop_last().to_multiset().insert(
            s.last(),
        ).insert(x));
    }
}

/// Putting a message into a list in time order gives a list in time order.
pub proof fn lemma_insert_by_time_sorted(s: Seq<SpecChatMessage>, x: SpecChatMessage)
    requires
        sorted_by_time(s),
    ensures
        sorted_by_time(spec_insert_by_time(s, x)),
    decreases s.len(),
{
    broadcast use vstd::seq_lib::group_to_multiset_ensures, vstd::multiset::group_multiset_axioms;

    if s.len() > 0 && s.last().timestamp > x.timestamp {
        let d = s.drop_last();
        let r = spec_insert_by_time(d, x);
        lemma_insert_by_time_sorted(d, x);
        lemma_insert_by_time_multiset(d, x);
        assert forall|k: int| 0 <= k < r.len() implies r[k].timestamp <= s.last().timestamp by {
            let e = r[k];
            assert(r.contains(e));
            vstd::seq_lib::to_multiset_contains(r, e);
            if e != x {
                assert(d.to_multiset().count(e) > 0);
                vstd::seq_lib::to_multiset_contains(d, e);
                let j = choose|j: int| 0 <= j < d.len() && d[j] == e;
                assert(s[j] == e);
            }
        }
        let out = r.push(s.last());
        assert forall|i: int, j: int| 0 <= i < j < out.len() implies out[i].timestamp <= out[j].timestamp by {
            if j == out.len() - 1 {
                assert(out[i] == r[i]);
            } else {
                assert(out[i] == r[i] && out[j] == r[j]);
            }
        }
    }
}

/// The chat is in time order, and holds exactly the messages of the items: a
/// stable sort by time.
pub proof fn lemma_sort_by_time(s: Seq<SpecChatMessage>)
    ensures
        sorted_by_time(spec_sort_by_time(s)),
        spec_sort_by_time(s).to_multiset() == s.to_multiset(),
    decreases s.len(),
{
    broadcast use vstd::seq_lib::group_to_multiset_ensures, vstd::multiset::group_multiset_axioms;

    if s.len() > 0 {
        lemma_sort_by_time(s.drop_last());
        lemma_insert_by_time_sorted(spec_sort_by_time(s.drop_last()), s.last());
        lemma_insert_by_time_multiset(spec_sort_by_time(s.drop_last()), s.last());
        vstd::seq_lib::to_multiset_build(s.drop_last(), s.last());
        assert(s.drop_last().push(s.last()) =~= s);
    } else {
        assert(s =~= Seq::<SpecChatMessage>::empty());
    }
}

/// The first eight bytes of a key, as text: how the chat names a message's
/// author. The cut must fall between two characters (as it does in base64
/// text, where the eight bytes are the first eight characters).
pub fn key_prefix(key: &str) -> (r: String)
    requires
        8 <= key.spec_bytes().len(),
        is_char_boundary(key.spec_bytes(), 8),
    ensures
        r@ == decode_utf8(key.spec_bytes().take(8)),
        is_ascii_chars(key@) ==> r@ == key@.take(8),
{
    let (head, _) = key.split_at(8);
    proof {
        assert(head.spec_bytes() =~= key.spec_bytes().take(8));
        assert(head.spec_bytes() == encode_utf8(head@));
        encode_utf8_decode_utf8(head@);
        if is_ascii_chars(key@) {
            lemma_truncate_ascii(key@, 8);
            assert(key.spec_bytes() == encode_utf8(key@));
            is_ascii_chars_encode_utf8(key@);
            let t = key@.take(8);
            assert(is_ascii_chars(t));
            is_ascii_chars_encode_utf8(t);
            assert(encode_utf8(t) =~= key.spec_bytes().take(8));
            encode_utf8_decode_utf8(t);
        }
    }
    head.to_owned()
}

/// A post signed by an identity shows in the chat as its text, at its time,
/// by its system's key in base64 (for every post whose encodings fit a 64-bit
/// length).
pub proof fn lemma_signed_post_is_chat_message(
    secret: Seq<u8>,
    public_key: SpecPublicKey,
    process: SpecProcess,
    logical_clock: u64,
    content: Seq<char>,
    topic: Option<Seq<char>>,
    unix_milliseconds: u64,
)
    requires
        spec_encode_post(spec_post_content(content)).len() < 0x1_0000_0000_0000_0000,
        spec_encode_event(spec_post_event(public_key, process, logical_clock, content, topic, unix_milliseconds)).len()
            < 0x1_0000_0000_0000_0000,
    ensures
        spec_chat_message_of(
            spec_sign_event(
                secret,
                spec_post_event(public_key, process, logical_clock, content, topic, unix_milliseconds),
            ),
        ) == Some(SpecChatMessage { content, timestamp: unix_milliseconds, system_key: spec_base64_std(public_key.key) }),
{
    lemma_post_round_trip(spec_post_content(content));
    lemma_event_round_trip(spec_post_event(public_key, process, logical_clock, content, topic, unix_milliseconds));
}

/// A signed post gives a chat message: where the event of `se` decodes to `e`,
/// a post (content type 3) whose content decodes to a post with text `t`, the
/// message is `t`, the event's time (0 where it has none) and its system's key
/// in standard base64 (empty where it has none). Nothing else that the event
/// carries (indices, vector clock, references, process, logical clock)
/// matters.
pub proof fn lemma_chat_message_of_post(se: SpecSignedEvent, e: SpecEvent, p: SpecPost, t: Seq<char>)
    requires
        spec_decode_event(se.event) == Some(e),
        e.content_type == 3,
        spec_decode_post(e.content) == Some(p),
        p.content == Some(t),
    ensures
        spec_chat_message_of(se) == Some(
            SpecChatMessage {
                content: t,
                timestamp: match e.unix_milliseconds {
                    Some(ms) => ms,
                    None => 0,
                },
                system_key: match e.system {
                    Some(k) => spec_base64_std(k.key),
                    None => Seq::<char>::empty(),
                },
            },
        ),
{
}

/// Only signed posts give chat messages: a signed event whose event does not
/// decode, is not a post (content type 3), or whose post does not decode with
/// text gives none.
pub proof fn lemma_chat_message_only_of_posts(se: SpecSignedEvent)
    ensures
        spec_chat_message_of(se) is Some ==> match spec_decode_event(se.event) {
            Some(e) => e.content_type == 3 && match spec_decode_post(e.content) {
                Some(p) => p.content is Some,
                None => false,
            },
            None => false,
        },
{
}

/// The chat message that an item of an answer holds, if any.
pub open spec fn item_message(item: SpecQueryReferencesResponseEventItem) -> Option<SpecChatMessage> {
    match item.event {
        Some(se) => spec_chat_message_of(se),
        None => None,
    }
}

/// How many items of an answer hold a chat message.
pub open spec fn count_message_items(items: Seq<SpecQueryReferencesResponseEventItem>) -> nat
    decreases items.len(),
{
    if items.len() == 0 {
        0
    } else {
        count_message_items(items.drop_last()) + if item_message(items.last()) is Some {
            1nat
        } else {
            0nat
        }
    }
}

proof fn lemma_collect_messages(items: Seq<SpecQueryReferencesResponseEventItem>)
    ensures
        spec_collect_messages(items).len() == count_message_items(items),
        forall|i: int|
            0 <= i < items.len() && #[trigger] item_message(items[i]) is Some ==> spec_collect_messages(
                items,
            ).contains(item_message(items[i])->0),
        forall|m: SpecChatMessage|
            #[trigger] spec_collect_messages(items).contains(m) ==> exists|i: int|
                0 <= i < items.len() && #[trigger] item_message(items[i]) == Some(m),
    decreases items.len(),
{
    if items.len() > 0 {
        let init = items.drop_last();
        lemma_collect_messages(init);
        let rest = spec_collect_messages(init);
        let all = spec_collect_messages(items);
        let n = items.len() - 1;
        assert(item_message(items.last()) == item_message(items[n]));
        assert(all == match item_message(items.last()) {
            Some(m) => rest.push(m),
            None => rest,
        });
        assert forall|i: int| 0 <= i < items.len() && #[trigger] item_message(items[i]) is Some implies all.contains(
            item_message(items[i])->0,
        ) by {
            if i < n {
                assert(init[i] == items[i]);
                let k = choose|k: int| 0 <= k < rest.len() && rest[k] == item_message(init[i])->0;
                if item_message(items.last()) is Some {
                    assert(all[k] == rest[k]);
                }
            } else {
                assert(all[all.len() - 1] == item_message(items[i])->0);
            }
        }
        assert forall|m: SpecChatMessage| #[trigger] all.contains(m) implies exists|i: int|
            0 <= i < items.len() && #[trigger] item_message(items[i]) == Some(m) by {
            let k = choose|k: int| 0 <= k < all.len() && all[k] == m;
            if k < rest.len() {
                assert(rest[k] == m);
                assert(rest.contains(m));
                let i = choose|i: int| 0 <= i < init.len() && #[trigger] item_message(init[i]) == Some(m);
                assert(init[i] == items[i]);
            } else {
                assert(item_message(items[n]) == Some(m));
            }
        }
    }
}

/// The chat holds the message of every item of the answer, and nothing else:
/// each item whose signed event gives a chat message has that message in the
/// chat, each message of the chat is the message of some item, and the chat
/// has one message for each item that holds one.
pub proof fn lemma_chat_holds_every_post(r: SpecQueryReferencesResponse)
    ensures
        spec_chat_messages(r).len() == count_message_items(r.items),
        forall|i: int|
            0 <= i < r.items.len() && #[trigger] item_message(r.items[i]) is Some ==> spec_chat_messages(
                r,
            ).contains(item_message(r.items[i])->0),
        forall|m: SpecChatMessage|
            #[trigger] spec_chat_messages(r).contains(m) ==> exists|i: int|
                0 <= i < r.items.len() && #[trigger] item_message(r.items[i]) == Some(m),
{
    broadcast use vstd::seq_lib::group_to_multiset_ensures;

    let c = spec_collect_messages(r.items);
    lemma_collect_messages(r.items);
    lemma_sort_by_time(c);
    let chat = spec_chat_messages(r);
    assert(chat.to_multiset() == c.to_multiset());
    assert(chat.len() == chat.to_multiset().len());
    assert(c.len() == c.to_multiset().len());
    assert forall|i: int| 0 <= i < r.items.len() && #[trigger] item_message(r.items[i]) is Some implies chat.contains(
        item_message(r.items[i])->0,
    ) by {
        let m = item_message(r.items[i])->0;
        assert(c.contains(m));
        assert(c.to_multiset().count(m) > 0);
        assert(chat.to_multiset().count(m) > 0);
    }
    assert forall|m: SpecChatMessage| #[trigger] chat.contains(m) implies exists|i: int|
        0 <= i < r.items.len() && #[trigger] item_message(r.items[i]) == Some(m) by {
        assert(chat.to_multiset().count(m) > 0);
        assert(c.to_multiset().count(m) > 0);
        assert(c.contains(m));
    }
}

} // verus!
