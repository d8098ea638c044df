//! The chat page as a state machine: what the page holds, and for each thing
//! that happens to it (the page opens, storage answers, the user types or
//! sends, the server answers, the refresh timer fires) the new state and what
//! the page asks the outside to do.

use vstd::prelude::*;

use crate::api::{create_post, spec_post_event, spec_sign_event};
use crate::chat::{chat_messages, spec_chat_messages, view_chat_messages, ChatMessage, SpecChatMessage};
use crate::event::{SignedEvent, SpecSignedEvent};
use crate::query::QueryReferencesResponse;
use crate::session::{spec_is_fresh, spec_stored, spec_with_clock, Identity, SpecIdentity};
use crate::storage::{SpecStoredIdentity, StoredIdentity};
use crate::text::{is_blank, push_str, spec_is_blank};

verus! {

/// The topic that the chat is held under.
pub open spec fn chat_topic() -> Seq<char> {
    "tamichat"@
}

/// Why messages are fetched: when the page opens, on the refresh timer (with
/// the number of messages seen before it fired), or after a message was sent.
#[derive(Clone, Copy, Debug, PartialEq, Eq)]
pub enum FetchReason {
    Initial,
    Refresh(usize),
    AfterSend,
}

/// What the chat page asks the outside to do.
#[derive(Clone, Debug)]
pub enum ChatAction {
    /// Read the identity from storage and answer with `identity_loaded`.
    LoadIdentity,
    /// Write this record to storage (a failure is only logged).
    SaveIdentity(StoredIdentity),
    /// Fetch the posts of the chat topic and answer with `messages_fetched`.
    FetchMessages(FetchReason),
    /// Post this event to the server and answer with `post_result`.
    PostEvent(SignedEvent),
    /// Scroll the message list to its end.
    ScrollToBottom,
}

/// The value of a [`ChatAction`].
pub enum SpecChatAction {
    LoadIdentity,
    SaveIdentity(SpecStoredIdentity),
    FetchMessages(FetchReason),
    PostEvent(SpecSignedEvent),
    ScrollToBottom,
}

impl View for ChatAction {
    type V = SpecChatAction;

    open spec fn view(&self) -> SpecChatAction {
        match self {
            ChatAction::LoadIdentity => SpecChatAction::LoadIdentity,
            ChatAction::SaveIdentity(s) => SpecChatAction::SaveIdentity(s@),
            ChatAction::FetchMessages(r) => SpecChatAction::FetchMessages(*r),
            ChatAction::PostEvent(e) => SpecChatAction::PostEvent(e@),
            ChatAction::ScrollToBottom => SpecChatAction::ScrollToBottom,
        }
    }
}

/// The values of a list of actions.
pub open spec fn view_chat_actions(v: Seq<ChatAction>) -> Seq<SpecChatAction> {
    v.map_values(|a: ChatAction| a@)
}

/// What the chat page holds.
pub struct ChatState {
    /// The messages shown, in time order.
    pub messages: Vec<ChatMessage>,
    /// The text being typed.
    pub input: String,
    /// The identity that posts, once there is one.
    pub identity: Option<Identity>,
    /// While a message is being sent: the logical clock it was signed with.
    pub sending: Option<u64>,
    /// The error shown, if any.
    pub error: Option<String>,
    /// How many messages the last scroll was made for.
    pub previous_message_count: usize,
}

/// The value of a [`ChatState`].
pub struct SpecChatState {
    pub messages: Seq<SpecChatMessage>,
    pub input: Seq<char>,
    pub identity: Option<SpecIdentity>,
    pub sending: Option<u64>,
    pub error: Option<Seq<char>>,
    pub previous_message_count: usize,
}

impl View for ChatState {
    type V = SpecChatState;

    open spec fn view(&self) -> SpecChatState {
        SpecChatState {
            messages: view_chat_messages(self.messages@),
            input: self.input@,
            identity: match self.identity { Some(i) => Some(i@), None => None },
            sending: self.sending,
            error: match self.error { Some(e) => Some(e@), None => None },
            previous_message_count: self.previous_message_count,
        }
    }
}

/// Whether `se` is a signed post of `id` with this text and topic, made at
/// some time.
pub open spec fn spec_is_post_by(
    se: SpecSignedEvent,
    id: SpecIdentity,
    content: Seq<char>,
    topic: Option<Seq<char>>,
) -> bool {
    exists|t: u64|
        se == spec_sign_event(
            id.secret,
            #[trigger] spec_post_event(id.public_key, id.process, id.logical_clock, content, topic, t),
        )
}

/// Whether the send button is enabled: there is text that is not blank, and
/// no message is being sent.
pub open spec fn spec_can_send(s: SpecChatState) -> bool {
    !spec_is_blank(s.input) && s.sending is None
}

/// The state after a fetch of the messages: on an answer, its chat and no
/// error; on a failure, the error `Failed to load messages: ` and its text.
pub open spec fn spec_after_fetch(
    s: SpecChatState,
    result: Result<Seq<SpecChatMessage>, Seq<char>>,
) -> SpecChatState {
    match result {
        Ok(m) => SpecChatState { messages: m, error: None, ..s },
        Err(e) => SpecChatState { error: Some("Failed to load messages: "@ + e), ..s },
    }
}

/// The state once a send has started: sending with the identity's logical
/// clock, and no error.
pub open spec fn spec_chat_sent(s: SpecChatState) -> SpecChatState {
    SpecChatState { sending: Some(s.identity->0.logical_clock), error: None, ..s }
}

/// What an answer to a post does to the page (`result` is the answer, or the
/// failure's text), and what the page asks for.
pub open spec fn spec_chat_post_result(s: SpecChatState, result: Result<(), Seq<char>>) -> (
    SpecChatState,
    Seq<SpecChatAction>,
) {
    match s.sending {
        None => (s, seq![]),
        Some(clock) => match result {
            Ok(_) => match s.identity {
                Some(id) => {
                    let next = spec_with_clock(id, (clock + 1) as u64);
                    (
                        SpecChatState { identity: Some(next), input: seq![], ..s },
                        seq![
                            SpecChatAction::SaveIdentity(spec_stored(next)),
                            SpecChatAction::FetchMessages(FetchReason::AfterSend),
                        ],
                    )
                },
                None => (
                    SpecChatState { input: seq![], ..s },
                    seq![SpecChatAction::FetchMessages(FetchReason::AfterSend)],
                ),
            },
            Err(e) => (SpecChatState { error: Some("Failed to send: "@ + e), sending: None, ..s }, seq![]),
        },
    }
}

/// What the arrival of the messages does to the page (`result` is the chat
/// of the answer, or the failure's text), and what the page asks for.
pub open spec fn spec_chat_messages_fetched(
    s: SpecChatState,
    reason: FetchReason,
    result: Result<Seq<SpecChatMessage>, Seq<char>>,
) -> (SpecChatState, Seq<SpecChatAction>) {
    let fetched = spec_after_fetch(s, result);
    match reason {
        FetchReason::Initial => if result is Ok {
            (
                SpecChatState { previous_message_count: fetched.messages.len() as usize, ..fetched },
                seq![SpecChatAction::ScrollToBottom],
            )
        } else {
            (fetched, seq![])
        },
        FetchReason::Refresh(before) => if result is Ok && fetched.messages.len() > before {
            (
                SpecChatState { previous_message_count: fetched.messages.len() as usize, ..fetched },
                seq![SpecChatAction::ScrollToBottom],
            )
        } else {
            (fetched, seq![])
        },
        FetchReason::AfterSend => (SpecChatState { sending: None, ..fetched }, seq![SpecChatAction::ScrollToBottom]),
    }
}

/// The text of a failure, or nothing.
pub open spec fn spec_unit_result(result: Result<(), String>) -> Result<(), Seq<char>> {
    match result {
        Ok(_) => Ok(()),
        Err(e) => Err(e@),
    }
}

/// The chat of an answer, or the failure's text.
pub open spec fn spec_fetch_result(result: Result<QueryReferencesResponse, String>) -> Result<
    Seq<SpecChatMessage>,
    Seq<char>,
> {
    match result {
        Ok(resp) => Ok(spec_chat_messages(resp@)),
        Err(e) => Err(e@),
    }
}

/// `prefix` followed by `detail`.
fn prefixed(prefix: &str, detail: &str) -> (r: String)
    ensures
        r@ == prefix@ + detail@,
{
    let mut m = String::new();
    push_str(&mut m, prefix);
    push_str(&mut m, detail);
    assert(m@ =~= prefix@ + detail@);
    m
}

impl ChatState {
    /// The page before anything happened: no messages, no text, no identity.
    pub fn new() -> (r: Self)
        ensures
            r@ == (SpecChatState {
                messages: seq![],
                input: seq![],
                identity: None,
                sending: None,
                error: None,
                previous_message_count: 0,
            }),
    {
        let r = ChatState {
            messages: Vec::new(),
            input: String::new(),
            identity: None,
            sending: None,
            error: None,
            previous_message_count: 0,
        };
        assert(r@.messages =~= seq![]);
        r
    }

    /// The page opens: it loads the identity where it has none, and fetches
    /// the messages.
    pub fn mount(&self) -> (r: Vec<ChatAction>)
        ensures
            view_chat_actions(r@) == if self@.identity is None {
                seq![SpecChatAction::LoadIdentity, SpecChatAction::FetchMessages(FetchReason::Initial)]
            } else {
                seq![SpecChatAction::FetchMessages(FetchReason::Initial)]
            },
    {
        let mut r: Vec<ChatAction> = Vec::new();
        if self.identity.is_none() {
            r.push(ChatAction::LoadIdentity);
        }
        r.push(ChatAction::FetchMessages(FetchReason::Initial));
        assert(view_chat_actions(r@) =~= if self@.identity is None {
            seq![SpecChatAction::LoadIdentity, SpecChatAction::FetchMessages(FetchReason::Initial)]
        } else {
            seq![SpecChatAction::FetchMessages(FetchReason::Initial)]
        });
        r
    }

    /// Storage answered: a stored identity is taken; where there is none, a
    /// new one is made and saved; where reading failed, a new one is made and
    /// not saved.
    pub fn identity_loaded(&mut self, loaded: Result<Option<Identity>, String>) -> (r: Vec<ChatAction>)
        ensures
            match loaded {
                Ok(Some(id)) => final(self)@ == (SpecChatState { identity: Some(id@), ..old(self)@ })
                    && view_chat_actions(r@) == Seq::<SpecChatAction>::empty(),
                Ok(None) => exists|id: SpecIdentity|
                    spec_is_fresh(id) && final(self)@ == (SpecChatState { identity: Some(id), ..old(self)@ })
                        && view_chat_actions(r@) == seq![SpecChatAction::SaveIdentity(spec_stored(id))],
                Err(_) => exists|id: SpecIdentity|
                    spec_is_fresh(id) && final(self)@ == (SpecChatState { identity: Some(id), ..old(self)@ })
                        && view_chat_actions(r@) == Seq::<SpecChatAction>::empty(),
            },
    {
        let mut r: Vec<ChatAction> = Vec::new();
        match loaded {
            Ok(Some(id)) => {
                self.identity = Some(id);
                assert(view_chat_actions(r@) =~= Seq::<SpecChatAction>::empty());
            },
            Ok(None) => {
                let id = Identity::generate();
                let ghost v = id@;
                r.push(ChatAction::SaveIdentity(id.stored()));
                self.identity = Some(id);
                assert(view_chat_actions(r@) =~= seq![SpecChatAction::SaveIdentity(spec_stored(v))]);
            },
            Err(_) => {
                let id = Identity::generate();
                self.identity = Some(id);
                assert(view_chat_actions(r@) =~= Seq::<SpecChatAction>::empty());
            },
        }
        r
    }

    /// The user typed: the text is now `text`.
    pub fn set_input(&mut self, text: String)
        ensures
            final(self)@ == (SpecChatState { input: text@, ..old(self)@ }),
    {
        self.input = text;
    }

    /// Whether the send button is enabled.
    pub fn can_send(&self) -> (r: bool)
        ensures
            r == spec_can_send(self@),
    {
        !is_blank(self.input.as_str()) && self.sending.is_none()
    }

    /// The user sends (button or Enter). Blank text, a send under way or a
    /// missing identity do nothing. Otherwise the error is cleared, the page
    /// is sending with the identity's logical clock, and the text is posted
    /// under the chat topic, signed by the identity.
    pub fn send(&mut self) -> (r: Vec<ChatAction>)
        ensures
            (spec_is_blank(old(self)@.input) || old(self)@.sending is Some || old(self)@.identity is None) ==> (
            final(self)@ == old(self)@ && view_chat_actions(r@) == Seq::<SpecChatAction>::empty()),
            (!spec_is_blank(old(self)@.input) && old(self)@.sending is None && old(self)@.identity is Some) ==> ({
                &&& final(self)@ == spec_chat_sent(old(self)@)
                &&& view_chat_actions(r@).len() == 1
                &&& view_chat_actions(r@)[0] matches SpecChatAction::PostEvent(se) && spec_is_post_by(
                    se,
                    old(self)@.identity->0,
                    old(self)@.input,
                    Some(chat_topic()),
                )
            }),
    {
        let mut r: Vec<ChatAction> = Vec::new();
        if is_blank(self.input.as_str()) || self.sending.is_some() {
            assert(view_chat_actions(r@) =~= Seq::<SpecChatAction>::empty());
            return r;
        }
        match &self.identity {
            None => {
                assert(view_chat_actions(r@) =~= Seq::<SpecChatAction>::empty());
                r
            },
            Some(id) => {
                let clock = id.logical_clock;
                let posted = create_post(
                    &id.signing_key,
                    &id.public_key,
                    &id.process,
                    id.logical_clock,
                    self.input.clone(),
                    Some("tamichat".to_owned()),
                );
                self.sending = Some(clock);
                self.error = None;
                match posted {
                    Ok(se) => {
                        r.push(ChatAction::PostEvent(se));
                    },
                    Err(_) => {
                        proof {
                            assert(false);
                        }
                    },
                }
                r
            },
        }
    }

    /// The server answered a post. On success the identity moves on to the
    /// logical clock after the one the post was signed with and is saved, the
    /// text is cleared and the messages are fetched (the page stays sending
    /// until they arrive); on failure the error `Failed to send: ` and its
    /// text is shown and the page stops sending. With no send under way,
    /// nothing happens.
    pub fn post_result(&mut self, result: Result<(), String>) -> (r: Vec<ChatAction>)
        requires
            result is Ok && old(self)@.identity is Some && old(self)@.sending is Some ==> old(self)@.sending->0
                < u64::MAX,
        ensures
            (final(self)@, view_chat_actions(r@)) == spec_chat_post_result(old(self)@, spec_unit_result(result)),
    {
        let mut r: Vec<ChatAction> = Vec::new();
        let clock = match self.sending {
            None => {
                assert(view_chat_actions(r@) =~= Seq::<SpecChatAction>::empty());
                return r;
            },
            Some(c) => c,
        };
        match result {
            Ok(()) => {
                match &self.identity {
                    Some(id) => {
                        let next = id.with_clock(clock + 1);
                        r.push(ChatAction::SaveIdentity(next.stored()));
                        self.identity = Some(next);
                    },
                    None => {},
                }
                self.input = String::new();
                r.push(ChatAction::FetchMessages(FetchReason::AfterSend));
            },
            Err(e) => {
                self.error = Some(prefixed("Failed to send: ", e.as_str()));
                self.sending = None;
            },
        }
        proof {
            if result is Ok {
                if old(self)@.identity is Some {
                    assert(view_chat_actions(r@) =~= seq![
                        SpecChatAction::SaveIdentity(spec_stored(final(self)@.identity->0)),
                        SpecChatAction::FetchMessages(FetchReason::AfterSend),
                    ]);
                } else {
                    assert(view_chat_actions(r@) =~= seq![SpecChatAction::FetchMessages(FetchReason::AfterSend)]);
                }
                assert(final(self)@.input =~= seq![]);
            } else {
                assert(view_chat_actions(r@) =~= Seq::<SpecChatAction>::empty());
            }
        }
        r
    }

    /// The refresh timer fired: the messages are fetched, remembering how
    /// many were seen before.
    pub fn tick(&self) -> (r: Vec<ChatAction>)
        ensures
            view_chat_actions(r@) == seq![
                SpecChatAction::FetchMessages(FetchReason::Refresh(self@.previous_message_count)),
            ],
    {
        let mut r: Vec<ChatAction> = Vec::new();
        r.push(ChatAction::FetchMessages(FetchReason::Refresh(self.previous_message_count)));
        assert(view_chat_actions(r@) =~= seq![
            SpecChatAction::FetchMessages(FetchReason::Refresh(self@.previous_message_count)),
        ]);
        r
    }

    /// The messages arrived, or fetching them failed (`result` holds the
    /// server's answer or the failure's text). The page shows the answer's
    /// chat and clears the error, or shows the failure. Then: after opening, a
    /// good answer is counted and scrolled to; on the timer, a good answer
    /// with more messages than were seen before is counted and scrolled to;
    /// after a send, the page scrolls and stops sending.
    pub fn messages_fetched(
        &mut self,
        reason: FetchReason,
        result: Result<QueryReferencesResponse, String>,
    ) -> (r: Vec<ChatAction>)
        ensures
            (final(self)@, view_chat_actions(r@)) == spec_chat_messages_fetched(
                old(self)@,
                reason,
                spec_fetch_result(result),
            ),
    {
        let mut r: Vec<ChatAction> = Vec::new();
        let ok = match &result {
            Ok(resp) => {
                self.messages = chat_messages(resp);
                self.error = None;
                true
            },
            Err(e) => {
                self.error = Some(prefixed("Failed to load messages: ", e.as_str()));
                false
            },
        };
        match reason {
            FetchReason::Initial => {
                if ok {
                    self.previous_message_count = self.messages.len();
                    r.push(ChatAction::ScrollToBottom);
                }
            },
            FetchReason::Refresh(before) => {
                if ok && self.messages.len() > before {
                    self.previous_message_count = self.messages.len();
                    r.push(ChatAction::ScrollToBottom);
                }
            },
            FetchReason::AfterSend => {
                self.sending = None;
                r.push(ChatAction::ScrollToBottom);
            },
        }
        proof {
            if r@.len() == 0 {
                assert(view_chat_actions(r@) =~= Seq::<SpecChatAction>::empty());
            } else {
                assert(view_chat_actions(r@) =~= seq![SpecChatAction::ScrollToBottom]);
            }
        }
        r
    }
}

/// A message that is sent and accepted by the server moves the identity on to
/// the next logical clock and saves it, clears the text and fetches the
/// messages; once they arrive the page shows them and stops sending.
pub proof fn lemma_accepted_send_advances_clock(s: SpecChatState, chat: Seq<SpecChatMessage>)
    requires
        spec_can_send(s),
        s.identity is Some,
        s.identity->0.logical_clock < u64::MAX,
    ensures
        ({
            let id = s.identity->0;
            let next = spec_with_clock(id, (id.logical_clock + 1) as u64);
            let (t, acts) = spec_chat_post_result(spec_chat_sent(s), Ok(()));
            let (u, arrived) = spec_chat_messages_fetched(t, FetchReason::AfterSend, Ok(chat));
            &&& t.identity == Some(next)
            &&& t.input == Seq::<char>::empty()
            &&& acts == seq![
                SpecChatAction::SaveIdentity(spec_stored(next)),
                SpecChatAction::FetchMessages(FetchReason::AfterSend),
            ]
            &&& u.identity == Some(next)
            &&& u.messages == chat
            &&& u.sending is None
            &&& u.error is None
            &&& arrived == seq![SpecChatAction::ScrollToBottom]
        }),
{
}

/// A message that the server refuses leaves the identity and the text as they
/// were, shows the failure, and lets the user send again.
pub proof fn lemma_refused_send_keeps_identity(s: SpecChatState, failure: Seq<char>)
    requires
        spec_can_send(s),
        s.identity is Some,
    ensures
        ({
            let (t, acts) = spec_chat_post_result(spec_chat_sent(s), Err(failure));
            &&& t.identity == s.identity
            &&& t.input == s.input
            &&& t.error == Some("Failed to send: "@ + failure)
            &&& spec_can_send(t)
            &&& acts == Seq::<SpecChatAction>::empty()
        }),
{
}

} // verus!
