//! The page that makes an identity, sets its username and publishes posts,
//! as a state machine: what the page holds, and for each thing that happens
//! to it the new state and what it asks the outside to do.

use vstd::prelude::*;

use crate::api::{create_post, create_username, spec_username_event, spec_sign_event};
use crate::chat_page::spec_is_post_by;
use crate::event::{SignedEvent, SpecSignedEvent};
use crate::session::{spec_is_fresh, spec_stored, spec_with_clock, Identity, SpecIdentity};
use crate::storage::{SpecStoredIdentity, StoredIdentity};
use crate::text::{decimal, has_prefix, push_str, spec_decimal};

verus! {

/// What the post page asks the outside to do.
#[derive(Clone, Debug)]
pub enum PostPageAction {
    /// Read the identity from storage and answer with `identity_loaded`.
    LoadIdentity,
    /// Write this new identity to storage and answer with `identity_saved`.
    SaveNewIdentity(StoredIdentity),
    /// Write this record to storage (a failure is only logged).
    SaveIdentity(StoredIdentity),
    /// Post this username event and answer with `username_posted`.
    PostUsername(SignedEvent),
    /// Post this post event and answer with `post_published`.
    PostEvent(SignedEvent),
}

/// The value of a [`PostPageAction`].
pub enum SpecPostPageAction {
    LoadIdentity,
    SaveNewIdentity(SpecStoredIdentity),
    SaveIdentity(SpecStoredIdentity),
    PostUsername(SpecSignedEvent),
    PostEvent(SpecSignedEvent),
}

impl View for PostPageAction {
    type V = SpecPostPageAction;

    open spec fn view(&self) -> SpecPostPageAction {
        match self {
            PostPageAction::LoadIdentity => SpecPostPageAction::LoadIdentity,
            PostPageAction::SaveNewIdentity(s) => SpecPostPageAction::SaveNewIdentity(s@),
            PostPageAction::SaveIdentity(s) => SpecPostPageAction::SaveIdentity(s@),
            PostPageAction::PostUsername(e) => SpecPostPageAction::PostUsername(e@),
            PostPageAction::PostEvent(e) => SpecPostPageAction::PostEvent(e@),
        }
    }
}

/// The values of a list of actions.
pub open spec fn view_post_page_actions(v: Seq<PostPageAction>) -> Seq<SpecPostPageAction> {
    v.map_values(|a: PostPageAction| a@)
}

/// What the post page holds.
pub struct PostPageState {
    /// The identity that posts, with the logical clock of its next event.
    pub identity: Option<Identity>,
    /// The post being written.
    pub post_content: String,
    /// The topic being written.
    pub topic: String,
    /// The username being written.
    pub username: String,
    /// The username last set.
    pub current_username: Option<String>,
    /// The status line.
    pub status: Option<String>,
    /// The post last published.
    pub created_post: Option<SignedEvent>,
    /// A new identity waiting to be saved.
    pub pending_identity: Option<Identity>,
    /// While a username is being set: the identity it was signed with, and
    /// the name.
    pub setting_username: Option<(Identity, String)>,
    /// While a post is being published: the identity it was signed with, and
    /// the signed post.
    pub posting: Option<(Identity, SignedEvent)>,
}

/// The value of a [`PostPageState`].
pub struct SpecPostPageState {
    pub identity: Option<SpecIdentity>,
    pub post_content: Seq<char>,
    pub topic: Seq<char>,
    pub username: Seq<char>,
    pub current_username: Option<Seq<char>>,
    pub status: Option<Seq<char>>,
    pub created_post: Option<SpecSignedEvent>,
    pub pending_identity: Option<SpecIdentity>,
    pub setting_username: Option<(SpecIdentity, Seq<char>)>,
    pub posting: Option<(SpecIdentity, SpecSignedEvent)>,
}

impl View for PostPageState {
    type V = SpecPostPageState;

    open spec fn view(&self) -> SpecPostPageState {
        SpecPostPageState {
            identity: match self.identity { Some(i) => Some(i@), None => None },
            post_content: self.post_content@,
            topic: self.topic@,
            username: self.username@,
            current_username: match self.current_username { Some(u) => Some(u@), None => None },
            status: match self.status { Some(m) => Some(m@), None => None },
            created_post: match self.created_post { Some(p) => Some(p@), None => None },
            pending_identity: match self.pending_identity { Some(i) => Some(i@), None => None },
            setting_username: match self.setting_username { Some(p) => Some((p.0@, p.1@)), None => None },
            posting: match self.posting { Some(p) => Some((p.0@, p.1@)), None => None },
        }
    }
}

/// Whether `se` is a signed username event of `id` for `name`, made at some
/// time.
pub open spec fn spec_is_username_by(se: SpecSignedEvent, id: SpecIdentity, name: Seq<char>) -> bool {
    exists|t: u64|
        se == spec_sign_event(
            id.secret,
            #[trigger] spec_username_event(id.public_key, id.process, id.logical_clock, name, t),
        )
}

/// The message shown when there is no identity to post with.
pub open spec fn no_identity_message() -> Seq<char> {
    "Error: Please create an identity first"@
}

/// What storage's answer does to the page: a stored identity is taken;
/// nothing else changes anything.
pub open spec fn spec_post_page_identity_loaded(
    s: SpecPostPageState,
    loaded: Result<Option<SpecIdentity>, Seq<char>>,
) -> SpecPostPageState {
    match loaded {
        Ok(Some(id)) => SpecPostPageState { identity: Some(id), ..s },
        _ => s,
    }
}

/// What the answer to saving a new identity does: on success the identity is
/// taken (its logical clock is 1), its username is forgotten and success is
/// shown; on failure the status says so.
pub open spec fn spec_post_page_identity_saved(
    s: SpecPostPageState,
    result: Result<(), Seq<char>>,
) -> SpecPostPageState {
    match s.pending_identity {
        None => s,
        Some(id) => match result {
            Ok(_) => SpecPostPageState {
                identity: Some(id),
                current_username: None,
                status: Some("Identity created successfully!"@),
                pending_identity: None,
                ..s
            },
            Err(e) => SpecPostPageState {
                status: Some("Error saving identity: "@ + e),
                pending_identity: None,
                ..s
            },
        },
    }
}

/// What the answer to a username event does: on success the username is
/// shown as set with the logical clock it was signed with, the identity moves
/// on to the next clock and is saved, and the field is cleared; on failure
/// the status says so.
pub open spec fn spec_post_page_username_posted(
    s: SpecPostPageState,
    result: Result<(), Seq<char>>,
) -> (SpecPostPageState, Seq<SpecPostPageAction>) {
    match s.setting_username {
        None => (s, seq![]),
        Some((id, name)) => match result {
            Ok(_) => {
                let next = spec_with_clock(id, (id.logical_clock + 1) as u64);
                (
                    SpecPostPageState {
                        identity: match s.identity {
                            Some(cur) => Some(spec_with_clock(cur, (id.logical_clock + 1) as u64)),
                            None => None,
                        },
                        current_username: Some(name),
                        status: Some(
                            "Username set successfully! Logical clock: "@ + spec_decimal(id.logical_clock as nat),
                        ),
                        username: seq![],
                        setting_username: None,
                        ..s
                    },
                    seq![SpecPostPageAction::SaveIdentity(spec_stored(next))],
                )
            },
            Err(e) => (
                SpecPostPageState {
                    status: Some("Error posting username to server: "@ + e),
                    setting_username: None,
                    ..s
                },
                seq![],
            ),
        },
    }
}

/// What the answer to a post does: on success the post is shown as the last
/// one published with the logical clock it was signed with, the identity
/// moves on to the next clock and is saved, and the post and topic fields are
/// cleared; on failure the status says so.
pub open spec fn spec_post_page_post_published(
    s: SpecPostPageState,
    result: Result<(), Seq<char>>,
) -> (SpecPostPageState, Seq<SpecPostPageAction>) {
    match s.posting {
        None => (s, seq![]),
        Some((id, se)) => match result {
            Ok(_) => {
                let next = spec_with_clock(id, (id.logical_clock + 1) as u64);
                (
                    SpecPostPageState {
                        identity: match s.identity {
                            Some(cur) => Some(spec_with_clock(cur, (id.logical_clock + 1) as u64)),
                            None => None,
                        },
                        created_post: Some(se),
                        status: Some(
                            "Post created and published successfully! Logical clock: "@ + spec_decimal(
                                id.logical_clock as nat,
                            ),
                        ),
                        post_content: seq![],
                        topic: seq![],
                        posting: None,
                        ..s
                    },
                    seq![SpecPostPageAction::SaveIdentity(spec_stored(next))],
                )
            },
            Err(e) => (
                SpecPostPageState { status: Some("Error posting to server: "@ + e), posting: None, ..s },
                seq![],
            ),
        },
    }
}

/// The text of a failure, or nothing.
pub open spec fn spec_answer(result: Result<(), String>) -> Result<(), Seq<char>> {
    match result {
        Ok(_) => Ok(()),
        Err(e) => Err(e@),
    }
}

/// Whether a status line reports an error: it begins with `Error`.
pub open spec fn spec_is_error_status(status: Seq<char>) -> bool {
    "Error"@.is_prefix_of(status)
}

/// Whether a status line reports an error.
pub fn is_error_status(status: &str) -> (r: bool)
    ensures
        r == spec_is_error_status(status@),
{
    has_prefix(status, "Error")
}

/// `prefix` followed by `detail`.
fn prefixed(prefix: &str, detail: &str) -> (r: String)
    ensures
        r@ == prefix@ + detail@,
{
    let mut m = String::new();
    push_str(&mut m, prefix);
    push_str(&mut m, detail);
    assert(m@ =~= prefix@ + detail@);
    m
}

/// `prefix` followed by the decimal numeral of `n`.
fn with_number(prefix: &str, n: u64) -> (r: String)
    ensures
        r@ == prefix@ + spec_decimal(n as nat),
{
    let d = decimal(n);
    prefixed(prefix, d.as_str())
}

fn copy_identity(id: &Option<Identity>) -> (r: Option<Identity>)
    ensures
        match r { Some(i) => Some(i@), None => None::<SpecIdentity> } == match id {
            Some(i) => Some(i@),
            None => None::<SpecIdentity>,
        },
{
    match id {
        Some(i) => Some(i.duplicate()),
        None => None,
    }
}

impl PostPageState {
    /// The page before anything happened.
    pub fn new() -> (r: Self)
        ensures
            r@ == (SpecPostPageState {
                identity: None,
                post_content: seq![],
                topic: seq![],
                username: seq![],
                current_username: None,
                status: None,
                created_post: None,
                pending_identity: None,
                setting_username: None,
                posting: None,
            }),
    {
        PostPageState {
            identity: None,
            post_content: String::new(),
            topic: String::new(),
            username: String::new(),
            current_username: None,
            status: None,
            created_post: None,
            pending_identity: None,
            setting_username: None,
            posting: None,
        }
    }

    /// The page opens: it loads the identity where it has none.
    pub fn mount(&self) -> (r: Vec<PostPageAction>)
        ensures
            view_post_page_actions(r@) == if self@.identity is None {
                seq![SpecPostPageAction::LoadIdentity]
            } else {
                Seq::<SpecPostPageAction>::empty()
            },
    {
        let mut r: Vec<PostPageAction> = Vec::new();
        if self.identity.is_none() {
            r.push(PostPageAction::LoadIdentity);
        }
        assert(view_post_page_actions(r@) =~= if self@.identity is None {
            seq![SpecPostPageAction::LoadIdentity]
        } else {
            Seq::<SpecPostPageAction>::empty()
        });
        r
    }

    /// Storage answered.
    pub fn identity_loaded(&mut self, loaded: Result<Option<Identity>, String>)
        ensures
            final(self)@ == spec_post_page_identity_loaded(
                old(self)@,
                match loaded {
                    Ok(Some(id)) => Ok(Some(id@)),
                    Ok(None) => Ok(None),
                    Err(e) => Err(e@),
                },
            ),
    {
        match loaded {
            Ok(Some(id)) => {
                self.identity = Some(id);
            },
            _ => {},
        }
    }

    /// The user asks for a new identity: one is made (logical clock 1) and
    /// saved before it is taken.
    pub fn create_identity(&mut self) -> (r: Vec<PostPageAction>)
        ensures
            exists|id: SpecIdentity|
                spec_is_fresh(id) && final(self)@ == (SpecPostPageState {
                    pending_identity: Some(id),
                    ..old(self)@
                }) && view_post_page_actions(r@) == seq![SpecPostPageAction::SaveNewIdentity(spec_stored(id))],
    {
        let id = Identity::generate();
        let ghost v = id@;
        let mut r: Vec<PostPageAction> = Vec::new();
        r.push(PostPageAction::SaveNewIdentity(id.stored()));
        self.pending_identity = Some(id);
        assert(view_post_page_actions(r@) =~= seq![SpecPostPageAction::SaveNewIdentity(spec_stored(v))]);
        r
    }

    /// Storage answered the saving of a new identity.
    pub fn identity_saved(&mut self, result: Result<(), String>)
        ensures
            final(self)@ == spec_post_page_identity_saved(old(self)@, spec_answer(result)),
    {
        let id = match self.pending_identity.take() {
            None => {
                return;
            },
            Some(id) => id,
        };
        match result {
            Ok(()) => {
                self.identity = Some(id);
                self.current_username = None;
                self.status = Some("Identity created successfully!".to_owned());
            },
            Err(e) => {
                self.status = Some(prefixed("Error saving identity: ", e.as_str()));
            },
        }
    }

    /// The user typed a username.
    pub fn set_username_text(&mut self, text: String)
        ensures
            final(self)@ == (SpecPostPageState { username: text@, ..old(self)@ }),
    {
        self.username = text;
    }

    /// The user typed a topic.
    pub fn set_topic(&mut self, text: String)
        ensures
            final(self)@ == (SpecPostPageState { topic: text@, ..old(self)@ }),
    {
        self.topic = text;
    }

    /// The user typed a post.
    pub fn set_post_content(&mut self, text: String)
        ensures
            final(self)@ == (SpecPostPageState { post_content: text@, ..old(self)@ }),
    {
        self.post_content = text;
    }

    /// The user sets the username. Without an identity, or with an empty
    /// name, the status says so. Otherwise the username event is signed with
    /// the identity's logical clock and posted.
    pub fn submit_username(&mut self) -> (r: Vec<PostPageAction>)
        ensures
            match old(self)@.identity {
                None => final(self)@ == (SpecPostPageState { status: Some(no_identity_message()), ..old(self)@ })
                    && view_post_page_actions(r@) == Seq::<SpecPostPageAction>::empty(),
                Some(id) => if old(self)@.username.len() == 0 {
                    final(self)@ == (SpecPostPageState {
                        status: Some("Error: Username cannot be empty"@),
                        ..old(self)@
                    }) && view_post_page_actions(r@) == Seq::<SpecPostPageAction>::empty()
                } else {
                    &&& final(self)@ == (SpecPostPageState {
                        status: Some("Setting username..."@),
                        setting_username: Some((id, old(self)@.username)),
                        ..old(self)@
                    })
                    &&& view_post_page_actions(r@).len() == 1
                    &&& view_post_page_actions(r@)[0] matches SpecPostPageAction::PostUsername(se)
                        && spec_is_username_by(se, id, old(self)@.username)
                },
            },
    {
        let mut r: Vec<PostPageAction> = Vec::new();
        let id = match &self.identity {
            None => {
                self.status = Some("Error: Please create an identity first".to_owned());
                assert(view_post_page_actions(r@) =~= Seq::<SpecPostPageAction>::empty());
                return r;
            },
            Some(id) => id.duplicate(),
        };
        if self.username.as_str().is_empty() {
            self.status = Some("Error: Username cannot be empty".to_owned());
            assert(view_post_page_actions(r@) =~= Seq::<SpecPostPageAction>::empty());
            return r;
        }
        let name = self.username.clone();
        let signed = create_username(&id.signing_key, &id.public_key, &id.process, id.logical_clock, name);
        self.status = Some("Setting username...".to_owned());
        match signed {
            Ok(se) => {
                r.push(PostPageAction::PostUsername(se));
            },
            Err(_) => {
                proof {
                    assert(false);
                }
            },
        }
        self.setting_username = Some((id, self.username.clone()));
        r
    }

    /// The server answered the username event.
    pub fn username_posted(&mut self, result: Result<(), String>) -> (r: Vec<PostPageAction>)
        requires
            result is Ok && old(self)@.setting_username is Some ==> (old(self)@.setting_username->0).0.logical_clock
                < u64::MAX,
        ensures
            (final(self)@, view_post_page_actions(r@)) == spec_post_page_username_posted(
                old(self)@,
                spec_answer(result),
            ),
    {
        let mut r: Vec<PostPageAction> = Vec::new();
        let (id, name) = match self.setting_username.take() {
            None => {
                assert(view_post_page_actions(r@) =~= Seq::<SpecPostPageAction>::empty());
                return r;
            },
            Some(p) => p,
        };
        match result {
            Ok(()) => {
                let clock = id.logical_clock;
                let next = id.with_clock(clock + 1);
                self.identity = match &self.identity {
                    Some(cur) => Some(cur.with_clock(clock + 1)),
                    None => None,
                };
                self.current_username = Some(name);
                self.status = Some(with_number("Username set successfully! Logical clock: ", clock));
                self.username = String::new();
                r.push(PostPageAction::SaveIdentity(next.stored()));
                assert(view_post_page_actions(r@) =~= seq![SpecPostPageAction::SaveIdentity(spec_stored(next@))]);
            },
            Err(e) => {
                self.status = Some(prefixed("Error posting username to server: ", e.as_str()));
                assert(view_post_page_actions(r@) =~= Seq::<SpecPostPageAction>::empty());
            },
        }
        r
    }

    /// The user publishes the post. Without an identity, or with an empty
    /// post, the status says so. Otherwise the post is signed with the
    /// identity's logical clock, with the topic where one was written, and
    /// posted.
    pub fn submit_post(&mut self) -> (r: Vec<PostPageAction>)
        ensures
            match old(self)@.identity {
                None => final(self)@ == (SpecPostPageState { status: Some(no_identity_message()), ..old(self)@ })
                    && view_post_page_actions(r@) == Seq::<SpecPostPageAction>::empty(),
                Some(id) => if old(self)@.post_content.len() == 0 {
                    final(self)@ == (SpecPostPageState {
                        status: Some("Error: Post content cannot be empty"@),
                        ..old(self)@
                    }) && view_post_page_actions(r@) == Seq::<SpecPostPageAction>::empty()
                } else {
                    let topic = if old(self)@.topic.len() == 0 {
                        None
                    } else {
                        Some(old(self)@.topic)
                    };
                    &&& view_post_page_actions(r@).len() == 1
                    &&& view_post_page_actions(r@)[0] matches SpecPostPageAction::PostEvent(se) && spec_is_post_by(
                        se,
                        id,
                        old(self)@.post_content,
                        topic,
                    ) && final(self)@ == (SpecPostPageState {
                        status: Some("Creating and posting event..."@),
                        posting: Some((id, se)),
                        ..old(self)@
                    })
                },
            },
    {
        let mut r: Vec<PostPageAction> = Vec::new();
        let id = match &self.identity {
            None => {
                self.status = Some("Error: Please create an identity first".to_owned());
                assert(view_post_page_actions(r@) =~= Seq::<SpecPostPageAction>::empty());
                return r;
            },
            Some(id) => id.duplicate(),
        };
        if self.post_content.as_str().is_empty() {
            self.status = Some("Error: Post content cannot be empty".to_owned());
            assert(view_post_page_actions(r@) =~= Seq::<SpecPostPageAction>::empty());
            return r;
        }
        let topic = if self.topic.as_str().is_empty() {
            None
        } else {
            Some(self.topic.clone())
        };
        let signed = create_post(
            &id.signing_key,
            &id.public_key,
            &id.process,
            id.logical_clock,
            self.post_content.clone(),
            topic,
        );
        self.status = Some("Creating and posting event...".to_owned());
        match signed {
            Ok(se) => {
                r.push(PostPageAction::PostEvent(se.duplicate()));
                self.posting = Some((id, se));
            },
            Err(_) => {
                proof {
                    assert(false);
                }
            },
        }
        r
    }

    /// The server answered the post.
    pub fn post_published(&mut self, result: Result<(), String>) -> (r: Vec<PostPageAction>)
        requires
            result is Ok && old(self)@.posting is Some ==> (old(self)@.posting->0).0.logical_clock < u64::MAX,
        ensures
            (final(self)@, view_post_page_actions(r@)) == spec_post_page_post_published(
                old(self)@,
                spec_answer(result),
            ),
    {
        let mut r: Vec<PostPageAction> = Vec::new();
        let (id, se) = match self.posting.take() {
            None => {
                assert(view_post_page_actions(r@) =~= Seq::<SpecPostPageAction>::empty());
                return r;
            },
            Some(p) => p,
        };
        match result {
            Ok(()) => {
                let clock = id.logical_clock;
                let next = id.with_clock(clock + 1);
                self.identity = match &self.identity {
                    Some(cur) => Some(cur.with_clock(clock + 1)),
                    None => None,
                };
                self.created_post = Some(se);
                self.status = Some(with_number("Post created and published successfully! Logical clock: ", clock));
                self.post_content = String::new();
                self.topic = String::new();
                r.push(PostPageAction::SaveIdentity(next.stored()));
                assert(view_post_page_actions(r@) =~= seq![SpecPostPageAction::SaveIdentity(spec_stored(next@))]);
            },
            Err(e) => {
                self.status = Some(prefixed("Error posting to server: ", e.as_str()));
                assert(view_post_page_actions(r@) =~= Seq::<SpecPostPageAction>::empty());
            },
        }
        r
    }
}

/// A post that the server accepts becomes the last published post, moves the
/// identity on to the logical clock after the one it was signed with, and
/// saves that identity; a refused post leaves the identity as it was.
pub proof fn lemma_published_post_advances_clock(
    s: SpecPostPageState,
    id: SpecIdentity,
    se: SpecSignedEvent,
    failure: Seq<char>,
)
    requires
        s.posting == Some((id, se)),
        s.identity == Some(id),
        id.logical_clock < u64::MAX,
    ensures
        ({
            let next = spec_with_clock(id, (id.logical_clock + 1) as u64);
            let (t, acts) = spec_post_page_post_published(s, Ok(()));
            &&& t.identity == Some(next)
            &&& t.created_post == Some(se)
            &&& t.posting is None
            &&& acts == seq![SpecPostPageAction::SaveIdentity(spec_stored(next))]
        }),
        ({
            let (t, acts) = spec_post_page_post_published(s, Err(failure));
            &&& t.identity == Some(id)
            &&& t.posting is None
            &&& t.status == Some("Error posting to server: "@ + failure)
            &&& acts == Seq::<SpecPostPageAction>::empty()
        }),
{
}

/// A username that the server accepts becomes the current username and moves
/// the identity on to the logical clock after the one it was signed with.
pub proof fn lemma_set_username_advances_clock(s: SpecPostPageState, id: SpecIdentity, name: Seq<char>)
    requires
        s.setting_username == Some((id, name)),
        s.identity == Some(id),
        id.logical_clock < u64::MAX,
    ensures
        ({
            let next = spec_with_clock(id, (id.logical_clock + 1) as u64);
            let (t, acts) = spec_post_page_username_posted(s, Ok(()));
            &&& t.identity == Some(next)
            &&& t.current_username == Some(name)
            &&& t.setting_username is None
            &&& acts == seq![SpecPostPageAction::SaveIdentity(spec_stored(next))]
        }),
{
}

/// A new identity is taken only once storage has saved it: it then has
/// logical clock 1 and no username; where saving fails the page keeps the
/// identity it had.
pub proof fn lemma_new_identity_taken_once_saved(s: SpecPostPageState, id: SpecIdentity, failure: Seq<char>)
    requires
        s.pending_identity == Some(id),
        spec_is_fresh(id),
    ensures
        spec_post_page_identity_saved(s, Ok(())).identity == Some(id),
        spec_post_page_identity_saved(s, Ok(())).identity->0.logical_clock == 1,
        spec_post_page_identity_saved(s, Ok(())).current_username is None,
        spec_post_page_identity_saved(s, Err(failure)).identity == s.identity,
        spec_post_page_identity_saved(s, Err(failure)).status == Some("Error saving identity: "@ + failure),
{
}

} // verus!
