//! The debug pages as state machines: the reference query page (fetch the
//! default query or a topic, decode a pasted query), the explore page, and
//! the choice between the pages.

use vstd::prelude::*;

use crate::api::{
    default_query_url, explore_url, spec_default_query_url, spec_explore_url, spec_topic_query_url, topic_query_url,
};
use crate::inspect::{decode_query_text, spec_decode_query_text};
use crate::query::{
    QueryReferencesResponse, ResultEventsAndRelatedEventsAndCursor, SpecQueryReferencesResponse,
    SpecResultEventsAndRelatedEventsAndCursor,
};
use crate::text::push_str;

verus! {

/// What a debug page asks the outside to do: fetch this address and answer
/// with `fetched`.
#[derive(Clone, Debug, PartialEq, Eq)]
pub enum QueryAction {
    Fetch(String),
}

/// The value of a [`QueryAction`].
pub enum SpecQueryAction {
    Fetch(Seq<char>),
}

impl View for QueryAction {
    type V = SpecQueryAction;

    open spec fn view(&self) -> SpecQueryAction {
        match self {
            QueryAction::Fetch(u) => SpecQueryAction::Fetch(u@),
        }
    }
}

/// What the reference query page holds.
pub struct QueryPageState {
    /// The last answer.
    pub data: Option<QueryReferencesResponse>,
    /// The error shown, if any.
    pub error: Option<String>,
    /// Whether a fetch is under way.
    pub loading: bool,
    /// The pasted query.
    pub decoder_input: String,
    /// What the decoder showed for it.
    pub decoded: Option<String>,
    /// The topic being written.
    pub topic: String,
}

/// The value of a [`QueryPageState`].
pub struct SpecQueryPageState {
    pub data: Option<SpecQueryReferencesResponse>,
    pub error: Option<Seq<char>>,
    pub loading: bool,
    pub decoder_input: Seq<char>,
    pub decoded: Option<Seq<char>>,
    pub topic: Seq<char>,
}

impl View for QueryPageState {
    type V = SpecQueryPageState;

    open spec fn view(&self) -> SpecQueryPageState {
        SpecQueryPageState {
            data: match self.data { Some(d) => Some(d@), None => None },
            error: match self.error { Some(e) => Some(e@), None => None },
            loading: self.loading,
            decoder_input: self.decoder_input@,
            decoded: match self.decoded { Some(d) => Some(d@), None => None },
            topic: self.topic@,
        }
    }
}

/// `Error: ` followed by `detail`.
fn error_text(detail: &str) -> (r: String)
    ensures
        r@ == "Error: "@ + detail@,
{
    let mut m = String::new();
    push_str(&mut m, "Error: ");
    push_str(&mut m, detail);
    assert(m@ =~= "Error: "@ + detail@);
    m
}

impl QueryPageState {
    /// The page before anything happened.
    pub fn new() -> (r: Self)
        ensures
            r@ == (SpecQueryPageState {
                data: None,
                error: None,
                loading: false,
                decoder_input: seq![],
                decoded: None,
                topic: seq![],
            }),
    {
        QueryPageState {
            data: None,
            error: None,
            loading: false,
            decoder_input: String::new(),
            decoded: None,
            topic: String::new(),
        }
    }

    /// The user fetches the default query: the page is loading, its error is
    /// cleared, and the default query's address is fetched.
    pub fn fetch_default(&mut self) -> (r: QueryAction)
        ensures
            final(self)@ == (SpecQueryPageState { loading: true, error: None, ..old(self)@ }),
            r@ == SpecQueryAction::Fetch(spec_default_query_url()),
    {
        self.loading = true;
        self.error = None;
        QueryAction::Fetch(default_query_url().to_owned())
    }

    /// The user fetches a topic: an empty topic is refused; otherwise the
    /// page is loading, its error is cleared, and the topic's address is
    /// fetched.
    pub fn fetch_topic(&mut self) -> (r: Option<QueryAction>)
        ensures
            if old(self)@.topic.len() == 0 {
                final(self)@ == (SpecQueryPageState {
                    error: Some("Error: Topic cannot be empty"@),
                    ..old(self)@
                }) && r is None
            } else {
                &&& final(self)@ == (SpecQueryPageState { loading: true, error: None, ..old(self)@ })
                &&& r matches Some(a) && a@ == SpecQueryAction::Fetch(spec_topic_query_url(old(self)@.topic))
            },
    {
        if self.topic.as_str().is_empty() {
            self.error = Some("Error: Topic cannot be empty".to_owned());
            return None;
        }
        self.loading = true;
        self.error = None;
        Some(QueryAction::Fetch(topic_query_url(self.topic.as_str())))
    }

    /// The answer arrived, or fetching failed (with the failure's text): the
    /// answer is shown, or the error `Error: ` and the text; loading ends.
    pub fn fetched(&mut self, result: Result<QueryReferencesResponse, String>)
        ensures
            final(self)@ == match result {
                Ok(resp) => SpecQueryPageState { data: Some(resp@), loading: false, ..old(self)@ },
                Err(e) => SpecQueryPageState { error: Some("Error: "@ + e@), loading: false, ..old(self)@ },
            },
    {
        match result {
            Ok(resp) => {
                self.data = Some(resp);
            },
            Err(e) => {
                self.error = Some(error_text(e.as_str()));
            },
        }
        self.loading = false;
    }

    /// The user typed a topic.
    pub fn set_topic(&mut self, text: String)
        ensures
            final(self)@ == (SpecQueryPageState { topic: text@, ..old(self)@ }),
    {
        self.topic = text;
    }

    /// The user pasted a query.
    pub fn set_decoder_input(&mut self, text: String)
        ensures
            final(self)@ == (SpecQueryPageState { decoder_input: text@, ..old(self)@ }),
    {
        self.decoder_input = text;
    }

    /// The user decodes the pasted query: the decoder's text is shown.
    pub fn decode(&mut self)
        ensures
            final(self)@.decoded matches Some(shown) && spec_decode_query_text(old(self)@.decoder_input, shown),
            final(self)@ == (SpecQueryPageState { decoded: final(self)@.decoded, ..old(self)@ }),
    {
        self.decoded = Some(decode_query_text(self.decoder_input.as_str()));
    }
}

/// What the explore page holds.
pub struct ExplorePageState {
    /// The last answer.
    pub data: Option<ResultEventsAndRelatedEventsAndCursor>,
    /// The error shown, if any.
    pub error: Option<String>,
    /// Whether a fetch is under way.
    pub loading: bool,
}

/// The value of an [`ExplorePageState`].
pub struct SpecExplorePageState {
    pub data: Option<SpecResultEventsAndRelatedEventsAndCursor>,
    pub error: Option<Seq<char>>,
    pub loading: bool,
}

impl View for ExplorePageState {
    type V = SpecExplorePageState;

    open spec fn view(&self) -> SpecExplorePageState {
        SpecExplorePageState {
            data: match self.data { Some(d) => Some(d@), None => None },
            error: match self.error { Some(e) => Some(e@), None => None },
            loading: self.loading,
        }
    }
}

impl ExplorePageState {
    /// The page before anything happened.
    pub fn new() -> (r: Self)
        ensures
            r@ == (SpecExplorePageState { data: None, error: None, loading: false }),
    {
        ExplorePageState { data: None, error: None, loading: false }
    }

    /// The user fetches: the page is loading, its error is cleared, and the
    /// explore address is fetched.
    pub fn fetch(&mut self) -> (r: QueryAction)
        ensures
            final(self)@ == (SpecExplorePageState { loading: true, error: None, ..old(self)@ }),
            r@ == SpecQueryAction::Fetch(spec_explore_url()),
    {
        self.loading = true;
        self.error = None;
        QueryAction::Fetch(explore_url().to_owned())
    }

    /// The answer arrived, or fetching failed (with the failure's text).
    pub fn fetched(&mut self, result: Result<ResultEventsAndRelatedEventsAndCursor, String>)
        ensures
            final(self)@ == match result {
                Ok(resp) => SpecExplorePageState { data: Some(resp@), loading: false, ..old(self)@ },
                Err(e) => SpecExplorePageState { error: Some("Error: "@ + e@), loading: false, ..old(self)@ },
            },
    {
        match result {
            Ok(resp) => {
                self.data = Some(resp);
            },
            Err(e) => {
                self.error = Some(error_text(e.as_str()));
            },
        }
        self.loading = false;
    }
}

/// The debug pages.
#[derive(Clone, Copy, Debug, PartialEq, Eq, Structural)]
pub enum DebugPage {
    Query,
    Explore,
    Create,
    Account,
}

/// The class of a page's button in the debug menu: marked active for the page
/// shown.
pub open spec fn spec_debug_button_class(shown: DebugPage, page: DebugPage) -> Seq<char> {
    if shown == page {
        "debug-btn active"@
    } else {
        "debug-btn"@
    }
}

/// The class of a page's button in the debug menu.
pub fn debug_button_class(shown: DebugPage, page: DebugPage) -> (r: &'static str)
    ensures
        r@ == spec_debug_button_class(shown, page),
{
    if shown == page {
        "debug-btn active"
    } else {
        "debug-btn"
    }
}

} // verus!
