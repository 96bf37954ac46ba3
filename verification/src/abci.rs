//! How the ABCI query endpoint routes a request by the first segment of its
//! path, and what it answers.
use vstd::prelude::*;

use crate::state::{state_error_text, str_to_string, StateError};

verus! {

#[verifier::external_type_specification]
#[verifier::external_body]
pub struct ExRecvError(std::sync::mpsc::RecvError);

/// Why the channel between the consensus connection and the application
/// failed.
#[derive(Debug)]
pub enum AppError {
    /// The other end of the channel is gone: a command could not be sent.
    Send,
    /// The other end of the channel is gone: no reply came.
    Recv(std::sync::mpsc::RecvError),
}

impl From<std::sync::mpsc::RecvError> for AppError {
    fn from(e: std::sync::mpsc::RecvError) -> (r: Self) {
        AppError::Recv(e)
    }
}

impl vstd::std_specs::convert::FromSpecImpl<std::sync::mpsc::RecvError> for AppError {
    open spec fn obeys_from_spec() -> bool {
        true
    }

    open spec fn from_spec(v: std::sync::mpsc::RecvError) -> Self {
        AppError::Recv(v)
    }
}

impl AppError {
    /// The text of the error.
    pub fn message(&self) -> (s: String)
        ensures
            match self {
                AppError::Send => s@ == "channel send error"@,
                AppError::Recv(_) => s@ == "channel receive error: receiving on a closed channel"@,
            },
    {
        match self {
            AppError::Send => str_to_string("channel send error"),
            AppError::Recv(_) => str_to_string("channel receive error: receiving on a closed channel"),
        }
    }
}

/// The text up to the first `/` (all of it if there is none).
pub open spec fn first_segment(s: Seq<char>) -> Seq<char>
    decreases s.len(),
{
    if s.len() == 0 {
        s
    } else if s[0] == '/' {
        Seq::empty()
    } else {
        seq![s[0]] + first_segment(s.drop_first())
    }
}

/// Why the ABCI connection could not get an answer from the state machine.
#[derive(Debug)]
pub enum ABCIError {
    /// The channel to the state machine is closed: a command could not be
    /// sent.
    Send,
    /// The channel to the state machine is closed: no reply came.
    Recv(std::sync::mpsc::RecvError),
    /// The state machine refused the request.
    State(StateError),
}

impl From<std::sync::mpsc::RecvError> for ABCIError {
    fn from(e: std::sync::mpsc::RecvError) -> (r: Self) {
        ABCIError::Recv(e)
    }
}

impl vstd::std_specs::convert::FromSpecImpl<std::sync::mpsc::RecvError> for ABCIError {
    open spec fn obeys_from_spec() -> bool {
        true
    }

    open spec fn from_spec(v: std::sync::mpsc::RecvError) -> Self {
        ABCIError::Recv(v)
    }
}

impl From<StateError> for ABCIError {
    fn from(e: StateError) -> (r: Self) {
        ABCIError::State(e)
    }
}

impl vstd::std_specs::convert::FromSpecImpl<StateError> for ABCIError {
    open spec fn obeys_from_spec() -> bool {
        true
    }

    open spec fn from_spec(v: StateError) -> Self {
        ABCIError::State(v)
    }
}

impl ABCIError {
    /// The text of the error; that of a state machine error follows its own
    /// text.
    pub fn message(&self) -> (s: String)
        ensures
            match self {
                ABCIError::Send => s@ == "channel send error"@,
                ABCIError::Recv(_) => s@ == "channel receive error: receiving on a closed channel"@,
                ABCIError::State(e) => state_error_text(e) matches Some(t) ==> s@
                    == "error while executing or querying the state machine: "@ + t,
            },
    {
        match self {
            ABCIError::Send => str_to_string("channel send error"),
            ABCIError::Recv(_) => str_to_string("channel receive error: receiving on a closed channel"),
            ABCIError::State(e) => {
                let mut s = str_to_string("error while executing or querying the state machine: ");
                s.append(e.message().as_str());
                s
            },
        }
    }
}

/// Where a query goes.
#[derive(Debug)]
pub enum QueryRoute {
    /// To the application state.
    App,
    /// To the store (not served yet).
    Store,
    /// Peer filtering (not served yet, and no peer is refused).
    P2p,
    /// Anywhere else: refused.
    Unsupported(String),
}

/// What the query endpoint answers.
#[derive(Debug)]
pub struct QueryReply {
    pub code: u32,
    pub log: String,
    pub value: Vec<u8>,
}

proof fn lemma_first_segment_prefix(s: Seq<char>, i: int)
    requires
        0 <= i <= s.len(),
        forall|j: int| 0 <= j < i ==> s[j] != '/',
        i == s.len() || s[i] == '/',
    ensures
        first_segment(s) == s.take(i),
    decreases s.len(),
{
    if s.len() > 0 && i > 0 {
        lemma_first_segment_prefix(s.drop_first(), i - 1);
        assert(s.take(i) =~= seq![s[0]] + s.drop_first().take(i - 1));
    } else {
        assert(s.take(i) =~= Seq::<char>::empty());
    }
}

/// The first segment of a path.
pub fn path_prefix(path: &str) -> (r: String)
    ensures
        r@ == first_segment(path@),
{
    let n = path.unicode_len();
    let mut i: usize = 0;
    while i < n && path.get_char(i) != '/'
        invariant
            n == path@.len(),
            i <= n,
            forall|j: int| 0 <= j < i ==> path@[j] != '/',
        decreases n - i,
    {
        i = i + 1;
    }
    proof {
        lemma_first_segment_prefix(path@, i as int);
    }
    let seg = path.substring_char(0, i);
    str_to_string(seg)
}

/// Where a query with this path goes.
pub fn route_query(path: &str) -> (r: QueryRoute)
    ensures
        match r {
            QueryRoute::App => first_segment(path@) == "app"@,
            QueryRoute::Store => first_segment(path@) == "store"@,
            QueryRoute::P2p => first_segment(path@) == "p2p"@,
            QueryRoute::Unsupported(p) => p@ == first_segment(path@) && p@ != "app"@ && p@ != "store"@
                && p@ != "p2p"@,
        },
{
    let prefix = path_prefix(path);
    if prefix == str_to_string("app") {
        QueryRoute::App
    } else if prefix == str_to_string("store") {
        QueryRoute::Store
    } else if prefix == str_to_string("p2p") {
        QueryRoute::P2p
    } else {
        QueryRoute::Unsupported(prefix)
    }
}

/// The answer for a route that does not reach the application: code 1 for
/// the store and for unsupported prefixes, code 0 (no peer refused) for
/// p2p, each with a log; `None` for the application route.
pub fn reply_for_route(route: &QueryRoute) -> (r: Option<QueryReply>)
    ensures
        match route {
            QueryRoute::App => r is None,
            QueryRoute::Store => r matches Some(q) && q.code == 1 && q.log@
                == "store query is not implemented yet"@ && q.value@.len() == 0,
            QueryRoute::P2p => r matches Some(q) && q.code == 0 && q.log@
                == "p2p query is not implemented yet"@ && q.value@.len() == 0,
            QueryRoute::Unsupported(p) => r matches Some(q) && q.code == 1 && q.log@
                == "unsupported query path prefix: "@ + p@ && q.value@.len() == 0,
        },
{
    match route {
        QueryRoute::App => None,
        QueryRoute::Store => Some(
            QueryReply {
                code: 1,
                log: str_to_string("store query is not implemented yet"),
                value: Vec::new(),
            },
        ),
        QueryRoute::P2p => Some(
            QueryReply {
                code: 0,
                log: str_to_string("p2p query is not implemented yet"),
                value: Vec::new(),
            },
        ),
        QueryRoute::Unsupported(p) => {
            let mut log = str_to_string("unsupported query path prefix: ");
            log.append(p.as_str());
            Some(QueryReply { code: 1, log, value: Vec::new() })
        },
    }
}

/// The answer for the application route: code 0 with the response bytes, or
/// code 1 with the error text.
pub fn reply_for_app(result: Result<Vec<u8>, String>) -> (r: QueryReply)
    ensures
        match result {
            Ok(v) => r.code == 0 && r.value@ == v@ && r.log@.len() == 0,
            Err(e) => r.code == 1 && r.log@ == e@ && r.value@.len() == 0,
        },
{
    match result {
        Ok(v) => QueryReply { code: 0, log: String::new(), value: v },
        Err(e) => QueryReply { code: 1, log: e, value: Vec::new() },
    }
}

} // verus!
