//! The fetcher: one request per identifier, and what each reply counts as.
//!
//! The network call itself is made elsewhere. This module says what to ask
//! for, and sorts what came back into a body, a soft failure that a batch
//! survives, or a hard failure that ends it.

use crate::inputs::{request_url_spec, AdvInput, InputView};
use crate::text::{decimal, push_decimal};
use vstd::prelude::*;

verus! {

/// Seconds after which reading a reply is given up.
pub const READ_TIMEOUT_SECS: u64 = 5;

/// Seconds after which writing a request is given up.
pub const WRITE_TIMEOUT_SECS: u64 = 5;

/// The first status of a successful reply.
pub const SUCCESS_FIRST: u16 = 200;

/// The last status of a successful reply.
pub const SUCCESS_LAST: u16 = 299;

/// The status of a reply for an input that is not there.
pub const NOT_FOUND: u16 = 404;

/// One network call: `GET url` with the header `Cookie: cookie`, given up
/// after the timeouts. It is made once and never repeated.
///
/// The cookie holds the session token. So that it is not printed by
/// accident, a request has no `Debug` form, and neither has what holds one.
#[derive(PartialEq, Eq)]
pub struct Request {
    pub url: String,
    pub cookie: String,
    pub read_timeout_secs: u64,
    pub write_timeout_secs: u64,
}

/// A request as plain mathematical values.
pub struct RequestView {
    pub url: Seq<char>,
    pub cookie: Seq<char>,
    pub read_timeout_secs: int,
    pub write_timeout_secs: int,
}

impl View for Request {
    type V = RequestView;

    open spec fn view(&self) -> RequestView {
        RequestView {
            url: self.url@,
            cookie: self.cookie@,
            read_timeout_secs: self.read_timeout_secs as int,
            write_timeout_secs: self.write_timeout_secs as int,
        }
    }
}

impl DeepView for Request {
    type V = RequestView;

    open spec fn deep_view(&self) -> RequestView {
        self@
    }
}

impl Clone for Request {
    fn clone(&self) -> (copy: Request)
        ensures
            copy@ == self@,
    {
        Request {
            url: self.url.clone(),
            cookie: self.cookie.clone(),
            read_timeout_secs: self.read_timeout_secs,
            write_timeout_secs: self.write_timeout_secs,
        }
    }
}

/// What came back for one request.
#[derive(Debug, PartialEq, Eq)]
pub enum HttpReply {
    /// The server answered with a status; `body` is the text it sent.
    Response { status: u16, body: String },
    /// No usable answer: a timeout, a failed connection, a malformed reply.
    Failure { reason: String },
}

/// A reply as plain mathematical values.
pub enum ReplyView {
    Response { status: int, body: Seq<char> },
    Failure { reason: Seq<char> },
}

impl View for HttpReply {
    type V = ReplyView;

    open spec fn view(&self) -> ReplyView {
        match self {
            HttpReply::Response { status, body } => ReplyView::Response {
                status: *status as int,
                body: body@,
            },
            HttpReply::Failure { reason } => ReplyView::Failure { reason: reason@ },
        }
    }
}

impl DeepView for HttpReply {
    type V = ReplyView;

    open spec fn deep_view(&self) -> ReplyView {
        self@
    }
}

impl Clone for HttpReply {
    fn clone(&self) -> (copy: HttpReply)
        ensures
            copy@ == self@,
    {
        match self {
            HttpReply::Response { status, body } => HttpReply::Response {
                status: *status,
                body: body.clone(),
            },
            HttpReply::Failure { reason } => HttpReply::Failure { reason: reason.clone() },
        }
    }
}

/// Why a fetch failed for good.
#[derive(Debug, PartialEq, Eq)]
pub enum FetchError {
    /// The server answered with this status, which is neither a success nor
    /// "not found".
    Status(u16),
    /// No usable answer came back.
    Transport(String),
}

/// A fetch error as plain mathematical values.
pub enum FetchErrorView {
    Status(int),
    Transport(Seq<char>),
}

impl View for FetchError {
    type V = FetchErrorView;

    open spec fn view(&self) -> FetchErrorView {
        match self {
            FetchError::Status(status) => FetchErrorView::Status(*status as int),
            FetchError::Transport(reason) => FetchErrorView::Transport(reason@),
        }
    }
}

impl Clone for FetchError {
    fn clone(&self) -> (copy: FetchError)
        ensures
            copy@ == self@,
    {
        match self {
            FetchError::Status(status) => FetchError::Status(*status),
            FetchError::Transport(reason) => FetchError::Transport(reason.clone()),
        }
    }
}

/// What a fetch error says.
pub open spec fn fetch_error_text(error: FetchErrorView) -> Seq<char> {
    match error {
        FetchErrorView::Status(status) => "status code "@ + decimal(status),
        FetchErrorView::Transport(reason) => reason,
    }
}

impl FetchError {
    /// What this error says, for a reader.
    pub fn message(&self) -> (text: String)
        ensures
            text@ == fetch_error_text(self@),
    {
        match self {
            FetchError::Status(status) => {
                let mut text = String::from_str("status code ");
                push_decimal(&mut text, *status as i32);
                text
            },
            FetchError::Transport(reason) => reason.clone(),
        }
    }
}

/// What a fetch came to, for one identifier.
#[derive(Debug, PartialEq, Eq)]
pub enum FetchOutcome {
    /// The input's text.
    Success(String),
    /// The input is not there yet; the batch goes on. Holds the warning.
    SoftFailure(String),
    /// Anything else; the batch ends.
    HardFailure(FetchError),
}

/// An outcome as plain mathematical values.
pub enum OutcomeView {
    Success(Seq<char>),
    SoftFailure(Seq<char>),
    HardFailure(FetchErrorView),
}

impl View for FetchOutcome {
    type V = OutcomeView;

    open spec fn view(&self) -> OutcomeView {
        match self {
            FetchOutcome::Success(body) => OutcomeView::Success(body@),
            FetchOutcome::SoftFailure(warning) => OutcomeView::SoftFailure(warning@),
            FetchOutcome::HardFailure(error) => OutcomeView::HardFailure(error@),
        }
    }
}

impl DeepView for FetchOutcome {
    type V = OutcomeView;

    open spec fn deep_view(&self) -> OutcomeView {
        self@
    }
}

impl Clone for FetchOutcome {
    fn clone(&self) -> (copy: FetchOutcome)
        ensures
            copy@ == self@,
    {
        match self {
            FetchOutcome::Success(body) => FetchOutcome::Success(body.clone()),
            FetchOutcome::SoftFailure(warning) => FetchOutcome::SoftFailure(warning.clone()),
            FetchOutcome::HardFailure(error) => FetchOutcome::HardFailure(error.clone()),
        }
    }
}

/// The value of the `Cookie` header that carries a session token.
pub open spec fn cookie_spec(session_token: Seq<char>) -> Seq<char> {
    "session="@ + session_token
}

/// The request for one identifier.
pub open spec fn request_spec(input: InputView, cookie: Seq<char>) -> RequestView {
    RequestView {
        url: request_url_spec(input),
        cookie,
        read_timeout_secs: READ_TIMEOUT_SECS as int,
        write_timeout_secs: WRITE_TIMEOUT_SECS as int,
    }
}

/// The warning for a day whose input is not there.
pub open spec fn not_unlocked_spec(day: int) -> Seq<char> {
    "day "@ + decimal(day) + " is either not unlocked yet or does not exist"@
}

/// What a reply counts as: a successful status gives the body, "not found"
/// a soft failure with the day's warning, every other status and every
/// failure to get an answer a hard failure that keeps the status or reason.
pub open spec fn classify_spec(input: InputView, reply: ReplyView) -> OutcomeView {
    match reply {
        ReplyView::Response { status, body } => {
            if SUCCESS_FIRST <= status <= SUCCESS_LAST {
                OutcomeView::Success(body)
            } else if status == NOT_FOUND {
                OutcomeView::SoftFailure(not_unlocked_spec(input.day))
            } else {
                OutcomeView::HardFailure(FetchErrorView::Status(status))
            }
        },
        ReplyView::Failure { reason } => OutcomeView::HardFailure(
            FetchErrorView::Transport(reason),
        ),
    }
}

/// The value of the `Cookie` header that carries `session_token`.
pub fn cookie_header(session_token: &str) -> (cookie: String)
    ensures
        cookie@ == cookie_spec(session_token@),
{
    let mut cookie = String::from_str("session=");
    cookie.append(session_token);
    cookie
}

/// The request for `input`, with `cookie` as the value of its `Cookie`
/// header.
pub fn request_for(input: &AdvInput, cookie: &String) -> (request: Request)
    ensures
        request@ == request_spec(input@, cookie@),
{
    Request {
        url: input.request_url(),
        cookie: cookie.clone(),
        read_timeout_secs: READ_TIMEOUT_SECS,
        write_timeout_secs: WRITE_TIMEOUT_SECS,
    }
}

/// The warning for a day whose input is not there.
pub fn not_unlocked_message(day: u8) -> (warning: String)
    ensures
        warning@ == not_unlocked_spec(day as int),
{
    let mut warning = String::from_str("day ");
    push_decimal(&mut warning, day as i32);
    warning.append(" is either not unlocked yet or does not exist");
    warning
}

/// Sorts the reply for `input` into a body, a soft failure or a hard
/// failure.
pub fn classify(input: &AdvInput, reply: HttpReply) -> (outcome: FetchOutcome)
    ensures
        outcome@ == classify_spec(input@, reply@),
{
    match reply {
        HttpReply::Response { status, body } => {
            if SUCCESS_FIRST <= status && status <= SUCCESS_LAST {
                FetchOutcome::Success(body)
            } else if status == NOT_FOUND {
                FetchOutcome::SoftFailure(not_unlocked_message(input.day()))
            } else {
                FetchOutcome::HardFailure(FetchError::Status(status))
            }
        },
        HttpReply::Failure { reason } => FetchOutcome::HardFailure(FetchError::Transport(reason)),
    }
}

/// The requests of a batch: one for each identifier, in the identifiers'
/// order, all with the same session cookie.
pub fn fetch_requests(inputs: &Vec<AdvInput>, session_token: &str) -> (requests: Vec<Request>)
    ensures
        requests.len() == inputs.len(),
        forall|i: int|
            0 <= i < inputs.len() ==> #[trigger] requests[i]@ == request_spec(
                inputs[i]@,
                cookie_spec(session_token@),
            ),
{
    let cookie = cookie_header(session_token);
    let mut requests: Vec<Request> = Vec::new();
    let mut i: usize = 0;
    while i < inputs.len()
        invariant
            i <= inputs.len(),
            requests.len() == i,
            cookie@ == cookie_spec(session_token@),
            forall|k: int|
                0 <= k < i ==> #[trigger] requests[k]@ == request_spec(inputs[k]@, cookie@),
        decreases inputs.len() - i,
    {
        requests.push(request_for(&inputs[i], &cookie));
        i += 1;
    }
    requests
}

/// The outcomes of a batch, from the replies to its requests: one outcome
/// for each identifier, in the identifiers' order, each sorted from the
/// reply at the same position.
pub fn fetch_inputs(inputs: &Vec<AdvInput>, replies: Vec<HttpReply>) -> (outcomes: Vec<
    FetchOutcome,
>)
    requires
        replies.len() == inputs.len(),
    ensures
        outcomes.len() == inputs.len(),
        forall|i: int|
            0 <= i < inputs.len() ==> #[trigger] outcomes[i]@ == classify_spec(
                inputs[i]@,
                replies[i]@,
            ),
{
    let mut outcomes: Vec<FetchOutcome> = Vec::new();
    for reply in it: replies.into_iter()
        invariant
            it.seq() == replies@,
            replies.len() == inputs.len(),
            outcomes.len() == it.index(),
            forall|k: int|
                0 <= k < it.index() ==> #[trigger] outcomes[k]@ == classify_spec(
                    inputs[k]@,
                    replies[k]@,
                ),
    {
        let outcome = classify(&inputs[outcomes.len()], reply);
        outcomes.push(outcome);
    }
    outcomes
}

} // verus!
