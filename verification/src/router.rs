//! What becomes of a request after authentication: the business operation that
//! its path names, or the reply that ends it.

use vstd::prelude::*;
use vstd::string::*;
use crate::decision::{AuthDecision, DecisionView, DenyReason};
use crate::gate::{GateOutcome, OutcomeView};
use crate::text::text_equal;

verus! {

/// The business operations behind authentication.
#[derive(Clone, Copy, Debug, PartialEq, Eq, Structural)]
pub enum Route {
    /// `/post-info`: submit the metadata of a post.
    SubmitInfo,
    /// `/post-media`: issue a location to upload media to.
    IssueUpload,
    /// `/get-info`: fetch the metadata of a post.
    FetchInfo,
    /// `/get-media`: issue a location to fetch media from.
    IssueDownload,
    /// `/recommendations`: recommend posts near a location.
    Recommend,
}

/// A reply that ends a request, sent as plain text.
#[derive(Clone, Copy, Debug, PartialEq, Eq)]
pub struct Reply {
    /// The HTTP status.
    pub status: u16,
    /// The body.
    pub body: &'static str,
}

/// A `Reply` as a mathematical value.
pub struct ReplyView {
    pub status: u16,
    pub body: Seq<char>,
}

impl View for Reply {
    type V = ReplyView;

    open spec fn view(&self) -> ReplyView {
        ReplyView { status: self.status, body: self.body@ }
    }
}

/// What is done with a request once authentication has ended.
#[derive(Debug)]
pub enum Disposition {
    /// The request goes to a business operation, unchanged, with the
    /// identity that was verified.
    Forward { route: Route, identity: String },
    /// The request ends here.
    Respond(Reply),
}

/// A `Disposition` as a mathematical value.
pub enum DispositionView {
    Forward { route: Route, identity: Seq<char> },
    Respond(ReplyView),
}

impl View for Disposition {
    type V = DispositionView;

    open spec fn view(&self) -> DispositionView {
        match *self {
            Disposition::Forward { route, identity } => DispositionView::Forward {
                route,
                identity: identity@,
            },
            Disposition::Respond(reply) => DispositionView::Respond(reply@),
        }
    }
}

/// The operation that a request path names; `None` for an unknown path.
pub open spec fn spec_route(path: Seq<char>) -> Option<Route> {
    if path == "/post-info"@ {
        Some(Route::SubmitInfo)
    } else if path == "/post-media"@ {
        Some(Route::IssueUpload)
    } else if path == "/get-info"@ {
        Some(Route::FetchInfo)
    } else if path == "/get-media"@ {
        Some(Route::IssueDownload)
    } else if path == "/recommendations"@ {
        Some(Route::Recommend)
    } else {
        None
    }
}

/// The reply to a denied request. Its body tells a missing header from a
/// malformed one; every 401 has the same body, so that a client cannot
/// learn from the reply which check it failed.
pub open spec fn spec_denial(reason: DenyReason) -> ReplyView {
    match reason {
        DenyReason::MissingHeader => ReplyView { status: 400, body: "400 - Missing Header"@ },
        DenyReason::MalformedInput => ReplyView { status: 400, body: "400 - Malformed Input"@ },
        _ => ReplyView { status: 401, body: "401 - Unauthorized"@ },
    }
}

/// The reply where the trust anchor could not be had: a fault of the
/// service, told apart from every denial by its status.
pub open spec fn spec_unavailable() -> ReplyView {
    ReplyView { status: 502, body: "502 - Bad Gateway"@ }
}

/// The reply to an authentic request for an unknown path.
pub open spec fn spec_not_found() -> ReplyView {
    ReplyView { status: 404, body: "404 - Not Found"@ }
}

/// What is done with a request: a denial and a missing anchor end it with
/// their reply, whatever the path; an allowed request goes to the operation
/// that its path names, or ends with 404 where the path names none.
pub open spec fn spec_dispatch(outcome: OutcomeView, path: Seq<char>) -> DispositionView {
    match outcome {
        OutcomeView::Unavailable(_) => DispositionView::Respond(spec_unavailable()),
        OutcomeView::Decided(DecisionView::Deny { status, reason }) => DispositionView::Respond(
            spec_denial(reason),
        ),
        OutcomeView::Decided(DecisionView::Allow { identity }) => match spec_route(path) {
            Some(route) => DispositionView::Forward { route, identity },
            None => DispositionView::Respond(spec_not_found()),
        },
    }
}

/// Finds the operation that a request path names.
pub fn route(path: &str) -> (found: Option<Route>)
    ensures
        found == spec_route(path@),
{
    if text_equal(path, "/post-info") {
        Some(Route::SubmitInfo)
    } else if text_equal(path, "/post-media") {
        Some(Route::IssueUpload)
    } else if text_equal(path, "/get-info") {
        Some(Route::FetchInfo)
    } else if text_equal(path, "/get-media") {
        Some(Route::IssueDownload)
    } else if text_equal(path, "/recommendations") {
        Some(Route::Recommend)
    } else {
        None
    }
}

/// The reply to a request denied for the given reason.
pub fn denial(reason: DenyReason) -> (reply: Reply)
    ensures
        reply@ == spec_denial(reason),
{
    match reason {
        DenyReason::MissingHeader => Reply { status: 400, body: "400 - Missing Header" },
        DenyReason::MalformedInput => Reply { status: 400, body: "400 - Malformed Input" },
        _ => Reply { status: 401, body: "401 - Unauthorized" },
    }
}

/// Decides what is done with a request once authentication has ended.
pub fn dispatch(outcome: GateOutcome, path: &str) -> (disposition: Disposition)
    ensures
        disposition@ == spec_dispatch(outcome@, path@),
{
    match outcome {
        GateOutcome::Unavailable(_) => Disposition::Respond(
            Reply { status: 502, body: "502 - Bad Gateway" },
        ),
        GateOutcome::Decided(AuthDecision::Deny { status, reason }) => Disposition::Respond(
            denial(reason),
        ),
        GateOutcome::Decided(AuthDecision::Allow { identity }) => match route(path) {
            Some(route) => Disposition::Forward { route, identity },
            None => Disposition::Respond(Reply { status: 404, body: "404 - Not Found" }),
        },
    }
}

/// The reply to a denial has the status of its reason, and two failures of
/// authentication have one and the same reply.
pub proof fn denial_hides_the_cause(first: DenyReason, second: DenyReason)
    ensures
        spec_denial(first).status == first.spec_status(),
        first.spec_status() == 401 && second.spec_status() == 401 ==> spec_denial(first)
            == spec_denial(second),
{
}

/// A request that was not allowed reaches no business operation.
pub proof fn only_allowed_requests_are_forwarded(outcome: OutcomeView, path: Seq<char>)
    ensures
        spec_dispatch(outcome, path) is Forward ==> outcome is Decided && outcome->Decided_0
            is Allow,
        spec_dispatch(outcome, path) matches DispositionView::Forward { route, identity }
            ==> outcome == OutcomeView::Decided(DecisionView::Allow { identity }) && spec_route(
            path,
        ) == Some(route),
{
}

} // verus!
