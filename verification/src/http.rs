use vstd::prelude::*;
use vstd::string::*;

verus! {

/// Status of a successful reply.
pub const STATUS_OK: u16 = 200;

/// Status of a reply to a path outside a static root.
pub const STATUS_FORBIDDEN: u16 = 403;

/// Status of a reply when no mount or route matches.
pub const STATUS_NOT_FOUND: u16 = 404;

/// Status of a reply to a failure that carries no better one.
pub const STATUS_INTERNAL_ERROR: u16 = 500;

/// HTTP request methods a route can be registered under.
#[derive(Clone, Copy, Debug, PartialEq, Eq, Structural)]
pub enum Method {
    Get,
    Post,
    Put,
    Delete,
    Head,
    Patch,
    Options,
    Trace,
    Connect,
    /// Any method outside the ones above.
    Other,
}

/// What the dispatch layer reads of an incoming request.
#[derive(Debug)]
pub struct Request {
    pub method: Method,
    pub path: String,
}

/// Mathematical model of a [`Request`].
pub struct RequestView {
    pub method: Method,
    pub path: Seq<char>,
}

impl View for Request {
    type V = RequestView;

    open spec fn view(&self) -> RequestView {
        RequestView { method: self.method, path: self.path@ }
    }
}

impl Request {
    /// A request for `path` with the given method.
    pub fn new(method: Method, path: &str) -> (request: Request)
        ensures
            request@ == (RequestView { method, path: path@ }),
    {
        Request { method, path: path.to_owned() }
    }
}

/// What a handler produces: a status code, a content type and the body bytes.
#[derive(Debug, PartialEq, Eq)]
pub struct Response {
    pub status: u16,
    pub content_type: String,
    pub body: Vec<u8>,
}

/// Mathematical model of a [`Response`].
pub struct ResponseView {
    pub status: u16,
    pub content_type: Seq<char>,
    pub body: Seq<u8>,
}

impl View for Response {
    type V = ResponseView;

    open spec fn view(&self) -> ResponseView {
        ResponseView { status: self.status, content_type: self.content_type@, body: self.body@ }
    }
}

/// The plain-text response with the given status and text.
pub open spec fn text_response(status: u16, text: Seq<char>) -> ResponseView {
    ResponseView { status, content_type: "text/plain"@, body: vstd::utf8::encode_utf8(text) }
}

/// The response sent when no mount or route matches a request.
pub open spec fn not_found_response() -> ResponseView {
    text_response(STATUS_NOT_FOUND, "Not Found"@)
}

/// The response sent when a static path would leave its root.
pub open spec fn forbidden_response() -> ResponseView {
    text_response(STATUS_FORBIDDEN, "Forbidden"@)
}

impl Response {
    /// A response with the given parts.
    pub fn new(status: u16, content_type: &str, body: Vec<u8>) -> (response: Response)
        ensures
            response@ == (ResponseView { status, content_type: content_type@, body: body@ }),
    {
        Response { status, content_type: content_type.to_owned(), body }
    }

    /// A plain-text response whose body is the UTF-8 encoding of `text`.
    pub fn text(status: u16, text: &str) -> (response: Response)
        ensures
            response@ == text_response(status, text@),
    {
        Response { status, content_type: "text/plain".to_owned(), body: text.as_bytes_vec() }
    }

    /// The reply to a request that no mount or route matches.
    pub fn not_found() -> (response: Response)
        ensures
            response@ == not_found_response(),
    {
        Response::text(STATUS_NOT_FOUND, "Not Found")
    }

    /// The reply to a static path that would leave its root.
    pub fn forbidden() -> (response: Response)
        ensures
            response@ == forbidden_response(),
    {
        Response::text(STATUS_FORBIDDEN, "Forbidden")
    }
}

/// An error reported by an interceptor. `message` is what the interceptor
/// chose to show the client; `detail` stays inside the server.
#[derive(Debug, PartialEq, Eq)]
pub struct Failure {
    pub status: u16,
    pub message: String,
    pub detail: String,
}

/// Mathematical model of a [`Failure`].
pub struct FailureView {
    pub status: u16,
    pub message: Seq<char>,
    pub detail: Seq<char>,
}

impl View for Failure {
    type V = FailureView;

    open spec fn view(&self) -> FailureView {
        FailureView { status: self.status, message: self.message@, detail: self.detail@ }
    }
}

/// The response that surfaces a failure: its status and its public message,
/// never its detail.
pub open spec fn failure_response(failure: FailureView) -> ResponseView {
    text_response(failure.status, failure.message)
}

impl Failure {
    /// A failure with the given parts.
    pub fn new(status: u16, message: &str, detail: &str) -> (failure: Failure)
        ensures
            failure@ == (FailureView { status, message: message@, detail: detail@ }),
    {
        Failure { status, message: message.to_owned(), detail: detail.to_owned() }
    }

    /// The response sent to the client for this failure.
    pub fn to_response(&self) -> (response: Response)
        ensures
            response@ == failure_response(self@),
    {
        Response::text(self.status, self.message.as_str())
    }
}

/// No detail leaks: failures with one status and one public message get
/// one response, whatever their details.
pub proof fn lemma_failure_response_hides_detail(a: FailureView, b: FailureView)
    requires
        a.status == b.status,
        a.message == b.message,
    ensures
        failure_response(a) == failure_response(b),
{
}

} // verus!
