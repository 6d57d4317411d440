use vstd::prelude::*;
use vstd::string::*;
use crate::http::{
    text_response, Request, RequestView, Response, ResponseView, STATUS_INTERNAL_ERROR, STATUS_OK,
};
use crate::routes::Handler;

verus! {

/// The record that the JSON endpoints answer with.
#[derive(Debug, PartialEq, Eq)]
pub struct JsonResponse {
    pub response: String,
    pub success: bool,
    pub error_message: String,
}

/// Mathematical model of a [`JsonResponse`].
pub struct JsonResponseView {
    pub response: Seq<char>,
    pub success: bool,
    pub error_message: Seq<char>,
}

impl View for JsonResponse {
    type V = JsonResponseView;

    open spec fn view(&self) -> JsonResponseView {
        JsonResponseView {
            response: self.response@,
            success: self.success,
            error_message: self.error_message@,
        }
    }
}

impl JsonResponse {
    /// The record of a success with the given payload.
    pub fn success(response: String) -> (record: JsonResponse)
        ensures
            record@ == (JsonResponseView {
                response: response@,
                success: true,
                error_message: Seq::<char>::empty(),
            }),
    {
        JsonResponse { response, success: true, error_message: String::new() }
    }

    /// The record of an error with the given message.
    pub fn error(msg: String) -> (record: JsonResponse)
        ensures
            record@ == (JsonResponseView {
                response: Seq::<char>::empty(),
                success: false,
                error_message: msg@,
            }),
    {
        JsonResponse { response: String::new(), success: false, error_message: msg }
    }
}

/// The text that `serde_json::to_string` gives for a JSON object of three
/// members, in this order: a string under `first_key`, a boolean under
/// `second_key`, a string under `third_key`.
pub uninterp spec fn json_object_text(
    first_key: Seq<char>,
    first: Seq<char>,
    second_key: Seq<char>,
    second: bool,
    third_key: Seq<char>,
    third: Seq<char>,
) -> Seq<char>;

/// Builds a `serde_json::Value` object of three members, inserted in the
/// order of the arguments, and encodes it with `serde_json::to_string`.
/// What is claimed: the call succeeds, and the text depends on the six
/// arguments alone. `to_string` fails only where a value's own encoding
/// fails, a map key is no string, or the writer fails; this object has
/// string keys, string and boolean members, and is written to memory.
#[verifier::external_body]
fn encode_object(
    first_key: &str,
    first: &str,
    second_key: &str,
    second: bool,
    third_key: &str,
    third: &str,
) -> (text: Option<String>)
    ensures
        match text {
            Some(t) => t@ == json_object_text(
                first_key@,
                first@,
                second_key@,
                second,
                third_key@,
                third@,
            ),
            None => false,
        },
{
    let mut object = serde_json::Map::new();
    object.insert(first_key.to_string(), serde_json::Value::String(first.to_string()));
    object.insert(second_key.to_string(), serde_json::Value::Bool(second));
    object.insert(third_key.to_string(), serde_json::Value::String(third.to_string()));
    serde_json::to_string(&serde_json::Value::Object(object)).ok()
}

/// The JSON text of a record: an object with the members `response`,
/// `success` and `error_message`, in this order.
pub open spec fn json_text(record: JsonResponseView) -> Seq<char> {
    json_object_text(
        "response"@,
        record.response,
        "success"@,
        record.success,
        "error_message"@,
        record.error_message,
    )
}

/// The response that carries an encoded record; where encoding failed, an
/// internal error.
pub open spec fn json_reply(encoded: Option<Seq<char>>) -> ResponseView {
    match encoded {
        Some(text) => ResponseView {
            status: STATUS_OK,
            content_type: "application/json"@,
            body: vstd::utf8::encode_utf8(text),
        },
        None => text_response(STATUS_INTERNAL_ERROR, "Internal Server Error"@),
    }
}

/// The response that answers a request with `record`: status 200, content
/// type `application/json`, and the record's JSON text as the body.
pub open spec fn json_response(record: JsonResponseView) -> ResponseView {
    json_reply(Some(json_text(record)))
}

/// The response of the hello endpoint.
pub open spec fn hello_response() -> ResponseView {
    text_response(STATUS_OK, "This request was routed!"@)
}

/// The record that the JSON endpoint answers with.
pub open spec fn success_record() -> JsonResponseView {
    JsonResponseView {
        response: "some value"@,
        success: true,
        error_message: Seq::<char>::empty(),
    }
}

/// The record that the error endpoint answers with.
pub open spec fn error_record() -> JsonResponseView {
    JsonResponseView {
        response: Seq::<char>::empty(),
        success: false,
        error_message: "some error occurred"@,
    }
}

/// Wraps the outcome of encoding a record into a response.
pub fn reply_json(encoded: Option<String>) -> (response: Response)
    ensures
        response@ == json_reply(
            match encoded {
                Some(text) => Some(text@),
                None => None,
            },
        ),
{
    match encoded {
        Some(text) => Response::new(STATUS_OK, "application/json", text.as_str().as_bytes_vec()),
        None => Response::text(STATUS_INTERNAL_ERROR, "Internal Server Error"),
    }
}

/// Answers with `record` as JSON.
pub fn respond_json(record: &JsonResponse) -> (response: Response)
    ensures
        response@ == json_response(record@),
{
    let encoded = encode_object(
        "response",
        record.response.as_str(),
        "success",
        record.success,
        "error_message",
        record.error_message.as_str(),
    );
    reply_json(encoded)
}

/// Answers every request with the same greeting.
pub fn say_hello(request: &Request) -> (response: Response)
    ensures
        response@ == hello_response(),
{
    Response::text(STATUS_OK, "This request was routed!")
}

/// Answers every request with the success record as JSON.
pub fn json_success(request: &Request) -> (response: Response)
    ensures
        response@ == json_response(success_record()),
{
    let record = JsonResponse::success("some value".to_owned());
    respond_json(&record)
}

/// Answers every request with the error record as JSON. The error is in
/// the body; the status is that of a success.
pub fn json_error(request: &Request) -> (response: Response)
    ensures
        response@ == json_response(error_record()),
{
    let record = JsonResponse::error("some error occurred".to_owned());
    respond_json(&record)
}

/// The handlers that the standard routes lead to.
#[derive(Clone, Copy, Debug, PartialEq, Eq, Structural)]
pub enum Endpoint {
    Hello,
    Json,
    Error,
}

impl Handler for Endpoint {
    open spec fn replies(&self, request: RequestView, response: ResponseView) -> bool {
        match *self {
            Endpoint::Hello => response == hello_response(),
            Endpoint::Json => response == json_response(success_record()),
            Endpoint::Error => response == json_response(error_record()),
        }
    }

    fn handle(&self, request: &Request) -> (response: Response) {
        match *self {
            Endpoint::Hello => say_hello(request),
            Endpoint::Json => json_success(request),
            Endpoint::Error => json_error(request),
        }
    }
}

} // verus!
