//! The routes of the small demonstration server: a greeting with a hit
//! counter, a JSON echo, and a health probe.

use vstd::prelude::*;
use vstd::string::StringExecFns;
use crate::api::{BAD_REQUEST, HttpMethod, NOT_FOUND, OK, Reply, ReplyView, empty_reply, json_reply, json_view};
use crate::json::{decimal_text, json_integer, json_string, json_string_text};
use crate::text::{chars_of, same_chars};

verus! {

/// The text serde_json writes back after reading `b` as a JSON value, or
/// `None` when `b` is not JSON.
pub uninterp spec fn json_reencoded(b: Seq<u8>) -> Option<Seq<char>>;

/// `serde_json::from_slice::<serde_json::Value>` followed by writing the
/// value back with `to_string`; the outcome is named by `json_reencoded`.
#[verifier::external_body]
fn reencode_json(b: &[u8]) -> (r: Option<String>)
    ensures
        match r {
            Some(t) => json_reencoded(b@) == Some(t@),
            None => json_reencoded(b@) is None,
        },
{
    serde_json::from_slice::<serde_json::Value>(b).ok().map(|v| v.to_string())
}

pub enum DemoRoute {
    Hello,
    Echo,
    Health,
    NotFound,
}

/// The route table of the demonstration server.
pub open spec fn demo_route_of(method: HttpMethod, path: Seq<char>) -> DemoRoute {
    if method == HttpMethod::Get && path == "/hello"@ {
        DemoRoute::Hello
    } else if method == HttpMethod::Post && path == "/echo"@ {
        DemoRoute::Echo
    } else if method == HttpMethod::Get && path == "/health"@ {
        DemoRoute::Health
    } else {
        DemoRoute::NotFound
    }
}

/// Decides which route of the demonstration server serves a request.
pub fn demo_route(method: HttpMethod, path: &str) -> (r: DemoRoute)
    ensures
        r == demo_route_of(method, path@),
{
    let p = chars_of(path);
    if method == HttpMethod::Get && same_chars(&p, &chars_of("/hello")) {
        DemoRoute::Hello
    } else if method == HttpMethod::Post && same_chars(&p, &chars_of("/echo")) {
        DemoRoute::Echo
    } else if method == HttpMethod::Get && same_chars(&p, &chars_of("/health")) {
        DemoRoute::Health
    } else {
        DemoRoute::NotFound
    }
}

/// The body `{"error": msg}`.
pub open spec fn demo_error_text(msg: Seq<char>) -> Seq<char> {
    "{\"error\":"@ + json_string_text(msg) + "}"@
}

/// An error reply of the demonstration server.
pub fn demo_error_reply(status: u16, msg: &str) -> (r: Reply)
    ensures
        r@ == json_view(status, demo_error_text(msg@)),
{
    let mut body = String::from_str("{\"error\":");
    body.append(json_string(msg).as_str());
    body.append("}");
    json_reply(status, body)
}

/// The body of `GET /hello`: keys in sorted order, as serde_json's object
/// map keeps them.
pub open spec fn hello_text(count: u64) -> Seq<char> {
    "{\"count\":"@ + decimal_text(count as int) + ",\"message\":"@ + json_string_text("Hello!"@)
        + "}"@
}

/// `GET /hello`, given the number of earlier greetings.
pub fn hello_reply(count: u64) -> (r: Reply)
    ensures
        r@ == json_view(OK, hello_text(count)),
{
    let mut body = String::from_str("{\"count\":");
    body.append(json_integer(count as i128).as_str());
    body.append(",\"message\":");
    body.append(json_string("Hello!").as_str());
    body.append("}");
    json_reply(OK, body)
}

/// `POST /echo`: the request body (`None` when it could not be read) sent
/// back as JSON.
pub fn echo_reply(body: Option<Vec<u8>>) -> (r: Reply)
    ensures
        r@ == match body {
            None => json_view(BAD_REQUEST, demo_error_text("invalid body"@)),
            Some(b) => match json_reencoded(b@) {
                Some(t) => json_view(OK, t),
                None => json_view(BAD_REQUEST, demo_error_text("invalid json"@)),
            },
        },
{
    match body {
        None => demo_error_reply(BAD_REQUEST, "invalid body"),
        Some(b) => match reencode_json(b.as_slice()) {
            Some(t) => json_reply(OK, t),
            None => demo_error_reply(BAD_REQUEST, "invalid json"),
        },
    }
}

/// `GET /health`: an empty 200.
pub fn demo_health_reply() -> (r: Reply)
    ensures
        r@ == (ReplyView { status: OK, body: Seq::empty(), json: false, location: None }),
{
    empty_reply(OK)
}

/// Any other request to the demonstration server.
pub fn demo_not_found_reply() -> (r: Reply)
    ensures
        r@ == json_view(NOT_FOUND, demo_error_text("not found"@)),
{
    demo_error_reply(NOT_FOUND, "not found")
}

} // verus!
