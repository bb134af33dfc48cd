//! The request that opens the connection.

use crate::event::{ErrorView, TranscribeError};
use crate::text;
use crate::transcriber::OpenaiRealtimeTranscriber;
use crate::wire::base64_text;
use tokio_tungstenite::tungstenite::client::IntoClientRequest;
use tokio_tungstenite::tungstenite::http::{HeaderValue, Request};
use vstd::prelude::*;
use vstd::string::*;
use vstd::utf8::*;

verus! {

/// `http::Request`, an HTTP request.
#[verifier::external_type_specification]
#[verifier::external_body]
#[verifier::reject_recursive_types(T)]
pub struct ExRequest<T>(tokio_tungstenite::tungstenite::http::Request<T>);

/// `http::HeaderValue`, the value of an HTTP header.
#[verifier::external_type_specification]
#[verifier::external_body]
pub struct ExHeaderValue(tokio_tungstenite::tungstenite::http::HeaderValue);

/// The headers of a request: under each name, in lower case, the bytes of its
/// first value.
pub uninterp spec fn request_headers(
    request: tokio_tungstenite::tungstenite::http::Request<()>,
) -> Map<Seq<char>, Seq<u8>>;

/// The address of a request, as its `Uri` displays it.
pub uninterp spec fn request_address(
    request: tokio_tungstenite::tungstenite::http::Request<()>,
) -> Seq<char>;

/// The method of a request, as `Method::as_str` gives it.
pub uninterp spec fn request_method(
    request: tokio_tungstenite::tungstenite::http::Request<()>,
) -> Seq<char>;

/// The bytes of a header value.
pub uninterp spec fn header_bytes(
    value: tokio_tungstenite::tungstenite::http::HeaderValue,
) -> Seq<u8>;

/// The address of the request that `into_client_request` builds for a text, as
/// its `Uri` displays it, with the bytes of its host header; or the text of
/// the error.
pub uninterp spec fn client_target(url: Seq<char>) -> Result<(Seq<char>, Seq<u8>), Seq<char>>;

/// Whether this is the text of some sixteen bytes in Base64.
pub open spec fn is_handshake_key(text: Seq<u8>) -> bool {
    exists|key: Seq<u8>| key.len() == 16 && text == encode_utf8(#[trigger] base64_text(key))
}

/// The headers of a WebSocket handshake with `host`, and no others.
pub open spec fn is_handshake(headers: Map<Seq<char>, Seq<u8>>, host: Seq<u8>) -> bool {
    &&& headers.len() == 5
    &&& headers.contains_key("host"@)
    &&& headers["host"@] == host
    &&& headers.contains_key("connection"@)
    &&& headers["connection"@] == encode_utf8("Upgrade"@)
    &&& headers.contains_key("upgrade"@)
    &&& headers["upgrade"@] == encode_utf8("websocket"@)
    &&& headers.contains_key("sec-websocket-version"@)
    &&& headers["sec-websocket-version"@] == encode_utf8("13"@)
    &&& headers.contains_key("sec-websocket-key"@)
    &&& headers["sec-websocket-key"@].len() == 24
    &&& is_handshake_key(headers["sec-websocket-key"@])
}

/// `IntoClientRequest::into_client_request` of a string slice: a GET request
/// for the address that the text denotes, with the five headers of a WebSocket
/// handshake; the key among them is made of sixteen random bytes.
#[verifier::external_body]
fn client_request(url: &str) -> (res: Result<Request<()>, String>)
    ensures
        match res {
            Ok(request) => client_target(url@) matches Ok(target) && {
                &&& request_method(request) == "GET"@
                &&& request_address(request) == target.0
                &&& is_handshake(request_headers(request), target.1)
            },
            Err(e) => client_target(url@) == Err::<(Seq<char>, Seq<u8>), Seq<char>>(e@),
        },
{
    match url.into_client_request() {
        Ok(request) => Ok(request),
        Err(e) => Err(e.to_string()),
    }
}

/// Whether a text can be the value of a header: no control character but the
/// tab.
pub open spec fn header_text_ok(s: Seq<char>) -> bool {
    forall|i: int|
        0 <= i < encode_utf8(s).len() ==> {
            let b = #[trigger] encode_utf8(s)[i];
            b >= 32 && b != 127 || b == 9
        }
}

/// `HeaderValue::from_str`: a value of the bytes of the text, or the text of
/// its only error where one of them is a control character other than the tab.
#[verifier::external_body]
fn header_value(s: &str) -> (res: Result<HeaderValue, String>)
    ensures
        match res {
            Ok(value) => header_text_ok(s@) && header_bytes(value) == encode_utf8(s@),
            Err(e) => !header_text_ok(s@) && e@ == "failed to parse header value"@,
        },
{
    match HeaderValue::from_str(s) {
        Ok(value) => Ok(value),
        Err(e) => Err(e.to_string()),
    }
}

/// `HeaderMap::insert` under "Authorization": the value takes the place of any
/// that the header had. With some twenty thousand headers it panics.
#[verifier::external_body]
fn insert_authorization(request: &mut Request<()>, value: HeaderValue)
    requires
        request_headers(*old(request)).len() < 1000,
    ensures
        request_headers(*final(request)) == request_headers(*old(request)).insert(
            "authorization"@,
            header_bytes(value),
        ),
        request_address(*final(request)) == request_address(*old(request)),
        request_method(*final(request)) == request_method(*old(request)),
{
    request.headers_mut().insert("Authorization", value);
}

/// What the service is shown in place of a password.
pub open spec fn bearer(api_key: Seq<char>) -> Seq<char> {
    "Bearer "@ + api_key
}

/// Puts the key into a request. It fails on a key that no header can carry.
pub fn authorize(request: Request<()>, api_key: &str) -> (res: Result<Request<()>, TranscribeError>)
    requires
        request_headers(request).len() < 1000,
    ensures
        match res {
            Ok(r) => {
                &&& header_text_ok(bearer(api_key@))
                &&& request_method(r) == request_method(request)
                &&& request_address(r) == request_address(request)
                &&& request_headers(r) == request_headers(request).insert(
                    "authorization"@,
                    encode_utf8(bearer(api_key@)),
                )
            },
            Err(e) => {
                &&& !header_text_ok(bearer(api_key@))
                &&& e@ == ErrorView::InferenceFailed(
                    "OpenAI Realtime: invalid API key header value: "@
                        + "failed to parse header value"@,
                )
            },
        },
{
    let mut request = request;
    match header_value(text::joined("Bearer ", api_key).as_str()) {
        Ok(value) => {
            insert_authorization(&mut request, value);
            Ok(request)
        },
        Err(e) => Err(
            TranscribeError::InferenceFailed(
                text::joined("OpenAI Realtime: invalid API key header value: ", e.as_str()),
            ),
        ),
    }
}

impl OpenaiRealtimeTranscriber {
    /// The request that connects to the service: a WebSocket handshake with
    /// the engine's address that carries its key.
    pub fn connect_request(&self) -> (res: Result<Request<()>, TranscribeError>)
        ensures
            match client_target("wss://api.openai.com/v1/realtime?intent=transcription"@) {
                Ok(target) => match res {
                    Ok(r) => {
                        &&& header_text_ok(bearer(self.api_key@))
                        &&& request_method(r) == "GET"@
                        &&& request_address(r) == target.0
                        &&& exists|headers: Map<Seq<char>, Seq<u8>>| #[trigger]
                            is_handshake(headers, target.1) && request_headers(r)
                                == headers.insert(
                                "authorization"@,
                                encode_utf8(bearer(self.api_key@)),
                            )
                    },
                    Err(e) => {
                        &&& !header_text_ok(bearer(self.api_key@))
                        &&& e@ == ErrorView::InferenceFailed(
                            "OpenAI Realtime: invalid API key header value: "@
                                + "failed to parse header value"@,
                        )
                    },
                },
                Err(detail) => res matches Err(e) && e@ == ErrorView::InferenceFailed(
                    "OpenAI Realtime: failed to build connect request: "@ + detail,
                ),
            },
    {
        match client_request(self.ws_url().as_str()) {
            Ok(request) => authorize(request, self.api_key.as_str()),
            Err(e) => Err(
                TranscribeError::InferenceFailed(
                    text::joined("OpenAI Realtime: failed to build connect request: ", e.as_str()),
                ),
            ),
        }
    }
}

/// The key is shown as it is, after the name of the scheme.
pub proof fn law_bearer(api_key: Seq<char>)
    ensures
        bearer(api_key) == "Bearer "@ + api_key,
        bearer(api_key).skip(7) == api_key,
{
    reveal_strlit("Bearer ");
    assert(bearer(api_key).skip(7) =~= api_key);
}

} // verus!
