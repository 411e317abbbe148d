//! Requests into a device's tunnel and the answers out of it.
//!
//! Path, query, headers and body pass through as they are, but for the headers that only concern
//! one connection.
use axum::http::{HeaderName, HeaderValue, StatusCode, Uri};
use vstd::prelude::*;

use crate::codec;
use crate::error::{RelayError, RelayErrorView, RelayResult};
use crate::headers;
use crate::headers::{Header, HeaderView};
use crate::protocol;
use crate::protocol::{
    HeaderList, PeerEventKind, TunnelFrame, TunnelFrameView, HEADER_APP_INSTANCE_ID,
    HEADER_TARGET_APP_INSTANCE_ID,
};
use crate::text;

verus! {

/// The headers that concern one connection alone.
pub const HOP_BY_HOP: [&'static str; 10] = [
    "connection",
    "keep-alive",
    "proxy-authenticate",
    "proxy-authorization",
    "te",
    "trailers",
    "transfer-encoding",
    "upgrade",
    "host",
    "content-length",
];

/// What a request without a target is told.
pub const TARGET_MISSING: &'static str = "missing targetAppInstanceId (header or path)";

/// The status of an answer whose own status is none of HTTP's.
pub const BAD_GATEWAY: u16 = 502;

/// What parsing with `Uri::from_str` makes of a text: the path and the query, or the error in words.
pub uninterp spec fn uri_parts(uri: Seq<char>) -> Result<
    (Seq<char>, Option<Seq<char>>),
    Seq<char>,
>;

/// The longest name that a header can have.
pub const MAX_HEADER_NAME_LEN: usize = 65_535;

/// Whether the text is the name of a header.
pub open spec fn is_header_name(name: Seq<char>) -> bool {
    &&& 1 <= name.len() <= MAX_HEADER_NAME_LEN
    &&& forall|i: int| 0 <= i < name.len() ==> headers::is_token_char(#[trigger] name[i])
}

/// The name of a header in the form in which HTTP sends it, if the text is one: in lower case.
pub open spec fn canonical_name(name: Seq<char>) -> Option<Seq<char>> {
    if is_header_name(name) {
        Some(text::lower_text(name))
    } else {
        None
    }
}

/// What std's `Debug` makes of a text: the text in quotes, with escapes.
pub uninterp spec fn quoted(text: Seq<char>) -> Seq<char>;

/// The parts of a URI with their texts by their characters.
pub open spec fn parts_view(parts: Result<(String, Option<String>), String>) -> Result<
    (Seq<char>, Option<Seq<char>>),
    Seq<char>,
> {
    match parts {
        Ok(parts) => Ok((parts.0@, text::optional(parts.1))),
        Err(words) => Err(words@),
    }
}

/// `Uri::from_str`, and the path and the query of the URI by `Uri::path` and `Uri::query`.
#[verifier::external_body]
fn split_uri(uri: &str) -> (parts: Result<(String, Option<String>), String>)
    ensures
        parts_view(parts) == uri_parts(uri@),
{
    match uri.parse::<Uri>() {
        Ok(uri) => Ok((uri.path().to_owned(), uri.query().map(|query| query.to_owned()))),
        Err(error) => Err(error.to_string()),
    }
}

/// `HeaderName::from_bytes`: it takes any text of the characters that HTTP allows there, but not the
/// empty one and none that is longer than a name can be, and gives it in lower case.
#[verifier::external_body]
fn header_name(name: &str) -> (canonical: Option<String>)
    ensures
        text::optional(canonical) == canonical_name(name@),
{
    HeaderName::from_bytes(name.as_bytes()).ok().map(|name| name.as_str().to_owned())
}

/// Whether HTTP can send the text as the value of a header: no byte of it is a control character
/// but for the tab.
pub open spec fn is_header_value(value: Seq<char>) -> bool {
    forall|i: int|
        0 <= i < text::utf8(value).len() ==> {
            let byte = #[trigger] text::utf8(value)[i];
            byte >= 32 && byte != 127 || byte == 9
        }
}

/// `HeaderValue::from_str`: it takes a text without control characters but for the tab.
#[verifier::external_body]
fn can_be_header_value(value: &str) -> (valid: bool)
    ensures
        valid == is_header_value(value@),
{
    HeaderValue::from_str(value).is_ok()
}

/// `StatusCode::from_u16`: it takes the numbers of three digits.
#[verifier::external_body]
fn is_status(status: u16) -> (valid: bool)
    ensures
        valid == (100 <= status <= 999),
{
    StatusCode::from_u16(status).is_ok()
}

/// The text in quotes, with escapes, as std's `Debug` of `str` writes it.
#[verifier::external_body]
fn quote(text: &str) -> (quoted_text: String)
    ensures
        quoted_text@ == quoted(text@),
{
    format!("{:?}", text)
}

/// Whether the header concerns one connection alone.
pub open spec fn is_hop_by_hop(name: Seq<char>) -> bool {
    exists|i: int| 0 <= i < 10 && headers::same_name((#[trigger] HOP_BY_HOP@[i])@, name)
}

fn hop_by_hop(name: &str) -> (yes: bool)
    ensures
        yes == is_hop_by_hop(name@),
{
    let names = HOP_BY_HOP;
    let mut i: usize = 0;
    while i < 10
        invariant
            i <= 10,
            names == HOP_BY_HOP,
            forall|j: int| 0 <= j < i ==> !headers::same_name((#[trigger] names@[j])@, name@),
        decreases 10 - i,
    {
        if text::same_ignoring_case(names[i], name) {
            assert(headers::same_name(HOP_BY_HOP@[i as int]@, name@));
            return true;
        }
        i += 1;
    }
    false
}

/// The place of the name in the list, or the end of the list where it is not there.
pub open spec fn place_of(list: Seq<(Seq<char>, Seq<char>)>, name: Seq<char>) -> int
    decreases list.len(),
{
    if list.len() == 0 || list[0].0 == name {
        0
    } else {
        1 + place_of(list.drop_first(), name)
    }
}

/// The list with this value for the name, in place of the one that it had.
pub open spec fn with_header(
    list: Seq<(Seq<char>, Seq<char>)>,
    name: Seq<char>,
    value: Seq<char>,
) -> Seq<(Seq<char>, Seq<char>)> {
    if place_of(list, name) < list.len() {
        list.update(place_of(list, name), (name, value))
    } else {
        list.push((name, value))
    }
}

fn find(list: &HeaderList, name: &str) -> (place: usize)
    ensures
        place == place_of(protocol::header_list(list@), name@),
        place <= list@.len(),
{
    let ghost all = protocol::header_list(list@);
    let mut i: usize = 0;
    assert(all.skip(0) =~= all);
    while i < list.len()
        invariant
            i <= list@.len(),
            all == protocol::header_list(list@),
            place_of(all.skip(i as int), name@) + i == place_of(all, name@),
        decreases list@.len() - i,
    {
        if text::same_text(list[i].0.as_str(), name) {
            assert(all.skip(i as int)[0].0 == name@);
            return i;
        }
        assert(all.skip(i as int)[0].0 == list@[i as int].0@);
        assert(all.skip(i as int).drop_first() =~= all.skip(i + 1));
        i += 1;
    }
    i
}

fn set(list: &mut HeaderList, name: String, value: String)
    ensures
        protocol::header_list(final(list)@) == with_header(
            protocol::header_list(old(list)@),
            name@,
            value@,
        ),
{
    let ghost before = protocol::header_list(list@);
    let place = find(list, name.as_str());
    if place < list.len() {
        list[place] = (name, value);
    } else {
        list.push((name, value));
    }
    assert(protocol::header_list(list@) =~= with_header(before, name@, value@));
}

/// The headers of a request that are passed on: those with text that concern more than one
/// connection. Of several with one name the last counts.
pub open spec fn plain_headers(list: Seq<HeaderView>) -> Seq<(Seq<char>, Seq<char>)>
    decreases list.len(),
{
    if list.len() == 0 {
        Seq::empty()
    } else {
        let earlier = plain_headers(list.drop_last());
        match list.last().text {
            Some(value) if !is_hop_by_hop(list.last().name) => with_header(
                earlier,
                list.last().name,
                value,
            ),
            _ => earlier,
        }
    }
}

/// The headers of a request that are passed on.
pub fn header_map_to_plain(request: &[Header]) -> (plain: HeaderList)
    ensures
        protocol::header_list(plain@) == plain_headers(headers::views(request@)),
{
    let mut plain: HeaderList = Vec::new();
    let ghost all = headers::views(request@);
    let mut i: usize = 0;
    assert(all.take(0) =~= Seq::empty());
    assert(protocol::header_list(plain@) =~= Seq::empty());
    while i < request.len()
        invariant
            i <= request@.len(),
            all == headers::views(request@),
            protocol::header_list(plain@) == plain_headers(all.take(i as int)),
        decreases request@.len() - i,
    {
        if !hop_by_hop(request[i].name.as_str()) {
            if let Some(value) = &request[i].text {
                set(&mut plain, request[i].name.clone(), value.clone());
            }
        }
        i += 1;
        assert(all.take(i as int).drop_last() =~= all.take(i - 1));
        assert(all.take(i as int).last() == all[i - 1]);
    }
    assert(all.take(i as int) =~= all);
    plain
}

/// A request for a device as it is passed on.
#[derive(Debug)]
pub struct ProxyRequest {
    pub method: String,
    pub path: String,
    pub headers: HeaderList,
    pub body_b64: Option<String>,
}

/// A [`ProxyRequest`] with its texts by their characters.
#[verifier::ext_equal]
pub struct ProxyRequestView {
    pub method: Seq<char>,
    pub path: Seq<char>,
    pub headers: Seq<(Seq<char>, Seq<char>)>,
    pub body_b64: Option<Seq<char>>,
}

impl View for ProxyRequest {
    type V = ProxyRequestView;

    open spec fn view(&self) -> ProxyRequestView {
        ProxyRequestView {
            method: self.method@,
            path: self.path@,
            headers: protocol::header_list(self.headers@),
            body_b64: text::optional(self.body_b64),
        }
    }
}

/// The list with the name of the target in it.
pub open spec fn with_target(
    list: Seq<(Seq<char>, Seq<char>)>,
    target: Seq<char>,
) -> Seq<(Seq<char>, Seq<char>)> {
    if place_of(list, HEADER_TARGET_APP_INSTANCE_ID@) < list.len() {
        list
    } else {
        list.push((HEADER_TARGET_APP_INSTANCE_ID@, target))
    }
}

/// The body as it is passed on: in Base64, and none where it is empty.
pub open spec fn body_text(body: Seq<u8>) -> Option<Seq<char>> {
    if body.len() == 0 {
        None
    } else {
        Some(codec::base64_encoded(body))
    }
}

/// A request as it is passed on to the target, given what the path and the query parse to.
pub open spec fn request_of(
    parts: Result<(Seq<char>, Option<Seq<char>>), Seq<char>>,
    target: Seq<char>,
    method: Seq<char>,
    request: Seq<HeaderView>,
    body: Seq<u8>,
) -> Result<ProxyRequestView, RelayErrorView> {
    match parts {
        Err(words) => Err(RelayErrorView::Internal(words)),
        Ok((path, query)) => Ok(
            ProxyRequestView {
                method,
                path: match query {
                    Some(query) => path + "?"@ + query,
                    None => path,
                },
                headers: with_target(plain_headers(request), target),
                body_b64: body_text(body),
            },
        ),
    }
}

/// A result with its texts by their characters.
pub open spec fn request_result(result: RelayResult<ProxyRequest>) -> Result<
    ProxyRequestView,
    RelayErrorView,
> {
    match result {
        Ok(request) => Ok(request@),
        Err(error) => Err(error@),
    }
}

/// Whether the text that is passed on is that of the body: decoding it gives the body again.
pub open spec fn carries_body(encoded: Option<Seq<char>>, body: Seq<u8>) -> bool {
    match encoded {
        Some(encoded) => codec::base64_decoded(encoded) == Ok::<Seq<u8>, Seq<char>>(body),
        None => body.len() == 0,
    }
}

pub(crate) fn body_b64(body: &[u8]) -> (encoded: Option<String>)
    ensures
        text::optional(encoded) == body_text(body@),
        carries_body(text::optional(encoded), body@),
{
    if body.len() == 0 {
        None
    } else {
        Some(codec::base64_encode(body))
    }
}

/// A request as it is passed on to the target, given what the path and the query parse to.
pub fn request_from(
    parts: Result<(String, Option<String>), String>,
    target: &str,
    method: &str,
    request: &[Header],
    body: &[u8],
) -> (result: RelayResult<ProxyRequest>)
    ensures
        request_result(result) == request_of(
            parts_view(parts),
            target@,
            method@,
            headers::views(request@),
            body@,
        ),
        result matches Ok(request) ==> carries_body(request@.body_b64, body@),
{
    match parts {
        Err(words) => Err(RelayError::Internal(words)),
        Ok((path, query)) => {
            let mut path = path;
            if let Some(query) = query {
                path.append("?");
                path.append(query.as_str());
            }
            let mut plain = header_map_to_plain(request);
            if find(&plain, HEADER_TARGET_APP_INSTANCE_ID) == plain.len() {
                let ghost before = protocol::header_list(plain@);
                plain.push((HEADER_TARGET_APP_INSTANCE_ID.to_owned(), target.to_owned()));
                assert(protocol::header_list(plain@) =~= before.push(
                    (HEADER_TARGET_APP_INSTANCE_ID@, target@),
                ));
            }
            Ok(
                ProxyRequest {
                    method: method.to_owned(),
                    path,
                    headers: plain,
                    body_b64: body_b64(body),
                },
            )
        },
    }
}

/// A request for that path and query as it is passed on to the target.
pub fn build_request(
    target: &str,
    method: &str,
    path: &str,
    request: &[Header],
    body: &[u8],
) -> (result: RelayResult<ProxyRequest>)
    ensures
        request_result(result) == request_of(
            uri_parts(path@),
            target@,
            method@,
            headers::views(request@),
            body@,
        ),
        result matches Ok(request) ==> carries_body(request@.body_b64, body@),
{
    request_from(split_uri(path), target, method, request, body)
}

/// An answer of a device as it is passed on.
#[derive(Debug)]
pub struct ProxyResponse {
    pub status: u16,
    pub headers: HeaderList,
    pub body: Vec<u8>,
}

/// A [`ProxyResponse`] with its texts by their characters.
#[verifier::ext_equal]
pub struct ProxyResponseView {
    pub status: u16,
    pub headers: Seq<(Seq<char>, Seq<char>)>,
    pub body: Seq<u8>,
}

impl View for ProxyResponse {
    type V = ProxyResponseView;

    open spec fn view(&self) -> ProxyResponseView {
        ProxyResponseView {
            status: self.status,
            headers: protocol::header_list(self.headers@),
            body: self.body@,
        }
    }
}

/// The headers of an answer that are passed on: those that HTTP can send and that concern more than
/// one connection. Of several with one name the last counts.
pub open spec fn answer_headers(list: Seq<(Seq<char>, Seq<char>)>) -> Seq<(Seq<char>, Seq<char>)>
    decreases list.len(),
{
    if list.len() == 0 {
        Seq::empty()
    } else {
        let earlier = answer_headers(list.drop_last());
        let (name, value) = list.last();
        match canonical_name(name) {
            Some(canonical) if !is_hop_by_hop(name) && is_header_value(value) => with_header(
                earlier,
                canonical,
                value,
            ),
            _ => earlier,
        }
    }
}

fn passed_headers(list: &HeaderList) -> (passed: HeaderList)
    ensures
        protocol::header_list(passed@) == answer_headers(protocol::header_list(list@)),
{
    let mut passed: HeaderList = Vec::new();
    let ghost all = protocol::header_list(list@);
    let mut i: usize = 0;
    assert(all.take(0) =~= Seq::empty());
    assert(protocol::header_list(passed@) =~= Seq::empty());
    while i < list.len()
        invariant
            i <= list@.len(),
            all == protocol::header_list(list@),
            protocol::header_list(passed@) == answer_headers(all.take(i as int)),
        decreases list@.len() - i,
    {
        let name = list[i].0.as_str();
        let value = list[i].1.as_str();
        if !hop_by_hop(name) {
            if let Some(canonical) = header_name(name) {
                if can_be_header_value(value) {
                    set(&mut passed, canonical, value.to_owned());
                }
            }
        }
        i += 1;
        assert(all.take(i as int).drop_last() =~= all.take(i - 1));
        assert(all.take(i as int).last() == all[i - 1]);
    }
    assert(all.take(i as int) =~= all);
    passed
}

/// A text that may be missing, as std's `Debug` writes it.
pub open spec fn quoted_option(text: Option<Seq<char>>) -> Seq<char> {
    match text {
        Some(text) => "Some("@ + quoted(text) + ")"@,
        None => "None"@,
    }
}

/// Headers as std's `Debug` writes a map of texts, without the braces.
pub open spec fn quoted_headers(list: Seq<(Seq<char>, Seq<char>)>) -> Seq<char>
    decreases list.len(),
{
    if list.len() == 0 {
        Seq::empty()
    } else {
        let earlier = quoted_headers(list.drop_last());
        let entry = quoted(list.last().0) + ": "@ + quoted(list.last().1);
        if list.len() == 1 {
            entry
        } else {
            earlier + ", "@ + entry
        }
    }
}

/// A frame that answers no request, as std's `Debug` writes it.
pub open spec fn frame_words(frame: TunnelFrameView) -> Seq<char> {
    match frame {
        TunnelFrameView::Hello { app_instance_id, device_name, app_version, sync_info_b64 } => {
            "Hello { app_instance_id: "@ + quoted(app_instance_id) + ", device_name: "@
                + quoted_option(device_name) + ", app_version: "@ + quoted_option(app_version)
                + ", sync_info_b64: "@ + quoted_option(sync_info_b64) + " }"@
        },
        TunnelFrameView::HelloAck { session_id, relay_version } => {
            "HelloAck { session_id: "@ + quoted(session_id) + ", relay_version: "@ + quoted(
                relay_version,
            ) + " }"@
        },
        TunnelFrameView::Ping { ts } => "Ping { ts: "@ + text::decimal(ts as int) + " }"@,
        TunnelFrameView::Pong { ts } => "Pong { ts: "@ + text::decimal(ts as int) + " }"@,
        TunnelFrameView::HttpRequest { request_id, method, path, headers, body_b64 } => {
            "HttpRequest { request_id: "@ + quoted(request_id) + ", method: "@ + quoted(method)
                + ", path: "@ + quoted(path) + ", headers: {"@ + quoted_headers(headers)
                + "}, body_b64: "@ + quoted_option(body_b64) + " }"@
        },
        TunnelFrameView::PeerEvent { event, app_instance_id } => {
            "PeerEvent { event: "@ + match event {
                PeerEventKind::Online => "Online"@,
                PeerEventKind::Offline => "Offline"@,
            } + ", app_instance_id: "@ + quoted(app_instance_id) + " }"@
        },
        _ => Seq::empty(),
    }
}

fn quote_option(text: &Option<String>) -> (words: String)
    ensures
        words@ == quoted_option(text::optional(*text)),
{
    match text {
        Some(text) => "Some(".to_owned().concat(quote(text.as_str()).as_str()).concat(")"),
        None => "None".to_owned(),
    }
}

fn quote_headers(list: &HeaderList) -> (words: String)
    ensures
        words@ == quoted_headers(protocol::header_list(list@)),
{
    let mut words = String::new();
    let ghost all = protocol::header_list(list@);
    let mut i: usize = 0;
    assert(all.take(0) =~= Seq::empty());
    assert(words@ =~= Seq::empty());
    while i < list.len()
        invariant
            i <= list@.len(),
            all == protocol::header_list(list@),
            words@ == quoted_headers(all.take(i as int)),
        decreases list@.len() - i,
    {
        let entry = quote(list[i].0.as_str()).concat(": ").concat(
            quote(list[i].1.as_str()).as_str(),
        );
        let ghost before = words@;
        if i > 0 {
            words.append(", ");
        }
        words.append(entry.as_str());
        i += 1;
        assert(all.take(i as int).drop_last() =~= all.take(i - 1));
        assert(all.take(i as int).last() == all[i - 1]);
        assert(words@ =~= quoted_headers(all.take(i as int)));
    }
    assert(all.take(i as int) =~= all);
    words
}

fn describe(frame: &TunnelFrame) -> (words: String)
    requires
        !(frame is HttpResponse) && !(frame is Error),
    ensures
        words@ == frame_words(frame@),
{
    match frame {
        TunnelFrame::Hello { app_instance_id, device_name, app_version, sync_info_b64 } => {
            "Hello { app_instance_id: ".to_owned().concat(
                quote(app_instance_id.as_str()).as_str(),
            ).concat(", device_name: ").concat(quote_option(device_name).as_str()).concat(
                ", app_version: ",
            ).concat(quote_option(app_version).as_str()).concat(", sync_info_b64: ").concat(
                quote_option(sync_info_b64).as_str(),
            ).concat(" }")
        },
        TunnelFrame::HelloAck { session_id, relay_version } => {
            "HelloAck { session_id: ".to_owned().concat(quote(session_id.as_str()).as_str()).concat(
                ", relay_version: ",
            ).concat(quote(relay_version.as_str()).as_str()).concat(" }")
        },
        TunnelFrame::Ping { ts } => {
            "Ping { ts: ".to_owned().concat(text::signed_text(*ts).as_str()).concat(" }")
        },
        TunnelFrame::Pong { ts } => {
            "Pong { ts: ".to_owned().concat(text::signed_text(*ts).as_str()).concat(" }")
        },
        TunnelFrame::HttpRequest { request_id, method, path, headers, body_b64 } => {
            "HttpRequest { request_id: ".to_owned().concat(
                quote(request_id.as_str()).as_str(),
            ).concat(", method: ").concat(quote(method.as_str()).as_str()).concat(
                ", path: ",
            ).concat(quote(path.as_str()).as_str()).concat(", headers: {").concat(
                quote_headers(headers).as_str(),
            ).concat("}, body_b64: ").concat(quote_option(body_b64).as_str()).concat(" }")
        },
        TunnelFrame::PeerEvent { event, app_instance_id } => {
            let event = match event {
                PeerEventKind::Online => "Online",
                PeerEventKind::Offline => "Offline",
            };
            "PeerEvent { event: ".to_owned().concat(event).concat(", app_instance_id: ").concat(
                quote(app_instance_id.as_str()).as_str(),
            ).concat(" }")
        },
        _ => String::new(),
    }
}

/// What is passed on of what came out of the tunnel for a request.
pub open spec fn response_of(frame: TunnelFrameView) -> Result<ProxyResponseView, RelayErrorView> {
    match frame {
        TunnelFrameView::HttpResponse { status, headers, body_b64, error, .. } => match error {
            Some(words) => Err(RelayErrorView::Internal(words)),
            None => {
                let body = match body_b64 {
                    Some(body) => codec::base64_decoded(body),
                    None => Ok(Seq::empty()),
                };
                match body {
                    Err(words) => Err(RelayErrorView::Internal("bad body b64: "@ + words)),
                    Ok(body) => Ok(
                        ProxyResponseView {
                            status: if 100 <= status <= 999 {
                                status
                            } else {
                                BAD_GATEWAY
                            },
                            headers: answer_headers(headers),
                            body,
                        },
                    ),
                }
            },
        },
        TunnelFrameView::Error { message } => Err(RelayErrorView::Internal(message)),
        other => Err(
            RelayErrorView::Internal("unexpected tunnel frame: "@ + frame_words(other)),
        ),
    }
}

/// A result with its texts by their characters.
pub open spec fn response_result(result: RelayResult<ProxyResponse>) -> Result<
    ProxyResponseView,
    RelayErrorView,
> {
    match result {
        Ok(response) => Ok(response@),
        Err(error) => Err(error@),
    }
}

/// What is passed on of what came out of the tunnel for a request.
pub fn build_response(frame: TunnelFrame) -> (result: RelayResult<ProxyResponse>)
    ensures
        response_result(result) == response_of(frame@),
{
    match frame {
        TunnelFrame::HttpResponse { status, headers, body_b64, error, .. } => {
            if let Some(words) = error {
                return Err(RelayError::Internal(words));
            }
            let status = if is_status(status) {
                status
            } else {
                BAD_GATEWAY
            };
            let body = match body_b64 {
                Some(body) => match codec::base64_decode(body.as_str()) {
                    Ok(body) => body,
                    Err(words) => {
                        return Err(
                            RelayError::Internal(
                                "bad body b64: ".to_owned().concat(words.as_str()),
                            ),
                        );
                    },
                },
                None => Vec::new(),
            };
            Ok(ProxyResponse { status, headers: passed_headers(&headers), body })
        },
        TunnelFrame::Error { message } => Err(RelayError::Internal(message)),
        other => {
            let words = describe(&other);
            Err(
                RelayError::Internal(
                    "unexpected tunnel frame: ".to_owned().concat(words.as_str()),
                ),
            )
        },
    }
}

/// What a request is told whose body could not be read.
pub fn unreadable_body(words: &str) -> (error: RelayError)
    ensures
        error@ == RelayErrorView::BadRequest("read body: "@ + words@),
{
    RelayError::BadRequest("read body: ".to_owned().concat(words))
}

/// The device that a request is for: the one in the path, or else the one that the headers name.
pub open spec fn target_of(request: Seq<HeaderView>, path_target: Option<Seq<char>>) -> Option<
    Seq<char>,
> {
    match path_target {
        Some(target) if target.len() > 0 => Some(target),
        _ => headers::text_of(request, HEADER_TARGET_APP_INSTANCE_ID@),
    }
}

/// The device that a request is for.
pub fn resolve_target(request: &[Header], path_target: Option<&str>) -> (target: RelayResult<
    String,
>)
    ensures
        match target {
            Ok(target) => target_of(headers::views(request@), text::optional_str(path_target))
                == Some(target@),
            Err(error) => {
                &&& target_of(headers::views(request@), text::optional_str(path_target)) is None
                &&& error@ == RelayErrorView::BadRequest(TARGET_MISSING@)
            },
        },
{
    if let Some(target) = path_target {
        if !target.is_empty() {
            return Ok(target.to_owned());
        }
    }
    match headers::value(request, HEADER_TARGET_APP_INSTANCE_ID) {
        Some(target) => Ok(target.to_owned()),
        None => Err(RelayError::BadRequest(TARGET_MISSING.to_owned())),
    }
}

/// The device that a request comes from.
pub fn require_source_app_instance(request: &[Header]) -> (source: RelayResult<String>)
    ensures
        match source {
            Ok(source) => headers::text_of(headers::views(request@), HEADER_APP_INSTANCE_ID@)
                == Some(source@),
            Err(error) => {
                &&& headers::text_of(headers::views(request@), HEADER_APP_INSTANCE_ID@) is None
                &&& error@ == RelayErrorView::MissingAppInstanceId
            },
        },
{
    match headers::value(request, HEADER_APP_INSTANCE_ID) {
        Some(source) => Ok(source.to_owned()),
        None => Err(RelayError::MissingAppInstanceId),
    }
}

proof fn lemma_place(list: Seq<(Seq<char>, Seq<char>)>, name: Seq<char>)
    ensures
        0 <= place_of(list, name) <= list.len(),
        place_of(list, name) < list.len() ==> list[place_of(list, name)].0 == name,
        forall|i: int| 0 <= i < place_of(list, name) ==> (#[trigger] list[i]).0 != name,
    decreases list.len(),
{
    if list.len() > 0 && list[0].0 != name {
        let rest = list.drop_first();
        lemma_place(rest, name);
        assert forall|i: int| 0 <= i < place_of(list, name) implies (#[trigger] list[i]).0
            != name by {
            if i > 0 {
                assert(rest[i - 1] == list[i]);
            }
        }
    }
}

/// A device's answer comes out as it went in: the status and the body are the device's own, and so
/// are the headers but for those that belong to the connection.
pub proof fn law_answer_comes_out(
    request_id: Seq<char>,
    status: u16,
    headers: Seq<(Seq<char>, Seq<char>)>,
    body_b64: Option<Seq<char>>,
    body: Seq<u8>,
)
    requires
        100 <= status <= 999,
        carries_body(body_b64, body),
    ensures
        response_of(
            TunnelFrameView::HttpResponse { request_id, status, headers, body_b64, error: None },
        ) == Ok::<ProxyResponseView, RelayErrorView>(
            ProxyResponseView { status, headers: answer_headers(headers), body },
        ),
{
    if body_b64 is None {
        assert(body =~= Seq::empty());
    }
}

/// Every header that is passed on to a device is one of the request's, with its text, and concerns
/// more than one connection; no name is passed on twice.
pub proof fn law_passed_headers(request: Seq<HeaderView>)
    ensures
        forall|i: int|
            0 <= i < plain_headers(request).len() ==> {
                let (name, value) = #[trigger] plain_headers(request)[i];
                &&& !is_hop_by_hop(name)
                &&& request.contains(HeaderView { name, text: Some(value) })
            },
        forall|i: int, j: int|
            0 <= i < j < plain_headers(request).len() ==> plain_headers(request)[i].0
                != plain_headers(request)[j].0,
    decreases request.len(),
{
    if request.len() > 0 {
        let rest = request.drop_last();
        let earlier = plain_headers(rest);
        let all = plain_headers(request);
        law_passed_headers(rest);
        lemma_place(earlier, request.last().name);
        assert forall|i: int| 0 <= i < all.len() implies {
            let (name, value) = #[trigger] all[i];
            &&& !is_hop_by_hop(name)
            &&& request.contains(HeaderView { name, text: Some(value) })
        } by {
            let (name, value) = all[i];
            let header = HeaderView { name, text: Some(value) };
            if i < earlier.len() && all[i] == earlier[i] {
                assert(rest.contains(header));
                let k = choose|k: int| 0 <= k < rest.len() && rest[k] == header;
                assert(request[k] == header);
            } else {
                assert(request[request.len() - 1] == header);
            }
        }
    }
}

/// The headers that concern one connection alone are these ten, in whatever case they are written.
pub proof fn law_hop_by_hop(name: Seq<char>)
    ensures
        is_hop_by_hop(name) <==> {
            let low = text::lower_text(name);
            ||| low == "connection"@
            ||| low == "keep-alive"@
            ||| low == "proxy-authenticate"@
            ||| low == "proxy-authorization"@
            ||| low == "te"@
            ||| low == "trailers"@
            ||| low == "transfer-encoding"@
            ||| low == "upgrade"@
            ||| low == "host"@
            ||| low == "content-length"@
        },
{
    reveal_strlit("connection");
    reveal_strlit("keep-alive");
    reveal_strlit("proxy-authenticate");
    reveal_strlit("proxy-authorization");
    reveal_strlit("te");
    reveal_strlit("trailers");
    reveal_strlit("transfer-encoding");
    reveal_strlit("upgrade");
    reveal_strlit("host");
    reveal_strlit("content-length");
    assert(text::lower_text("connection"@) =~= "connection"@);
    assert(text::lower_text("keep-alive"@) =~= "keep-alive"@);
    assert(text::lower_text("proxy-authenticate"@) =~= "proxy-authenticate"@);
    assert(text::lower_text("proxy-authorization"@) =~= "proxy-authorization"@);
    assert(text::lower_text("te"@) =~= "te"@);
    assert(text::lower_text("trailers"@) =~= "trailers"@);
    assert(text::lower_text("transfer-encoding"@) =~= "transfer-encoding"@);
    assert(text::lower_text("upgrade"@) =~= "upgrade"@);
    assert(text::lower_text("host"@) =~= "host"@);
    assert(text::lower_text("content-length"@) =~= "content-length"@);
    assert(HOP_BY_HOP@[0]@ == "connection"@);
    assert(HOP_BY_HOP@[1]@ == "keep-alive"@);
    assert(HOP_BY_HOP@[2]@ == "proxy-authenticate"@);
    assert(HOP_BY_HOP@[3]@ == "proxy-authorization"@);
    assert(HOP_BY_HOP@[4]@ == "te"@);
    assert(HOP_BY_HOP@[5]@ == "trailers"@);
    assert(HOP_BY_HOP@[6]@ == "transfer-encoding"@);
    assert(HOP_BY_HOP@[7]@ == "upgrade"@);
    assert(HOP_BY_HOP@[8]@ == "host"@);
    assert(HOP_BY_HOP@[9]@ == "content-length"@);
}

proof fn lemma_with_header(
    list: Seq<(Seq<char>, Seq<char>)>,
    name: Seq<char>,
    value: Seq<char>,
    other: (Seq<char>, Seq<char>),
)
    ensures
        with_header(list, name, value).contains((name, value)),
        other.0 != name ==> (with_header(list, name, value).contains(other) <==> list.contains(
            other,
        )),
{
    let all = with_header(list, name, value);
    lemma_place(list, name);
    let place = place_of(list, name);
    assert(all[place] == (name, value));
    if other.0 != name {
        if list.contains(other) {
            let i = choose|i: int| 0 <= i < list.len() && list[i] == other;
            assert(all[i] == other);
        }
        if all.contains(other) {
            let i = choose|i: int| 0 <= i < all.len() && all[i] == other;
            assert(list[i] == other);
        }
    }
}

/// No header is lost on the way to a device: every header of the request that has text and concerns
/// more than one connection is passed on under its name, with the text of the last of that name.
pub proof fn law_no_header_is_lost(request: Seq<HeaderView>, place: int)
    requires
        0 <= place < request.len(),
        request[place].text is Some,
        !is_hop_by_hop(request[place].name),
        forall|i: int|
            place < i < request.len() ==> (#[trigger] request[i]).name != request[place].name
                || request[i].text is None,
    ensures
        plain_headers(request).contains((request[place].name, request[place].text->0)),
    decreases request.len(),
{
    let rest = request.drop_last();
    let last = request.len() - 1;
    let wanted = (request[place].name, request[place].text->0);
    if place == last {
        lemma_with_header(plain_headers(rest), wanted.0, wanted.1, wanted);
    } else {
        assert forall|i: int| place < i < rest.len() implies (#[trigger] rest[i]).name
            != rest[place].name || rest[i].text is None by {
            assert(request[i].name != request[place].name || request[i].text is None);
        }
        law_no_header_is_lost(rest, place);
        assert(request[last].name != request[place].name || request[last].text is None);
        if let Some(value) = request[last].text {
            lemma_with_header(plain_headers(rest), request[last].name, value, wanted);
        }
    }
}

/// A request goes to its device with all its headers; the device's name is among them, as the
/// request gave it or else as the target.
pub proof fn law_with_target(
    list: Seq<(Seq<char>, Seq<char>)>,
    target: Seq<char>,
    header: (Seq<char>, Seq<char>),
)
    ensures
        list.contains(header) ==> with_target(list, target).contains(header),
        with_target(list, target).contains(header) ==> list.contains(header) || header == (
            "targetAppInstanceId"@,
            target,
        ),
        (forall|i: int| 0 <= i < list.len() ==> (#[trigger] list[i]).0 != "targetAppInstanceId"@)
            ==> with_target(list, target).contains(("targetAppInstanceId"@, target)),
        (exists|i: int| 0 <= i < list.len() && (#[trigger] list[i]).0 == "targetAppInstanceId"@)
            ==> with_target(list, target) == list,
{
    let all = with_target(list, target);
    lemma_place(list, "targetAppInstanceId"@);
    if list.contains(header) {
        let i = choose|i: int| 0 <= i < list.len() && list[i] == header;
        assert(all[i] == header);
    }
    if all.contains(header) {
        let i = choose|i: int| 0 <= i < all.len() && all[i] == header;
        if i < list.len() {
            assert(list[i] == header);
        }
    }
    if all.len() > list.len() {
        assert(all[list.len() as int] == ("targetAppInstanceId"@, target));
    }
}

/// A request goes to its device with its own method, its own path and query, its headers and its
/// body.
pub proof fn law_request_goes_through(
    path: Seq<char>,
    query: Option<Seq<char>>,
    target: Seq<char>,
    method: Seq<char>,
    request: Seq<HeaderView>,
    body: Seq<u8>,
    words: Seq<char>,
)
    ensures
        request_of(Err(words), target, method, request, body) == Err::<
            ProxyRequestView,
            RelayErrorView,
        >(RelayErrorView::Internal(words)),
        request_of(Ok((path, query)), target, method, request, body) is Ok,
        ({
            let passed = request_of(Ok((path, query)), target, method, request, body)->Ok_0;
            &&& passed.method == method
            &&& query is None ==> passed.path == path
            &&& query matches Some(query) ==> {
                &&& passed.path.len() == path.len() + 1 + query.len()
                &&& passed.path.take(path.len() as int) == path
                &&& passed.path[path.len() as int] == '?'
                &&& passed.path.skip(path.len() as int + 1) == query
            }
            &&& passed.headers == with_target(plain_headers(request), target)
            &&& passed.body_b64 is None <==> body.len() == 0
            &&& passed.body_b64 matches Some(encoded) ==> encoded == codec::base64_encoded(body)
        }),
{
    reveal_strlit("?");
    let passed = request_of(Ok((path, query)), target, method, request, body)->Ok_0;
    if let Some(query) = query {
        assert(passed.path.take(path.len() as int) =~= path);
        assert(passed.path.skip(path.len() as int + 1) =~= query);
    }
}

/// Every header that is passed on of an answer is one of the answer's, under its name in lower case,
/// and none is passed on twice.
pub proof fn law_answer_headers(list: Seq<(Seq<char>, Seq<char>)>)
    ensures
        forall|i: int|
            0 <= i < answer_headers(list).len() ==> exists|j: int|
                0 <= j < list.len() && !is_hop_by_hop((#[trigger] list[j]).0) && is_header_name(
                    list[j].0,
                ) && is_header_value(list[j].1) && text::lower_text(list[j].0) == (
                #[trigger] answer_headers(list)[i]).0 && list[j].1 == answer_headers(list)[i].1,
        forall|i: int, j: int|
            0 <= i < j < answer_headers(list).len() ==> answer_headers(list)[i].0
                != answer_headers(list)[j].0,
    decreases list.len(),
{
    if list.len() > 0 {
        let rest = list.drop_last();
        let last = list.len() - 1;
        let earlier = answer_headers(rest);
        let all = answer_headers(list);
        law_answer_headers(rest);
        lemma_place(earlier, text::lower_text(list.last().0));
        assert forall|i: int| 0 <= i < all.len() implies exists|j: int|
            0 <= j < list.len() && !is_hop_by_hop((#[trigger] list[j]).0) && is_header_name(
                list[j].0,
            ) && is_header_value(list[j].1) && text::lower_text(list[j].0) == (#[trigger] all[i]).0
                && list[j].1 == all[i].1 by {
            if i < earlier.len() && all[i] == earlier[i] {
                let j = choose|j: int|
                    0 <= j < rest.len() && !is_hop_by_hop((#[trigger] rest[j]).0)
                        && is_header_name(rest[j].0) && is_header_value(rest[j].1)
                        && text::lower_text(rest[j].0) == earlier[i].0 && rest[j].1
                        == earlier[i].1;
                assert(list[j] == rest[j]);
            } else {
                assert(!is_hop_by_hop(list[last].0));
            }
        }
    }
}

/// No header of an answer is lost that HTTP can send and that concerns more than one connection: it
/// is passed on under its name in lower case, with the text of the last of that name.
pub proof fn law_no_answer_header_is_lost(list: Seq<(Seq<char>, Seq<char>)>, place: int)
    requires
        0 <= place < list.len(),
        is_header_name(list[place].0),
        is_header_value(list[place].1),
        !is_hop_by_hop(list[place].0),
        forall|i: int|
            place < i < list.len() ==> text::lower_text((#[trigger] list[i]).0)
                != text::lower_text(list[place].0) || !is_header_value(list[i].1),
    ensures
        answer_headers(list).contains((text::lower_text(list[place].0), list[place].1)),
    decreases list.len(),
{
    let rest = list.drop_last();
    let last = list.len() - 1;
    let wanted = (text::lower_text(list[place].0), list[place].1);
    let name = text::lower_text(list[last].0);
    if place == last {
        lemma_with_header(answer_headers(rest), wanted.0, wanted.1, wanted);
    } else {
        assert forall|i: int| place < i < rest.len() implies text::lower_text(
            (#[trigger] rest[i]).0,
        ) != text::lower_text(rest[place].0) || !is_header_value(rest[i].1) by {
            assert(text::lower_text(list[i].0) != text::lower_text(list[place].0)
                || !is_header_value(list[i].1));
        }
        law_no_answer_header_is_lost(rest, place);
        assert(name != wanted.0 || !is_header_value(list[last].1));
        lemma_with_header(answer_headers(rest), name, list[last].1, wanted);
    }
}

/// What comes out of the tunnel in place of an answer is passed on as an error with its words; an
/// answer whose status is none of HTTP's, as one from a bad gateway.
pub proof fn law_no_answer(
    request_id: Seq<char>,
    status: u16,
    headers: Seq<(Seq<char>, Seq<char>)>,
    body_b64: Option<Seq<char>>,
    words: Seq<char>,
)
    ensures
        response_of(
            TunnelFrameView::HttpResponse {
                request_id,
                status,
                headers,
                body_b64,
                error: Some(words),
            },
        ) == Err::<ProxyResponseView, RelayErrorView>(RelayErrorView::Internal(words)),
        response_of(TunnelFrameView::Error { message: words }) == Err::<
            ProxyResponseView,
            RelayErrorView,
        >(RelayErrorView::Internal(words)),
        response_of(
            TunnelFrameView::HttpResponse { request_id, status, headers, body_b64, error: None },
        ) matches Ok(passed) ==> {
            &&& status < 100 || status > 999 ==> passed.status == 502
            &&& 100 <= status <= 999 ==> passed.status == status
            &&& passed.headers == answer_headers(headers)
            &&& carries_body(body_b64, passed.body)
        },
        response_of(
            TunnelFrameView::HttpResponse { request_id, status, headers, body_b64, error: None },
        ) is Err <==> body_b64 is Some && codec::base64_decoded(body_b64->0) is Err,
{
}

/// A request goes to the device that the path names, or else to the one that the first header of
/// that name gives; it has no target where neither does.
pub proof fn law_target_of(request: Seq<HeaderView>, path_target: Option<Seq<char>>)
    ensures
        path_target matches Some(target) && target.len() > 0 ==> target_of(request, path_target)
            == path_target,
        path_target is None || path_target->0.len() == 0 ==> target_of(request, path_target)
            == headers::text_of(request, "targetAppInstanceId"@),
{
}

/// What is passed on is told as it is, and a refusal as what it is.
pub proof fn law_result_views(
    request: ProxyRequest,
    response: ProxyResponse,
    error: RelayError,
    path: String,
    query: Option<String>,
    words: String,
)
    ensures
        request_result(Ok(request)) is Ok,
        request_result(Ok(request))->Ok_0 == request@,
        request_result(Err(error)) is Err,
        request_result(Err(error))->Err_0 == error@,
        response_result(Ok(response)) is Ok,
        response_result(Ok(response))->Ok_0 == response@,
        response_result(Err(error)) is Err,
        response_result(Err(error))->Err_0 == error@,
        parts_view(Ok((path, query))) is Ok,
        parts_view(Ok((path, query)))->Ok_0.0 == path@,
        parts_view(Ok((path, query)))->Ok_0.1 == text::optional(query),
        parts_view(Err(words)) is Err,
        parts_view(Err(words))->Err_0 == words@,
{
}

/// Headers in quotes stand one after the other, each with a colon between its name and its text, and
/// with a comma between each two.
pub proof fn law_quoted_headers(
    list: Seq<(Seq<char>, Seq<char>)>,
    header: (Seq<char>, Seq<char>),
)
    ensures
        quoted_headers(seq![header]) == quoted(header.0) + ": "@ + quoted(header.1),
        list.len() > 0 ==> quoted_headers(list.push(header)) == quoted_headers(list) + ", "@
            + quoted_headers(seq![header]),
        quoted_option(None) == "None"@,
        quoted_option(Some(header.0)) == "Some("@ + quoted(header.0) + ")"@,
{
    assert(list.push(header).drop_last() =~= list);
    assert(seq![header].last() == header);
}

/// A refusal for what came out of the tunnel says what it was: a body that is not Base64, with why it
/// is not, or a frame that answers no request, with the frame in words.
pub proof fn law_refusal_words(
    request_id: Seq<char>,
    status: u16,
    headers: Seq<(Seq<char>, Seq<char>)>,
    body: Seq<char>,
    frame: TunnelFrameView,
    ts: i64,
)
    ensures
        codec::base64_decoded(body) matches Err(reason) ==> {
            &&& response_of(
                TunnelFrameView::HttpResponse {
                    request_id,
                    status,
                    headers,
                    body_b64: Some(body),
                    error: None,
                },
            ) matches Err(RelayErrorView::Internal(words))
            &&& words.take(14) == "bad body b64: "@
            &&& words.skip(14) == reason
        },
        !(frame is HttpResponse) && !(frame is Error) ==> {
            &&& response_of(frame) matches Err(RelayErrorView::Internal(words))
            &&& words.take(25) == "unexpected tunnel frame: "@
            &&& words.skip(25) == frame_words(frame)
        },
        frame_words(TunnelFrameView::Ping { ts }).take(11) == "Ping { ts: "@,
        frame_words(TunnelFrameView::Pong { ts }).take(11) == "Pong { ts: "@,
        frame_words(TunnelFrameView::Ping { ts }).skip(11) == text::decimal(ts as int) + " }"@,
        frame_words(TunnelFrameView::Pong { ts }).skip(11) == text::decimal(ts as int) + " }"@,
{
    reveal_strlit("bad body b64: ");
    reveal_strlit("unexpected tunnel frame: ");
    reveal_strlit("Ping { ts: ");
    reveal_strlit("Pong { ts: ");
    if let Err(reason) = codec::base64_decoded(body) {
        let words = "bad body b64: "@ + reason;
        assert(words.take(14) =~= "bad body b64: "@);
        assert(words.skip(14) =~= reason);
    }
    let words = "unexpected tunnel frame: "@ + frame_words(frame);
    assert(words.take(25) =~= "unexpected tunnel frame: "@);
    assert(words.skip(25) =~= frame_words(frame));
    let ping = frame_words(TunnelFrameView::Ping { ts });
    let pong = frame_words(TunnelFrameView::Pong { ts });
    assert(ping.take(11) =~= "Ping { ts: "@);
    assert(pong.take(11) =~= "Pong { ts: "@);
    assert(ping.skip(11) =~= text::decimal(ts as int) + " }"@);
    assert(pong.skip(11) =~= text::decimal(ts as int) + " }"@);
}

} // verus!
