//! The device's end of a tunnel: what an agent does with the frames that the relay sends.
use axum::http::Method;
use vstd::prelude::*;

use crate::codec;
use crate::headers;
use crate::protocol;
use crate::protocol::{HeaderList, TunnelFrame, TunnelFrameView};
use crate::proxy;
use crate::text;

verus! {

/// The status of an answer where the local server gave none.
pub const NO_LOCAL_ANSWER: u16 = 502;

/// The method of a request whose own is none.
pub const FALLBACK_METHOD: &'static str = "GET";

/// Whether the text is the name of a method.
pub open spec fn is_method_name(name: Seq<char>) -> bool {
    name.len() > 0 && forall|i: int|
        0 <= i < name.len() ==> headers::is_token_char(#[trigger] name[i])
}

/// `Method::from_bytes`: it takes any text of the characters that HTTP allows there, but not the
/// empty one.
#[verifier::external_body]
fn is_method(name: &str) -> (valid: bool)
    ensures
        valid == is_method_name(name@),
{
    Method::from_bytes(name.as_bytes()).is_ok()
}

/// The method under which a request is made: its own, if that is one.
pub open spec fn local_method(method: Seq<char>) -> Seq<char> {
    if is_method_name(method) {
        method
    } else {
        FALLBACK_METHOD@
    }
}

/// The address at which the tunnel is opened: the relay's, with the shared secret where there is
/// one.
pub open spec fn tunnel_address(relay: Seq<char>, token: Seq<char>) -> Seq<char> {
    if token.len() == 0 {
        relay
    } else {
        relay + (if relay.contains('?') {
            "&"@
        } else {
            "?"@
        }) + "token="@ + token
    }
}

/// The address at which the tunnel is opened.
pub fn tunnel_url(relay: &str, token: &str) -> (url: String)
    ensures
        url@ == tunnel_address(relay@, token@),
{
    if token.is_empty() {
        return relay.to_owned();
    }
    let separator = if text::has_char(relay, '?') {
        "&"
    } else {
        "?"
    };
    relay.to_owned().concat(separator).concat("token=").concat(token)
}

/// The text without the slashes at its end.
pub open spec fn without_end_slashes(text: Seq<char>) -> Seq<char>
    decreases text.len(),
{
    if text.len() > 0 && text.last() == '/' {
        without_end_slashes(text.drop_last())
    } else {
        text
    }
}

/// The address of the local server that a request goes to.
pub open spec fn local_address(base: Seq<char>, path: Seq<char>) -> Seq<char> {
    without_end_slashes(base) + (if path.len() > 0 && path[0] == '/' {
        path
    } else {
        "/"@ + path
    })
}

/// The address of the local server that a request goes to.
pub fn local_url(base: &str, path: &str) -> (url: String)
    ensures
        url@ == local_address(base@, path@),
{
    let chars = text::chars_of(base);
    let mut end: usize = chars.len();
    assert(base@.take(end as int) =~= base@);
    while end > 0 && chars[end - 1] == '/'
        invariant
            end <= chars@.len(),
            chars@ == base@,
            without_end_slashes(base@.take(end as int)) == without_end_slashes(base@),
        decreases end,
    {
        end -= 1;
        assert(base@.take(end + 1).drop_last() =~= base@.take(end as int));
    }
    let mut url = text::text_of(chars.as_slice(), 0, end);
    assert(url@ =~= base@.take(end as int));
    assert(without_end_slashes(base@) == url@);
    if !text::starts_with_char(path, '/') {
        url.append("/");
    }
    url.append(path);
    assert(url@ =~= local_address(base@, path@));
    url
}

/// Whether the agent sets the header itself.
pub open spec fn is_own_header(name: Seq<char>) -> bool {
    headers::same_name(name, "host"@) || headers::same_name(name, "content-length"@)
}

/// The headers that go on to the local server.
pub open spec fn local_headers(list: Seq<(Seq<char>, Seq<char>)>) -> Seq<(Seq<char>, Seq<char>)>
    decreases list.len(),
{
    if list.len() == 0 {
        Seq::empty()
    } else if is_own_header(list.last().0) {
        local_headers(list.drop_last())
    } else {
        local_headers(list.drop_last()).push(list.last())
    }
}

fn forwarded(list: &HeaderList) -> (passed: HeaderList)
    ensures
        protocol::header_list(passed@) == local_headers(protocol::header_list(list@)),
{
    let mut passed: HeaderList = Vec::new();
    let ghost all = protocol::header_list(list@);
    let mut i: usize = 0;
    assert(all.take(0) =~= Seq::empty());
    assert(protocol::header_list(passed@) =~= Seq::empty());
    while i < list.len()
        invariant
            i <= list@.len(),
            all == protocol::header_list(list@),
            protocol::header_list(passed@) == local_headers(all.take(i as int)),
        decreases list@.len() - i,
    {
        let name = list[i].0.as_str();
        if !text::same_ignoring_case(name, "host") && !text::same_ignoring_case(
            name,
            "content-length",
        ) {
            let ghost before = protocol::header_list(passed@);
            passed.push((list[i].0.clone(), list[i].1.clone()));
            assert(protocol::header_list(passed@) =~= before.push(all[i as int]));
        }
        i += 1;
        assert(all.take(i as int).drop_last() =~= all.take(i - 1));
        assert(all.take(i as int).last() == all[i - 1]);
    }
    assert(all.take(i as int) =~= all);
    passed
}

/// A request to the local server.
#[derive(Debug)]
pub struct LocalRequest {
    pub method: String,
    pub url: String,
    pub headers: HeaderList,
    pub body: Option<Vec<u8>>,
}

/// The request to the local server that a request out of the tunnel stands for, or why there is
/// none.
pub fn local_request(
    base: &str,
    method: &str,
    path: &str,
    list: &HeaderList,
    body_b64: &Option<String>,
) -> (result: Result<LocalRequest, String>)
    ensures
        match result {
            Ok(request) => {
                &&& request.method@ == local_method(method@)
                &&& request.url@ == local_address(base@, path@)
                &&& protocol::header_list(request.headers@) == local_headers(
                    protocol::header_list(list@),
                )
                &&& match (request.body, *body_b64) {
                    (Some(body), Some(encoded)) => codec::base64_decoded(encoded@) == Ok::<
                        Seq<u8>,
                        Seq<char>,
                    >(body@),
                    (None, None) => true,
                    _ => false,
                }
            },
            Err(words) => body_b64 matches Some(encoded) && codec::base64_decoded(encoded@)
                == Err::<Seq<u8>, Seq<char>>(words@),
        },
{
    let body = match body_b64 {
        Some(encoded) => match codec::base64_decode(encoded.as_str()) {
            Ok(body) => Some(body),
            Err(words) => return Err(words),
        },
        None => None,
    };
    let method = if is_method(method) {
        method
    } else {
        FALLBACK_METHOD
    };
    Ok(
        LocalRequest {
            method: method.to_owned(),
            url: local_url(base, path),
            headers: forwarded(list),
            body,
        },
    )
}

/// What the local server answered.
#[derive(Debug)]
pub struct LocalAnswer {
    pub status: u16,
    pub headers: HeaderList,
    pub body: Vec<u8>,
}

/// The frame that answers a request when the local server gave no answer that counts.
pub open spec fn failure_frame(request_id: Seq<char>, words: Seq<char>) -> TunnelFrameView {
    TunnelFrameView::HttpResponse {
        request_id,
        status: NO_LOCAL_ANSWER,
        headers: Seq::empty(),
        body_b64: None,
        error: Some(words),
    }
}

/// The frame that answers a request with what the local server answered, or with why it did not.
/// An answer whose status is below 200 or not below 600 does not count.
pub fn answer_frame(request_id: String, answer: Result<LocalAnswer, String>) -> (frame: TunnelFrame)
    ensures
        match answer {
            Ok(answer) => if 200 <= answer.status < 600 {
                frame@ == (TunnelFrameView::HttpResponse {
                    request_id: request_id@,
                    status: answer.status,
                    headers: protocol::header_list(answer.headers@),
                    body_b64: proxy::body_text(answer.body@),
                    error: None,
                }) && proxy::carries_body(proxy::body_text(answer.body@), answer.body@)
            } else {
                frame@ == failure_frame(
                    request_id@,
                    "unexpected status "@ + text::decimal(answer.status as int),
                )
            },
            Err(words) => frame@ == failure_frame(request_id@, words@),
        },
{
    let words = match answer {
        Ok(answer) => {
            if 200 <= answer.status && answer.status < 600 {
                return TunnelFrame::HttpResponse {
                    request_id,
                    status: answer.status,
                    headers: answer.headers,
                    body_b64: proxy::body_b64(answer.body.as_slice()),
                    error: None,
                };
            }
            "unexpected status ".to_owned().concat(
                text::unsigned_text(answer.status as u64).as_str(),
            )
        },
        Err(words) => words,
    };
    let headers: HeaderList = Vec::new();
    assert(protocol::header_list(headers@) =~= Seq::empty());
    TunnelFrame::HttpResponse {
        request_id,
        status: NO_LOCAL_ANSWER,
        headers,
        body_b64: None,
        error: Some(words),
    }
}

/// A text without the slashes at its end is its beginning: all that follows is slashes, and it does
/// not end with one itself.
pub proof fn law_without_end_slashes(text: Seq<char>)
    ensures
        without_end_slashes(text).len() <= text.len(),
        without_end_slashes(text) == text.take(without_end_slashes(text).len() as int),
        forall|i: int|
            without_end_slashes(text).len() <= i < text.len() ==> #[trigger] text[i] == '/',
        without_end_slashes(text).len() > 0 ==> without_end_slashes(text).last() != '/',
    decreases text.len(),
{
    if text.len() > 0 && text.last() == '/' {
        let rest = text.drop_last();
        law_without_end_slashes(rest);
        let len = without_end_slashes(rest).len() as int;
        assert(rest.take(len) =~= text.take(len));
        assert forall|i: int| len <= i < text.len() implies #[trigger] text[i] == '/' by {
            if i < rest.len() {
                assert(rest[i] == text[i]);
            }
        }
    } else {
        assert(text.take(text.len() as int) =~= text);
    }
}

/// A request goes to the local server's address, whatever slashes that ends with, and to the
/// request's path, with one slash between them.
pub proof fn law_local_address(base: Seq<char>, path: Seq<char>)
    ensures
        ({
            let root = without_end_slashes(base);
            let address = local_address(base, path);
            &&& address.len() > root.len()
            &&& address.take(root.len() as int) == root
            &&& address[root.len() as int] == '/'
            &&& path.len() > 0 && path[0] == '/' ==> address.skip(root.len() as int) == path
            &&& path.len() == 0 || path[0] != '/' ==> address.skip(root.len() as int + 1) == path
        }),
{
    reveal_strlit("/");
    let root = without_end_slashes(base);
    let address = local_address(base, path);
    assert(address.take(root.len() as int) =~= root);
    if path.len() > 0 && path[0] == '/' {
        assert(address.skip(root.len() as int) =~= path);
    } else {
        assert(address.skip(root.len() as int + 1) =~= path);
    }
}

/// The tunnel is opened at the relay's address; where there is a secret, it follows as a part of the
/// query of its own.
pub proof fn law_tunnel_address(relay: Seq<char>, token: Seq<char>)
    ensures
        token.len() == 0 ==> tunnel_address(relay, token) == relay,
        token.len() > 0 ==> ({
            let address = tunnel_address(relay, token);
            let start = relay.len() as int;
            &&& address.len() == start + 7 + token.len()
            &&& address.take(start) == relay
            &&& address[start] == (if exists|i: int| 0 <= i < start && relay[i] == '?' {
                '&'
            } else {
                '?'
            })
            &&& address.subrange(start + 1, start + 7) == "token="@
            &&& address.skip(start + 7) == token
        }),
{
    reveal_strlit("&");
    reveal_strlit("?");
    reveal_strlit("token=");
    if token.len() > 0 {
        let address = tunnel_address(relay, token);
        let start = relay.len() as int;
        assert(address.take(start) =~= relay);
        assert(address.subrange(start + 1, start + 7) =~= "token="@);
        assert(address.skip(start + 7) =~= token);
    }
}

/// All headers go on to the local server, in their order, but for the two that the agent sets itself.
pub proof fn law_local_headers(
    a: Seq<(Seq<char>, Seq<char>)>,
    header: (Seq<char>, Seq<char>),
    b: Seq<(Seq<char>, Seq<char>)>,
)
    ensures
        local_headers(a + b) == local_headers(a) + local_headers(b),
        local_headers(seq![header]) == (if text::lower_text(header.0) == "host"@
            || text::lower_text(header.0) == "content-length"@ {
            Seq::empty()
        } else {
            seq![header]
        }),
        local_headers(Seq::empty()).len() == 0,
    decreases b.len(),
{
    reveal_strlit("host");
    reveal_strlit("content-length");
    reveal_with_fuel(local_headers, 2);
    assert(text::lower_text("host"@) =~= "host"@);
    assert(text::lower_text("content-length"@) =~= "content-length"@);
    assert(seq![header].drop_last() =~= Seq::empty());
    assert(local_headers(seq![header]) =~= (if is_own_header(header.0) {
        Seq::empty()
    } else {
        seq![header]
    }));
    if b.len() == 0 {
        assert(a + b =~= a);
        assert(local_headers(a) + local_headers(b) =~= local_headers(a));
    } else {
        assert((a + b).drop_last() =~= a + b.drop_last());
        law_local_headers(a, header, b.drop_last());
        assert(local_headers(a + b) =~= local_headers(a) + local_headers(b));
    }
}

/// A request keeps its method; one whose method has a character that no method has, or none at all,
/// is made as a plain read.
pub proof fn law_local_method(method: Seq<char>)
    ensures
        local_method(method) == method || local_method(method) == "GET"@,
        local_method(method) == method || !is_method_name(method),
        method.len() == 0 ==> local_method(method) == "GET"@,
        !is_method_name(method) ==> local_method(method) == "GET"@,
{
}

/// A request whose local server did not answer is told why, under its own number.
pub proof fn law_failure_is_told(request_id: Seq<char>, words: Seq<char>)
    ensures
        proxy::response_of(failure_frame(request_id, words)) is Err,
        failure_frame(request_id, words) matches TunnelFrameView::HttpResponse {
            request_id: id,
            status,
            error,
            ..
        } && id == request_id && status == 502 && error == Some(words),
{
}

} // verus!
