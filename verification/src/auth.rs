//! The shared secret that callers show.
use vstd::prelude::*;

use crate::config::Config;
use crate::error::{RelayError, RelayErrorView, RelayResult};
use crate::headers;
use crate::headers::{Header, HeaderView};
use crate::protocol::{HEADER_AUTH, HEADER_SERVER_TOKEN};
use crate::text;

verus! {

/// The name of HTTP's own header for credentials.
pub const AUTHORIZATION: &'static str = "authorization";

/// The secret that a header's text shows: what follows `Bearer `, the white space around it left
/// out, or the whole text where it does not begin so.
pub open spec fn shown_secret(value: Seq<char>) -> Seq<char> {
    if text::stands_at(text::trim(value), 0, "Bearer "@) {
        text::trim(value).skip("Bearer "@.len() as int)
    } else {
        value
    }
}

/// The secret that the headers show: the relay's header counts before HTTP's, and that before the
/// server's own.
pub open spec fn provided_secret(headers: Seq<HeaderView>) -> Option<Seq<char>> {
    let header = match headers::first_of(headers, HEADER_AUTH@) {
        Some(header) => Some(header),
        None => match headers::first_of(headers, AUTHORIZATION@) {
            Some(header) => Some(header),
            None => headers::first_of(headers, HEADER_SERVER_TOKEN@),
        },
    };
    match header {
        Some(HeaderView { text: Some(value), .. }) => Some(shown_secret(value)),
        _ => None,
    }
}

/// Whether a caller is let through who shows this secret, or none.
pub open spec fn admitted(config: Config, provided: Option<Seq<char>>) -> bool {
    config.auth_token@.len() == 0 || provided == Some(config.auth_token@)
}

fn secret_in(value: &str) -> (secret: String)
    ensures
        secret@ == shown_secret(value@),
{
    let chars = text::chars_of(value);
    let trimmed = text::trimmed(chars.as_slice());
    let trimmed = text::chars_of(trimmed.as_str());
    let prefix = text::chars_of("Bearer ");
    if text::stands_at_place(trimmed.as_slice(), 0, prefix.as_slice()) {
        let secret = text::text_of(trimmed.as_slice(), prefix.len(), trimmed.len());
        assert(secret@ =~= shown_secret(value@));
        secret
    } else {
        value.to_owned()
    }
}

/// Lets a request through whose headers show the shared secret.
pub fn check_auth(config: &Config, headers: &[Header]) -> (admission: RelayResult<()>)
    ensures
        admission is Ok <==> admitted(*config, provided_secret(headers::views(headers@))),
        admission matches Err(error) ==> error@ == RelayErrorView::Unauthorized,
{
    if !config.auth_required() {
        return Ok(());
    }
    let header = match headers::first(headers, HEADER_AUTH) {
        Some(header) => Some(header),
        None => match headers::first(headers, AUTHORIZATION) {
            Some(header) => Some(header),
            None => headers::first(headers, HEADER_SERVER_TOKEN),
        },
    };
    if let Some(header) = header {
        if let Some(value) = &header.text {
            let secret = secret_in(value.as_str());
            if secret == config.auth_token {
                return Ok(());
            }
        }
    }
    Err(RelayError::Unauthorized)
}

/// Lets a tunnel through whose query shows the shared secret.
pub fn check_auth_query(config: &Config, token: Option<&str>) -> (admission: RelayResult<()>)
    ensures
        admission is Ok <==> admitted(
            *config,
            match token {
                Some(token) => Some(token@),
                None => None,
            },
        ),
        admission matches Err(error) ==> error@ == RelayErrorView::Unauthorized,
{
    if !config.auth_required() {
        return Ok(());
    }
    if let Some(token) = token {
        if text::same_text(token, config.auth_token.as_str()) {
            return Ok(());
        }
    }
    Err(RelayError::Unauthorized)
}

/// A header shows what follows `Bearer ` once the white space around it is left out, and otherwise
/// its whole text.
pub proof fn law_shown_secret(value: Seq<char>)
    ensures
        text::trim(value).len() >= 7 && text::trim(value).take(7) == "Bearer "@ ==> shown_secret(
            value,
        ) == text::trim(value).skip(7),
        text::trim(value).len() < 7 || text::trim(value).take(7) != "Bearer "@ ==> shown_secret(
            value,
        ) == value,
{
    reveal_strlit("Bearer ");
}

/// Where a secret is asked for, a caller is let through exactly where the relay's header shows it;
/// without that header, where HTTP's own does; and without either, where the server's header does.
/// Where none is asked for, every caller is let through.
pub proof fn law_admission(config: Config, request: Seq<HeaderView>)
    ensures
        config.auth_token@.len() == 0 ==> admitted(config, provided_secret(request)),
        config.auth_token@.len() > 0 ==> ({
            let relay = headers::first_of(request, "x-relay-token"@);
            let http = headers::first_of(request, "authorization"@);
            let server = headers::first_of(request, "x-crosspaste-server-token"@);
            &&& relay matches Some(header) ==> (admitted(config, provided_secret(request)) <==> (
            header.text matches Some(value) && shown_secret(value) == config.auth_token@))
            &&& relay is None ==> (http matches Some(header) ==> (admitted(
                config,
                provided_secret(request),
            ) <==> (header.text matches Some(value) && shown_secret(value) == config.auth_token@)))
            &&& relay is None && http is None ==> (server matches Some(header) ==> (admitted(
                config,
                provided_secret(request),
            ) <==> (header.text matches Some(value) && shown_secret(value) == config.auth_token@)))
            &&& relay is None && http is None && server is None ==> !admitted(
                config,
                provided_secret(request),
            )
        }),
{
}

} // verus!
