//! How the relay refuses a request.
use vstd::prelude::*;

verus! {

/// The body of a refusal: `{ "errorCode": n, "message": "..." }`.
#[derive(Debug)]
pub struct FailBody {
    pub error_code: i32,
    pub message: String,
}

/// Why a request was refused.
#[derive(Debug)]
pub enum RelayError {
    Unauthorized,
    MissingAppInstanceId,
    DeviceOffline(String),
    DeviceBusy,
    ProxyTimeout,
    BadRequest(String),
    RoomNotFound,
    RoomFull,
    Internal(String),
}

/// A [`RelayError`] with its texts by their characters.
pub enum RelayErrorView {
    Unauthorized,
    MissingAppInstanceId,
    DeviceOffline(Seq<char>),
    DeviceBusy,
    ProxyTimeout,
    BadRequest(Seq<char>),
    RoomNotFound,
    RoomFull,
    Internal(Seq<char>),
}

impl View for RelayError {
    type V = RelayErrorView;

    open spec fn view(&self) -> RelayErrorView {
        match self {
            RelayError::Unauthorized => RelayErrorView::Unauthorized,
            RelayError::MissingAppInstanceId => RelayErrorView::MissingAppInstanceId,
            RelayError::DeviceOffline(id) => RelayErrorView::DeviceOffline(id@),
            RelayError::DeviceBusy => RelayErrorView::DeviceBusy,
            RelayError::ProxyTimeout => RelayErrorView::ProxyTimeout,
            RelayError::BadRequest(reason) => RelayErrorView::BadRequest(reason@),
            RelayError::RoomNotFound => RelayErrorView::RoomNotFound,
            RelayError::RoomFull => RelayErrorView::RoomFull,
            RelayError::Internal(reason) => RelayErrorView::Internal(reason@),
        }
    }
}

/// What a relay function gives back.
pub type RelayResult<T> = Result<T, RelayError>;

impl RelayErrorView {
    /// The HTTP status of the refusal.
    pub open spec fn http_status(self) -> u16 {
        match self {
            RelayErrorView::Unauthorized => 401,
            RelayErrorView::MissingAppInstanceId => 400,
            RelayErrorView::BadRequest(_) => 400,
            RelayErrorView::DeviceOffline(_) => 404,
            RelayErrorView::RoomNotFound => 404,
            RelayErrorView::DeviceBusy => 429,
            RelayErrorView::RoomFull => 429,
            RelayErrorView::ProxyTimeout => 504,
            RelayErrorView::Internal(_) => 500,
        }
    }

    /// The error code of the refusal.
    pub open spec fn error_code(self) -> i32 {
        match self {
            RelayErrorView::Unauthorized => 2003,
            RelayErrorView::MissingAppInstanceId => 1000,
            RelayErrorView::DeviceOffline(_) => 1000,
            RelayErrorView::DeviceBusy => 0,
            RelayErrorView::ProxyTimeout => 0,
            RelayErrorView::BadRequest(_) => 2,
            RelayErrorView::RoomNotFound => 3,
            RelayErrorView::RoomFull => 2,
            RelayErrorView::Internal(_) => 0,
        }
    }

    /// The refusal in words.
    pub open spec fn words(self) -> Seq<char> {
        match self {
            RelayErrorView::Unauthorized => "unauthorized"@,
            RelayErrorView::MissingAppInstanceId => "missing appInstanceId"@,
            RelayErrorView::DeviceOffline(id) => "device not online: "@ + id,
            RelayErrorView::DeviceBusy => "device busy or overloaded"@,
            RelayErrorView::ProxyTimeout => "proxy timeout"@,
            RelayErrorView::BadRequest(reason) => "invalid request: "@ + reason,
            RelayErrorView::RoomNotFound => "room not found or expired"@,
            RelayErrorView::RoomFull => "room full"@,
            RelayErrorView::Internal(reason) => "internal: "@ + reason,
        }
    }
}

impl RelayError {
    /// The HTTP status of the refusal.
    pub fn status(&self) -> (status: u16)
        ensures
            status == self@.http_status(),
    {
        match self {
            RelayError::Unauthorized => 401,
            RelayError::MissingAppInstanceId => 400,
            RelayError::BadRequest(_) => 400,
            RelayError::DeviceOffline(_) => 404,
            RelayError::RoomNotFound => 404,
            RelayError::DeviceBusy => 429,
            RelayError::RoomFull => 429,
            RelayError::ProxyTimeout => 504,
            RelayError::Internal(_) => 500,
        }
    }

    /// The error code of the refusal, one of CrossPaste's where one fits.
    pub fn code(&self) -> (code: i32)
        ensures
            code == self@.error_code(),
    {
        match self {
            // UNTRUSTED_IDENTITY
            RelayError::Unauthorized => 2003,
            // NOT_FOUND_APP_INSTANCE_ID
            RelayError::MissingAppInstanceId => 1000,
            RelayError::DeviceOffline(_) => 1000,
            RelayError::DeviceBusy => 0,
            RelayError::ProxyTimeout => 0,
            // INVALID_PARAMETER
            RelayError::BadRequest(_) => 2,
            // NOT_FOUND_API
            RelayError::RoomNotFound => 3,
            RelayError::RoomFull => 2,
            // UNKNOWN_ERROR
            RelayError::Internal(_) => 0,
        }
    }

    /// The refusal in words.
    pub fn message(&self) -> (text: String)
        ensures
            text@ == self@.words(),
    {
        match self {
            RelayError::Unauthorized => "unauthorized".to_owned(),
            RelayError::MissingAppInstanceId => "missing appInstanceId".to_owned(),
            RelayError::DeviceOffline(id) => "device not online: ".to_owned().concat(id.as_str()),
            RelayError::DeviceBusy => "device busy or overloaded".to_owned(),
            RelayError::ProxyTimeout => "proxy timeout".to_owned(),
            RelayError::BadRequest(reason) => "invalid request: ".to_owned().concat(
                reason.as_str(),
            ),
            RelayError::RoomNotFound => "room not found or expired".to_owned(),
            RelayError::RoomFull => "room full".to_owned(),
            RelayError::Internal(reason) => "internal: ".to_owned().concat(reason.as_str()),
        }
    }

    /// The status and the body with which the refusal is answered.
    pub fn fail_response(&self) -> (response: (u16, FailBody))
        ensures
            response.0 == self@.http_status(),
            response.1.error_code == self@.error_code(),
            response.1.message@ == self@.words(),
    {
        (self.status(), FailBody { error_code: self.code(), message: self.message() })
    }
}

/// A refusal says what is at fault whatever it carries: the caller's credentials, the request, a
/// device or a room that is not there, too much at once, or the relay itself; a refusal with details
/// ends with them.
pub proof fn law_refusals(details: Seq<char>)
    ensures
        RelayErrorView::Unauthorized.http_status() == 401,
        RelayErrorView::MissingAppInstanceId.http_status() == 400,
        RelayErrorView::BadRequest(details).http_status() == 400,
        RelayErrorView::DeviceOffline(details).http_status() == 404,
        RelayErrorView::RoomNotFound.http_status() == 404,
        RelayErrorView::DeviceBusy.http_status() == 429,
        RelayErrorView::RoomFull.http_status() == 429,
        RelayErrorView::ProxyTimeout.http_status() == 504,
        RelayErrorView::Internal(details).http_status() == 500,
        RelayErrorView::Unauthorized.error_code() == 2003,
        RelayErrorView::MissingAppInstanceId.error_code() == 1000,
        RelayErrorView::DeviceOffline(details).error_code() == 1000,
        RelayErrorView::BadRequest(details).error_code() == 2,
        RelayErrorView::RoomFull.error_code() == 2,
        RelayErrorView::RoomNotFound.error_code() == 3,
        RelayErrorView::DeviceBusy.error_code() == 0,
        RelayErrorView::ProxyTimeout.error_code() == 0,
        RelayErrorView::Internal(details).error_code() == 0,
        RelayErrorView::DeviceOffline(details).words().take(19) == "device not online: "@,
        RelayErrorView::DeviceOffline(details).words().skip(19) == details,
        RelayErrorView::BadRequest(details).words().take(17) == "invalid request: "@,
        RelayErrorView::BadRequest(details).words().skip(17) == details,
        RelayErrorView::Internal(details).words().take(10) == "internal: "@,
        RelayErrorView::Internal(details).words().skip(10) == details,
{
    reveal_strlit("device not online: ");
    reveal_strlit("invalid request: ");
    reveal_strlit("internal: ");
    let offline = RelayErrorView::DeviceOffline(details).words();
    let bad = RelayErrorView::BadRequest(details).words();
    let internal = RelayErrorView::Internal(details).words();
    assert(offline.take(19) =~= "device not online: "@);
    assert(offline.skip(19) =~= details);
    assert(bad.take(17) =~= "invalid request: "@);
    assert(bad.skip(17) =~= details);
    assert(internal.take(10) =~= "internal: "@);
    assert(internal.skip(10) =~= details);
}

} // verus!
