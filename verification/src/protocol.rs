//! The wire protocol between the relay and the agents at the devices' end of a tunnel.
//!
//! Bodies are opaque bytes, which the peers have already encrypted end to end.
use vstd::prelude::*;

use crate::text;

verus! {

/// The version of the CrossPaste sync interface that the relay offers.
pub const SYNC_API_VERSION: i32 = 3;

/// The version of the pairing protocol that the server offers.
pub const PAIRING_VERSION: i32 = 2;

/// The version of this relay.
pub const RELAY_VERSION: &'static str = "0.1.0";

/// The header that names the device a request comes from.
pub const HEADER_APP_INSTANCE_ID: &'static str = "appInstanceId";

/// The header that names the device a request is for.
pub const HEADER_TARGET_APP_INSTANCE_ID: &'static str = "targetAppInstanceId";

/// The header that says whether a body is encrypted.
pub const HEADER_SECURE: &'static str = "secure";

/// The header that carries a device's sync information.
pub const HEADER_SYNC_INFO: &'static str = "crosspaste-sync-info";

/// The server's own header for the shared secret.
pub const HEADER_SERVER_TOKEN: &'static str = "x-crosspaste-server-token";

/// The relay's header for the shared secret.
pub const HEADER_AUTH: &'static str = "x-relay-token";

/// The paths that CrossPaste peers serve.
pub const CROSSPASTE_PATHS: [&'static str; 20] = [
    "/sync/heartbeat",
    "/sync/heartbeat/syncInfo",
    "/sync/notifyExit",
    "/sync/notifyRemove",
    "/sync/showToken",
    "/sync/showPairingCode",
    "/sync/syncInfo",
    "/sync/telnet",
    "/sync/trust",
    "/sync/trust/v2/exchange",
    "/sync/trust/v2/confirm",
    "/sync/paste",
    "/sync/file/push",
    "/sync/paste/push/complete",
    "/sync/icon/push/{source}",
    "/pull/file",
    "/pull/icon/{source}",
    "/pull/paste",
    "/pull/pasteBatch",
    "/ws",
];

/// Header names and values in the order in which they are sent.
pub type HeaderList = Vec<(String, String)>;

/// Headers with their texts by their characters.
pub open spec fn header_list(headers: Seq<(String, String)>) -> Seq<(Seq<char>, Seq<char>)> {
    headers.map_values(|header: (String, String)| (header.0@, header.1@))
}

/// What passes over a device's tunnel.
#[derive(Debug)]
pub enum TunnelFrame {
    /// From the device: who it is.
    Hello {
        app_instance_id: String,
        device_name: Option<String>,
        app_version: Option<String>,
        /// Sync information as JSON in Base64.
        sync_info_b64: Option<String>,
    },
    /// To the device: it is registered.
    HelloAck { session_id: String, relay_version: String },
    /// Keeps the tunnel alive, either way.
    Ping { ts: i64 },
    /// Answers a ping.
    Pong { ts: i64 },
    /// To the device: carry out this request.
    HttpRequest {
        request_id: String,
        method: String,
        /// Path and query, such as `/sync/paste`.
        path: String,
        headers: HeaderList,
        /// The body in Base64; none where it is empty.
        body_b64: Option<String>,
    },
    /// From the device: what came of a request.
    HttpResponse {
        request_id: String,
        status: u16,
        headers: HeaderList,
        body_b64: Option<String>,
        error: Option<String>,
    },
    /// To the device: another came or went.
    PeerEvent { event: PeerEventKind, app_instance_id: String },
    /// Something went wrong.
    Error { message: String },
}

/// A [`TunnelFrame`] with its texts by their characters.
#[verifier::ext_equal]
pub enum TunnelFrameView {
    Hello {
        app_instance_id: Seq<char>,
        device_name: Option<Seq<char>>,
        app_version: Option<Seq<char>>,
        sync_info_b64: Option<Seq<char>>,
    },
    HelloAck { session_id: Seq<char>, relay_version: Seq<char> },
    Ping { ts: i64 },
    Pong { ts: i64 },
    HttpRequest {
        request_id: Seq<char>,
        method: Seq<char>,
        path: Seq<char>,
        headers: Seq<(Seq<char>, Seq<char>)>,
        body_b64: Option<Seq<char>>,
    },
    HttpResponse {
        request_id: Seq<char>,
        status: u16,
        headers: Seq<(Seq<char>, Seq<char>)>,
        body_b64: Option<Seq<char>>,
        error: Option<Seq<char>>,
    },
    PeerEvent { event: PeerEventKind, app_instance_id: Seq<char> },
    Error { message: Seq<char> },
}

impl View for TunnelFrame {
    type V = TunnelFrameView;

    open spec fn view(&self) -> TunnelFrameView {
        match *self {
            TunnelFrame::Hello { app_instance_id, device_name, app_version, sync_info_b64 } => {
                TunnelFrameView::Hello {
                    app_instance_id: app_instance_id@,
                    device_name: text::optional(device_name),
                    app_version: text::optional(app_version),
                    sync_info_b64: text::optional(sync_info_b64),
                }
            },
            TunnelFrame::HelloAck { session_id, relay_version } => {
                TunnelFrameView::HelloAck {
                    session_id: session_id@,
                    relay_version: relay_version@,
                }
            },
            TunnelFrame::Ping { ts } => TunnelFrameView::Ping { ts },
            TunnelFrame::Pong { ts } => TunnelFrameView::Pong { ts },
            TunnelFrame::HttpRequest { request_id, method, path, headers, body_b64 } => {
                TunnelFrameView::HttpRequest {
                    request_id: request_id@,
                    method: method@,
                    path: path@,
                    headers: header_list(headers@),
                    body_b64: text::optional(body_b64),
                }
            },
            TunnelFrame::HttpResponse { request_id, status, headers, body_b64, error } => {
                TunnelFrameView::HttpResponse {
                    request_id: request_id@,
                    status,
                    headers: header_list(headers@),
                    body_b64: text::optional(body_b64),
                    error: text::optional(error),
                }
            },
            TunnelFrame::PeerEvent { event, app_instance_id } => {
                TunnelFrameView::PeerEvent { event, app_instance_id: app_instance_id@ }
            },
            TunnelFrame::Error { message } => TunnelFrameView::Error { message: message@ },
        }
    }
}

/// Whether a peer came or went.
#[derive(Debug, Clone, Copy, PartialEq, Eq, Structural)]
pub enum PeerEventKind {
    Online,
    Offline,
}

/// What others may see of a device.
#[derive(Debug)]
pub struct DevicePublicInfo {
    pub app_instance_id: String,
    pub device_name: Option<String>,
    pub app_version: Option<String>,
    pub online: bool,
    pub last_seen_ms: i64,
}

/// A [`DevicePublicInfo`] with its texts by their characters.
#[verifier::ext_equal]
pub struct DevicePublicInfoView {
    pub app_instance_id: Seq<char>,
    pub device_name: Option<Seq<char>>,
    pub app_version: Option<Seq<char>>,
    pub online: bool,
    pub last_seen_ms: i64,
}

impl View for DevicePublicInfo {
    type V = DevicePublicInfoView;

    open spec fn view(&self) -> DevicePublicInfoView {
        DevicePublicInfoView {
            app_instance_id: self.app_instance_id@,
            device_name: text::optional(self.device_name),
            app_version: text::optional(self.app_version),
            online: self.online,
            last_seen_ms: self.last_seen_ms,
        }
    }
}

/// A room, and its members as far as they are online.
#[derive(Debug)]
pub struct RoomInfo {
    pub room_code: String,
    pub members: Vec<DevicePublicInfo>,
    pub expires_at_ms: i64,
}

/// A [`RoomInfo`] with its texts by their characters.
#[verifier::ext_equal]
pub struct RoomInfoView {
    pub room_code: Seq<char>,
    pub members: Seq<DevicePublicInfoView>,
    pub expires_at_ms: i64,
}

/// What others may see of some devices, with the texts by their characters.
pub open spec fn device_views(devices: Seq<DevicePublicInfo>) -> Seq<DevicePublicInfoView> {
    devices.map_values(|device: DevicePublicInfo| device@)
}

impl View for RoomInfo {
    type V = RoomInfoView;

    open spec fn view(&self) -> RoomInfoView {
        RoomInfoView {
            room_code: self.room_code@,
            members: device_views(self.members@),
            expires_at_ms: self.expires_at_ms,
        }
    }
}

/// The answer to the creation of a room.
#[derive(Debug)]
pub struct CreateRoomResponse {
    pub room_code: String,
    pub expires_at_ms: i64,
}

/// How the relay is.
#[derive(Debug)]
pub struct HealthResponse {
    pub ok: bool,
    pub service: String,
    pub version: String,
    pub sync_api_version: i32,
    pub online_devices: usize,
    pub rooms: usize,
}

/// Headers and devices by their views stand in their places.
pub proof fn law_list_views(
    headers: Seq<(String, String)>,
    devices: Seq<DevicePublicInfo>,
    place: int,
)
    ensures
        header_list(headers).len() == headers.len(),
        0 <= place < headers.len() ==> header_list(headers)[place].0 == headers[place].0@
            && header_list(headers)[place].1 == headers[place].1@,
        device_views(devices).len() == devices.len(),
        0 <= place < devices.len() ==> device_views(devices)[place] == devices[place]@,
{
}

} // verus!
