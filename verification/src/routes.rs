//! What the relay's own paths do with a request once it is read.
use vstd::prelude::*;

use crate::auth;
use crate::auth::check_auth;
use crate::config::Config;
use crate::error::{RelayError, RelayErrorView, RelayResult};
use crate::headers;
use crate::headers::{Header, HeaderView};
use crate::protocol;
use crate::protocol::{
    CreateRoomResponse, DevicePublicInfo, HealthResponse, RoomInfo, RoomInfoView,
    HEADER_APP_INSTANCE_ID, RELAY_VERSION, SYNC_API_VERSION,
};
use crate::proxy;
use crate::proxy::{require_source_app_instance, resolve_target};
use crate::registry;
use crate::registry::Registry;
use crate::text;

verus! {

/// The name under which the relay reports its health.
pub const SERVICE_NAME: &'static str = "crosspaste-relay";

/// Whether a request with these headers is let through.
pub open spec fn let_in(config: Config, request: Seq<HeaderView>) -> bool {
    auth::admitted(config, auth::provided_secret(request))
}

/// How the relay is at that time, once the rooms whose time is up are gone.
pub fn health(registry: &mut Registry, now_ns: i128) -> (response: HealthResponse)
    requires
        old(registry).wf(),
    ensures
        final(registry).wf(),
        final(registry).settings() == old(registry).settings(),
        final(registry)@ == old(registry)@.with_live_rooms(now_ns),
        response.ok,
        response.service@ == SERVICE_NAME@,
        response.version@ == RELAY_VERSION@,
        response.sync_api_version == SYNC_API_VERSION,
        response.online_devices == final(registry)@.devices.dom().len(),
        response.rooms == final(registry)@.rooms.dom().len(),
{
    registry.gc_rooms(now_ns);
    HealthResponse {
        ok: true,
        service: SERVICE_NAME.to_owned(),
        version: RELAY_VERSION.to_owned(),
        sync_api_version: SYNC_API_VERSION,
        online_devices: registry.online_count(),
        rooms: registry.room_count(),
    }
}

/// Lists the devices that are online.
pub fn list_devices(config: &Config, registry: &Registry, request: &[Header]) -> (result:
    RelayResult<Vec<DevicePublicInfo>>)
    ensures
        result is Ok <==> let_in(*config, headers::views(request@)),
        match result {
            Ok(infos) => {
                &&& registry.device_order().no_duplicates()
                &&& registry.device_order().to_set() == registry@.devices.dom()
                &&& protocol::device_views(infos@) == registry.device_order().map_values(
                    |id: Seq<char>| registry@.devices[id].public(),
                )
            },
            Err(error) => error@ == RelayErrorView::Unauthorized,
        },
{
    check_auth(config, request)?;
    let infos = registry.list_devices();
    assert(protocol::device_views(infos@) =~= registry.device_order().map_values(
        |id: Seq<char>| registry@.devices[id].public(),
    ));
    Ok(infos)
}

/// Opens a room.
pub fn create_room(
    config: &Config,
    registry: &mut Registry,
    request: &[Header],
    now_ns: i128,
) -> (result: RelayResult<CreateRoomResponse>)
    requires
        old(registry).wf(),
        now_ns + old(registry).settings().room_ttl_secs * 1_000_000_000 <= i128::MAX,
    ensures
        final(registry).wf(),
        final(registry).settings() == old(registry).settings(),
        result is Ok <==> let_in(*config, headers::views(request@)),
        match result {
            Ok(response) => {
                &&& registry::is_room_code(response.room_code@)
                &&& final(registry)@ == old(registry)@.with_new_room(
                    response.room_code@,
                    now_ns,
                    old(registry).settings().room_ttl_secs,
                )
                &&& response.expires_at_ms == final(registry)@.info(
                    response.room_code@,
                ).expires_at_ms
            },
            Err(error) => error@ == RelayErrorView::Unauthorized && final(registry)@ == old(
                registry,
            )@,
        },
{
    check_auth(config, request)?;
    let info = registry.create_room(now_ns);
    Ok(CreateRoomResponse { room_code: info.room_code, expires_at_ms: info.expires_at_ms })
}

/// Tells what there is to know of a room.
pub fn get_room(
    config: &Config,
    registry: &mut Registry,
    request: &[Header],
    code: &str,
    now_ns: i128,
) -> (result: RelayResult<RoomInfo>)
    requires
        old(registry).wf(),
    ensures
        final(registry).wf(),
        final(registry).settings() == old(registry).settings(),
        if !let_in(*config, headers::views(request@)) {
            &&& final(registry)@ == old(registry)@
            &&& registry::room_result(result) == Err::<RoomInfoView, RelayErrorView>(
                RelayErrorView::Unauthorized,
            )
        } else {
            &&& final(registry)@ == old(registry)@.with_live_rooms(now_ns)
            &&& registry::room_result(result) == if final(registry)@.rooms.contains_key(code@) {
                Ok::<RoomInfoView, RelayErrorView>(final(registry)@.info(code@))
            } else {
                Err::<RoomInfoView, RelayErrorView>(RelayErrorView::RoomNotFound)
            }
        },
{
    match check_auth(config, request) {
        Ok(()) => registry.room_info(code, now_ns),
        Err(error) => Err(error),
    }
}

/// The device that joins or leaves: the one that the headers name, or else the one in the body.
pub open spec fn acting_device(request: Seq<HeaderView>, in_body: Seq<char>) -> Seq<char> {
    match headers::text_of(request, HEADER_APP_INSTANCE_ID@) {
        Some(id) => id,
        None => in_body,
    }
}

fn acting<'a>(request: &'a [Header], in_body: &'a str) -> (id: &'a str)
    ensures
        id@ == acting_device(headers::views(request@), in_body@),
{
    match headers::value(request, HEADER_APP_INSTANCE_ID) {
        Some(id) => id,
        None => in_body,
    }
}

/// Joins a room. The body has to name a device even where the headers name the one that joins.
pub fn join_room(
    config: &Config,
    registry: &mut Registry,
    request: &[Header],
    code: &str,
    in_body: &str,
    now_ns: i128,
) -> (result: RelayResult<RoomInfo>)
    requires
        old(registry).wf(),
    ensures
        final(registry).wf(),
        final(registry).settings() == old(registry).settings(),
        if !let_in(*config, headers::views(request@)) {
            &&& final(registry)@ == old(registry)@
            &&& registry::room_result(result) == Err::<RoomInfoView, RelayErrorView>(
                RelayErrorView::Unauthorized,
            )
        } else if text::trim(in_body@).len() == 0 {
            &&& final(registry)@ == old(registry)@
            &&& registry::room_result(result) == Err::<RoomInfoView, RelayErrorView>(
                RelayErrorView::MissingAppInstanceId,
            )
        } else {
            (final(registry)@, registry::room_result(result)) == old(registry)@.joined(
                code@,
                acting_device(headers::views(request@), in_body@),
                now_ns,
            )
        },
{
    if let Err(error) = check_auth(config, request) {
        return Err(error);
    }
    if text::trimmed_text(in_body).as_str().is_empty() {
        return Err(RelayError::MissingAppInstanceId);
    }
    registry.join_room(code, acting(request, in_body), now_ns)
}

/// Leaves a room.
pub fn leave_room(
    config: &Config,
    registry: &mut Registry,
    request: &[Header],
    code: &str,
    in_body: &str,
) -> (result: RelayResult<()>)
    requires
        old(registry).wf(),
    ensures
        final(registry).wf(),
        final(registry).settings() == old(registry).settings(),
        result is Ok <==> let_in(*config, headers::views(request@)),
        match result {
            Ok(()) => final(registry)@ == old(registry)@.left(
                code@,
                acting_device(headers::views(request@), in_body@),
            ),
            Err(error) => error@ == RelayErrorView::Unauthorized && final(registry)@ == old(
                registry,
            )@,
        },
{
    check_auth(config, request)?;
    registry.leave_room(code, acting(request, in_body));
    Ok(())
}

/// The path and the query of a request that is passed on.
pub open spec fn normal_path(path: Seq<char>, query: Option<Seq<char>>) -> Seq<char> {
    let rooted = if path.len() > 0 && path[0] == '/' {
        path
    } else {
        "/"@ + path
    };
    match query {
        Some(query) => rooted + "?"@ + query,
        None => rooted,
    }
}

/// The path and the query of a request that is passed on.
pub fn normalize_path(path: &str, query: Option<&str>) -> (result: String)
    ensures
        result@ == normal_path(path@, text::optional_str(query)),
{
    let mut result = if text::starts_with_char(path, '/') {
        path.to_owned()
    } else {
        "/".to_owned().concat(path)
    };
    if let Some(query) = query {
        result.append("?");
        result.append(query);
    }
    result
}

/// Where a request goes that is to be passed on.
#[derive(Debug)]
pub struct Destination {
    pub target: String,
    pub path: String,
}

/// Where a request goes whose path names the device.
pub fn proxy_path(
    config: &Config,
    request: &[Header],
    target: &str,
    path: &str,
    query: Option<&str>,
) -> (result: RelayResult<Destination>)
    ensures
        result is Ok <==> let_in(*config, headers::views(request@)),
        match result {
            Ok(destination) => {
                &&& destination.target@ == target@
                &&& destination.path@ == normal_path(path@, text::optional_str(query))
            },
            Err(error) => error@ == RelayErrorView::Unauthorized,
        },
{
    check_auth(config, request)?;
    Ok(Destination { target: target.to_owned(), path: normalize_path(path, query) })
}

/// Where a request goes whose headers name the device; they have to name the one it comes from too.
pub fn proxy_header_target(
    config: &Config,
    request: &[Header],
    path: &str,
    query: Option<&str>,
) -> (result: RelayResult<Destination>)
    ensures
        ({
            let views = headers::views(request@);
            if !let_in(*config, views) {
                result matches Err(error) && error@ == RelayErrorView::Unauthorized
            } else if proxy::target_of(views, None) is None {
                result matches Err(error) && error@ == RelayErrorView::BadRequest(
                    proxy::TARGET_MISSING@,
                )
            } else if headers::text_of(views, HEADER_APP_INSTANCE_ID@) is None {
                result matches Err(error) && error@ == RelayErrorView::MissingAppInstanceId
            } else {
                &&& result matches Ok(destination)
                &&& Some(destination.target@) == proxy::target_of(views, None)
                &&& destination.path@ == normal_path(path@, text::optional_str(query))
            }
        }),
{
    match check_auth(config, request) {
        Ok(()) => match resolve_target(request, None) {
            Ok(target) => match require_source_app_instance(request) {
                Ok(_) => Ok(Destination { target, path: normalize_path(path, query) }),
                Err(error) => Err(error),
            },
            Err(error) => Err(error),
        },
        Err(error) => Err(error),
    }
}

/// A path is passed on from its root, with its query behind it as it came.
pub proof fn law_normal_path(path: Seq<char>, query: Option<Seq<char>>)
    ensures
        ({
            let result = normal_path(path, query);
            let rooted = path.len() > 0 && path[0] == '/';
            let start = if rooted {
                0int
            } else {
                1int
            };
            let end = start + path.len();
            &&& result.len() >= 1
            &&& result[0] == '/'
            &&& result.subrange(start, end) == path
            &&& query is None ==> result.len() == end
            &&& query matches Some(query) ==> {
                &&& result.len() == end + 1 + query.len()
                &&& result[end] == '?'
                &&& result.skip(end + 1) == query
            }
        }),
{
    reveal_strlit("/");
    reveal_strlit("?");
    let result = normal_path(path, query);
    let start = if path.len() > 0 && path[0] == '/' {
        0int
    } else {
        1int
    };
    let end = start + path.len();
    assert(result.subrange(start, end) =~= path);
    if let Some(query) = query {
        assert(result.skip(end + 1) =~= query);
    }
}

/// The device that the headers name acts, and the one in the body only where they name none.
pub proof fn law_acting_device(request: Seq<HeaderView>, in_body: Seq<char>)
    ensures
        headers::text_of(request, "appInstanceId"@) matches Some(id) ==> acting_device(
            request,
            in_body,
        ) == id,
        headers::text_of(request, "appInstanceId"@) is None ==> acting_device(request, in_body)
            == in_body,
{
}

/// A request is let in exactly where no secret is asked for or its headers show the secret.
pub proof fn law_let_in(config: Config, request: Seq<HeaderView>)
    ensures
        let_in(config, request) <==> config.auth_token@.len() == 0 || auth::provided_secret(request)
            == Some(config.auth_token@),
{
}

} // verus!
