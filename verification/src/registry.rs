//! The devices that hold a tunnel, the requests that wait for them, and the rooms.
//!
//! Each function takes the time as an argument and hands back what is to be sent and to whom.
use std::sync::Arc;
use vstd::prelude::*;

use crate::clock;
use crate::config::Config;
use crate::error::{RelayError, RelayErrorView, RelayResult};
use crate::protocol;
use crate::protocol::{
    DevicePublicInfo, DevicePublicInfoView, HeaderList, RoomInfo, RoomInfoView, TunnelFrame,
    TunnelFrameView,
};
use crate::random;
use crate::table::Table;
use crate::text;

verus! {

/// How many members a room takes.
pub const ROOM_CAPACITY: usize = 32;

/// What an older tunnel of a device is told when a newer one takes its place.
pub const SESSION_REPLACED: &'static str = "session replaced by a new connection";

/// What a waiting request is told when its device goes.
pub const DEVICE_DISCONNECTED: &'static str = "device disconnected";

/// What a waiting request is told when nobody can answer it any more.
pub const CHANNEL_CLOSED: &'static str = "response channel closed";

/// The characters of a room code: none that is easily taken for another.
pub const ROOM_CODE_ALPHABET: &'static str = "ABCDEFGHJKLMNPQRSTUVWXYZ23456789";

/// A request that waits for its device's answer.
#[derive(Debug)]
pub struct PendingRequest {
    /// When it was sent, in nanoseconds after the Unix epoch.
    pub created_at: i128,
}

impl View for PendingRequest {
    type V = i128;

    open spec fn view(&self) -> i128 {
        self.created_at
    }
}

/// A device with an open tunnel.
pub struct DeviceSession {
    pub app_instance_id: String,
    pub session_id: String,
    pub device_name: Option<String>,
    pub app_version: Option<String>,
    pub sync_info_b64: Option<String>,
    pub last_seen_ms: i64,
    /// The requests that wait for the device, by their ids.
    pub pending: Table<String, PendingRequest>,
    pub room_code: Option<String>,
}

/// A [`DeviceSession`] with its texts by their characters.
#[verifier::ext_equal]
pub struct DeviceSessionView {
    pub app_instance_id: Seq<char>,
    pub session_id: Seq<char>,
    pub device_name: Option<Seq<char>>,
    pub app_version: Option<Seq<char>>,
    pub sync_info_b64: Option<Seq<char>>,
    pub last_seen_ms: i64,
    pub pending: Map<Seq<char>, i128>,
    pub room_code: Option<Seq<char>>,
}

impl View for DeviceSession {
    type V = DeviceSessionView;

    open spec fn view(&self) -> DeviceSessionView {
        DeviceSessionView {
            app_instance_id: self.app_instance_id@,
            session_id: self.session_id@,
            device_name: text::optional(self.device_name),
            app_version: text::optional(self.app_version),
            sync_info_b64: text::optional(self.sync_info_b64),
            last_seen_ms: self.last_seen_ms,
            pending: self.pending@,
            room_code: text::optional(self.room_code),
        }
    }
}

impl DeviceSessionView {
    /// What others may see of the device.
    pub open spec fn public(self) -> DevicePublicInfoView {
        DevicePublicInfoView {
            app_instance_id: self.app_instance_id,
            device_name: self.device_name,
            app_version: self.app_version,
            online: true,
            last_seen_ms: self.last_seen_ms,
        }
    }

    /// The device, seen at that time.
    pub open spec fn touched(self, now_ms: i64) -> DeviceSessionView {
        DeviceSessionView { last_seen_ms: now_ms, ..self }
    }
}

impl DeviceSession {
    /// Notes that the device was seen at that time.
    pub fn touch(&mut self, now_ms: i64)
        ensures
            final(self)@ == old(self)@.touched(now_ms),
    {
        self.last_seen_ms = now_ms;
    }

    /// What others may see of the device.
    pub fn public(&self) -> (info: DevicePublicInfo)
        ensures
            info@ == self@.public(),
    {
        DevicePublicInfo {
            app_instance_id: self.app_instance_id.clone(),
            device_name: text::copy_optional(&self.device_name),
            app_version: text::copy_optional(&self.app_version),
            online: true,
            last_seen_ms: self.last_seen_ms,
        }
    }
}

/// A room: devices that found each other by its code.
#[derive(Debug)]
pub struct Room {
    pub code: String,
    /// The ids of the members, in the order in which they came.
    pub members: Vec<String>,
    /// In nanoseconds after the Unix epoch.
    pub created_at: i128,
    /// In nanoseconds after the Unix epoch.
    pub expires_at: i128,
}

/// A [`Room`] with its texts by their characters.
#[verifier::ext_equal]
pub struct RoomView {
    pub code: Seq<char>,
    pub members: Seq<Seq<char>>,
    pub created_at: i128,
    pub expires_at: i128,
}

impl View for Room {
    type V = RoomView;

    open spec fn view(&self) -> RoomView {
        RoomView {
            code: self.code@,
            members: text::texts(self.members@),
            created_at: self.created_at,
            expires_at: self.expires_at,
        }
    }
}

/// A frame for the tunnel of a session.
#[derive(Debug)]
pub struct Outgoing {
    pub session_id: String,
    pub frame: TunnelFrame,
}

/// An answer to a request that waits.
#[derive(Debug)]
pub struct Reply {
    pub request_id: String,
    pub frame: TunnelFrame,
}

/// What came of a request that was sent to a device.
#[derive(Debug)]
pub enum RequestOutcome {
    /// The device's tunnel took no more frames.
    NotSent,
    /// The answer came.
    Answered(TunnelFrame),
    /// Nobody is left to answer.
    Closed,
    /// The time was up.
    TimedOut,
}

/// What came of the registration of a device.
#[derive(Debug)]
pub struct Registration {
    pub session_id: String,
    /// What the session before it is told, if there was one.
    pub replaced: Option<Outgoing>,
}

/// A request that was taken on, and the frame that carries it to the device.
#[derive(Debug)]
pub struct StartedRequest {
    pub request_id: String,
    pub outgoing: Outgoing,
}

/// The registry's contents with all texts by their characters.
#[verifier::ext_equal]
pub struct RegistryView {
    pub devices: Map<Seq<char>, DeviceSessionView>,
    pub rooms: Map<Seq<char>, RoomView>,
}

/// The members of a room with one more; a member stays one.
pub open spec fn with_member(members: Seq<Seq<char>>, id: Seq<char>) -> Seq<Seq<char>> {
    if members.contains(id) {
        members
    } else {
        members.push(id)
    }
}

/// What others may see of those members that are online.
pub open spec fn online_members(
    members: Seq<Seq<char>>,
    devices: Map<Seq<char>, DeviceSessionView>,
) -> Seq<DevicePublicInfoView>
    decreases members.len(),
{
    if members.len() == 0 {
        Seq::empty()
    } else {
        let earlier = online_members(members.drop_last(), devices);
        if devices.contains_key(members.last()) {
            earlier.push(devices[members.last()].public())
        } else {
            earlier
        }
    }
}

/// Whether a device last seen then has been silent for too long.
pub open spec fn is_stale(last_seen_ms: i64, now_ms: i64, ttl_secs: u64) -> bool {
    now_ms - last_seen_ms > ((ttl_secs * 1000) as i64)
}

impl RegistryView {
    /// What holds of every registry: devices and rooms stand under their own names, no device has
    /// more requests waiting than allowed, no room has more members than it takes, and none twice.
    pub open spec fn wf(self, max_inflight: usize) -> bool {
        &&& forall|id: Seq<char>| #[trigger]
            self.devices.contains_key(id) ==> {
                &&& self.devices[id].app_instance_id == id
                &&& self.devices[id].pending.dom().finite()
                &&& self.devices[id].pending.dom().len() <= max_inflight
                &&& self.devices[id].room_code is None
            }
        &&& forall|code: Seq<char>| #[trigger]
            self.rooms.contains_key(code) ==> {
                &&& self.rooms[code].code == code
                &&& self.rooms[code].members.no_duplicates()
                &&& self.rooms[code].members.len() <= ROOM_CAPACITY
            }
    }

    /// The registry with this device in place of what it held under the device's id.
    pub open spec fn with_device(self, device: DeviceSessionView) -> RegistryView {
        RegistryView {
            devices: self.devices.insert(device.app_instance_id, device),
            ..self
        }
    }

    /// Whether the device is online with just that session.
    pub open spec fn holds_session(self, id: Seq<char>, session_id: Seq<char>) -> bool {
        self.devices.contains_key(id) && self.devices[id].session_id == session_id
    }

    /// The registry without the device, if it is online with just that session.
    pub open spec fn without_session(self, id: Seq<char>, session_id: Seq<char>) -> RegistryView {
        if self.holds_session(id, session_id) {
            RegistryView { devices: self.devices.remove(id), ..self }
        } else {
            self
        }
    }

    /// The requests that wait for the device's session.
    pub open spec fn waiting_for(self, id: Seq<char>, session_id: Seq<char>) -> Set<Seq<char>> {
        if self.holds_session(id, session_id) {
            self.devices[id].pending.dom()
        } else {
            Set::empty()
        }
    }

    /// The registry after the device was seen at that time.
    pub open spec fn with_seen(self, id: Seq<char>, now_ms: i64) -> RegistryView {
        if self.devices.contains_key(id) {
            self.with_device(self.devices[id].touched(now_ms))
        } else {
            self
        }
    }

    /// Whether that request waits for the device.
    pub open spec fn waits(self, id: Seq<char>, request_id: Seq<char>) -> bool {
        self.devices.contains_key(id) && self.devices[id].pending.contains_key(request_id)
    }

    /// The registry without the request among those that wait for the device's session.
    pub open spec fn without_request(
        self,
        id: Seq<char>,
        session_id: Seq<char>,
        request_id: Seq<char>,
    ) -> RegistryView {
        if self.holds_session(id, session_id) {
            let device = self.devices[id];
            self.with_device(
                DeviceSessionView { pending: device.pending.remove(request_id), ..device },
            )
        } else {
            self
        }
    }

    /// What comes of a frame from a device that may answer a request: the registry after it, and
    /// the request that is answered.
    pub open spec fn completed(self, id: Seq<char>, frame: TunnelFrameView) -> (
        RegistryView,
        Option<(Seq<char>, TunnelFrameView)>,
    ) {
        match frame {
            TunnelFrameView::HttpResponse { request_id, .. } if self.waits(id, request_id) => (
                self.without_request(id, self.devices[id].session_id, request_id),
                Some((request_id, frame)),
            ),
            _ => (self, None),
        }
    }

    /// The registry after a device left a room, which goes with its last member.
    pub open spec fn left(self, code: Seq<char>, id: Seq<char>) -> RegistryView {
        if !self.rooms.contains_key(code) {
            self
        } else {
            let members = text::without(self.rooms[code].members, id);
            RegistryView {
                rooms: if members.len() == 0 {
                    self.rooms.remove(code)
                } else {
                    self.rooms.insert(code, RoomView { members, ..self.rooms[code] })
                },
                ..self
            }
        }
    }

    /// The registry with those rooms alone whose time is not up.
    pub open spec fn with_live_rooms(self, now_ns: i128) -> RegistryView {
        RegistryView {
            rooms: self.rooms.restrict(
                Set::new(
                    |code: Seq<char>|
                        self.rooms.contains_key(code) && self.rooms[code].expires_at > now_ns,
                ),
            ),
            ..self
        }
    }

    /// The registry with those devices alone that were seen lately.
    pub open spec fn with_live_devices(self, now_ms: i64, ttl_secs: u64) -> RegistryView {
        RegistryView {
            devices: self.devices.restrict(
                Set::new(
                    |id: Seq<char>|
                        self.devices.contains_key(id) && !is_stale(
                            self.devices[id].last_seen_ms,
                            now_ms,
                            ttl_secs,
                        ),
                ),
            ),
            ..self
        }
    }

    /// The devices that were not seen lately and that the request waits for.
    pub open spec fn stale_waiting(
        self,
        now_ms: i64,
        ttl_secs: u64,
        request_id: Seq<char>,
    ) -> Set<Seq<char>> {
        self.devices.dom().filter(
            |id: Seq<char>|
                is_stale(self.devices[id].last_seen_ms, now_ms, ttl_secs)
                    && self.devices[id].pending.contains_key(request_id),
        )
    }

    /// The registry with a room opened at that time, to stand for that many seconds.
    pub open spec fn with_new_room(
        self,
        code: Seq<char>,
        now_ns: i128,
        ttl_secs: u64,
    ) -> RegistryView {
        RegistryView {
            rooms: self.rooms.insert(
                code,
                RoomView {
                    code,
                    members: Seq::empty(),
                    created_at: now_ns,
                    expires_at: (now_ns + ttl_secs * 1_000_000_000) as i128,
                },
            ),
            ..self
        }
    }

    /// What a member is told of a room.
    pub open spec fn info(self, code: Seq<char>) -> RoomInfoView {
        RoomInfoView {
            room_code: code,
            members: online_members(self.rooms[code].members, self.devices),
            expires_at_ms: clock::millis_of(self.rooms[code].expires_at),
        }
    }

    /// What comes of joining a room at that time: the registry after it, and the answer.
    pub open spec fn joined(self, code: Seq<char>, id: Seq<char>, now_ns: i128) -> (
        RegistryView,
        Result<RoomInfoView, RelayErrorView>,
    ) {
        let live = self.with_live_rooms(now_ns);
        if !live.rooms.contains_key(code) {
            (live, Err(RelayErrorView::RoomNotFound))
        } else if live.rooms[code].members.len() >= ROOM_CAPACITY {
            (live, Err(RelayErrorView::RoomFull))
        } else {
            let room = live.rooms[code];
            let after = RegistryView {
                rooms: live.rooms.insert(
                    code,
                    RoomView { members: with_member(room.members, id), ..room },
                ),
                ..live
            };
            (after, Ok(after.info(code)))
        }
    }
}

/// A session that begins now.
pub open spec fn new_session(
    session_id: Seq<char>,
    app_instance_id: Seq<char>,
    device_name: Option<Seq<char>>,
    app_version: Option<Seq<char>>,
    sync_info_b64: Option<Seq<char>>,
    now_ms: i64,
) -> DeviceSessionView {
    DeviceSessionView {
        app_instance_id,
        session_id,
        device_name,
        app_version,
        sync_info_b64,
        last_seen_ms: now_ms,
        pending: Map::empty(),
        room_code: None,
    }
}

/// Whether the notice tells the session that the device had, and none where it had none.
pub open spec fn older_is_told(
    before: RegistryView,
    id: Seq<char>,
    notice: Option<Outgoing>,
) -> bool {
    match notice {
        Some(outgoing) => {
            &&& before.devices.contains_key(id)
            &&& outgoing.session_id@ == before.devices[id].session_id
            &&& outgoing.frame@ == (TunnelFrameView::Error { message: SESSION_REPLACED@ })
        },
        None => !before.devices.contains_key(id),
    }
}

/// A reply with its texts by their characters.
pub open spec fn reply_view(reply: Option<Reply>) -> Option<(Seq<char>, TunnelFrameView)> {
    match reply {
        Some(reply) => Some((reply.request_id@, reply.frame@)),
        None => None,
    }
}

/// Whether the replies tell exactly these requests, each once, that their device is gone.
pub open spec fn all_told(replies: Seq<Reply>, requests: Set<Seq<char>>) -> bool {
    &&& forall|i: int|
        0 <= i < replies.len() ==> (#[trigger] replies[i]).frame@ == (TunnelFrameView::Error {
            message: DEVICE_DISCONNECTED@,
        })
    &&& reply_ids(replies).no_duplicates()
    &&& reply_ids(replies).to_set() == requests
}

/// The requests that are answered, in order.
pub open spec fn reply_ids(replies: Seq<Reply>) -> Seq<Seq<char>> {
    replies.map_values(|reply: Reply| reply.request_id@)
}

/// A result with its texts by their characters.
pub open spec fn room_result(result: RelayResult<RoomInfo>) -> Result<
    RoomInfoView,
    RelayErrorView,
> {
    match result {
        Ok(info) => Ok(info@),
        Err(error) => Err(error@),
    }
}

/// The devices that hold a tunnel, and the rooms.
pub struct Registry {
    config: Arc<Config>,
    devices: Table<String, DeviceSession>,
    rooms: Table<String, Room>,
}

impl View for Registry {
    type V = RegistryView;

    closed spec fn view(&self) -> RegistryView {
        RegistryView { devices: self.devices@, rooms: self.rooms@ }
    }
}

impl Registry {
    /// The settings that the registry keeps to.
    pub closed spec fn settings(&self) -> Config {
        *self.config
    }

    /// The ids of the devices in the order in which they are listed.
    pub closed spec fn device_order(&self) -> Seq<Seq<char>> {
        self.devices.keys()
    }

    /// What holds of every registry.
    pub open spec fn wf(&self) -> bool {
        self@.wf(self.settings().max_inflight)
    }

    /// The registry without a device and without a room.
    pub fn new(config: Arc<Config>) -> (registry: Self)
        ensures
            registry.wf(),
            registry.settings() == *config,
            registry@ == (RegistryView { devices: Map::empty(), rooms: Map::empty() }),
    {
        Registry { config, devices: Table::new(), rooms: Table::new() }
    }

    /// How many devices are online.
    pub fn online_count(&self) -> (count: usize)
        ensures
            count == self@.devices.dom().len(),
            self@.devices.dom().finite(),
    {
        self.devices.len()
    }

    /// How many rooms there are.
    pub fn room_count(&self) -> (count: usize)
        ensures
            count == self@.rooms.dom().len(),
            self@.rooms.dom().finite(),
    {
        self.rooms.len()
    }

    /// What others may see of each device that is online.
    pub fn list_devices(&self) -> (infos: Vec<DevicePublicInfo>)
        ensures
            self.device_order().no_duplicates(),
            self.device_order().to_set() == self@.devices.dom(),
            infos@.len() == self.device_order().len(),
            forall|i: int|
                0 <= i < infos@.len() ==> (#[trigger] infos@[i])@
                    == self@.devices[self.device_order()[i]].public(),
    {
        let mut infos: Vec<DevicePublicInfo> = Vec::new();
        let count = self.devices.len();
        let mut i: usize = 0;
        while i < count
            invariant
                i <= count,
                count == self.devices.keys().len(),
                infos@.len() == i,
                forall|j: int|
                    0 <= j < infos@.len() ==> (#[trigger] infos@[j])@
                        == self.devices@[self.devices.keys()[j]].public(),
            decreases count - i,
        {
            infos.push(self.devices.entry(i).1.public());
            i += 1;
        }
        infos
    }

    /// The session of a device that is online.
    pub fn get_device(&self, app_instance_id: &str) -> (session: Option<&DeviceSession>)
        ensures
            match session {
                Some(session) => self@.devices.contains_key(app_instance_id@) && session@
                    == self@.devices[app_instance_id@],
                None => !self@.devices.contains_key(app_instance_id@),
            },
    {
        self.devices.get(app_instance_id)
    }

    /// Takes a device in under that session; an older session of the same device gives way and is
    /// told so.
    pub fn register_session(
        &mut self,
        session_id: String,
        app_instance_id: String,
        device_name: Option<String>,
        app_version: Option<String>,
        sync_info_b64: Option<String>,
        now_ms: i64,
    ) -> (replaced: Option<Outgoing>)
        requires
            old(self).wf(),
        ensures
            final(self).wf(),
            final(self).settings() == old(self).settings(),
            final(self)@ == old(self)@.with_device(
                new_session(
                    session_id@,
                    app_instance_id@,
                    text::optional(device_name),
                    text::optional(app_version),
                    text::optional(sync_info_b64),
                    now_ms,
                ),
            ),
            older_is_told(old(self)@, app_instance_id@, replaced),
    {
        let ghost before = self@;
        let replaced = match self.devices.remove(app_instance_id.as_str()) {
            Some(older) => {
                let frame = TunnelFrame::Error { message: SESSION_REPLACED.to_owned() };
                Some(Outgoing { session_id: older.session_id, frame })
            },
            None => None,
        };
        let session = DeviceSession {
            app_instance_id: app_instance_id.clone(),
            session_id,
            device_name,
            app_version,
            sync_info_b64,
            last_seen_ms: now_ms,
            pending: Table::new(),
            room_code: None,
        };
        assert(session@.pending.dom() =~= Set::empty());
        self.devices.insert(app_instance_id, session);
        assert(self@.rooms == before.rooms && before == old(self)@);
        replaced
    }

    /// Takes a device in under a new session.
    pub fn register_device(
        &mut self,
        app_instance_id: String,
        device_name: Option<String>,
        app_version: Option<String>,
        sync_info_b64: Option<String>,
        now_ms: i64,
    ) -> (registration: Registration)
        requires
            old(self).wf(),
        ensures
            final(self).wf(),
            final(self).settings() == old(self).settings(),
            random::is_uuid_text(registration.session_id@),
            final(self)@ == old(self)@.with_device(
                new_session(
                    registration.session_id@,
                    app_instance_id@,
                    text::optional(device_name),
                    text::optional(app_version),
                    text::optional(sync_info_b64),
                    now_ms,
                ),
            ),
            older_is_told(old(self)@, app_instance_id@, registration.replaced),
    {
        let session_id = random::new_uuid();
        let replaced = self.register_session(
            session_id.clone(),
            app_instance_id,
            device_name,
            app_version,
            sync_info_b64,
            now_ms,
        );
        Registration { session_id, replaced }
    }

    /// Notes that a device went whose tunnel had that session. The requests that wait for it are
    /// told. A newer session of the same device stays.
    pub fn unregister_device(&mut self, app_instance_id: &str, session_id: &str) -> (replies: Vec<
        Reply,
    >)
        requires
            old(self).wf(),
        ensures
            final(self).wf(),
            final(self).settings() == old(self).settings(),
            final(self)@ == old(self)@.without_session(app_instance_id@, session_id@),
            all_told(replies@, old(self)@.waiting_for(app_instance_id@, session_id@)),
    {
        let mut replies: Vec<Reply> = Vec::new();
        assert(reply_ids(replies@).to_set() =~= Set::empty());
        let matches = match self.devices.get(app_instance_id) {
            Some(session) => text::same_text(session.session_id.as_str(), session_id),
            None => false,
        };
        if !matches {
            return replies;
        }
        if let Some(session) = self.devices.remove(app_instance_id) {
            let count = session.pending.len();
            let ghost keys = session.pending.keys();
            let mut i: usize = 0;
            while i < count
                invariant
                    i <= count,
                    count == keys.len(),
                    keys == session.pending.keys(),
                    replies@.len() == i,
                    reply_ids(replies@) == keys.take(i as int),
                    forall|j: int|
                        0 <= j < replies@.len() ==> (#[trigger] replies@[j]).frame@ == (
                        TunnelFrameView::Error { message: DEVICE_DISCONNECTED@ }),
                decreases count - i,
            {
                let request_id = session.pending.entry(i).0.clone();
                let frame = TunnelFrame::Error { message: DEVICE_DISCONNECTED.to_owned() };
                let ghost before = replies@;
                replies.push(Reply { request_id, frame });
                assert(reply_ids(replies@) =~= reply_ids(before).push(request_id@));
                i += 1;
                assert(keys.take(i as int) =~= keys.take(i - 1).push(keys[i - 1]));
            }
            assert(keys.take(i as int) =~= keys);
            if let Some(code) = &session.room_code {
                self.leave_room(code.as_str(), app_instance_id);
            }
        }
        replies
    }

    /// Notes that a device was seen at that time, if it is online.
    pub fn touch_device(&mut self, app_instance_id: &str, now_ms: i64)
        requires
            old(self).wf(),
        ensures
            final(self).wf(),
            final(self).settings() == old(self).settings(),
            final(self)@ == old(self)@.with_seen(app_instance_id@, now_ms),
    {
        if let Some(mut session) = self.devices.remove(app_instance_id) {
            session.touch(now_ms);
            self.devices.insert(app_instance_id.to_owned(), session);
        }
        assert(self@.devices =~= old(self)@.with_seen(app_instance_id@, now_ms).devices);
    }

    /// Hands on a device's answer to the request that waits for it. Any other frame, and an answer
    /// that nobody waits for, changes nothing.
    pub fn complete_request(&mut self, app_instance_id: &str, frame: TunnelFrame) -> (reply: Option<
        Reply,
    >)
        requires
            old(self).wf(),
        ensures
            final(self).wf(),
            final(self).settings() == old(self).settings(),
            (final(self)@, reply_view(reply)) == old(self)@.completed(app_instance_id@, frame@),
    {
        let request_id = match &frame {
            TunnelFrame::HttpResponse { request_id, .. } => request_id.clone(),
            _ => return None,
        };
        let ghost before = self@;
        match self.devices.remove(app_instance_id) {
            Some(mut session) => {
                let pending = session.pending.remove(request_id.as_str());
                self.devices.insert(app_instance_id.to_owned(), session);
                match pending {
                    Some(_) => {
                        assert(self@.devices =~= before.without_request(
                            app_instance_id@,
                            before.devices[app_instance_id@].session_id,
                            request_id@,
                        ).devices);
                        Some(Reply { request_id, frame })
                    },
                    None => {
                        assert(session@.pending =~= before.devices[app_instance_id@].pending);
                        assert(self@.devices =~= before.devices);
                        None
                    },
                }
            },
            None => {
                assert(self@.devices =~= before.devices);
                None
            },
        }
    }

    /// Takes on a request for a device under that id, if the device is online and not too many
    /// requests wait for it.
    pub fn start_request(
        &mut self,
        request_id: String,
        target_app_instance_id: &str,
        method: String,
        path: String,
        headers: HeaderList,
        body_b64: Option<String>,
        now_ns: i128,
    ) -> (started: RelayResult<StartedRequest>)
        requires
            old(self).wf(),
        ensures
            final(self).wf(),
            final(self).settings() == old(self).settings(),
            request_taken(
                old(self)@,
                final(self)@,
                old(self).settings().max_inflight,
                target_app_instance_id@,
                now_ns,
                started,
            ),
            started matches Ok(started) ==> {
                &&& started.request_id@ == request_id@
                &&& started.outgoing.frame@ == (TunnelFrameView::HttpRequest {
                    request_id: request_id@,
                    method: method@,
                    path: path@,
                    headers: protocol::header_list(headers@),
                    body_b64: text::optional(body_b64),
                })
            },
    {
        let ghost before = self@;
        match self.devices.remove(target_app_instance_id) {
            None => {
                assert(self@.devices =~= before.devices);
                Err(RelayError::DeviceOffline(target_app_instance_id.to_owned()))
            },
            Some(mut session) => {
                if session.pending.len() >= self.config.max_inflight {
                    self.devices.insert(target_app_instance_id.to_owned(), session);
                    assert(self@.devices =~= before.devices);
                    return Err(RelayError::DeviceBusy);
                }
                session.touch(clock::system_time_ms(now_ns));
                session.pending.insert(request_id.clone(), PendingRequest { created_at: now_ns });
                let session_id = session.session_id.clone();
                self.devices.insert(target_app_instance_id.to_owned(), session);
                assert(self@.devices =~= before.with_device(session@).devices);
                let frame = TunnelFrame::HttpRequest {
                    request_id: request_id.clone(),
                    method,
                    path,
                    headers,
                    body_b64,
                };
                Ok(StartedRequest { request_id, outgoing: Outgoing { session_id, frame } })
            },
        }
    }

    /// Takes on a request for a device under a new id. What is then to be waited for, and what is
    /// made of it, [`Registry::finish_request`] says.
    pub fn proxy_http(
        &mut self,
        target_app_instance_id: &str,
        method: String,
        path: String,
        headers: HeaderList,
        body_b64: Option<String>,
        now_ns: i128,
    ) -> (started: RelayResult<StartedRequest>)
        requires
            old(self).wf(),
        ensures
            final(self).wf(),
            final(self).settings() == old(self).settings(),
            request_taken(
                old(self)@,
                final(self)@,
                old(self).settings().max_inflight,
                target_app_instance_id@,
                now_ns,
                started,
            ),
            started matches Ok(started) ==> {
                &&& random::is_uuid_text(started.request_id@)
                &&& started.outgoing.frame@ == (TunnelFrameView::HttpRequest {
                    request_id: started.request_id@,
                    method: method@,
                    path: path@,
                    headers: protocol::header_list(headers@),
                    body_b64: text::optional(body_b64),
                })
            },
    {
        let request_id = random::new_uuid();
        self.start_request(
            request_id,
            target_app_instance_id,
            method,
            path,
            headers,
            body_b64,
            now_ns,
        )
    }

    /// Makes the caller's answer out of what came of a request. One that was not answered no longer
    /// waits.
    pub fn finish_request(
        &mut self,
        target_app_instance_id: &str,
        session_id: &str,
        request_id: &str,
        outcome: RequestOutcome,
    ) -> (answer: RelayResult<TunnelFrame>)
        requires
            old(self).wf(),
        ensures
            final(self).wf(),
            final(self).settings() == old(self).settings(),
            final(self)@ == (if outcome is Answered {
                old(self)@
            } else {
                old(self)@.without_request(target_app_instance_id@, session_id@, request_id@)
            }),
            match outcome {
                RequestOutcome::Answered(frame) => answer == Ok::<TunnelFrame, RelayError>(frame),
                RequestOutcome::NotSent => answer matches Err(error) && error@
                    == RelayErrorView::DeviceOffline(target_app_instance_id@),
                RequestOutcome::Closed => answer matches Err(error) && error@
                    == RelayErrorView::Internal(CHANNEL_CLOSED@),
                RequestOutcome::TimedOut => answer matches Err(error) && error@
                    == RelayErrorView::ProxyTimeout,
            },
    {
        let error = match outcome {
            RequestOutcome::Answered(frame) => return Ok(frame),
            RequestOutcome::NotSent => RelayError::DeviceOffline(target_app_instance_id.to_owned()),
            RequestOutcome::Closed => RelayError::Internal(CHANNEL_CLOSED.to_owned()),
            RequestOutcome::TimedOut => RelayError::ProxyTimeout,
        };
        let ghost before = self@;
        if let Some(mut session) = self.devices.remove(target_app_instance_id) {
            if text::same_text(session.session_id.as_str(), session_id) {
                session.pending.remove(request_id);
                proof {
                    lemma_smaller_domain(
                        before.devices[target_app_instance_id@].pending,
                        request_id@,
                    );
                }
            }
            self.devices.insert(target_app_instance_id.to_owned(), session);
        }
        assert(self@.devices =~= before.without_request(
            target_app_instance_id@,
            session_id@,
            request_id@,
        ).devices);
        Err(error)
    }

    /// Leaves a room, which goes with its last member.
    pub fn leave_room(&mut self, room_code: &str, app_instance_id: &str)
        requires
            old(self).wf(),
        ensures
            final(self).wf(),
            final(self).settings() == old(self).settings(),
            final(self)@ == old(self)@.left(room_code@, app_instance_id@),
    {
        let ghost before = self@;
        if let Some(mut room) = self.rooms.remove(room_code) {
            proof {
                text::lemma_without(before.rooms[room_code@].members, app_instance_id@);
            }
            room.members = text::list_without(&room.members, app_instance_id);
            assert(text::texts(room.members@).len() == room.members@.len());
            if room.members.len() > 0 {
                self.rooms.insert(room_code.to_owned(), room);
            }
        }
        assert(self@.rooms =~= before.left(room_code@, app_instance_id@).rooms);
    }

    /// Opens a room without members under that code.
    pub fn open_room(&mut self, code: String, now_ns: i128) -> (info: RoomInfo)
        requires
            old(self).wf(),
            now_ns + old(self).settings().room_ttl_secs * 1_000_000_000 <= i128::MAX,
        ensures
            final(self).wf(),
            final(self).settings() == old(self).settings(),
            final(self)@ == old(self)@.with_new_room(
                code@,
                now_ns,
                old(self).settings().room_ttl_secs,
            ),
            info@ == final(self)@.info(code@),
    {
        let expires_at = now_ns + self.config.room_ttl_secs as i128 * 1_000_000_000;
        let members: Vec<String> = Vec::new();
        assert(text::texts(members@) =~= Seq::empty());
        let room = Room { code: code.clone(), members, created_at: now_ns, expires_at };
        let ghost before = self@;
        self.rooms.insert(code.clone(), room);
        assert(self@.rooms =~= before.rooms.insert(code@, room@));
        assert(forall|other: Seq<char>|
            other != code@ && #[trigger] self@.rooms.contains_key(other)
                ==> before.rooms.contains_key(other));
        let members: Vec<DevicePublicInfo> = Vec::new();
        assert(protocol::device_views(members@) =~= Seq::empty());
        RoomInfo { room_code: code, members, expires_at_ms: clock::system_time_ms(expires_at) }
    }

    /// Opens a room without members under a new code.
    pub fn create_room(&mut self, now_ns: i128) -> (info: RoomInfo)
        requires
            old(self).wf(),
            now_ns + old(self).settings().room_ttl_secs * 1_000_000_000 <= i128::MAX,
        ensures
            final(self).wf(),
            final(self).settings() == old(self).settings(),
            is_room_code(info.room_code@),
            final(self)@ == old(self)@.with_new_room(
                info.room_code@,
                now_ns,
                old(self).settings().room_ttl_secs,
            ),
            info@ == final(self)@.info(info.room_code@),
    {
        let code = generate_room_code();
        self.open_room(code, now_ns)
    }

    fn online_of(&self, members: &Vec<String>) -> (infos: Vec<DevicePublicInfo>)
        ensures
            protocol::device_views(infos@) == online_members(
                text::texts(members@),
                self@.devices,
            ),
    {
        let mut infos: Vec<DevicePublicInfo> = Vec::new();
        let ghost all = text::texts(members@);
        let mut i: usize = 0;
        assert(all.take(0) =~= Seq::empty());
        assert(protocol::device_views(infos@) =~= Seq::empty());
        while i < members.len()
            invariant
                i <= members@.len(),
                all == text::texts(members@),
                protocol::device_views(infos@) == online_members(
                    all.take(i as int),
                    self@.devices,
                ),
            decreases members@.len() - i,
        {
            let ghost before = infos@;
            if let Some(session) = self.devices.get(members[i].as_str()) {
                infos.push(session.public());
                assert(protocol::device_views(infos@) =~= protocol::device_views(before).push(
                    session@.public(),
                ));
            }
            i += 1;
            assert(all.take(i as int).drop_last() =~= all.take(i - 1));
        }
        assert(all.take(i as int) =~= all);
        infos
    }

    /// Joins a room at that time, once the rooms whose time is up are gone.
    pub fn join_room(&mut self, room_code: &str, app_instance_id: &str, now_ns: i128) -> (joined:
        RelayResult<RoomInfo>)
        requires
            old(self).wf(),
        ensures
            final(self).wf(),
            final(self).settings() == old(self).settings(),
            (final(self)@, room_result(joined)) == old(self)@.joined(
                room_code@,
                app_instance_id@,
                now_ns,
            ),
    {
        self.gc_rooms(now_ns);
        let ghost live = self@;
        match self.rooms.remove(room_code) {
            None => {
                assert(self@.rooms =~= live.rooms);
                Err(RelayError::RoomNotFound)
            },
            Some(mut room) => {
                let ghost members = text::texts(room.members@);
                assert(members.len() == room.members@.len());
                if room.members.len() >= ROOM_CAPACITY {
                    self.rooms.insert(room_code.to_owned(), room);
                    assert(self@.rooms =~= live.rooms);
                    return Err(RelayError::RoomFull);
                }
                if !text::has_text(&room.members, app_instance_id) {
                    room.members.push(app_instance_id.to_owned());
                    assert(text::texts(room.members@) =~= members.push(app_instance_id@));
                }
                let info = RoomInfo {
                    room_code: room_code.to_owned(),
                    members: self.online_of(&room.members),
                    expires_at_ms: clock::system_time_ms(room.expires_at),
                };
                proof {
                    lemma_with_member(members, app_instance_id@);
                }
                self.rooms.insert(room_code.to_owned(), room);
                assert(self@.rooms =~= live.rooms.insert(room_code@, room@));
                Ok(info)
            },
        }
    }

    /// What there is to know of a room at that time, once the rooms whose time is up are gone.
    pub fn room_info(&mut self, room_code: &str, now_ns: i128) -> (info: RelayResult<RoomInfo>)
        requires
            old(self).wf(),
        ensures
            final(self).wf(),
            final(self).settings() == old(self).settings(),
            final(self)@ == old(self)@.with_live_rooms(now_ns),
            (room_result(info) == if final(self)@.rooms.contains_key(room_code@) {
                Ok::<RoomInfoView, RelayErrorView>(final(self)@.info(room_code@))
            } else {
                Err::<RoomInfoView, RelayErrorView>(RelayErrorView::RoomNotFound)
            }),
    {
        self.gc_rooms(now_ns);
        match self.rooms.get(room_code) {
            None => Err(RelayError::RoomNotFound),
            Some(room) => Ok(
                RoomInfo {
                    room_code: room_code.to_owned(),
                    members: self.online_of(&room.members),
                    expires_at_ms: clock::system_time_ms(room.expires_at),
                },
            ),
        }
    }

    /// Closes the rooms whose time is up.
    pub fn gc_rooms(&mut self, now_ns: i128)
        requires
            old(self).wf(),
        ensures
            final(self).wf(),
            final(self).settings() == old(self).settings(),
            final(self)@ == old(self)@.with_live_rooms(now_ns),
    {
        let mut expired: Vec<String> = Vec::new();
        let count = self.rooms.len();
        let ghost keys = self.rooms.keys();
        let ghost before = self@;
        let mut i: usize = 0;
        while i < count
            invariant
                i <= count,
                count == keys.len(),
                keys == self.rooms.keys(),
                before == self@,
                forall|code: Seq<char>| #[trigger]
                    text::texts(expired@).contains(code) <==> keys.take(i as int).contains(code)
                        && before.rooms[code].expires_at <= now_ns,
            decreases count - i,
        {
            let entry = self.rooms.entry(i);
            let ghost listed = text::texts(expired@);
            let ghost earlier = keys.take(i as int);
            if entry.1.expires_at <= now_ns {
                expired.push(entry.0.clone());
                proof {
                    assert(text::texts(expired@) =~= listed.push(entry.0@));
                    lemma_push_contains(listed, entry.0@);
                }
            }
            i += 1;
            proof {
                assert(keys.take(i as int) =~= earlier.push(keys[i - 1]));
                lemma_push_contains(earlier, keys[i - 1]);
            }
        }
        assert(keys.take(i as int) =~= keys);
        self.rooms.remove_all(&expired);
        assert(expired@.map_values(|key: String| key@) =~= text::texts(expired@));
        assert forall|code: Seq<char>| #[trigger] before.rooms.contains_key(
            code,
        ) implies keys.contains(code) by {
            assert(keys.to_set().contains(code));
        }
        assert(self@.rooms =~= before.with_live_rooms(now_ns).rooms);
    }

    /// Lets go of the devices that have been silent for too long. The requests that wait for them
    /// are told.
    pub fn gc_stale_devices(&mut self, now_ms: i64) -> (replies: Vec<Reply>)
        requires
            old(self).wf(),
        ensures
            final(self).wf(),
            final(self).settings() == old(self).settings(),
            final(self)@ == old(self)@.with_live_devices(
                now_ms,
                old(self).settings().device_ttl_secs,
            ),
            forall|i: int|
                0 <= i < replies@.len() ==> (#[trigger] replies@[i]).frame@ == (
                TunnelFrameView::Error { message: DEVICE_DISCONNECTED@ }),
            forall|request_id: Seq<char>| #[trigger]
                reply_ids(replies@).contains(request_id) <==> exists|id: Seq<char>|
                    {
                        &&& #[trigger] old(self)@.devices.contains_key(id)
                        &&& is_stale(
                            old(self)@.devices[id].last_seen_ms,
                            now_ms,
                            old(self).settings().device_ttl_secs,
                        )
                        &&& old(self)@.devices[id].pending.contains_key(request_id)
                    },
            forall|request_id: Seq<char>| #[trigger]
                reply_ids(replies@).to_multiset().count(request_id) == old(self)@.stale_waiting(
                    now_ms,
                    old(self).settings().device_ttl_secs,
                    request_id,
                ).len(),
    {
        #[verifier::truncate]
        let ttl_ms = self.config.device_ttl() as i64;
        let ghost ttl_secs = self.config.device_ttl_secs;
        let ghost before = self@;
        let mut stale: Vec<(String, String)> = Vec::new();
        let count = self.devices.len();
        let ghost keys = self.devices.keys();
        let mut i: usize = 0;
        while i < count
            invariant
                i <= count,
                count == keys.len(),
                keys == self.devices.keys(),
                keys.no_duplicates(),
                before == self@,
                self.wf(),
                ttl_ms == (ttl_secs * 1000) as i64,
                forall|j: int|
                    0 <= j < stale@.len() ==> {
                        let id = (#[trigger] stale@[j]).0@;
                        &&& keys.take(i as int).contains(id)
                        &&& before.devices.contains_key(id)
                        &&& is_stale(before.devices[id].last_seen_ms, now_ms, ttl_secs)
                        &&& stale@[j].1@ == before.devices[id].session_id
                    },
                forall|id: Seq<char>| #[trigger]
                    keys.take(i as int).contains(id) && is_stale(
                        before.devices[id].last_seen_ms,
                        now_ms,
                        ttl_secs,
                    ) ==> stale_ids(stale@).contains(id),
                stale_ids(stale@).no_duplicates(),
            decreases count - i,
        {
            let entry = self.devices.entry(i);
            let session = entry.1;
            let ghost listed = stale_ids(stale@);
            let ghost earlier = keys.take(i as int);
            proof {
                lemma_push_contains(earlier, keys[i as int]);
                assert(keys.take(i + 1) =~= earlier.push(keys[i as int]));
            }
            if now_ms as i128 - session.last_seen_ms as i128 > ttl_ms as i128 {
                assert(!listed.contains(entry.0@)) by {
                    if listed.contains(entry.0@) {
                        let j = choose|j: int| 0 <= j < listed.len() && listed[j] == entry.0@;
                        assert(stale@[j].0@ == entry.0@);
                        let k = choose|k: int| 0 <= k < earlier.len() && earlier[k] == entry.0@;
                        assert(keys[k] == keys[i as int]);
                    }
                }
                stale.push((session.app_instance_id.clone(), session.session_id.clone()));
                proof {
                    assert(stale_ids(stale@) =~= listed.push(entry.0@));
                    lemma_push_contains(listed, entry.0@);
                }
            }
            i += 1;
        }
        let ghost ids = stale_ids(stale@);
        assert(keys.take(i as int) =~= keys);
        let mut replies: Vec<Reply> = Vec::new();
        let mut n: usize = 0;
        assert(before.devices.remove_keys(ids.take(0).to_set()) =~= before.devices);
        assert forall|request_id: Seq<char>| #[trigger]
            reply_ids(replies@).to_multiset().count(request_id) == waiting_count(
                before.devices,
                ids.take(0),
                request_id,
            ) by {
            broadcast use vstd::seq_lib::group_to_multiset_ensures;

            assert(!reply_ids(replies@).contains(request_id));
        }
        while n < stale.len()
            invariant
                n <= stale@.len(),
                self.wf(),
                self.settings() == old(self).settings(),
                ids == stale_ids(stale@),
                ids.no_duplicates(),
                forall|j: int|
                    0 <= j < stale@.len() ==> {
                        let id = (#[trigger] stale@[j]).0@;
                        &&& before.devices.contains_key(id)
                        &&& stale@[j].1@ == before.devices[id].session_id
                    },
                self@.rooms == before.rooms,
                self@.devices == before.devices.remove_keys(ids.take(n as int).to_set()),
                forall|j: int|
                    0 <= j < replies@.len() ==> (#[trigger] replies@[j]).frame@ == (
                    TunnelFrameView::Error { message: DEVICE_DISCONNECTED@ }),
                forall|request_id: Seq<char>| #[trigger]
                    reply_ids(replies@).contains(request_id) <==> exists|j: int|
                        0 <= j < n && before.devices[#[trigger] ids[j]].pending.contains_key(
                            request_id,
                        ),
                forall|request_id: Seq<char>| #[trigger]
                    reply_ids(replies@).to_multiset().count(request_id) == waiting_count(
                        before.devices,
                        ids.take(n as int),
                        request_id,
                    ),
            decreases stale@.len() - n,
        {
            let ghost told = replies@;
            let ghost earlier = ids.take(n as int);
            let ghost id = ids[n as int];
            proof {
                if earlier.contains(id) {
                    let k = choose|k: int| 0 <= k < earlier.len() && earlier[k] == id;
                    assert(ids[k] == ids[n as int]);
                }
                assert(stale@[n as int].0@ == id);
                assert(self@.holds_session(id, stale@[n as int].1@));
            }
            let mut more = self.unregister_device(stale[n].0.as_str(), stale[n].1.as_str());
            let ghost fresh = more@;
            replies.append(&mut more);
            n += 1;
            proof {
                assert(ids.take(n as int) =~= earlier.push(id));
                lemma_push_contains(earlier, id);
                assert(self@.devices =~= before.devices.remove_keys(ids.take(n as int).to_set()));
                assert(replies@ =~= told + fresh);
                lemma_reply_ids(told, fresh);
                assert forall|request_id: Seq<char>| #[trigger]
                    reply_ids(replies@).to_multiset().count(request_id) == waiting_count(
                        before.devices,
                        ids.take(n as int),
                        request_id,
                    ) by {
                    lemma_reply_counts(told, fresh, request_id);
                    assert(reply_ids(fresh).to_set().contains(request_id) <==> reply_ids(
                        fresh,
                    ).contains(request_id));
                    assert(earlier.push(id).drop_last() =~= earlier);
                    assert(reply_ids(told).to_multiset().count(request_id) == waiting_count(
                        before.devices,
                        earlier,
                        request_id,
                    ));
                }
                assert forall|request_id: Seq<char>| #[trigger]
                    reply_ids(replies@).contains(request_id) <==> exists|j: int|
                        0 <= j < n && before.devices[#[trigger] ids[j]].pending.contains_key(
                            request_id,
                        ) by {
                    assert(reply_ids(fresh).to_set().contains(request_id) <==> reply_ids(
                        fresh,
                    ).contains(request_id));
                    if before.devices[id].pending.contains_key(request_id) {
                        assert(before.devices[ids[n - 1]].pending.contains_key(request_id));
                    }
                }
            }
        }
        proof {
            assert(ids.take(n as int) =~= ids);
            assert forall|id: Seq<char>| #[trigger] before.devices.contains_key(id) implies (
            ids.contains(id) <==> is_stale(before.devices[id].last_seen_ms, now_ms, ttl_secs)) by {
                assert(keys.to_set().contains(id));
                assert(keys.contains(id));
                if ids.contains(id) {
                    let j = choose|j: int| 0 <= j < ids.len() && ids[j] == id;
                    assert(stale@[j].0@ == id);
                }
            }
            assert(self@.devices =~= before.with_live_devices(now_ms, ttl_secs).devices);
            assert forall|request_id: Seq<char>| #[trigger]
                reply_ids(replies@).to_multiset().count(request_id) == before.stale_waiting(
                    now_ms,
                    ttl_secs,
                    request_id,
                ).len() by {
                lemma_waiting_count(before.devices, ids, request_id);
                assert forall|id: Seq<char>| #[trigger] ids.contains(id) implies before.devices.contains_key(
                    id,
                ) by {
                    let j = choose|j: int| 0 <= j < ids.len() && ids[j] == id;
                    assert(stale@[j].0@ == id);
                }
                assert(waiting_among(before.devices, ids, request_id) =~= before.stale_waiting(
                    now_ms,
                    ttl_secs,
                    request_id,
                ));
            }
            assert forall|request_id: Seq<char>| #[trigger]
                reply_ids(replies@).contains(request_id) <==> exists|id: Seq<char>|
                    {
                        &&& #[trigger] before.devices.contains_key(id)
                        &&& is_stale(before.devices[id].last_seen_ms, now_ms, ttl_secs)
                        &&& before.devices[id].pending.contains_key(request_id)
                    } by {
                if reply_ids(replies@).contains(request_id) {
                    let j = choose|j: int|
                        0 <= j < n && before.devices[#[trigger] ids[j]].pending.contains_key(
                            request_id,
                        );
                    assert(stale@[j].0@ == ids[j]);
                    assert(before.devices.contains_key(ids[j]));
                }
                if exists|id: Seq<char>|
                    {
                        &&& #[trigger] before.devices.contains_key(id)
                        &&& is_stale(before.devices[id].last_seen_ms, now_ms, ttl_secs)
                        &&& before.devices[id].pending.contains_key(request_id)
                    } {
                    let id = choose|id: Seq<char>|
                        {
                            &&& #[trigger] before.devices.contains_key(id)
                            &&& is_stale(before.devices[id].last_seen_ms, now_ms, ttl_secs)
                            &&& before.devices[id].pending.contains_key(request_id)
                        };
                    assert(ids.contains(id));
                    let j = choose|j: int| 0 <= j < ids.len() && ids[j] == id;
                    assert(before.devices[ids[j]].pending.contains_key(request_id));
                }
            }
        }
        replies
    }
}

spec fn stale_ids(stale: Seq<(String, String)>) -> Seq<Seq<char>> {
    stale.map_values(|entry: (String, String)| entry.0@)
}

proof fn lemma_push_contains(list: Seq<Seq<char>>, item: Seq<char>)
    ensures
        forall|other: Seq<char>| #[trigger]
            list.push(item).contains(other) <==> list.contains(other) || other == item,
{
    let longer = list.push(item);
    assert forall|other: Seq<char>| #[trigger] longer.contains(other) <==> list.contains(other)
        || other == item by {
        if list.contains(other) {
            let i = choose|i: int| 0 <= i < list.len() && list[i] == other;
            assert(longer[i] == other);
        }
        assert(longer[list.len() as int] == item);
    }
}

/// How many of the devices the request waits for.
spec fn waiting_count(
    devices: Map<Seq<char>, DeviceSessionView>,
    ids: Seq<Seq<char>>,
    request_id: Seq<char>,
) -> nat
    decreases ids.len(),
{
    if ids.len() == 0 {
        0
    } else {
        waiting_count(devices, ids.drop_last(), request_id) + if devices[ids.last()].pending.contains_key(
            request_id,
        ) {
            1nat
        } else {
            0nat
        }
    }
}

/// Those of the devices that the request waits for.
spec fn waiting_among(
    devices: Map<Seq<char>, DeviceSessionView>,
    ids: Seq<Seq<char>>,
    request_id: Seq<char>,
) -> Set<Seq<char>> {
    ids.to_set().filter(|id: Seq<char>| devices[id].pending.contains_key(request_id))
}

proof fn lemma_waiting_count(
    devices: Map<Seq<char>, DeviceSessionView>,
    ids: Seq<Seq<char>>,
    request_id: Seq<char>,
)
    requires
        ids.no_duplicates(),
    ensures
        waiting_among(devices, ids, request_id).finite(),
        waiting_among(devices, ids, request_id).len() == waiting_count(devices, ids, request_id),
    decreases ids.len(),
{
    let all = waiting_among(devices, ids, request_id);
    if ids.len() == 0 {
        assert(all =~= Set::empty());
    } else {
        let rest = ids.drop_last();
        let last = ids.last();
        let earlier = waiting_among(devices, rest, request_id);
        lemma_waiting_count(devices, rest, request_id);
        lemma_push_contains(rest, last);
        assert(rest.push(last) =~= ids);
        assert(!rest.contains(last)) by {
            if rest.contains(last) {
                let i = choose|i: int| 0 <= i < rest.len() && rest[i] == last;
                assert(ids[i] == ids[ids.len() - 1]);
            }
        }
        if devices[last].pending.contains_key(request_id) {
            assert(all =~= earlier.insert(last));
        } else {
            assert(all =~= earlier);
        }
    }
}

proof fn lemma_reply_counts(first: Seq<Reply>, second: Seq<Reply>, request_id: Seq<char>)
    requires
        reply_ids(second).no_duplicates(),
    ensures
        reply_ids(first + second).to_multiset().count(request_id) == reply_ids(
            first,
        ).to_multiset().count(request_id) + if reply_ids(second).contains(request_id) {
            1nat
        } else {
            0nat
        },
{
    broadcast use vstd::seq_lib::group_to_multiset_ensures;

    assert(reply_ids(first + second) =~= reply_ids(first) + reply_ids(second));
    vstd::seq_lib::lemma_multiset_commutative(reply_ids(first), reply_ids(second));
    reply_ids(second).lemma_multiset_has_no_duplicates();
}

proof fn lemma_reply_ids(first: Seq<Reply>, second: Seq<Reply>)
    ensures
        forall|id: Seq<char>| #[trigger]
            reply_ids(first + second).contains(id) <==> reply_ids(first).contains(id) || reply_ids(
                second,
            ).contains(id),
{
    let all = reply_ids(first + second);
    assert forall|id: Seq<char>| #[trigger] all.contains(id) <==> reply_ids(first).contains(id)
        || reply_ids(second).contains(id) by {
        if all.contains(id) {
            let i = choose|i: int| 0 <= i < all.len() && all[i] == id;
            if i < first.len() {
                assert(reply_ids(first)[i] == id);
            } else {
                assert(reply_ids(second)[i - first.len()] == id);
            }
        }
        if reply_ids(first).contains(id) {
            let i = choose|i: int| 0 <= i < reply_ids(first).len() && reply_ids(first)[i] == id;
            assert(all[i] == id);
        }
        if reply_ids(second).contains(id) {
            let i = choose|i: int| 0 <= i < reply_ids(second).len() && reply_ids(second)[i] == id;
            assert(all[i + first.len()] == id);
        }
    }
}

proof fn lemma_with_member(members: Seq<Seq<char>>, id: Seq<char>)
    requires
        members.no_duplicates(),
    ensures
        with_member(members, id).no_duplicates(),
{
}

/// The room code that these random bytes give: each of the first six picks a character.
pub open spec fn code_from(bytes: Seq<u8>) -> Seq<char> {
    Seq::new(6, |i: int| ROOM_CODE_ALPHABET@[bytes[i] as int % 32])
}

/// Whether the text is a room code: six characters of the alphabet.
pub open spec fn is_room_code(code: Seq<char>) -> bool {
    code.len() == 6 && forall|i: int|
        0 <= i < 6 ==> ROOM_CODE_ALPHABET@.contains(#[trigger] code[i])
}

/// The room code that these random bytes give.
pub fn room_code_from(bytes: &[u8; 16]) -> (code: String)
    ensures
        code@ == code_from(bytes@),
        is_room_code(code@),
{
    proof {
        reveal_strlit("ABCDEFGHJKLMNPQRSTUVWXYZ23456789");
        assert(ROOM_CODE_ALPHABET@.len() == 32);
    }
    let alphabet = text::chars_of(ROOM_CODE_ALPHABET);
    let mut code = String::new();
    let mut i: usize = 0;
    while i < 6
        invariant
            i <= 6,
            alphabet@ == ROOM_CODE_ALPHABET@,
            alphabet@.len() == 32,
            code@ == code_from(bytes@).take(i as int),
            forall|j: int| 0 <= j < i ==> ROOM_CODE_ALPHABET@.contains(#[trigger] code@[j]),
        decreases 6 - i,
    {
        code.push(alphabet[bytes[i] as usize % 32]);
        i += 1;
        assert(code@ =~= code_from(bytes@).take(i as int));
    }
    assert(code_from(bytes@).take(6) =~= code_from(bytes@));
    code
}

fn generate_room_code() -> (code: String)
    ensures
        is_room_code(code@),
{
    room_code_from(&random::new_uuid_bytes())
}

/// What comes of asking for a request to be taken on.
pub open spec fn request_taken(
    before: RegistryView,
    after: RegistryView,
    max_inflight: usize,
    target: Seq<char>,
    now_ns: i128,
    started: RelayResult<StartedRequest>,
) -> bool {
    if !before.devices.contains_key(target) {
        after == before && (started matches Err(error) && error@ == RelayErrorView::DeviceOffline(
            target,
        ))
    } else if before.devices[target].pending.dom().len() >= max_inflight {
        after == before && (started matches Err(error) && error@ == RelayErrorView::DeviceBusy)
    } else {
        let device = before.devices[target];
        &&& started matches Ok(started)
        &&& started.outgoing.session_id@ == device.session_id
        &&& after == before.with_device(
            DeviceSessionView {
                last_seen_ms: clock::millis_of(now_ns),
                pending: device.pending.insert(started.request_id@, now_ns),
                ..device
            },
        )
    }
}

proof fn lemma_smaller_domain(map: Map<Seq<char>, i128>, key: Seq<char>)
    requires
        map.dom().finite(),
    ensures
        map.remove(key).dom().finite(),
        map.remove(key).dom().len() <= map.dom().len(),
{
    assert(map.remove(key).dom() =~= map.dom().remove(key));
}

/// The end of an older tunnel does not take a device offline that has come back since: what is
/// under another session stays, and no request that waits for it is told.
pub proof fn law_newer_session_stays(
    registry: RegistryView,
    newer: DeviceSessionView,
    older_session: Seq<char>,
)
    requires
        newer.session_id != older_session,
    ensures
        ({
            let now = registry.with_device(newer);
            &&& now.without_session(newer.app_instance_id, older_session) == now
            &&& now.waiting_for(newer.app_instance_id, older_session) == Set::<Seq<char>>::empty()
        }),
{
}

/// A request that is taken on and then answered leaves nothing behind but that the device was seen.
/// A second answer reaches nobody.
pub proof fn law_answered_once(
    before: RegistryView,
    taken: RegistryView,
    max_inflight: usize,
    target: Seq<char>,
    now_ns: i128,
    started: RelayResult<StartedRequest>,
    answer: TunnelFrameView,
)
    requires
        before.wf(max_inflight),
        request_taken(before, taken, max_inflight, target, now_ns, started),
        started is Ok,
        !before.waits(target, started->Ok_0.request_id@),
        answer matches TunnelFrameView::HttpResponse { request_id, .. } && request_id
            == started->Ok_0.request_id@,
    ensures
        taken.completed(target, answer).0 == before.with_seen(target, clock::millis_of(now_ns)),
        taken.completed(target, answer).1 == Some((started->Ok_0.request_id@, answer)),
        ({
            let after = taken.completed(target, answer).0;
            &&& after.completed(target, answer).0 == after
            &&& after.completed(target, answer).1 is None
        }),
{
    let device = before.devices[target];
    let request_id = started->Ok_0.request_id@;
    assert(device.pending.insert(request_id, now_ns).remove(request_id) =~= device.pending);
    let after = taken.completed(target, answer).0;
    assert(after.devices =~= before.with_seen(target, clock::millis_of(now_ns)).devices);
}

/// A device that joins a room and leaves it again leaves the room as it was, or, where it was alone
/// there, no room.
pub proof fn law_join_then_leave(
    registry: RegistryView,
    max_inflight: usize,
    code: Seq<char>,
    id: Seq<char>,
    now_ns: i128,
)
    requires
        registry.wf(max_inflight),
        registry.joined(code, id, now_ns).1 is Ok,
        !registry.rooms[code].members.contains(id),
    ensures
        ({
            let live = registry.with_live_rooms(now_ns);
            let after = registry.joined(code, id, now_ns).0.left(code, id);
            &&& after.devices == registry.devices
            &&& after.rooms == if registry.rooms[code].members.len() == 0 {
                live.rooms.remove(code)
            } else {
                live.rooms
            }
        }),
{
    let live = registry.with_live_rooms(now_ns);
    let members = registry.rooms[code].members;
    let joined = registry.joined(code, id, now_ns).0;
    lemma_without_absent(members, id);
    assert(members.push(id).drop_last() =~= members);
    assert(text::without(members.push(id), id) == members);
    let after = joined.left(code, id);
    if members.len() == 0 {
        assert(after.rooms =~= live.rooms.remove(code));
    } else {
        assert(after.rooms =~= live.rooms);
    }
}

proof fn lemma_without_absent(list: Seq<Seq<char>>, absent: Seq<char>)
    requires
        !list.contains(absent),
    ensures
        text::without(list, absent) == list,
    decreases list.len(),
{
    if list.len() > 0 {
        assert(list[list.len() - 1] == list.last());
        assert(!list.drop_last().contains(absent)) by {
            if list.drop_last().contains(absent) {
                let i = choose|i: int|
                    0 <= i < list.drop_last().len() && list.drop_last()[i] == absent;
                assert(list[i] == absent);
            }
        }
        lemma_without_absent(list.drop_last(), absent);
        assert(list.drop_last().push(list.last()) =~= list);
    }
}

/// A room cannot be joined once its time is up, and it is gone then.
pub proof fn law_expired_room_is_gone(
    registry: RegistryView,
    code: Seq<char>,
    id: Seq<char>,
    now_ns: i128,
)
    requires
        registry.rooms.contains_key(code),
        registry.rooms[code].expires_at <= now_ns,
    ensures
        registry.joined(code, id, now_ns).1 == Err::<RoomInfoView, RelayErrorView>(
            RelayErrorView::RoomNotFound,
        ),
        !registry.joined(code, id, now_ns).0.rooms.contains_key(code),
{
}

/// Joining leaves every room with no more members than it takes and none twice, and a room that is
/// full turns even its own members away.
pub proof fn law_room_capacity(
    registry: RegistryView,
    max_inflight: usize,
    code: Seq<char>,
    id: Seq<char>,
    now_ns: i128,
)
    requires
        registry.wf(max_inflight),
    ensures
        registry.joined(code, id, now_ns).0.wf(max_inflight),
        registry.rooms.contains_key(code) && registry.rooms[code].expires_at > now_ns
            && registry.rooms[code].members.len() == ROOM_CAPACITY ==> registry.joined(
            code,
            id,
            now_ns,
        ).1 == Err::<RoomInfoView, RelayErrorView>(RelayErrorView::RoomFull),
{
    let live = registry.with_live_rooms(now_ns);
    assert forall|other: Seq<char>| #[trigger] live.rooms.contains_key(other) implies {
        &&& registry.rooms.contains_key(other)
        &&& live.rooms[other] == registry.rooms[other]
    } by {}
    assert(live.devices == registry.devices);
    assert(live.wf(max_inflight));
    if registry.joined(code, id, now_ns).1 is Ok {
        let after = registry.joined(code, id, now_ns).0;
        lemma_with_member(live.rooms[code].members, id);
        assert forall|other: Seq<char>| #[trigger] after.rooms.contains_key(other) implies {
            &&& after.rooms[other].code == other
            &&& after.rooms[other].members.no_duplicates()
            &&& after.rooms[other].members.len() <= ROOM_CAPACITY
        } by {
            assert(live.rooms.contains_key(other));
        }
        assert(after.devices == live.devices);
    }
}

/// A device that is taken in is online with what it said of itself, seen now and with no request
/// waiting for it; other devices and all rooms stay as they are.
pub proof fn law_registered(
    registry: RegistryView,
    session_id: Seq<char>,
    id: Seq<char>,
    device_name: Option<Seq<char>>,
    app_version: Option<Seq<char>>,
    sync_info_b64: Option<Seq<char>>,
    now_ms: i64,
    other: Seq<char>,
)
    ensures
        ({
            let after = registry.with_device(
                new_session(session_id, id, device_name, app_version, sync_info_b64, now_ms),
            );
            let device = after.devices[id];
            &&& after.devices.contains_key(id)
            &&& after.holds_session(id, session_id)
            &&& device.app_instance_id == id
            &&& device.session_id == session_id
            &&& device.device_name == device_name
            &&& device.app_version == app_version
            &&& device.sync_info_b64 == sync_info_b64
            &&& device.last_seen_ms == now_ms
            &&& device.pending.dom().is_empty()
            &&& device.public().app_instance_id == id
            &&& device.public().device_name == device_name
            &&& device.public().app_version == app_version
            &&& device.public().online
            &&& device.public().last_seen_ms == now_ms
            &&& other != id ==> {
                &&& after.devices.contains_key(other) <==> registry.devices.contains_key(other)
                &&& registry.devices.contains_key(other) ==> after.devices[other]
                    == registry.devices[other]
            }
            &&& after.rooms == registry.rooms
        }),
{
}

/// The session that a new one takes the place of is told so, and nobody is told where there was
/// none.
pub proof fn law_older_is_told(before: RegistryView, id: Seq<char>, notice: Option<Outgoing>)
    requires
        older_is_told(before, id, notice),
    ensures
        notice is Some <==> before.devices.contains_key(id),
        notice matches Some(outgoing) ==> outgoing.session_id@ == before.devices[id].session_id,
        notice matches Some(outgoing) ==> outgoing.frame@ == (TunnelFrameView::Error {
            message: "session replaced by a new connection"@,
        }),
{
}

/// The end of a device's session takes the device offline, and every request that waits for it is
/// concerned; other devices and all rooms stay as they are. The end of a session that the device does
/// not have does nothing.
pub proof fn law_session_ends(
    registry: RegistryView,
    id: Seq<char>,
    session_id: Seq<char>,
    other: Seq<char>,
    request_id: Seq<char>,
)
    ensures
        registry.devices.contains_key(id) && registry.devices[id].session_id == session_id ==> {
            let after = registry.without_session(id, session_id);
            &&& !after.devices.contains_key(id)
            &&& registry.waiting_for(id, session_id).contains(request_id) <==> registry.waits(
                id,
                request_id,
            )
        },
        !registry.devices.contains_key(id) || registry.devices[id].session_id != session_id
            ==> registry.without_session(id, session_id) == registry && !registry.waiting_for(
            id,
            session_id,
        ).contains(request_id),
        other != id ==> {
            let after = registry.without_session(id, session_id);
            &&& after.devices.contains_key(other) <==> registry.devices.contains_key(other)
            &&& registry.devices.contains_key(other) ==> after.devices[other]
                == registry.devices[other]
        },
        registry.without_session(id, session_id).rooms == registry.rooms,
{
}

/// Every request that waits for a device that goes is told once that it is gone, and no other is.
pub proof fn law_all_told(replies: Seq<Reply>, requests: Set<Seq<char>>, request_id: Seq<char>)
    requires
        all_told(replies, requests),
    ensures
        requests.contains(request_id) <==> exists|i: int|
            0 <= i < replies.len() && (#[trigger] replies[i]).request_id@ == request_id,
        forall|i: int, j: int|
            0 <= i < j < replies.len() ==> replies[i].request_id@ != replies[j].request_id@,
        forall|i: int|
            0 <= i < replies.len() ==> (#[trigger] replies[i]).frame@ == (TunnelFrameView::Error {
                message: "device disconnected"@,
            }),
{
    let ids = reply_ids(replies);
    if requests.contains(request_id) {
        assert(ids.to_set().contains(request_id));
        let i = choose|i: int| 0 <= i < ids.len() && ids[i] == request_id;
        assert(replies[i].request_id@ == request_id);
    }
    if exists|i: int| 0 <= i < replies.len() && (#[trigger] replies[i]).request_id@ == request_id {
        let i = choose|i: int|
            0 <= i < replies.len() && (#[trigger] replies[i]).request_id@ == request_id;
        assert(ids[i] == request_id);
        assert(ids.to_set().contains(request_id));
    }
    assert forall|i: int, j: int| 0 <= i < j < replies.len() implies replies[i].request_id@
        != replies[j].request_id@ by {
        assert(ids[i] != ids[j]);
    }
}

/// A device that is seen is noted with the time, and nothing else of it changes; one that is not
/// online stays so.
pub proof fn law_seen(registry: RegistryView, id: Seq<char>, now_ms: i64, other: Seq<char>)
    ensures
        ({
            let after = registry.with_seen(id, now_ms);
            &&& after.rooms == registry.rooms
            &&& after.devices.contains_key(other) <==> registry.devices.contains_key(other) || (
            registry.devices.contains_key(id) && other == registry.devices[id].app_instance_id)
            &&& !registry.devices.contains_key(id) ==> after == registry
            &&& registry.devices.contains_key(id) && registry.devices[id].app_instance_id == id ==> {
                &&& after.devices[id].last_seen_ms == now_ms
                &&& after.devices[id] == (DeviceSessionView {
                    last_seen_ms: now_ms,
                    ..registry.devices[id]
                })
                &&& other != id && registry.devices.contains_key(other) ==> after.devices[other]
                    == registry.devices[other]
            }
        }),
{
}

/// A request is taken on exactly where its device is online and fewer requests than allowed wait for
/// it. It then waits for the device, which counts as seen; the frame goes to the device's session.
/// Nothing else changes.
pub proof fn law_request_taken(
    before: RegistryView,
    after: RegistryView,
    max_inflight: usize,
    target: Seq<char>,
    now_ns: i128,
    started: RelayResult<StartedRequest>,
    other: Seq<char>,
    request_id: Seq<char>,
)
    requires
        before.wf(max_inflight),
        request_taken(before, after, max_inflight, target, now_ns, started),
    ensures
        started is Ok <==> before.devices.contains_key(target)
            && before.devices[target].pending.dom().len() < max_inflight,
        started is Err ==> after == before,
        started matches Err(error) ==> {
            &&& !before.devices.contains_key(target) ==> error@ == RelayErrorView::DeviceOffline(
                target,
            )
            &&& before.devices.contains_key(target) ==> error@ == RelayErrorView::DeviceBusy
        },
        started matches Ok(started) ==> {
            &&& started.outgoing.session_id@ == before.devices[target].session_id
            &&& after.waits(target, started.request_id@)
            &&& after.devices[target].last_seen_ms == clock::millis_of(now_ns)
            &&& after.holds_session(target, before.devices[target].session_id)
            &&& request_id != started.request_id@ ==> (after.waits(target, request_id)
                <==> before.waits(target, request_id))
        },
        other != target ==> {
            &&& after.devices.contains_key(other) <==> before.devices.contains_key(other)
            &&& before.devices.contains_key(other) ==> after.devices[other] == before.devices[other]
        },
        after.rooms == before.rooms,
{
}

/// An answer reaches the request that waits for the device under its number; that request no longer
/// waits, and no other is concerned. A frame that answers no waiting request does nothing.
pub proof fn law_completed(
    registry: RegistryView,
    max_inflight: usize,
    id: Seq<char>,
    frame: TunnelFrameView,
    other: Seq<char>,
    request_id: Seq<char>,
)
    requires
        registry.wf(max_inflight),
    ensures
        ({
            let (after, reply) = registry.completed(id, frame);
            &&& reply is Some <==> (frame matches TunnelFrameView::HttpResponse {
                request_id: answered,
                ..
            } && registry.waits(id, answered))
            &&& reply is None ==> after == registry
            &&& reply matches Some((answered, passed)) ==> {
                &&& passed == frame
                &&& frame matches TunnelFrameView::HttpResponse { request_id: named, .. } && named
                    == answered
                &&& !after.waits(id, answered)
                &&& request_id != answered ==> (after.waits(id, request_id) <==> registry.waits(
                    id,
                    request_id,
                ))
                &&& after.devices[id] == (DeviceSessionView {
                    pending: after.devices[id].pending,
                    ..registry.devices[id]
                })
            }
            &&& after.devices.contains_key(other) <==> registry.devices.contains_key(other)
            &&& other != id && registry.devices.contains_key(other) ==> after.devices[other]
                == registry.devices[other]
            &&& after.rooms == registry.rooms
        }),
{
}

/// A request that is given up no longer waits for the device's session; no other request and no
/// other device is concerned.
pub proof fn law_request_given_up(
    registry: RegistryView,
    max_inflight: usize,
    id: Seq<char>,
    session_id: Seq<char>,
    request_id: Seq<char>,
    other: Seq<char>,
)
    requires
        registry.wf(max_inflight),
    ensures
        ({
            let after = registry.without_request(id, session_id, request_id);
            &&& registry.holds_session(id, session_id) ==> !after.waits(id, request_id)
            &&& !registry.holds_session(id, session_id) ==> after == registry
            &&& other != request_id ==> (after.waits(id, other) <==> registry.waits(id, other))
            &&& after.devices.contains_key(other) <==> registry.devices.contains_key(other)
            &&& other != id && registry.devices.contains_key(other) ==> after.devices[other]
                == registry.devices[other]
            &&& after.rooms == registry.rooms
        }),
{
}

/// A room is opened empty and stands for the seconds that it is given; other rooms and all devices
/// stay as they are.
pub proof fn law_new_room(
    registry: RegistryView,
    code: Seq<char>,
    now_ns: i128,
    ttl_secs: u64,
    other: Seq<char>,
)
    requires
        now_ns + ttl_secs * 1_000_000_000 <= i128::MAX,
    ensures
        ({
            let after = registry.with_new_room(code, now_ns, ttl_secs);
            &&& after.rooms.contains_key(code)
            &&& after.rooms[code].code == code
            &&& after.rooms[code].members.len() == 0
            &&& after.rooms[code].created_at == now_ns
            &&& after.rooms[code].expires_at - now_ns == ttl_secs * 1_000_000_000
            &&& other != code ==> {
                &&& after.rooms.contains_key(other) <==> registry.rooms.contains_key(other)
                &&& registry.rooms.contains_key(other) ==> after.rooms[other]
                    == registry.rooms[other]
            }
            &&& after.devices == registry.devices
        }),
{
}

/// A room is there as long as its time is not up, as it was; no device is concerned.
pub proof fn law_live_rooms(registry: RegistryView, now_ns: i128, code: Seq<char>)
    ensures
        ({
            let live = registry.with_live_rooms(now_ns);
            &&& live.rooms.contains_key(code) <==> registry.rooms.contains_key(code) && now_ns
                < registry.rooms[code].expires_at
            &&& live.rooms.contains_key(code) ==> live.rooms[code] == registry.rooms[code]
            &&& live.devices == registry.devices
        }),
{
}

/// A device is let go of once it has been silent for more milliseconds than the seconds that it is
/// kept; the others stay as they are, and so do all rooms.
pub proof fn law_live_devices(registry: RegistryView, now_ms: i64, ttl_secs: u64, id: Seq<char>)
    requires
        ttl_secs * 1000 <= i64::MAX,
    ensures
        ({
            let live = registry.with_live_devices(now_ms, ttl_secs);
            &&& live.devices.contains_key(id) <==> registry.devices.contains_key(id) && now_ms
                - registry.devices[id].last_seen_ms <= ttl_secs * 1000
            &&& live.devices.contains_key(id) ==> live.devices[id] == registry.devices[id]
            &&& live.rooms == registry.rooms
        }),
{
}

/// A device gets into a room exactly where the room is there, its time is not up and it has fewer
/// than 32 members. It is then a member, the others stay members in their order, and no other room
/// that still stands and no device is concerned.
pub proof fn law_joined(
    registry: RegistryView,
    code: Seq<char>,
    id: Seq<char>,
    now_ns: i128,
    other: Seq<char>,
)
    ensures
        ({
            let (after, answer) = registry.joined(code, id, now_ns);
            let before = registry.rooms[code].members;
            let there = registry.rooms.contains_key(code) && now_ns
                < registry.rooms[code].expires_at;
            &&& answer is Ok <==> there && before.len() < 32
            &&& answer matches Err(error) ==> {
                &&& there ==> error == RelayErrorView::RoomFull
                &&& !there ==> error == RelayErrorView::RoomNotFound
            }
            &&& answer matches Ok(info) ==> {
                let members = after.rooms[code].members;
                &&& after.rooms.contains_key(code)
                &&& members.contains(id)
                &&& members.len() >= before.len()
                &&& members.take(before.len() as int) == before
                &&& members.len() == before.len() + (if before.contains(id) {
                    0int
                } else {
                    1int
                })
                &&& after.rooms[code].expires_at == registry.rooms[code].expires_at
                &&& after.rooms[code].created_at == registry.rooms[code].created_at
                &&& info.room_code == code
                &&& info.expires_at_ms == clock::millis_of(registry.rooms[code].expires_at)
                &&& info.members == online_members(members, registry.devices)
            }
            &&& other != code || answer is Err ==> {
                &&& after.rooms.contains_key(other) <==> registry.rooms.contains_key(other)
                    && now_ns < registry.rooms[other].expires_at
                &&& after.rooms.contains_key(other) ==> after.rooms[other] == registry.rooms[other]
            }
            &&& after.devices == registry.devices
        }),
{
    let (after, answer) = registry.joined(code, id, now_ns);
    let before = registry.rooms[code].members;
    if answer is Ok {
        let members = after.rooms[code].members;
        assert(members.take(before.len() as int) =~= before);
        if !before.contains(id) {
            assert(members[before.len() as int] == id);
        }
    }
}

/// A device that leaves a room is no member any more, and every other member stays; a room without
/// members is gone. No other room and no device is concerned.
pub proof fn law_left(registry: RegistryView, code: Seq<char>, id: Seq<char>, other: Seq<char>)
    ensures
        ({
            let after = registry.left(code, id);
            let before = registry.rooms[code].members;
            &&& registry.rooms.contains_key(code) ==> {
                &&& after.rooms.contains_key(code) <==> exists|i: int|
                    0 <= i < before.len() && #[trigger] before[i] != id
                &&& after.rooms.contains_key(code) ==> {
                    let members = after.rooms[code].members;
                    &&& members == text::without(before, id)
                    &&& !members.contains(id)
                    &&& other != id ==> (members.contains(other) <==> before.contains(other))
                    &&& after.rooms[code].expires_at == registry.rooms[code].expires_at
                    &&& after.rooms[code].created_at == registry.rooms[code].created_at
                }
            }
            &&& !registry.rooms.contains_key(code) ==> after == registry
            &&& other != code ==> {
                &&& after.rooms.contains_key(other) <==> registry.rooms.contains_key(other)
                &&& registry.rooms.contains_key(other) ==> after.rooms[other]
                    == registry.rooms[other]
            }
            &&& after.devices == registry.devices
        }),
{
    if registry.rooms.contains_key(code) {
        let before = registry.rooms[code].members;
        let members = text::without(before, id);
        text::lemma_without(before, id);
        if exists|i: int| 0 <= i < before.len() && #[trigger] before[i] != id {
            let i = choose|i: int| 0 <= i < before.len() && #[trigger] before[i] != id;
            assert(before.contains(before[i]));
            assert(members.contains(before[i]));
            assert(members.len() > 0);
        }
        if members.len() > 0 {
            assert(members.contains(members[0]));
            assert(before.contains(members[0]));
            let i = choose|i: int| 0 <= i < before.len() && before[i] == members[0];
            assert(before[i] != id);
        }
    }
}

/// Of a room's members those are told of that are online, in their order, each with what may be seen
/// of it.
pub proof fn law_online_members(
    a: Seq<Seq<char>>,
    id: Seq<char>,
    b: Seq<Seq<char>>,
    devices: Map<Seq<char>, DeviceSessionView>,
)
    ensures
        online_members(a + b, devices) == online_members(a, devices) + online_members(b, devices),
        online_members(seq![id], devices).len() == (if devices.contains_key(id) {
            1nat
        } else {
            0nat
        }),
        devices.contains_key(id) ==> {
            let shown = online_members(seq![id], devices)[0];
            &&& shown.online
            &&& shown.app_instance_id == devices[id].app_instance_id
            &&& shown.device_name == devices[id].device_name
            &&& shown.app_version == devices[id].app_version
            &&& shown.last_seen_ms == devices[id].last_seen_ms
        },
        online_members(Seq::empty(), devices).len() == 0,
    decreases b.len(),
{
    reveal_with_fuel(online_members, 2);
    assert(seq![id].drop_last() =~= Seq::empty());
    if b.len() == 0 {
        assert(a + b =~= a);
        assert(online_members(a, devices) + online_members(b, devices) =~= online_members(
            a,
            devices,
        ));
    } else {
        assert((a + b).drop_last() =~= a + b.drop_last());
        law_online_members(a, id, b.drop_last(), devices);
        assert(online_members(a + b, devices) =~= online_members(a, devices) + online_members(
            b,
            devices,
        ));
    }
}

/// A room code is six characters, each picked by one of the first six bytes out of the letters and
/// digits without I, O, 0 and 1.
pub proof fn law_code_from(bytes: Seq<u8>, place: int)
    requires
        0 <= place < 6,
    ensures
        code_from(bytes).len() == 6,
        code_from(bytes)[place] == "ABCDEFGHJKLMNPQRSTUVWXYZ23456789"@[bytes[place] as int % 32],
        is_room_code(code_from(bytes)),
        ({
            let c = code_from(bytes)[place];
            &&& 'A' <= c <= 'Z' || '2' <= c <= '9'
            &&& c != 'I' && c != 'O'
        }),
{
    reveal_strlit("ABCDEFGHJKLMNPQRSTUVWXYZ23456789");
    assert forall|i: int| 0 <= i < 6 implies ROOM_CODE_ALPHABET@.contains(
        #[trigger] code_from(bytes)[i],
    ) by {
        assert(ROOM_CODE_ALPHABET@[bytes[i] as int % 32] == code_from(bytes)[i]);
    }
}

/// A request is told as often as there are silent devices that it waits for; a device is silent for
/// too long by the milliseconds since it was last seen.
pub proof fn law_stale_waiting(
    registry: RegistryView,
    now_ms: i64,
    ttl_secs: u64,
    request_id: Seq<char>,
    id: Seq<char>,
)
    requires
        ttl_secs * 1000 <= i64::MAX,
    ensures
        registry.stale_waiting(now_ms, ttl_secs, request_id).contains(id) <==> {
            &&& registry.waits(id, request_id)
            &&& now_ms - registry.devices[id].last_seen_ms > ttl_secs * 1000
        },
        is_stale(registry.devices[id].last_seen_ms, now_ms, ttl_secs) <==> now_ms
            - registry.devices[id].last_seen_ms > ttl_secs * 1000,
{
}

/// A reply goes to the request that it names, with its frame; a room is told of as it is, and a
/// refusal as what it is.
pub proof fn law_reply_views(reply: Reply, info: RoomInfo, error: RelayError, replies: Seq<Reply>)
    ensures
        reply_view(Some(reply)) == Some((reply.request_id@, reply.frame@)),
        reply_view(None) is None,
        room_result(Ok(info)) is Ok,
        room_result(Ok(info))->Ok_0 == info@,
        room_result(Err(error)) is Err,
        room_result(Err(error))->Err_0 == error@,
        reply_ids(replies).len() == replies.len(),
        forall|i: int|
            0 <= i < replies.len() ==> #[trigger] reply_ids(replies)[i] == replies[i].request_id@,
{
}

/// A room is told of by its code, with those of its members that are online and the time at which it
/// ends, in milliseconds.
pub proof fn law_room_info(registry: RegistryView, code: Seq<char>)
    ensures
        registry.info(code).room_code == code,
        registry.info(code).members == online_members(
            registry.rooms[code].members,
            registry.devices,
        ),
        registry.rooms[code].expires_at >= 0 && registry.rooms[code].expires_at
            < 9_223_372_036_854_775_808 * 1_000_000 ==> registry.info(code).expires_at_ms * 1_000_000
            <= registry.rooms[code].expires_at < (registry.info(code).expires_at_ms + 1)
            * 1_000_000,
{
    clock::law_millis(registry.rooms[code].expires_at);
}

} // verus!
