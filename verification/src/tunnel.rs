//! A device's tunnel: what each message that comes through it brings about.
use vstd::prelude::*;

use crate::protocol::{TunnelFrame, TunnelFrameView, RELAY_VERSION};
use crate::random;
use crate::registry;
use crate::registry::{Outgoing, Registry, RegistryView, Reply};
use crate::text;

verus! {

/// The query of a request to open a tunnel.
#[derive(Debug)]
pub struct TunnelQuery {
    pub token: Option<String>,
}

/// What a tunnel that names no device is told.
pub const ID_REQUIRED: &'static str = "app_instance_id required";

/// What comes through a tunnel.
#[derive(Debug)]
pub enum TunnelMessage {
    /// Text that is a frame.
    Frame(TunnelFrame),
    /// Text that is no frame, and why.
    BadFrame(String),
    /// The transport's own ping.
    Ping,
    /// The transport's own answer to a ping.
    Pong,
    /// Bytes, which a tunnel does not carry.
    Binary,
    /// The end.
    Close,
}

/// The relay's end of a tunnel: the device that it speaks for and its session, once the device has
/// said who it is.
#[derive(Debug)]
pub struct Tunnel {
    pub app_instance_id: Option<String>,
    pub session_id: Option<String>,
}

/// A [`Tunnel`] with its texts by their characters.
#[verifier::ext_equal]
pub struct TunnelView {
    pub app_instance_id: Option<Seq<char>>,
    pub session_id: Option<Seq<char>>,
}

impl View for Tunnel {
    type V = TunnelView;

    open spec fn view(&self) -> TunnelView {
        TunnelView {
            app_instance_id: text::optional(self.app_instance_id),
            session_id: text::optional(self.session_id),
        }
    }
}

/// What a message brings about.
#[derive(Debug)]
pub struct Step {
    /// What goes back through the tunnel.
    pub send: Option<TunnelFrame>,
    /// What the tunnel is told that this one takes the place of.
    pub notify: Option<Outgoing>,
    /// The answer that a waiting request gets.
    pub reply: Option<Reply>,
    /// Whether the tunnel stays open.
    pub open: bool,
}

/// What a step sends back, with its texts by their characters.
pub open spec fn sent(step: Step) -> Option<TunnelFrameView> {
    match step.send {
        Some(frame) => Some(frame@),
        None => None,
    }
}

/// What a step that only sends back leaves alone.
pub open spec fn only_sends(
    step: Step,
    before: TunnelView,
    after: TunnelView,
    registry_before: RegistryView,
    registry_after: RegistryView,
) -> bool {
    &&& after == before
    &&& registry_after == registry_before
    &&& step.notify is None
    &&& step.reply is None
}

/// The registry after the tunnel's device, if it is known, was seen at that time.
pub open spec fn seen(tunnel: TunnelView, registry: RegistryView, now_ms: i64) -> RegistryView {
    match tunnel.app_instance_id {
        Some(id) => registry.with_seen(id, now_ms),
        None => registry,
    }
}

/// What a message brings about: the rules of the tunnel.
pub open spec fn stepped(
    message: TunnelMessage,
    now_ms: i64,
    before: TunnelView,
    after: TunnelView,
    registry_before: RegistryView,
    registry_after: RegistryView,
    step: Step,
) -> bool {
    match message {
        TunnelMessage::BadFrame(reason) => {
            &&& only_sends(step, before, after, registry_before, registry_after)
            &&& sent(step) == Some(
                TunnelFrameView::Error { message: "invalid frame: "@ + reason@ },
            )
        },
        TunnelMessage::Ping => {
            &&& only_sends(step, before, after, registry_before, registry_after)
            &&& sent(step) == Some(TunnelFrameView::Pong { ts: now_ms })
        },
        TunnelMessage::Pong | TunnelMessage::Binary | TunnelMessage::Close => {
            &&& only_sends(step, before, after, registry_before, registry_after)
            &&& sent(step) is None
        },
        TunnelMessage::Frame(frame) => match frame@ {
            TunnelFrameView::Hello {
                app_instance_id,
                device_name,
                app_version,
                sync_info_b64,
            } => if text::trim(app_instance_id).len() == 0 {
                &&& only_sends(step, before, after, registry_before, registry_after)
                &&& sent(step) == Some(TunnelFrameView::Error { message: ID_REQUIRED@ })
            } else {
                &&& after.app_instance_id == Some(app_instance_id)
                &&& after.session_id matches Some(session_id)
                &&& random::is_uuid_text(session_id)
                &&& registry_after == registry_before.with_device(
                    registry::new_session(
                        session_id,
                        app_instance_id,
                        device_name,
                        app_version,
                        sync_info_b64,
                        now_ms,
                    ),
                )
                &&& registry::older_is_told(registry_before, app_instance_id, step.notify)
                &&& step.reply is None
                &&& sent(step) == Some(
                    TunnelFrameView::HelloAck { session_id, relay_version: RELAY_VERSION@ },
                )
            },
            TunnelFrameView::Ping { ts } => {
                &&& after == before
                &&& registry_after == seen(before, registry_before, now_ms)
                &&& step.notify is None
                &&& step.reply is None
                &&& sent(step) == Some(TunnelFrameView::Pong { ts })
            },
            TunnelFrameView::Pong { .. } => {
                &&& after == before
                &&& registry_after == seen(before, registry_before, now_ms)
                &&& step.notify is None
                &&& step.reply is None
                &&& sent(step) is None
            },
            TunnelFrameView::HttpResponse { .. } => {
                &&& after == before
                &&& step.notify is None
                &&& sent(step) is None
                &&& match before.app_instance_id {
                    Some(id) => (registry_after, registry::reply_view(step.reply))
                        == registry_before.completed(id, frame@),
                    None => registry_after == registry_before && step.reply is None,
                }
            },
            _ => {
                &&& only_sends(step, before, after, registry_before, registry_after)
                &&& sent(step) is None
            },
        },
    }
}

fn send_only(frame: TunnelFrame) -> (step: Step)
    ensures
        sent(step) == Some(frame@),
        step.notify is None,
        step.reply is None,
        step.open,
{
    Step { send: Some(frame), notify: None, reply: None, open: true }
}

fn nothing(open: bool) -> (step: Step)
    ensures
        sent(step) is None,
        step.notify is None,
        step.reply is None,
        step.open == open,
{
    Step { send: None, notify: None, reply: None, open }
}

impl Tunnel {
    /// A tunnel whose device has not yet said who it is.
    pub fn new() -> (tunnel: Self)
        ensures
            tunnel@ == (TunnelView { app_instance_id: None, session_id: None }),
    {
        Tunnel { app_instance_id: None, session_id: None }
    }

    fn touch(&self, registry: &mut Registry, now_ms: i64)
        requires
            old(registry).wf(),
        ensures
            final(registry).wf(),
            final(registry).settings() == old(registry).settings(),
            final(registry)@ == seen(self@, old(registry)@, now_ms),
    {
        if let Some(id) = &self.app_instance_id {
            registry.touch_device(id.as_str(), now_ms);
        }
    }

    /// Takes in a message that came at that time.
    pub fn on_message(
        &mut self,
        registry: &mut Registry,
        message: TunnelMessage,
        now_ms: i64,
    ) -> (step: Step)
        requires
            old(registry).wf(),
        ensures
            final(registry).wf(),
            final(registry).settings() == old(registry).settings(),
            step.open == !(message is Close),
            stepped(
                message,
                now_ms,
                old(self)@,
                final(self)@,
                old(registry)@,
                final(registry)@,
                step,
            ),
    {
        let frame = match message {
            TunnelMessage::BadFrame(reason) => {
                let message = "invalid frame: ".to_owned().concat(reason.as_str());
                return send_only(TunnelFrame::Error { message });
            },
            TunnelMessage::Ping => return send_only(TunnelFrame::Pong { ts: now_ms }),
            TunnelMessage::Pong | TunnelMessage::Binary => return nothing(true),
            TunnelMessage::Close => return nothing(false),
            TunnelMessage::Frame(frame) => frame,
        };
        match frame {
            TunnelFrame::Hello { app_instance_id, device_name, app_version, sync_info_b64 } => {
                if text::trimmed_text(app_instance_id.as_str()).as_str().is_empty() {
                    return send_only(TunnelFrame::Error { message: ID_REQUIRED.to_owned() });
                }
                let registration = registry.register_device(
                    app_instance_id.clone(),
                    device_name,
                    app_version,
                    sync_info_b64,
                    now_ms,
                );
                self.app_instance_id = Some(app_instance_id);
                self.session_id = Some(registration.session_id.clone());
                let ack = TunnelFrame::HelloAck {
                    session_id: registration.session_id,
                    relay_version: RELAY_VERSION.to_owned(),
                };
                Step { send: Some(ack), notify: registration.replaced, reply: None, open: true }
            },
            TunnelFrame::Ping { ts } => {
                self.touch(registry, now_ms);
                send_only(TunnelFrame::Pong { ts })
            },
            TunnelFrame::Pong { .. } => {
                self.touch(registry, now_ms);
                nothing(true)
            },
            TunnelFrame::HttpResponse { request_id, status, headers, body_b64, error } => {
                let frame = TunnelFrame::HttpResponse {
                    request_id,
                    status,
                    headers,
                    body_b64,
                    error,
                };
                match &self.app_instance_id {
                    Some(id) => {
                        let reply = registry.complete_request(id.as_str(), frame);
                        Step { send: None, notify: None, reply, open: true }
                    },
                    None => nothing(true),
                }
            },
            _ => nothing(true),
        }
    }

    /// Ends the tunnel: its device goes offline unless a newer tunnel speaks for it, and the
    /// requests that wait for it are told.
    pub fn on_end(self, registry: &mut Registry) -> (replies: Vec<Reply>)
        requires
            old(registry).wf(),
        ensures
            final(registry).wf(),
            final(registry).settings() == old(registry).settings(),
            match (self@.app_instance_id, self@.session_id) {
                (Some(id), Some(session_id)) => {
                    &&& final(registry)@ == old(registry)@.without_session(id, session_id)
                    &&& registry::all_told(
                        replies@,
                        old(registry)@.waiting_for(id, session_id),
                    )
                },
                _ => final(registry)@ == old(registry)@ && replies@.len() == 0,
            },
    {
        match (self.app_instance_id, self.session_id) {
            (Some(id), Some(session_id)) => registry.unregister_device(
                id.as_str(),
                session_id.as_str(),
            ),
            _ => Vec::new(),
        }
    }
}

/// A device that says who it is is online from then on under the session that it is told, and the
/// tunnel speaks for it; a blank name is refused and changes nothing.
pub proof fn law_hello(
    message: TunnelMessage,
    now_ms: i64,
    before: TunnelView,
    after: TunnelView,
    registry_before: RegistryView,
    registry_after: RegistryView,
    step: Step,
    frame: TunnelFrame,
)
    requires
        stepped(message, now_ms, before, after, registry_before, registry_after, step),
        message == TunnelMessage::Frame(frame),
    ensures
        frame@ matches TunnelFrameView::Hello {
            app_instance_id,
            device_name,
            app_version,
            sync_info_b64,
        } ==> {
            &&& text::trim(app_instance_id).len() > 0 ==> {
                let device = registry_after.devices[app_instance_id];
                &&& after.app_instance_id == Some(app_instance_id)
                &&& registry_after.devices.contains_key(app_instance_id)
                &&& after.session_id == Some(device.session_id)
                &&& device.app_instance_id == app_instance_id
                &&& device.device_name == device_name
                &&& device.app_version == app_version
                &&& device.sync_info_b64 == sync_info_b64
                &&& device.last_seen_ms == now_ms
                &&& sent(step) matches Some(TunnelFrameView::HelloAck { session_id, .. })
                    && session_id == device.session_id
                &&& step.notify is Some <==> registry_before.devices.contains_key(app_instance_id)
                &&& registry_after.rooms == registry_before.rooms
            }
            &&& text::trim(app_instance_id).len() == 0 ==> {
                &&& after == before
                &&& registry_after == registry_before
                &&& sent(step) == Some(
                    TunnelFrameView::Error { message: "app_instance_id required"@ },
                )
            }
        },
{
}

/// A device that pings is answered with its own mark and counts as seen, as does one that answers a
/// ping; what a tunnel brings before its device said who it is concerns no device.
pub proof fn law_tunnel_messages(
    message: TunnelMessage,
    now_ms: i64,
    before: TunnelView,
    after: TunnelView,
    registry_before: RegistryView,
    registry_after: RegistryView,
    step: Step,
    frame: TunnelFrame,
)
    requires
        stepped(message, now_ms, before, after, registry_before, registry_after, step),
    ensures
        message == TunnelMessage::Frame(frame) && (frame@ matches TunnelFrameView::Ping { ts })
            ==> sent(step) == Some(TunnelFrameView::Pong { ts: frame@->Ping_ts }),
        message == TunnelMessage::Frame(frame) && (frame@ is Ping || frame@ is Pong) ==> {
            &&& after == before
            &&& before.app_instance_id matches Some(id) ==> registry_after
                == registry_before.with_seen(id, now_ms)
            &&& before.app_instance_id is None ==> registry_after == registry_before
        },
        message is Ping ==> sent(step) == Some(TunnelFrameView::Pong { ts: now_ms }),
        message == TunnelMessage::Frame(frame) && frame@ is HttpResponse ==> {
            &&& sent(step) is None
            &&& before.app_instance_id matches Some(id) ==> {
                &&& registry_after == registry_before.completed(id, frame@).0
                &&& registry::reply_view(step.reply) == registry_before.completed(id, frame@).1
            }
            &&& before.app_instance_id is None ==> registry_after == registry_before && step.reply
                is None
        },
        message is BadFrame || message is Ping || message is Pong || message is Binary || message
            is Close ==> after == before && registry_after == registry_before && step.reply is None
            && step.notify is None,
        step.reply is Some ==> message is Frame && (message->Frame_0)@ is HttpResponse,
{
}

/// Text that is no frame is answered with why it is none, and what only the relay sends brings about
/// nothing when it comes from a device.
pub proof fn law_stray_messages(
    message: TunnelMessage,
    now_ms: i64,
    before: TunnelView,
    after: TunnelView,
    registry_before: RegistryView,
    registry_after: RegistryView,
    step: Step,
    reason: String,
    frame: TunnelFrame,
)
    requires
        stepped(message, now_ms, before, after, registry_before, registry_after, step),
    ensures
        message == TunnelMessage::BadFrame(reason) ==> {
            &&& sent(step) matches Some(TunnelFrameView::Error { message: words })
            &&& words.take(15) == "invalid frame: "@
            &&& words.skip(15) == reason@
        },
        message == TunnelMessage::Frame(frame) && (frame@ is HelloAck || frame@ is HttpRequest
            || frame@ is PeerEvent || frame@ is Error) ==> {
            &&& after == before
            &&& registry_after == registry_before
            &&& sent(step) is None
            &&& step.notify is None
            &&& step.reply is None
        },
        message == TunnelMessage::Frame(frame) && frame@ is Pong ==> sent(step) is None,
        message is Pong || message is Binary || message is Close ==> sent(step) is None,
{
    reveal_strlit("invalid frame: ");
    if let TunnelMessage::BadFrame(reason) = message {
        if let Some(TunnelFrameView::Error { message: words }) = sent(step) {
            assert(words.take(15) =~= "invalid frame: "@);
            assert(words.skip(15) =~= reason@);
        }
    }
}

} // verus!
