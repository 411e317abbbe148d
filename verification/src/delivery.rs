//! How entries and files go out to clients and come in from them: which requests are made, and what
//! the answers mean.
use vstd::prelude::*;

use crate::bytes;
use crate::hub;
use crate::hub::{
    icon_path, BroadcastReport, CompletedPush, Hub, HubError, HubErrorView, HubView,
    PushPrepareResponse,
    StoredFileView,
};
use crate::paste::{Paste, PasteView, FIELD_ID, FIELD_SIZE};
use crate::pieces;
use crate::secure;
use crate::sync_info::{SyncInfo, SyncInfoView};
use crate::text;

verus! {

/// How a request asks.
#[derive(Debug, Clone, Copy, PartialEq, Eq, Structural)]
pub enum CallMethod {
    Get,
    Post,
}

/// A request to a client.
#[derive(Debug)]
pub struct Call {
    pub method: CallMethod,
    pub url: String,
    pub headers: Vec<(String, String)>,
    pub body: Vec<u8>,
}

/// Headers with their texts by their characters.
pub open spec fn header_views(headers: Seq<(String, String)>) -> Seq<(Seq<char>, Seq<char>)> {
    headers.map_values(|header: (String, String)| (header.0@, header.1@))
}

/// Whether an answer with that status grants what was asked.
pub open spec fn succeeds(status: u16) -> bool {
    200 <= status <= 299
}

/// Whether an answer with that status grants what was asked.
pub fn is_success(status: u16) -> (yes: bool)
    ensures
        yes == succeeds(status),
{
    200 <= status && status <= 299
}

/// The address of a client's own server. An address with colons stands in brackets.
pub open spec fn base_url(info: SyncInfoView) -> Option<Seq<char>> {
    let hosts = info.endpoint_info.host_info_list;
    if hosts.len() == 0 {
        None
    } else {
        let host = hosts[0].host_address;
        let host = if host.contains(':') {
            "["@ + host + "]"@
        } else {
            host
        };
        Some("http://"@ + host + ":"@ + text::decimal(info.endpoint_info.port as int))
    }
}

/// The address of a client's own server.
pub fn client_base_url(info: &SyncInfo) -> (url: Option<String>)
    ensures
        text::optional(url) == base_url(info@),
{
    let hosts = &info.endpoint_info.host_info_list;
    assert(info@.endpoint_info.host_info_list.len() == hosts@.len());
    if hosts.len() == 0 {
        return None;
    }
    assert(info@.endpoint_info.host_info_list[0].host_address == hosts@[0].host_address@);
    let mut url = "http://".to_owned();
    if text::has_char(hosts[0].host_address.as_str(), ':') {
        let host = "[".to_owned().concat(hosts[0].host_address.as_str()).concat("]");
        url.append(host.as_str());
    } else {
        url.append(hosts[0].host_address.as_str());
    }
    url.append(":");
    url.append(text::signed_text(info.endpoint_info.port as i64).as_str());
    Some(url)
}

/// A segment of a path with all that is not plain in it escaped.
pub fn percent_encode_path_segment(value: &str) -> (segment: String)
    ensures
        segment@ == text::percent_text(text::utf8(value@)),
{
    text::percent_encode(value)
}

/// The address at which a client takes entries.
pub open spec fn paste_url(info: SyncInfoView) -> Option<Seq<char>> {
    let hosts = info.endpoint_info.host_info_list;
    if hosts.len() == 0 {
        None
    } else {
        Some(
            "http://"@ + hosts[0].host_address + ":"@ + text::decimal(
                info.endpoint_info.port as int,
            ) + "/sync/paste"@,
        )
    }
}

/// The headers of every encrypted request to a client.
pub open spec fn secure_headers(server: Seq<char>, target: Seq<char>) -> Seq<
    (Seq<char>, Seq<char>),
> {
    seq![("appInstanceId"@, server), ("targetAppInstanceId"@, target), ("secure"@, "1"@)]
}

/// The header that says what the body is.
pub open spec fn content_type() -> (Seq<char>, Seq<char>) {
    ("content-type"@, "application/json"@)
}

fn add_header(headers: &mut Vec<(String, String)>, name: &str, value: &str)
    ensures
        header_views(final(headers)@) == header_views(old(headers)@).push((name@, value@)),
{
    let ghost before = header_views(headers@);
    headers.push((name.to_owned(), value.to_owned()));
    assert(header_views(headers@) =~= before.push((name@, value@)));
}

fn start_headers(server: &str, target: &str) -> (headers: Vec<(String, String)>)
    ensures
        header_views(headers@) == secure_headers(server@, target@),
{
    let mut headers: Vec<(String, String)> = Vec::new();
    assert(header_views(headers@) =~= Seq::empty());
    add_header(&mut headers, "appInstanceId", server);
    add_header(&mut headers, "targetAppInstanceId", target);
    add_header(&mut headers, "secure", "1");
    assert(header_views(headers@) =~= secure_headers(server@, target@));
    headers
}

/// A client that something goes out to.
#[derive(Debug)]
pub struct Target {
    pub client_id: String,
    pub info: SyncInfo,
}

/// The clients that something goes out to: all that told about themselves but the one it comes
/// from.
pub open spec fn targets_of(
    order: Seq<Seq<char>>,
    infos: Map<Seq<char>, SyncInfoView>,
    from: Seq<char>,
) -> Seq<(Seq<char>, SyncInfoView)>
    decreases order.len(),
{
    if order.len() == 0 {
        Seq::empty()
    } else {
        let earlier = targets_of(order.drop_last(), infos, from);
        if order.last() == from {
            earlier
        } else {
            earlier.push((order.last(), infos[order.last()]))
        }
    }
}

/// Targets with their texts by their characters.
pub open spec fn target_views(targets: Seq<Target>) -> Seq<(Seq<char>, SyncInfoView)> {
    targets.map_values(|target: Target| (target.client_id@, target.info@))
}

/// Nothing goes back to the client that it comes from, and every other client that told about
/// itself is a target.
pub proof fn law_targets(
    order: Seq<Seq<char>>,
    infos: Map<Seq<char>, SyncInfoView>,
    from: Seq<char>,
    id: Seq<char>,
)
    ensures
        targets_of(order, infos, from).contains((id, infos[id])) <==> order.contains(id) && id
            != from,
        forall|i: int|
            0 <= i < targets_of(order, infos, from).len() ==> (#[trigger] targets_of(
                order,
                infos,
                from,
            )[i]).0 != from,
    decreases order.len(),
{
    if order.len() > 0 {
        let rest = order.drop_last();
        let last = order.last();
        law_targets(rest, infos, from, id);
        let earlier = targets_of(rest, infos, from);
        let all = targets_of(order, infos, from);
        let wanted = (id, infos[id]);
        if order.contains(id) {
            let i = choose|i: int| 0 <= i < order.len() && order[i] == id;
            if i < rest.len() {
                assert(rest[i] == id);
            }
        }
        if rest.contains(id) {
            let i = choose|i: int| 0 <= i < rest.len() && rest[i] == id;
            assert(order[i] == id);
        }
        assert(order[order.len() - 1] == last);
        if last != from {
            assert(all[earlier.len() as int] == (last, infos[last]));
            if earlier.contains(wanted) {
                let i = choose|i: int| 0 <= i < earlier.len() && earlier[i] == wanted;
                assert(all[i] == wanted);
            }
            if all.contains(wanted) && id != last {
                let i = choose|i: int| 0 <= i < all.len() && all[i] == wanted;
                assert(earlier[i] == wanted);
            }
        }
    }
}

/// No client is a target twice, and there are as many targets as clients other than the source.
pub proof fn law_targets_once(
    order: Seq<Seq<char>>,
    infos: Map<Seq<char>, SyncInfoView>,
    from: Seq<char>,
)
    requires
        order.no_duplicates(),
    ensures
        forall|i: int, j: int|
            0 <= i < j < targets_of(order, infos, from).len() ==> targets_of(order, infos, from)[i].0
                != targets_of(order, infos, from)[j].0,
        forall|i: int|
            0 <= i < targets_of(order, infos, from).len() ==> order.contains(
                (#[trigger] targets_of(order, infos, from)[i]).0,
            ),
        targets_of(order, infos, from).len() == order.to_set().remove(from).len(),
    decreases order.len(),
{
    let all = targets_of(order, infos, from);
    if order.len() == 0 {
        assert(order.to_set().remove(from) =~= Set::empty());
    } else {
        let rest = order.drop_last();
        let last = order.last();
        let earlier = targets_of(rest, infos, from);
        law_targets_once(rest, infos, from);
        assert(!rest.contains(last)) by {
            if rest.contains(last) {
                let i = choose|i: int| 0 <= i < rest.len() && rest[i] == last;
                assert(order[i] == order[order.len() - 1]);
            }
        }
        assert forall|id: Seq<char>| #[trigger] order.contains(id) <==> rest.contains(id) || id
            == last by {
            if rest.contains(id) {
                let i = choose|i: int| 0 <= i < rest.len() && rest[i] == id;
                assert(order[i] == id);
            }
            assert(order[order.len() - 1] == last);
            if order.contains(id) && id != last {
                let i = choose|i: int| 0 <= i < order.len() && order[i] == id;
                assert(rest[i] == id);
            }
        }
        assert forall|i: int| 0 <= i < all.len() implies order.contains((#[trigger] all[i]).0) by {
            if i < earlier.len() {
                assert(rest.contains(earlier[i].0));
            }
        }
        assert forall|i: int, j: int| 0 <= i < j < all.len() implies all[i].0 != all[j].0 by {
            assert(rest.contains(earlier[i].0));
        }
        if last == from {
            assert(order.to_set().remove(from) =~= rest.to_set().remove(from));
        } else {
            assert(order.to_set().remove(from) =~= rest.to_set().remove(from).insert(last));
        }
    }
}

/// A broadcast under way: who it goes to and how it went so far.
#[derive(Debug)]
pub struct Broadcast {
    targets: Vec<Target>,
    report: BroadcastReport,
}

impl Broadcast {
    /// Who the broadcast goes to.
    pub closed spec fn all(&self) -> Seq<(Seq<char>, SyncInfoView)> {
        target_views(self.targets@)
    }

    /// How the broadcast went so far.
    pub closed spec fn so_far(&self) -> BroadcastReport {
        self.report
    }

    /// What holds of every broadcast: no client is counted twice.
    pub open spec fn wf(&self) -> bool {
        &&& self.so_far().attempted == self.all().len()
        &&& self.so_far().delivered + self.so_far().failed <= self.so_far().attempted
    }

    /// How many clients have been served, with or without success.
    pub open spec fn served(&self) -> int {
        self.so_far().delivered + self.so_far().failed
    }

    /// Begins a broadcast of what comes from that client.
    pub fn start(hub: &Hub, from_app_instance_id: &str) -> (broadcast: Self)
        ensures
            broadcast.wf(),
            broadcast.served() == 0,
            hub.informed_order().no_duplicates(),
            hub.informed_order().to_set() == hub@.client_sync_infos.dom(),
            broadcast.all() == targets_of(
                hub.informed_order(),
                hub@.client_sync_infos,
                from_app_instance_id@,
            ),
    {
        let targets = hub.targets(from_app_instance_id);
        let report = BroadcastReport { attempted: targets.len(), delivered: 0, failed: 0 };
        Broadcast { targets, report }
    }

    /// The client whose turn it is.
    pub fn next(&self) -> (target: Option<&Target>)
        requires
            self.wf(),
        ensures
            match target {
                Some(target) => {
                    &&& self.served() < self.all().len()
                    &&& (target.client_id@, target.info@) == self.all()[self.served()]
                },
                None => self.served() == self.all().len(),
            },
    {
        let place = self.report.delivered + self.report.failed;
        if place < self.targets.len() {
            Some(&self.targets[place])
        } else {
            None
        }
    }

    /// Notes how it went with the client whose turn it was.
    pub fn settle(&mut self, delivered: bool)
        requires
            old(self).wf(),
            old(self).served() < old(self).all().len(),
        ensures
            final(self).wf(),
            final(self).all() == old(self).all(),
            final(self).so_far() == (if delivered {
                BroadcastReport {
                    delivered: (old(self).so_far().delivered + 1) as usize,
                    ..old(self).so_far()
                }
            } else {
                BroadcastReport {
                    failed: (old(self).so_far().failed + 1) as usize,
                    ..old(self).so_far()
                }
            }),
    {
        if delivered {
            self.report.delivered = self.report.delivered + 1;
        } else {
            self.report.failed = self.report.failed + 1;
        }
    }

    /// How the broadcast went. Once every client was served, each was either reached or not.
    pub fn report(&self) -> (report: BroadcastReport)
        requires
            self.wf(),
        ensures
            report == self.so_far(),
            self.served() == self.all().len() ==> report.attempted == report.delivered
                + report.failed,
    {
        self.report
    }
}

/// Whether this is the request that hands an entry to a client.
pub open spec fn is_paste_call(
    hub: Hub,
    call: Call,
    client: Seq<char>,
    info: SyncInfoView,
    server: Seq<char>,
    body: Seq<u8>,
) -> bool {
    &&& call.method == CallMethod::Post
    &&& Some(call.url@) == paste_url(info)
    &&& header_views(call.headers@) == secure_headers(server, client).push(content_type())
    &&& hub.is_sealed_for(client, call.body@, body)
}

/// The request that hands an entry, given as JSON, to a client.
pub fn paste_call(hub: &Hub, target: &Target, server: &str, body: &[u8]) -> (call: Result<
    Call,
    HubError,
>)
    ensures
        match call {
            Ok(call) => is_paste_call(
                *hub,
                call,
                target.client_id@,
                target.info@,
                server@,
                body@,
            ),
            Err(error) => {
                ||| paste_url(target.info@) is None && error@ == HubErrorView::NoReachableHost
                ||| paste_url(target.info@) is Some && hub.cannot_seal(target.client_id@, error@)
            },
        },
{
    let hosts = &target.info.endpoint_info.host_info_list;
    assert(target.info@.endpoint_info.host_info_list.len() == hosts@.len());
    if hosts.len() == 0 {
        return Err(HubError::NoReachableHost);
    }
    assert(target.info@.endpoint_info.host_info_list[0].host_address
        == hosts@[0].host_address@);
    let url = "http://".to_owned().concat(hosts[0].host_address.as_str()).concat(":").concat(
        text::signed_text(target.info.endpoint_info.port as i64).as_str(),
    ).concat("/sync/paste");
    let encrypted = match hub.encrypt_for_client(target.client_id.as_str(), body) {
        Ok(encrypted) => encrypted,
        Err(error) => return Err(error),
    };
    let mut headers = start_headers(server, target.client_id.as_str());
    add_header(&mut headers, "content-type", "application/json");
    Ok(Call { method: CallMethod::Post, url, headers, body: encrypted })
}

/// Whether this is the request that announces a file to a client.
pub open spec fn is_prepare_call(
    hub: Hub,
    call: Call,
    client: Seq<char>,
    base: Seq<char>,
    server: Seq<char>,
    body: Seq<u8>,
) -> bool {
    &&& call.method == CallMethod::Post
    &&& call.url@ == base + "/sync/paste"@
    &&& header_views(call.headers@) == secure_headers(server, client).push(
        ("X-Sync-Mode"@, "push"@),
    ).push(content_type())
    &&& hub.is_sealed_for(client, call.body@, body)
}

/// The request that announces a file to a client, and the address of the client's own server.
pub fn prepare_call(hub: &Hub, target: &Target, server: &str, body: &[u8]) -> (call: Result<
    (String, Call),
    HubError,
>)
    ensures
        match call {
            Ok((base, call)) => {
                &&& base_url(target.info@) == Some(base@)
                &&& is_prepare_call(*hub, call, target.client_id@, base@, server@, body@)
            },
            Err(error) => {
                ||| base_url(target.info@) is None && error@ == HubErrorView::NoReachableHost
                ||| base_url(target.info@) is Some && hub.cannot_seal(target.client_id@, error@)
            },
        },
{
    let base = match client_base_url(&target.info) {
        Some(base) => base,
        None => return Err(HubError::NoReachableHost),
    };
    let encrypted = match hub.encrypt_for_client(target.client_id.as_str(), body) {
        Ok(encrypted) => encrypted,
        Err(error) => return Err(error),
    };
    let mut headers = start_headers(server, target.client_id.as_str());
    add_header(&mut headers, "X-Sync-Mode", "push");
    add_header(&mut headers, "content-type", "application/json");
    let url = base.clone().concat("/sync/paste");
    Ok((base, Call { method: CallMethod::Post, url, headers, body: encrypted }))
}

/// What a client answers to the announcement of a file, decrypted; it is JSON.
pub fn prepare_answer(hub: &Hub, client: &str, status: u16, body: &[u8]) -> (answer: Result<
    Vec<u8>,
    HubError,
>)
    ensures
        secure::bytes_or(answer) == if succeeds(status) {
            hub.opened_from(client@, body@)
        } else {
            Err(HubErrorView::PushRejected { status })
        },
{
    if is_success(status) {
        hub.decrypt_from_client(client, body)
    } else {
        Err(HubError::PushRejected { status })
    }
}

/// A file on its way to a client.
#[derive(Debug)]
pub struct Upload {
    base: String,
    client: String,
    server: String,
    paste_id: i64,
    token: String,
    source: Vec<u8>,
    chunk_size: usize,
    chunk_count: usize,
    /// How many pieces the client has taken.
    sent: usize,
    /// Where the next piece begins.
    start: usize,
    /// Whether the client has confirmed the whole.
    confirmed: bool,
}

/// An [`Upload`] with its texts by their characters.
#[verifier::ext_equal]
pub struct UploadView {
    pub base: Seq<char>,
    pub client: Seq<char>,
    pub server: Seq<char>,
    pub paste_id: i64,
    pub token: Seq<char>,
    /// The pieces that the client is sent.
    pub parts: Seq<Seq<u8>>,
    pub sent: nat,
    pub confirmed: bool,
}

impl View for Upload {
    type V = UploadView;

    closed spec fn view(&self) -> UploadView {
        UploadView {
            base: self.base@,
            client: self.client@,
            server: self.server@,
            paste_id: self.paste_id,
            token: self.token@,
            parts: pieces::pieces(self.source@, self.chunk_size as nat),
            sent: self.sent as nat,
            confirmed: self.confirmed,
        }
    }
}

/// What comes of a client's answer to the announcement of a file: the pieces in which it is sent,
/// or why it is not.
pub open spec fn upload_parts(chunk_size: u64, chunk_count: usize, source: Seq<u8>) -> Result<
    Seq<Seq<u8>>,
    HubErrorView,
> {
    if chunk_size > usize::MAX {
        Err(HubErrorView::ChunkSizeTooLarge)
    } else if chunk_size == 0 {
        Err(HubErrorView::ChunkSizeZero)
    } else {
        let parts = pieces::pieces(source, chunk_size as nat);
        if parts.len() != chunk_count {
            Err(
                HubErrorView::ChunkCountMismatch {
                    expected: chunk_count,
                    got: parts.len() as usize,
                },
            )
        } else {
            Ok(parts)
        }
    }
}

/// Whether this is the request that hands a piece of a file to a client.
pub open spec fn is_chunk_call(hub: Hub, call: Call, upload: UploadView) -> bool {
    &&& call.method == CallMethod::Post
    &&& call.url@ == upload.base + "/sync/file/push"@
    &&& header_views(call.headers@) == secure_headers(upload.server, upload.client).push(
        ("X-Paste-Id"@, text::decimal(upload.paste_id as int)),
    ).push(("X-Chunk-Index"@, text::decimal(upload.sent as int))).push(
        ("X-Session-Token"@, upload.token),
    ).push(content_type())
    &&& hub.is_sealed_for(upload.client, call.body@, upload.parts[upload.sent as int])
}

/// Whether this is the request that tells a client that all pieces of a file are sent.
pub open spec fn is_completion_call(hub: Hub, call: Call, upload: UploadView) -> bool {
    &&& call.method == CallMethod::Post
    &&& call.url@ == upload.base + "/sync/paste/push/complete"@
    &&& header_views(call.headers@) == secure_headers(upload.server, upload.client).push(
        ("X-Paste-Id"@, text::decimal(upload.paste_id as int)),
    ).push(("X-Session-Token"@, upload.token)).push(content_type())
    &&& hub.is_sealed_for(upload.client, call.body@, Seq::empty())
}

impl Upload {
    /// What holds of every upload.
    pub closed spec fn wf(&self) -> bool {
        let parts = pieces::pieces(self.source@, self.chunk_size as nat);
        &&& self.chunk_size > 0
        &&& self.chunk_count == parts.len()
        &&& self.sent <= self.chunk_count
        &&& self.start <= self.source@.len()
        &&& pieces::pieces(self.source@.skip(self.start as int), self.chunk_size as nat)
            == parts.skip(self.sent as int)
        &&& self.confirmed ==> self.sent == self.chunk_count
    }

    /// Begins to send a file to a client that is ready for it.
    pub fn start(
        base: &str,
        client: &str,
        server: &str,
        prepare: &PushPrepareResponse,
        source: Vec<u8>,
    ) -> (upload: Result<Self, HubError>)
        ensures
            match upload_parts(prepare.chunk_size, prepare.chunk_count, source@) {
                Ok(parts) => {
                    &&& upload matches Ok(upload)
                    &&& upload.wf()
                    &&& upload@ == (UploadView {
                        base: base@,
                        client: client@,
                        server: server@,
                        paste_id: prepare.paste_id,
                        token: prepare.session_token@,
                        parts,
                        sent: 0,
                        confirmed: false,
                    })
                },
                Err(error) => upload matches Err(refused) && refused@ == error,
            },
    {
        if prepare.chunk_size > usize::MAX as u64 {
            return Err(HubError::ChunkSizeTooLarge);
        }
        let chunk_size = prepare.chunk_size as usize;
        if chunk_size == 0 {
            return Err(HubError::ChunkSizeZero);
        }
        let got = pieces::piece_count(source.len(), chunk_size);
        assert(pieces::pieces(source@, chunk_size as nat).len() == got);
        if got != prepare.chunk_count {
            return Err(HubError::ChunkCountMismatch { expected: prepare.chunk_count, got });
        }
        assert(source@.skip(0) =~= source@);
        let ghost parts = pieces::pieces(source@, chunk_size as nat);
        assert(parts.skip(0) =~= parts);
        Ok(
            Upload {
                base: base.to_owned(),
                client: client.to_owned(),
                server: server.to_owned(),
                paste_id: prepare.paste_id,
                token: prepare.session_token.clone(),
                source,
                chunk_size,
                chunk_count: got,
                sent: 0,
                start: 0,
                confirmed: false,
            },
        )
    }

    /// The request that is to be made next; none once the client has confirmed the whole.
    pub fn call(&self, hub: &Hub) -> (call: Result<Option<Call>, HubError>)
        requires
            self.wf(),
        ensures
            match call {
                Ok(None) => self@.confirmed,
                Ok(Some(call)) => {
                    &&& !self@.confirmed
                    &&& if self@.sent < self@.parts.len() {
                        is_chunk_call(*hub, call, self@)
                    } else {
                        is_completion_call(*hub, call, self@)
                    }
                },
                Err(error) => !self@.confirmed && hub.cannot_seal(self@.client, error@),
            },
    {
        if self.confirmed {
            return Ok(None);
        }
        let mut headers = start_headers(self.server.as_str(), self.client.as_str());
        add_header(&mut headers, "X-Paste-Id", text::signed_text(self.paste_id).as_str());
        if self.sent < self.chunk_count {
            let end = self.next_start();
            let chunk = bytes::part(self.source.as_slice(), self.start, end);
            let body = match hub.encrypt_for_client(self.client.as_str(), chunk) {
                Ok(body) => body,
                Err(error) => return Err(error),
            };
            add_header(
                &mut headers,
                "X-Chunk-Index",
                text::unsigned_text(self.sent as u64).as_str(),
            );
            add_header(&mut headers, "X-Session-Token", self.token.as_str());
            add_header(&mut headers, "content-type", "application/json");
            let url = self.base.clone().concat("/sync/file/push");
            Ok(Some(Call { method: CallMethod::Post, url, headers, body }))
        } else {
            let nothing: Vec<u8> = Vec::new();
            assert(nothing@ =~= Seq::empty());
            let body = match hub.encrypt_for_client(self.client.as_str(), nothing.as_slice()) {
                Ok(body) => body,
                Err(error) => return Err(error),
            };
            add_header(&mut headers, "X-Session-Token", self.token.as_str());
            add_header(&mut headers, "content-type", "application/json");
            let url = self.base.clone().concat("/sync/paste/push/complete");
            Ok(Some(Call { method: CallMethod::Post, url, headers, body }))
        }
    }

    fn next_start(&self) -> (end: usize)
        requires
            self.wf(),
            self.sent < self.chunk_count,
        ensures
            self.start < end <= self.source@.len(),
            ({
                let parts = pieces::pieces(self.source@, self.chunk_size as nat);
                &&& parts[self.sent as int] == self.source@.subrange(self.start as int, end as int)
                &&& pieces::pieces(self.source@.skip(end as int), self.chunk_size as nat)
                    == parts.skip(self.sent + 1)
            }),
    {
        proof {
            let parts = pieces::pieces(self.source@, self.chunk_size as nat);
            assert(parts.skip(self.sent as int).len() > 0);
            if self.start == self.source@.len() {
                assert(self.source@.skip(self.start as int).len() == 0);
            }
            pieces::lemma_next_piece(
                self.source@,
                self.chunk_size as nat,
                self.start as nat,
                self.sent as nat,
            );
        }
        if self.source.len() - self.start < self.chunk_size {
            self.source.len()
        } else {
            self.start + self.chunk_size
        }
    }

    /// Takes in the status of the answer to the request that was made.
    pub fn answered(&mut self, status: u16) -> (outcome: Result<(), HubError>)
        requires
            old(self).wf(),
            !old(self)@.confirmed,
        ensures
            final(self).wf(),
            if old(self)@.sent < old(self)@.parts.len() {
                if succeeds(status) {
                    &&& outcome is Ok
                    &&& final(self)@ == (UploadView { sent: old(self)@.sent + 1, ..old(self)@ })
                } else {
                    &&& outcome matches Err(error)
                    &&& error@ == (HubErrorView::ChunkRejectedByTarget {
                        index: old(self)@.sent as usize,
                    })
                    &&& final(self)@ == old(self)@
                }
            } else {
                if succeeds(status) {
                    &&& outcome is Ok
                    &&& final(self)@ == (UploadView { confirmed: true, ..old(self)@ })
                } else {
                    &&& outcome matches Err(error) && error@ == HubErrorView::CompletionRejected
                    &&& final(self)@ == old(self)@
                }
            },
    {
        if self.sent < self.chunk_count {
            if !is_success(status) {
                return Err(HubError::ChunkRejectedByTarget { index: self.sent });
            }
            let end = self.next_start();
            self.start = end;
            self.sent = self.sent + 1;
        } else {
            if !is_success(status) {
                return Err(HubError::CompletionRejected);
            }
            self.confirmed = true;
        }
        Ok(())
    }
}

/// A file that a client is sent arrives as it is: its pieces, one after the other, are the file.
pub proof fn law_upload_is_whole(chunk_size: u64, chunk_count: usize, source: Seq<u8>)
    requires
        upload_parts(chunk_size, chunk_count, source) is Ok,
    ensures
        pieces::joined(upload_parts(chunk_size, chunk_count, source)->Ok_0) == source,
{
    pieces::law_pieces_join(source, chunk_size as nat);
}

/// A file that the server fetches from a client.
#[derive(Debug)]
pub struct Pull {
    client: String,
    server: String,
    base: String,
    source_id: i64,
    paste_id: i64,
    chunk_count: usize,
    fetched: usize,
}

/// A [`Pull`] with its texts by their characters.
#[verifier::ext_equal]
pub struct PullView {
    pub client: Seq<char>,
    pub server: Seq<char>,
    pub base: Seq<char>,
    pub source_id: i64,
    pub paste_id: i64,
    pub chunk_count: usize,
    pub fetched: usize,
}

impl View for Pull {
    type V = PullView;

    closed spec fn view(&self) -> PullView {
        PullView {
            client: self.client@,
            server: self.server@,
            base: self.base@,
            source_id: self.source_id,
            paste_id: self.paste_id,
            chunk_count: self.chunk_count,
            fetched: self.fetched,
        }
    }
}

/// What comes of the wish to fetch the file of an entry from a client.
pub open spec fn pull_of(
    hub: HubView,
    client: Seq<char>,
    server: Seq<char>,
    paste: PasteView,
    now_ms: i64,
) -> Result<PullView, HubErrorView> {
    match (paste.signed(FIELD_ID@), paste.unsigned(FIELD_SIZE@)) {
        (None, _) => Err(HubErrorView::MissingId),
        (_, None) => Err(HubErrorView::MissingSize),
        (Some(source_id), Some(size)) => if !hub.client_sync_infos.contains_key(client) {
            Err(HubErrorView::NoSyncInfo)
        } else {
            match base_url(hub.client_sync_infos[client]) {
                None => Err(HubErrorView::NoReachableHost),
                Some(base) => Ok(
                    PullView {
                        client,
                        server,
                        base,
                        source_id,
                        paste_id: now_ms,
                        chunk_count: hub::chunk_count_of(size),
                        fetched: 0,
                    },
                ),
            }
        },
    }
}

/// The JSON that asks a client for a piece of a file.
pub open spec fn pull_json(source_id: i64, index: usize) -> Seq<char> {
    "{\"chunkIndex\":"@ + text::decimal(index as int) + ",\"id\":"@ + text::decimal(
        source_id as int,
    ) + "}"@
}

/// The directory of a file that was fetched from a client.
pub open spec fn pull_directory(paste_id: i64) -> Seq<char> {
    "pull-"@ + text::decimal(paste_id as int)
}

/// Whether this is the request that asks a client for the next piece of a file.
pub open spec fn is_pull_call(hub: Hub, call: Call, pull: PullView) -> bool {
    &&& call.method == CallMethod::Post
    &&& call.url@ == pull.base + "/pull/file"@
    &&& header_views(call.headers@) == secure_headers(pull.server, pull.client).push(
        content_type(),
    )
    &&& hub.is_sealed_for(
        pull.client,
        call.body@,
        text::utf8(pull_json(pull.source_id, pull.fetched)),
    )
}

impl Pull {
    #[verifier::type_invariant]
    spec fn fetches_no_more(self) -> bool {
        self.fetched <= self.chunk_count
    }

    /// Begins to fetch the file of an entry from a client. It gets a number of its own, which is
    /// the time.
    pub fn start(hub: &Hub, client: &str, server: &str, paste: &Paste, now_ms: i64) -> (pull: Result<
        Self,
        HubError,
    >)
        ensures
            match pull {
                Ok(pull) => pull_of(hub@, client@, server@, paste@, now_ms) == Ok::<
                    PullView,
                    HubErrorView,
                >(pull@),
                Err(error) => pull_of(hub@, client@, server@, paste@, now_ms) == Err::<
                    PullView,
                    HubErrorView,
                >(error@),
            },
    {
        let source_id = match paste.signed(FIELD_ID) {
            Some(id) => id,
            None => return Err(HubError::MissingId),
        };
        let size = match paste.unsigned(FIELD_SIZE) {
            Some(size) => size,
            None => return Err(HubError::MissingSize),
        };
        let info = match hub.client_sync_info(client) {
            Some(info) => info,
            None => return Err(HubError::NoSyncInfo),
        };
        let base = match client_base_url(&info) {
            Some(base) => base,
            None => return Err(HubError::NoReachableHost),
        };
        Ok(
            Pull {
                client: client.to_owned(),
                server: server.to_owned(),
                base,
                source_id,
                paste_id: now_ms,
                chunk_count: hub::count_chunks(size),
                fetched: 0,
            },
        )
    }

    /// The directory that the pieces go into.
    pub fn directory(&self) -> (name: String)
        ensures
            name@ == pull_directory(self@.paste_id),
    {
        "pull-".to_owned().concat(text::signed_text(self.paste_id).as_str())
    }

    /// The request for the next piece; none once all have come.
    pub fn call(&self, hub: &Hub) -> (call: Result<Option<Call>, HubError>)
        ensures
            match call {
                Ok(None) => self@.fetched == self@.chunk_count,
                Ok(Some(call)) => self@.fetched < self@.chunk_count && is_pull_call(
                    *hub,
                    call,
                    self@,
                ),
                Err(error) => self@.fetched < self@.chunk_count && hub.cannot_seal(
                    self@.client,
                    error@,
                ),
            },
    {
        proof {
            use_type_invariant(self);
        }
        if self.fetched >= self.chunk_count {
            return Ok(None);
        }
        let json = "{\"chunkIndex\":".to_owned().concat(
            text::unsigned_text(self.fetched as u64).as_str(),
        ).concat(",\"id\":").concat(text::signed_text(self.source_id).as_str()).concat("}");
        let body = match hub.encrypt_for_client(self.client.as_str(), json.as_str().as_bytes()) {
            Ok(body) => body,
            Err(error) => return Err(error),
        };
        let mut headers = start_headers(self.server.as_str(), self.client.as_str());
        add_header(&mut headers, "content-type", "application/json");
        let url = self.base.clone().concat("/pull/file");
        Ok(Some(Call { method: CallMethod::Post, url, headers, body }))
    }

    /// Takes in the answer to the request that was made: the file that the piece goes into, and the
    /// piece.
    pub fn answered(&mut self, hub: &Hub, status: u16, body: &[u8]) -> (piece: Result<
        (String, Vec<u8>),
        HubError,
    >)
        requires
            old(self)@.fetched < old(self)@.chunk_count,
        ensures
            match piece {
                Ok((file, bytes)) => {
                    &&& succeeds(status)
                    &&& file@ == hub::chunk_file(old(self)@.fetched)
                    &&& hub.stream_content(old(self)@.client, body@) == Ok::<Seq<u8>, HubErrorView>(
                        bytes@,
                    )
                    &&& final(self)@ == (PullView {
                        fetched: (old(self)@.fetched + 1) as usize,
                        ..old(self)@
                    })
                },
                Err(error) => {
                    &&& final(self)@ == old(self)@
                    &&& if succeeds(status) {
                        hub.stream_content(old(self)@.client, body@) == Err::<
                            Seq<u8>,
                            HubErrorView,
                        >(error@)
                    } else {
                        error@ == HubErrorView::ChunkRejectedBySource { index: old(self)@.fetched }
                    }
                },
            },
    {
        if !is_success(status) {
            return Err(HubError::ChunkRejectedBySource { index: self.fetched });
        }
        let bytes = match hub.decrypt_stream_from_client(self.client.as_str(), body) {
            Ok(bytes) => bytes,
            Err(error) => return Err(error),
        };
        let file = hub::chunk_file_name(self.fetched);
        self.fetched = self.fetched + 1;
        Ok((file, bytes))
    }

    /// Ends the fetching once all pieces have come and are kept: the hub has the file under the
    /// number that it got.
    pub fn finish(self, hub: &mut Hub) -> (paste_id: i64)
        requires
            self@.fetched == self@.chunk_count,
        ensures
            paste_id == self@.paste_id,
            final(hub).server_keys() == old(hub).server_keys(),
            final(hub)@ == (HubView {
                stored_files: old(hub)@.stored_files.insert(
                    self@.paste_id,
                    StoredFileView {
                        directory: pull_directory(self@.paste_id),
                        chunk_count: self@.chunk_count,
                    },
                ),
                ..old(hub)@
            }),
    {
        let directory = self.directory();
        hub.keep_file(self.paste_id, directory, self.chunk_count);
        self.paste_id
    }
}

/// Ends the broadcast of a file: the server keeps it for those who ask for it later.
pub fn finish_push(hub: &mut Hub, completed: CompletedPush)
    ensures
        final(hub).server_keys() == old(hub).server_keys(),
        final(hub)@ == (HubView {
            stored_files: old(hub)@.stored_files.insert(
                completed.paste_id,
                StoredFileView {
                    directory: completed.directory@,
                    chunk_count: completed.chunk_count,
                },
            ),
            ..old(hub)@
        }),
{
    hub.keep_file(completed.paste_id, completed.directory, completed.chunk_count);
}

/// The request for the icon of a source from a client.
pub fn icon_call(hub: &Hub, client: &str, server: &str, source: &str) -> (call: Result<
    Call,
    HubError,
>)
    ensures
        if hub::icon_file(source@) is Err {
            call matches Err(error) && error@ == HubErrorView::InvalidIconSource
        } else if !hub@.client_sync_infos.contains_key(client@) {
            call matches Err(error) && error@ == HubErrorView::NoSyncInfo
        } else {
            match base_url(hub@.client_sync_infos[client@]) {
                None => call matches Err(error) && error@ == HubErrorView::NoReachableHost,
                Some(base) => {
                    &&& call matches Ok(call)
                    &&& call.method == CallMethod::Get
                    &&& call.url@ == base + "/pull/icon/"@ + text::percent_text(
                        text::utf8(source@),
                    )
                    &&& header_views(call.headers@) == seq![("appInstanceId"@, server@)]
                    &&& call.body@.len() == 0
                },
            }
        },
{
    if let Err(error) = icon_path(source) {
        return Err(error);
    }
    let info = match hub.client_sync_info(client) {
        Some(info) => info,
        None => return Err(HubError::NoSyncInfo),
    };
    let base = match client_base_url(&info) {
        Some(base) => base,
        None => return Err(HubError::NoReachableHost),
    };
    let mut headers: Vec<(String, String)> = Vec::new();
    assert(header_views(headers@) =~= Seq::empty());
    add_header(&mut headers, "appInstanceId", server);
    assert(header_views(headers@) =~= seq![("appInstanceId"@, server@)]);
    let url = base.concat("/pull/icon/").concat(percent_encode_path_segment(source).as_str());
    Ok(Call { method: CallMethod::Get, url, headers, body: Vec::new() })
}

/// Whether an answer with that status holds an icon.
pub fn icon_answer(status: u16) -> (outcome: Result<(), HubError>)
    ensures
        (secure::error_view(outcome) == if succeeds(status) {
            Ok::<(), HubErrorView>(())
        } else {
            Err::<(), HubErrorView>(HubErrorView::IconRejected)
        }),
{
    if is_success(status) {
        Ok(())
    } else {
        Err(HubError::IconRejected)
    }
}

/// A client is reached at the first address that it lists and at its port, for entries as for files,
/// whatever else it lists; a client that lists none is not reached. Files go to an address with
/// colons in brackets.
pub proof fn law_client_address(info: SyncInfoView, other: SyncInfoView)
    ensures
        info.endpoint_info.host_info_list.len() == 0 ==> paste_url(info) is None && base_url(
            info,
        ) is None,
        info.endpoint_info.host_info_list.len() > 0 ==> {
            let host = info.endpoint_info.host_info_list[0].host_address;
            let port = text::decimal(info.endpoint_info.port as int);
            let width = host.len() as int;
            let end = 8 + width + port.len();
            &&& paste_url(info) is Some
            &&& base_url(info) is Some
            &&& paste_url(info)->0.len() == end + 11
            &&& paste_url(info)->0.take(7) == "http://"@
            &&& paste_url(info)->0.subrange(7, 7 + width) == host
            &&& paste_url(info)->0[7 + width] == ':'
            &&& paste_url(info)->0.subrange(8 + width, end) == port
            &&& paste_url(info)->0.skip(end) == "/sync/paste"@
            &&& !host.contains(':') ==> paste_url(info)->0 == base_url(info)->0 + "/sync/paste"@
            &&& host.contains(':') ==> {
                &&& base_url(info)->0.len() == end + 2
                &&& base_url(info)->0.take(7) == "http://"@
                &&& base_url(info)->0[7] == '['
                &&& base_url(info)->0.subrange(8, 8 + width) == host
                &&& base_url(info)->0[8 + width] == ']'
                &&& base_url(info)->0[9 + width] == ':'
                &&& base_url(info)->0.skip(10 + width) == port
            }
        },
        info.endpoint_info.host_info_list.len() > 0 && other.endpoint_info.host_info_list.len() > 0
            && info.endpoint_info.host_info_list[0].host_address
            == other.endpoint_info.host_info_list[0].host_address && info.endpoint_info.port
            == other.endpoint_info.port ==> paste_url(info) == paste_url(other) && base_url(info)
            == base_url(other),
{
    reveal_strlit("http://");
    reveal_strlit(":");
    reveal_strlit("[");
    reveal_strlit("]");
    reveal_strlit("/sync/paste");
    if info.endpoint_info.host_info_list.len() > 0 {
        let host = info.endpoint_info.host_info_list[0].host_address;
        let port = text::decimal(info.endpoint_info.port as int);
        let width = host.len() as int;
        let end = 8 + width + port.len();
        let url = paste_url(info)->0;
        assert(url.take(7) =~= "http://"@);
        assert(url.subrange(7, 7 + width) =~= host);
        assert(url.subrange(8 + width, end) =~= port);
        assert(url.skip(end) =~= "/sync/paste"@);
        let base = base_url(info)->0;
        if host.contains(':') {
            assert(base.take(7) =~= "http://"@);
            assert(base.subrange(8, 8 + width) =~= host);
            assert(base.skip(10 + width) =~= port);
        } else {
            assert(url =~= base + "/sync/paste"@);
        }
    }
}

/// Whether a request has a header.
pub open spec fn has_header(call: Call, name: Seq<char>, value: Seq<char>) -> bool {
    exists|i: int|
        0 <= i < call.headers@.len() && (#[trigger] call.headers@[i]).0@ == name
            && call.headers@[i].1@ == value
}

proof fn lemma_has_header(call: Call, place: int, name: Seq<char>, value: Seq<char>)
    requires
        0 <= place < header_views(call.headers@).len(),
        header_views(call.headers@)[place] == (name, value),
    ensures
        has_header(call, name, value),
{
    assert(call.headers@[place].0@ == name);
}

/// An entry is posted to the client in the name of the server, as an encrypted body of JSON that the
/// server and the client open to the entry.
pub proof fn law_paste_call(
    hub: Hub,
    call: Call,
    client: Seq<char>,
    info: SyncInfoView,
    server: Seq<char>,
    body: Seq<u8>,
)
    requires
        is_paste_call(hub, call, client, info, server, body),
    ensures
        call.method == CallMethod::Post,
        paste_url(info) == Some(call.url@),
        call.headers@.len() == 4,
        has_header(call, "appInstanceId"@, server),
        has_header(call, "targetAppInstanceId"@, client),
        has_header(call, "secure"@, "1"@),
        has_header(call, "content-type"@, "application/json"@),
        hub.opened_from(client, call.body@) == Ok::<Seq<u8>, HubErrorView>(body),
        hub.is_sealed_for(client, call.body@, body),
{
    lemma_has_header(call, 0, "appInstanceId"@, server);
    lemma_has_header(call, 1, "targetAppInstanceId"@, client);
    lemma_has_header(call, 2, "secure"@, "1"@);
    lemma_has_header(call, 3, "content-type"@, "application/json"@);
    assert(call.headers@.len() == header_views(call.headers@).len());
}

/// A file is announced like an entry, to the address of the client's own server, and marked as one
/// that is pushed.
pub proof fn law_prepare_call(
    hub: Hub,
    call: Call,
    client: Seq<char>,
    base: Seq<char>,
    server: Seq<char>,
    body: Seq<u8>,
)
    requires
        is_prepare_call(hub, call, client, base, server, body),
    ensures
        call.method == CallMethod::Post,
        call.url@.take(base.len() as int) == base,
        call.url@.skip(base.len() as int) == "/sync/paste"@,
        call.headers@.len() == 5,
        has_header(call, "appInstanceId"@, server),
        has_header(call, "targetAppInstanceId"@, client),
        has_header(call, "secure"@, "1"@),
        has_header(call, "X-Sync-Mode"@, "push"@),
        has_header(call, "content-type"@, "application/json"@),
        hub.opened_from(client, call.body@) == Ok::<Seq<u8>, HubErrorView>(body),
        hub.is_sealed_for(client, call.body@, body),
{
    lemma_has_header(call, 0, "appInstanceId"@, server);
    lemma_has_header(call, 1, "targetAppInstanceId"@, client);
    lemma_has_header(call, 2, "secure"@, "1"@);
    lemma_has_header(call, 3, "X-Sync-Mode"@, "push"@);
    lemma_has_header(call, 4, "content-type"@, "application/json"@);
    assert(call.headers@.len() == header_views(call.headers@).len());
    assert(call.url@.take(base.len() as int) =~= base);
    assert(call.url@.skip(base.len() as int) =~= "/sync/paste"@);
}

/// A piece of a file goes to the client with the number of the entry, its own place and the token
/// that the client gave out; it opens to the piece. The completion goes out with the number and the
/// token, and its body opens to nothing.
pub proof fn law_upload_calls(hub: Hub, call: Call, upload: UploadView)
    ensures
        is_chunk_call(hub, call, upload) || is_completion_call(hub, call, upload) ==> {
            &&& call.method == CallMethod::Post
            &&& call.url@.take(upload.base.len() as int) == upload.base
            &&& has_header(call, "appInstanceId"@, upload.server)
            &&& has_header(call, "targetAppInstanceId"@, upload.client)
            &&& has_header(call, "secure"@, "1"@)
            &&& has_header(call, "X-Paste-Id"@, text::decimal(upload.paste_id as int))
            &&& has_header(call, "X-Session-Token"@, upload.token)
            &&& has_header(call, "content-type"@, "application/json"@)
        },
        is_chunk_call(hub, call, upload) ==> {
            let piece = upload.parts[upload.sent as int];
            &&& call.url@.skip(upload.base.len() as int) == "/sync/file/push"@
            &&& call.headers@.len() == 7
            &&& has_header(call, "X-Chunk-Index"@, text::decimal(upload.sent as int))
            &&& hub.opened_from(upload.client, call.body@) == Ok::<Seq<u8>, HubErrorView>(piece)
            &&& hub.is_sealed_for(upload.client, call.body@, piece)
        },
        is_completion_call(hub, call, upload) ==> {
            &&& call.url@.skip(upload.base.len() as int) == "/sync/paste/push/complete"@
            &&& call.headers@.len() == 6
            &&& hub.is_sealed_for(upload.client, call.body@, Seq::empty())
        },
{
    let base = upload.base;
    if is_chunk_call(hub, call, upload) {
        lemma_has_header(call, 0, "appInstanceId"@, upload.server);
        lemma_has_header(call, 1, "targetAppInstanceId"@, upload.client);
        lemma_has_header(call, 2, "secure"@, "1"@);
        lemma_has_header(call, 3, "X-Paste-Id"@, text::decimal(upload.paste_id as int));
        lemma_has_header(call, 4, "X-Chunk-Index"@, text::decimal(upload.sent as int));
        lemma_has_header(call, 5, "X-Session-Token"@, upload.token);
        lemma_has_header(call, 6, "content-type"@, "application/json"@);
        assert(call.url@.take(base.len() as int) =~= base);
        assert(call.url@.skip(base.len() as int) =~= "/sync/file/push"@);
    }
    if is_completion_call(hub, call, upload) {
        lemma_has_header(call, 0, "appInstanceId"@, upload.server);
        lemma_has_header(call, 1, "targetAppInstanceId"@, upload.client);
        lemma_has_header(call, 2, "secure"@, "1"@);
        lemma_has_header(call, 3, "X-Paste-Id"@, text::decimal(upload.paste_id as int));
        lemma_has_header(call, 4, "X-Session-Token"@, upload.token);
        lemma_has_header(call, 5, "content-type"@, "application/json"@);
        assert(call.url@.take(base.len() as int) =~= base);
        assert(call.url@.skip(base.len() as int) =~= "/sync/paste/push/complete"@);
    }
    assert(call.headers@.len() == header_views(call.headers@).len());
}

/// An answer grants what was asked where its status is one of the two hundreds.
pub proof fn law_succeeds(status: u16)
    ensures
        succeeds(status) <==> status / 100 == 2,
{
}

/// A file is sent to a client in pieces of the size that the client asks for, each from where the
/// one before it ends, and only where the client expects just as many as it takes to hold the file.
pub proof fn law_upload_parts(chunk_size: u64, chunk_count: usize, source: Seq<u8>)
    requires
        source.len() <= usize::MAX,
    ensures
        upload_parts(chunk_size, chunk_count, source) is Ok <==> {
            &&& 0 < chunk_size <= usize::MAX
            &&& chunk_count * chunk_size >= source.len()
            &&& source.len() > 0 ==> (chunk_count - 1) * chunk_size < source.len()
            &&& source.len() == 0 ==> chunk_count == 0
        },
        upload_parts(chunk_size, chunk_count, source) matches Ok(parts) ==> {
            &&& parts.len() == chunk_count
            &&& forall|i: int|
                0 <= i < parts.len() ==> #[trigger] parts[i] == source.subrange(
                    i * chunk_size,
                    if (i + 1) * chunk_size < source.len() {
                        (i + 1) * chunk_size
                    } else {
                        source.len() as int
                    },
                )
        },
        upload_parts(chunk_size, chunk_count, source) matches Err(error) ==> {
            ||| error == HubErrorView::ChunkSizeTooLarge && chunk_size > usize::MAX
            ||| error == HubErrorView::ChunkSizeZero && chunk_size == 0
            ||| error is ChunkCountMismatch && error->expected == chunk_count && 0 < chunk_size
                <= usize::MAX
        },
{
    if 0 < chunk_size <= usize::MAX {
        pieces::law_piece_places(source, chunk_size as nat);
        let size = chunk_size as int;
        let count = pieces::pieces(source, chunk_size as nat).len() as int;
        let wanted = chunk_count as int;
        let len = source.len() as int;
        if wanted * size >= len && (len > 0 ==> (wanted - 1) * size < len) && (len == 0 ==> wanted
            == 0) {
            if len > 0 {
                assert(wanted == count) by (nonlinear_arith)
                    requires
                        size > 0,
                        wanted * size >= len,
                        (wanted - 1) * size < len,
                        count * size >= len,
                        (count - 1) * size < len,
                ;
            }
        }
    }
}

/// A file is fetched from a client that can be reached and whose entry has a number and a size, under
/// the number that the client knows it by and in as many pieces as it takes to hold the size.
pub proof fn law_pull(
    hub: HubView,
    client: Seq<char>,
    server: Seq<char>,
    paste: PasteView,
    now_ms: i64,
)
    ensures
        pull_of(hub, client, server, paste, now_ms) is Ok <==> {
            &&& paste.signed("id"@) is Some
            &&& paste.unsigned("size"@) is Some
            &&& hub.client_sync_infos.contains_key(client)
            &&& hub.client_sync_infos[client].endpoint_info.host_info_list.len() > 0
        },
        pull_of(hub, client, server, paste, now_ms) matches Ok(pull) ==> {
            let size = paste.unsigned("size"@)->0;
            &&& pull.client == client
            &&& pull.server == server
            &&& Some(pull.source_id) == paste.signed("id"@)
            &&& pull.paste_id == now_ms
            &&& pull.fetched == 0
            &&& base_url(hub.client_sync_infos[client]) == Some(pull.base)
            &&& size <= 1_048_576 * usize::MAX ==> {
                &&& pull.chunk_count * 1_048_576 >= size
                &&& size > 0 ==> (pull.chunk_count - 1) * 1_048_576 < size
                &&& size == 0 ==> pull.chunk_count == 0
            }
        },
{
    if let Some(size) = paste.unsigned("size"@) {
        if size <= 1_048_576 * usize::MAX {
            hub::law_chunk_count(size);
        }
    }
}

/// A client is asked for a piece by the place that is fetched next and by the number that it knows
/// the file by.
pub proof fn law_pull_call(hub: Hub, call: Call, pull: PullView)
    requires
        is_pull_call(hub, call, pull),
    ensures
        call.method == CallMethod::Post,
        call.url@.take(pull.base.len() as int) == pull.base,
        call.url@.skip(pull.base.len() as int) == "/pull/file"@,
        call.headers@.len() == 4,
        has_header(call, "appInstanceId"@, pull.server),
        has_header(call, "targetAppInstanceId"@, pull.client),
        has_header(call, "secure"@, "1"@),
        has_header(call, "content-type"@, "application/json"@),
        exists|json: Seq<char>|
            {
                let index = text::decimal(pull.fetched as int);
                let id = text::decimal(pull.source_id as int);
                let start = 20 + index.len() as int;
                let end = start + id.len() as int;
                &&& json.len() == end + 1
                &&& json.take(14) == "{\"chunkIndex\":"@
                &&& json.subrange(14, start - 6) == index
                &&& json.subrange(start - 6, start) == ",\"id\":"@
                &&& json.subrange(start, end) == id
                &&& json.last() == '}'
                &&& #[trigger] hub.is_sealed_for(pull.client, call.body@, text::utf8(json))
            },
{
    reveal_strlit("{\"chunkIndex\":");
    reveal_strlit(",\"id\":");
    reveal_strlit("}");
    lemma_has_header(call, 0, "appInstanceId"@, pull.server);
    lemma_has_header(call, 1, "targetAppInstanceId"@, pull.client);
    lemma_has_header(call, 2, "secure"@, "1"@);
    lemma_has_header(call, 3, "content-type"@, "application/json"@);
    assert(call.headers@.len() == header_views(call.headers@).len());
    assert(call.url@.take(pull.base.len() as int) =~= pull.base);
    assert(call.url@.skip(pull.base.len() as int) =~= "/pull/file"@);
    let json = pull_json(pull.source_id, pull.fetched);
    let index = text::decimal(pull.fetched as int);
    let id = text::decimal(pull.source_id as int);
    let start = 20 + index.len() as int;
    let end = start + id.len() as int;
    assert(json.take(14) =~= "{\"chunkIndex\":"@);
    assert(json.subrange(14, start - 6) =~= index);
    assert(json.subrange(start - 6, start) =~= ",\"id\":"@);
    assert(json.subrange(start, end) =~= id);
    assert(hub.is_sealed_for(pull.client, call.body@, text::utf8(json)));
}

/// Files that are fetched under different numbers go into different directories, none of which is
/// that of a file that a client sends.
pub proof fn law_pull_directory(paste_id: i64, other: i64)
    ensures
        pull_directory(paste_id) == pull_directory(other) ==> paste_id == other,
        pull_directory(paste_id) != text::decimal(other as int),
{
    reveal_strlit("pull-");
    text::law_decimal(paste_id as int);
    text::law_decimal(other as int);
    assert(pull_directory(paste_id).skip(5) =~= text::decimal(paste_id as int));
    assert(pull_directory(other).skip(5) =~= text::decimal(other as int));
    assert(pull_directory(paste_id)[0] == 'p');
    if other >= 0 {
        assert(text::is_digit(text::decimal(other as int)[0]));
    }
}

/// Targets and headers by their views stand in their places.
pub proof fn law_list_views(targets: Seq<Target>, headers: Seq<(String, String)>, place: int)
    ensures
        target_views(targets).len() == targets.len(),
        0 <= place < targets.len() ==> target_views(targets)[place].0 == targets[place].client_id@
            && target_views(targets)[place].1 == targets[place].info@,
        header_views(headers).len() == headers.len(),
        0 <= place < headers.len() ==> header_views(headers)[place].0 == headers[place].0@
            && header_views(headers)[place].1 == headers[place].1@,
{
}

} // verus!
