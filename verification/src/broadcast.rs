//! Broadcasts from beginning to end: what is done next, given what came of what was done before.
//!
//! Whoever runs a broadcast carries out the action that it is given and tells what came of it, until
//! there is nothing left to do.
use vstd::prelude::*;

use crate::delivery;
use crate::delivery::{
    is_success, paste_call, prepare_answer, prepare_call, Broadcast, Call, Upload, UploadView,
};
use crate::hub::{
    BroadcastReport, CompletedPush, Hub, HubError, HubErrorView, PushPrepareResponse,
};
use crate::paste::{normalize_paste, Paste};
use crate::pieces;
use crate::secure;
use crate::sync_info::SyncInfoView;

verus! {

/// Whether something can be sealed for the client.
pub open spec fn can_seal(hub: Hub, client: Seq<char>) -> bool {
    &&& hub@.client_crypt_keys.contains_key(client)
    &&& hub.server_keys().shared_with(hub@.client_crypt_keys[client]) is Ok
}

/// Whether an entry can be handed to the client.
pub open spec fn can_hand(hub: Hub, target: (Seq<char>, SyncInfoView)) -> bool {
    delivery::paste_url(target.1) is Some && can_seal(hub, target.0)
}

/// Whether a file can be announced to the client.
pub open spec fn can_announce(hub: Hub, target: (Seq<char>, SyncInfoView)) -> bool {
    delivery::base_url(target.1) is Some && can_seal(hub, target.0)
}

/// The entry that is handed on for one that came from a client: it is the server's own, under the
/// number that it has.
pub fn entry_to_hand(entry: &Paste, server: &str) -> (handed: Paste)
    ensures
        handed@ == entry@.normalized(server@, None),
{
    normalize_paste(entry, server, None)
}

/// The entry that is handed on for a file that came whole from a client: it is the server's own,
/// under the number that the file has there.
pub fn entry_to_announce(completed: &CompletedPush, server: &str) -> (announced: Paste)
    ensures
        announced@ == completed.paste@.normalized(server@, Some(completed.paste_id)),
{
    normalize_paste(&completed.paste, server, Some(completed.paste_id))
}

/// An entry on its way to all clients but the one that it comes from.
#[derive(Debug)]
pub struct PasteRun {
    broadcast: Broadcast,
    server: String,
    body: Vec<u8>,
}

impl PasteRun {
    /// Who the entry goes to, and how it went so far.
    pub closed spec fn progress(&self) -> Broadcast {
        self.broadcast
    }

    /// The name under which the server sends.
    pub closed spec fn sender(&self) -> Seq<char> {
        self.server@
    }

    /// The entry as JSON.
    pub closed spec fn content(&self) -> Seq<u8> {
        self.body@
    }

    /// Begins to hand on an entry, given as JSON.
    pub fn start(hub: &Hub, from: &str, server: &str, body: Vec<u8>) -> (run: Self)
        ensures
            run.progress().wf(),
            run.progress().served() == 0,
            run.progress().all() == delivery::targets_of(
                hub.informed_order(),
                hub@.client_sync_infos,
                from@,
            ),
            run.sender() == server@,
            run.content() == body@,
    {
        PasteRun { broadcast: Broadcast::start(hub, from), server: server.to_owned(), body }
    }

    /// The next request to make; none once every client was served. Clients that cannot be reached
    /// are passed over and count as failed.
    pub fn next(&mut self, hub: &Hub) -> (call: Option<Call>)
        requires
            old(self).progress().wf(),
        ensures
            final(self).sender() == old(self).sender(),
            final(self).content() == old(self).content(),
            passed_over(
                old(self).progress(),
                final(self).progress(),
                |target: (Seq<char>, SyncInfoView)| can_hand(*hub, target),
            ),
            match call {
                Some(call) => {
                    let place = final(self).progress().served();
                    &&& place < final(self).progress().all().len()
                    &&& delivery::is_paste_call(
                        *hub,
                        call,
                        final(self).progress().all()[place].0,
                        final(self).progress().all()[place].1,
                        old(self).sender(),
                        old(self).content(),
                    )
                },
                None => {
                    &&& final(self).progress().served() == final(self).progress().all().len()
                    &&& final(self).progress().so_far().attempted
                        == final(self).progress().so_far().delivered
                        + final(self).progress().so_far().failed
                },
            },
    {
        let ghost before = self.broadcast;
        loop
            invariant
                self.broadcast.wf(),
                self.server@ == old(self).server@,
                self.body@ == old(self).body@,
                self.broadcast.all() == before.all(),
                self.broadcast.served() >= before.served(),
                self.broadcast.so_far().delivered == before.so_far().delivered,
                self.broadcast.so_far().attempted == before.so_far().attempted,
                forall|i: int|
                    before.served() <= i < self.broadcast.served() ==> !can_hand(
                        *hub,
                        #[trigger] before.all()[i],
                    ),
                before == old(self).broadcast,
            decreases self.broadcast.all().len() - self.broadcast.served(),
        {
            match self.broadcast.next() {
                None => return None,
                Some(target) => match paste_call(
                    hub,
                    target,
                    self.server.as_str(),
                    self.body.as_slice(),
                ) {
                    Ok(call) => return Some(call),
                    Err(_) => {},
                },
            }
            self.broadcast.settle(false);
        }
    }

    /// Takes in the status of the answer to the request that was made; none where no answer came.
    pub fn answered(&mut self, status: Option<u16>)
        requires
            old(self).progress().wf(),
            old(self).progress().served() < old(self).progress().all().len(),
        ensures
            final(self).progress().wf(),
            final(self).sender() == old(self).sender(),
            final(self).content() == old(self).content(),
            final(self).progress().all() == old(self).progress().all(),
            final(self).progress().so_far() == counted(
                old(self).progress().so_far(),
                is_granted(status),
            ),
    {
        let delivered = match status {
            Some(status) => is_success(status),
            None => false,
        };
        self.broadcast.settle(delivered);
    }

    /// How the broadcast went so far.
    pub fn report(&self) -> (report: BroadcastReport)
        requires
            self.progress().wf(),
        ensures
            report == self.progress().so_far(),
    {
        self.broadcast.report()
    }
}

/// Whether an answer came that grants what was asked.
pub open spec fn is_granted(status: Option<u16>) -> bool {
    status matches Some(status) && delivery::succeeds(status)
}

/// A report with one more client in it.
pub open spec fn counted(report: BroadcastReport, delivered: bool) -> BroadcastReport {
    if delivered {
        BroadcastReport { delivered: (report.delivered + 1) as usize, ..report }
    } else {
        BroadcastReport { failed: (report.failed + 1) as usize, ..report }
    }
}

/// Whether a broadcast went on by passing over clients that cannot be reached, and over no other:
/// they count as failed.
pub open spec fn passed_over(
    before: Broadcast,
    after: Broadcast,
    reachable: spec_fn((Seq<char>, SyncInfoView)) -> bool,
) -> bool {
    &&& after.wf()
    &&& after.all() == before.all()
    &&& after.so_far().attempted == before.so_far().attempted
    &&& after.so_far().delivered == before.so_far().delivered
    &&& before.served() <= after.served()
    &&& forall|i: int|
        before.served() <= i < after.served() ==> !reachable(#[trigger] before.all()[i])
    &&& after.served() < after.all().len() ==> reachable(after.all()[after.served()])
}

/// How many of the answers grant what was asked.
pub open spec fn granted_count(statuses: Seq<Option<u16>>) -> nat
    decreases statuses.len(),
{
    if statuses.len() == 0 {
        0
    } else {
        granted_count(statuses.drop_last()) + if is_granted(statuses.last()) {
            1nat
        } else {
            0nat
        }
    }
}

/// Whether this is the broadcast of an entry from beginning to end. Before each request it stands
/// as in `before`, and once the client is chosen as in `chosen`. The answers are in `statuses`, one
/// for each request; after the last, nobody is left to choose. Each time the hub is as in `hubs`.
pub open spec fn is_paste_run(
    hubs: Seq<Hub>,
    before: Seq<Broadcast>,
    chosen: Seq<Broadcast>,
    statuses: Seq<Option<u16>>,
) -> bool {
    let last = statuses.len() as int;
    &&& hubs.len() == last + 1
    &&& before.len() == last + 1
    &&& chosen.len() == last + 1
    &&& before[0].wf()
    &&& before[0].served() == 0
    &&& forall|i: int|
        0 <= i <= last ==> passed_over(
            before[i],
            #[trigger] chosen[i],
            |target: (Seq<char>, SyncInfoView)| can_hand(hubs[i], target),
        )
    &&& forall|i: int|
        0 <= i < last ==> {
            let asked = #[trigger] chosen[i];
            &&& asked.served() < asked.all().len()
            &&& before[i + 1].wf()
            &&& before[i + 1].all() == asked.all()
            &&& before[i + 1].so_far() == counted(asked.so_far(), is_granted(statuses[i]))
        }
    &&& chosen[last].served() == chosen[last].all().len()
}

proof fn lemma_paste_run(
    hubs: Seq<Hub>,
    before: Seq<Broadcast>,
    chosen: Seq<Broadcast>,
    statuses: Seq<Option<u16>>,
    place: int,
)
    requires
        is_paste_run(hubs, before, chosen, statuses),
        0 <= place <= statuses.len(),
    ensures
        before[place].wf(),
        before[place].all() == before[0].all(),
        before[place].so_far().delivered == granted_count(statuses.take(place)),
        forall|i: int| 0 <= i < place ==> (#[trigger] chosen[i]).served() < before[place].served(),
    decreases place,
{
    if place > 0 {
        lemma_paste_run(hubs, before, chosen, statuses, place - 1);
        assert(statuses.take(place).drop_last() =~= statuses.take(place - 1));
        assert(chosen[place - 1].wf());
        assert(before[place - 1 + 1].served() == chosen[place - 1].served() + 1);
    } else {
        assert(statuses.take(0) =~= Seq::empty());
    }
}

/// In the broadcast of an entry, the clients other than the source are the ones that are tried, and
/// each of them was either reached or not. None is asked twice, and the source is not asked. As many
/// were reached as answers grant what was asked.
pub proof fn law_paste_run(
    order: Seq<Seq<char>>,
    infos: Map<Seq<char>, SyncInfoView>,
    from: Seq<char>,
    hubs: Seq<Hub>,
    before: Seq<Broadcast>,
    chosen: Seq<Broadcast>,
    statuses: Seq<Option<u16>>,
)
    requires
        is_paste_run(hubs, before, chosen, statuses),
        order.no_duplicates(),
        order.to_set() == infos.dom(),
        before[0].all() == delivery::targets_of(order, infos, from),
    ensures
        ({
            let end = chosen[statuses.len() as int].so_far();
            &&& end.attempted == end.delivered + end.failed
            &&& end.attempted == infos.dom().remove(from).len()
            &&& end.delivered == granted_count(statuses)
        }),
        forall|i: int|
            0 <= i < statuses.len() ==> {
                let asked = #[trigger] chosen[i];
                &&& asked.all() == before[0].all()
                &&& asked.all()[asked.served()].0 != from
            },
        forall|i: int, j: int|
            0 <= i < j < statuses.len() ==> (#[trigger] chosen[i]).all()[chosen[i].served()].0 != (
            #[trigger] chosen[j]).all()[chosen[j].served()].0,
{
    let last = statuses.len() as int;
    lemma_paste_run(hubs, before, chosen, statuses, last);
    assert(statuses.take(last) =~= statuses);
    assert(chosen[last].wf());
    delivery::law_targets_once(order, infos, from);
    delivery::law_targets(order, infos, from, from);
    assert forall|i: int| 0 <= i < statuses.len() implies {
        let asked = #[trigger] chosen[i];
        &&& asked.all() == before[0].all()
        &&& asked.all()[asked.served()].0 != from
    } by {
        lemma_paste_run(hubs, before, chosen, statuses, i);
    }
    assert forall|i: int, j: int| 0 <= i < j < statuses.len() implies (
    #[trigger] chosen[i]).all()[chosen[i].served()].0 != (
    #[trigger] chosen[j]).all()[chosen[j].served()].0 by {
        lemma_paste_run(hubs, before, chosen, statuses, j);
        assert(before[j].served() <= chosen[j].served());
        let targets = delivery::targets_of(order, infos, from);
        assert(targets[chosen[i].served()].0 != targets[chosen[j].served()].0);
    }
}

/// Where the sending of a file to one client stands.
#[derive(Debug)]
enum PushStage {
    /// No client is being served.
    Choosing,
    /// The file is announced to a client with that address.
    Announced { base: String },
    /// The client's answer is being read.
    Reading { base: String },
    /// The file is being loaded.
    Loading { base: String, prepare: PushPrepareResponse },
    /// The file is being sent.
    Uploading { upload: Upload },
}

/// Where the sending of a file to one client stands, with the texts by their characters.
#[verifier::ext_equal]
pub enum PushStageView {
    Choosing,
    Announced { base: Seq<char> },
    Reading { base: Seq<char> },
    Loading {
        base: Seq<char>,
        paste_id: i64,
        chunk_size: u64,
        chunk_count: usize,
        token: Seq<char>,
    },
    Uploading { upload: UploadView },
}

impl View for PushStage {
    type V = PushStageView;

    closed spec fn view(&self) -> PushStageView {
        match self {
            PushStage::Choosing => PushStageView::Choosing,
            PushStage::Announced { base } => PushStageView::Announced { base: base@ },
            PushStage::Reading { base } => PushStageView::Reading { base: base@ },
            PushStage::Loading { base, prepare } => PushStageView::Loading {
                base: base@,
                paste_id: prepare.paste_id,
                chunk_size: prepare.chunk_size,
                chunk_count: prepare.chunk_count,
                token: prepare.session_token@,
            },
            PushStage::Uploading { upload } => PushStageView::Uploading { upload: upload@ },
        }
    }
}

/// What is to be done next in the broadcast of a file.
#[derive(Debug)]
pub enum PushAction {
    /// Make this request.
    Send(Call),
    /// Read this JSON as a client's answer to the announcement.
    Read(Vec<u8>),
    /// Load the file.
    Load,
    /// Nothing: every client was served.
    Finished,
}

/// What came of what was to be done.
#[derive(Debug)]
pub enum PushEvent {
    /// The answer to the request.
    Answered { status: u16, body: Vec<u8> },
    /// The client's answer to the announcement, read.
    Prepared(PushPrepareResponse),
    /// The file.
    Loaded(Vec<u8>),
    /// It could not be done.
    Failed,
}

/// The broadcast of a file with its texts by their characters.
#[verifier::ext_equal]
pub struct PushRunView {
    /// Who the file goes to.
    pub all: Seq<(Seq<char>, SyncInfoView)>,
    pub delivered: nat,
    pub failed: nat,
    pub stage: PushStageView,
    /// The name under which the server sends.
    pub server: Seq<char>,
    /// The entry as JSON.
    pub body: Seq<u8>,
}

impl PushRunView {
    /// How many clients have been served, with or without success.
    pub open spec fn served(self) -> int {
        (self.delivered + self.failed) as int
    }

    /// The client that is being served.
    pub open spec fn client(self) -> Seq<char> {
        self.all[self.served()].0
    }

    /// The broadcast once it is settled how it went with the client that was being served.
    pub open spec fn settled(self, delivered: bool) -> PushRunView {
        PushRunView {
            delivered: if delivered {
                self.delivered + 1
            } else {
                self.delivered
            },
            failed: if delivered {
                self.failed
            } else {
                self.failed + 1
            },
            stage: PushStageView::Choosing,
            ..self
        }
    }

    /// The broadcast at another stage of the client that is being served.
    pub open spec fn at(self, stage: PushStageView) -> PushRunView {
        PushRunView { stage, ..self }
    }
}

/// What is done when a client is to be chosen: those that cannot be reached are passed over and
/// count as failed, and the file is announced to the first that can.
pub open spec fn chooses(
    hub: Hub,
    before: PushRunView,
    after: PushRunView,
    action: PushAction,
) -> bool {
    &&& after == PushRunView { failed: after.failed, stage: after.stage, ..before }
    &&& before.failed <= after.failed
    &&& after.served() <= after.all.len()
    &&& forall|i: int|
        before.served() <= i < after.served() ==> !can_announce(hub, #[trigger] before.all[i])
    &&& if after.served() < after.all.len() {
        let base = delivery::base_url(after.all[after.served()].1);
        &&& can_announce(hub, after.all[after.served()])
        &&& after.stage == PushStageView::Announced { base: base->0 }
        &&& action matches PushAction::Send(call)
        &&& delivery::is_prepare_call(
            hub,
            call,
            after.client(),
            base->0,
            after.server,
            after.body,
        )
    } else {
        after.stage == PushStageView::Choosing && action is Finished
    }
}

/// What is done when a file is being sent to a client: the next request is made, or the client has
/// it whole, or it cannot be sent any further.
pub open spec fn sends_on(
    hub: Hub,
    before: PushRunView,
    upload: UploadView,
    after: PushRunView,
    action: PushAction,
) -> bool {
    if upload.confirmed {
        chooses(hub, before.settled(true), after, action)
    } else if !can_seal(hub, upload.client) {
        chooses(hub, before.settled(false), after, action)
    } else {
        &&& after == before.at(PushStageView::Uploading { upload })
        &&& action matches PushAction::Send(call)
        &&& if upload.sent < upload.parts.len() {
            delivery::is_chunk_call(hub, call, upload)
        } else {
            delivery::is_completion_call(hub, call, upload)
        }
    }
}

/// What an event brings about in the broadcast of a file.
pub open spec fn push_step(
    hub: Hub,
    before: PushRunView,
    event: PushEvent,
    after: PushRunView,
    action: PushAction,
) -> bool {
    match (before.stage, event) {
        (PushStageView::Announced { base }, PushEvent::Answered { status, body }) => {
            if !delivery::succeeds(status) {
                chooses(hub, before.settled(false), after, action)
            } else {
                match hub.opened_from(before.client(), body@) {
                    Ok(json) => {
                        &&& after == before.at(PushStageView::Reading { base })
                        &&& action matches PushAction::Read(shown) && shown@ == json
                    },
                    Err(_) => chooses(hub, before.settled(false), after, action),
                }
            }
        },
        (PushStageView::Reading { base }, PushEvent::Prepared(prepare)) => {
            &&& after == before.at(
                PushStageView::Loading {
                    base,
                    paste_id: prepare.paste_id,
                    chunk_size: prepare.chunk_size,
                    chunk_count: prepare.chunk_count,
                    token: prepare.session_token@,
                },
            )
            &&& action is Load
        },
        (
            PushStageView::Loading { base, paste_id, chunk_size, chunk_count, token },
            PushEvent::Loaded(source),
        ) => match delivery::upload_parts(chunk_size, chunk_count, source@) {
            Err(_) => chooses(hub, before.settled(false), after, action),
            Ok(parts) => sends_on(
                hub,
                before,
                UploadView {
                    base,
                    client: before.client(),
                    server: before.server,
                    paste_id,
                    token,
                    parts,
                    sent: 0,
                    confirmed: false,
                },
                after,
                action,
            ),
        },
        (PushStageView::Uploading { upload }, PushEvent::Answered { status, .. }) => {
            if !delivery::succeeds(status) {
                chooses(hub, before.settled(false), after, action)
            } else if upload.sent < upload.parts.len() {
                sends_on(
                    hub,
                    before,
                    UploadView { sent: upload.sent + 1, ..upload },
                    after,
                    action,
                )
            } else {
                sends_on(hub, before, UploadView { confirmed: true, ..upload }, after, action)
            }
        },
        _ => chooses(hub, before.settled(false), after, action),
    }
}

/// The broadcast of a file.
#[derive(Debug)]
pub struct PushRun {
    broadcast: Broadcast,
    server: String,
    body: Vec<u8>,
    stage: PushStage,
}

impl View for PushRun {
    type V = PushRunView;

    closed spec fn view(&self) -> PushRunView {
        PushRunView {
            all: self.broadcast.all(),
            delivered: self.broadcast.so_far().delivered as nat,
            failed: self.broadcast.so_far().failed as nat,
            stage: self.stage@,
            server: self.server@,
            body: self.body@,
        }
    }
}

impl PushRun {
    /// What holds of every broadcast of a file.
    pub closed spec fn wf(&self) -> bool {
        &&& self.broadcast.wf()
        &&& self.stage is Choosing || self.broadcast.served() < self.broadcast.all().len()
        &&& self.stage matches PushStage::Uploading { upload } ==> {
            &&& upload.wf()
            &&& upload@.client == self@.client()
            &&& !upload@.confirmed
        }
    }

    /// Begins the broadcast of a file that comes from that client, given its entry as JSON.
    pub fn start(hub: &Hub, from: &str, server: &str, body: Vec<u8>) -> (run: Self)
        ensures
            run.wf(),
            run@ == (PushRunView {
                all: delivery::targets_of(
                    hub.informed_order(),
                    hub@.client_sync_infos,
                    from@,
                ),
                delivered: 0,
                failed: 0,
                stage: PushStageView::Choosing,
                server: server@,
                body: body@,
            }),
    {
        PushRun {
            broadcast: Broadcast::start(hub, from),
            server: server.to_owned(),
            body,
            stage: PushStage::Choosing,
        }
    }

    /// The first thing to do.
    pub fn begin(&mut self, hub: &Hub) -> (action: PushAction)
        requires
            old(self).wf(),
            old(self)@.stage is Choosing,
        ensures
            final(self).wf(),
            chooses(*hub, old(self)@, final(self)@, action),
    {
        let ghost before = self@;
        loop
            invariant
                self.wf(),
                self.stage is Choosing,
                self@ == (PushRunView { failed: self@.failed, ..before }),
                before.failed <= self@.failed,
                before == old(self)@,
                forall|i: int|
                    before.served() <= i < self@.served() ==> !can_announce(
                        *hub,
                        #[trigger] before.all[i],
                    ),
            decreases self.broadcast.all().len() - self.broadcast.served(),
        {
            match self.broadcast.next() {
                None => return PushAction::Finished,
                Some(target) => match prepare_call(
                    hub,
                    target,
                    self.server.as_str(),
                    self.body.as_slice(),
                ) {
                    Ok((base, call)) => {
                        self.stage = PushStage::Announced { base };
                        return PushAction::Send(call);
                    },
                    Err(_) => {},
                },
            }
            self.broadcast.settle(false);
        }
    }

    fn settle(&mut self, hub: &Hub, delivered: bool) -> (action: PushAction)
        requires
            old(self).broadcast.wf(),
            old(self).broadcast.served() < old(self).broadcast.all().len(),
            old(self).stage is Choosing,
        ensures
            final(self).wf(),
            chooses(*hub, old(self)@.settled(delivered), final(self)@, action),
    {
        self.broadcast.settle(delivered);
        assert(self@ =~= old(self)@.settled(delivered));
        self.begin(hub)
    }

    fn send_on(&mut self, hub: &Hub, upload: Upload) -> (action: PushAction)
        requires
            old(self).broadcast.wf(),
            old(self).broadcast.served() < old(self).broadcast.all().len(),
            old(self).stage is Choosing,
            upload.wf(),
            upload@.client == old(self)@.client(),
        ensures
            final(self).wf(),
            sends_on(*hub, old(self)@, upload@, final(self)@, action),
    {
        match upload.call(hub) {
            Ok(Some(call)) => {
                self.stage = PushStage::Uploading { upload };
                PushAction::Send(call)
            },
            Ok(None) => self.settle(hub, true),
            Err(_) => self.settle(hub, false),
        }
    }

    /// What is to be done next, given what came of what was to be done.
    pub fn on_event(&mut self, hub: &Hub, event: PushEvent) -> (action: PushAction)
        requires
            old(self).wf(),
            !(old(self)@.stage is Choosing),
        ensures
            final(self).wf(),
            push_step(*hub, old(self)@, event, final(self)@, action),
    {
        let mut stage = PushStage::Choosing;
        std::mem::swap(&mut stage, &mut self.stage);
        match (stage, event) {
            (PushStage::Announced { base }, PushEvent::Answered { status, body }) => {
                let answer = match self.broadcast.next() {
                    Some(target) => prepare_answer(
                        hub,
                        target.client_id.as_str(),
                        status,
                        body.as_slice(),
                    ),
                    None => Err(HubError::NoReachableHost),
                };
                match answer {
                    Ok(json) => {
                        self.stage = PushStage::Reading { base };
                        PushAction::Read(json)
                    },
                    Err(_) => self.settle(hub, false),
                }
            },
            (PushStage::Reading { base }, PushEvent::Prepared(prepare)) => {
                self.stage = PushStage::Loading { base, prepare };
                PushAction::Load
            },
            (PushStage::Loading { base, prepare }, PushEvent::Loaded(source)) => {
                let upload = match self.broadcast.next() {
                    Some(target) => Upload::start(
                        base.as_str(),
                        target.client_id.as_str(),
                        self.server.as_str(),
                        &prepare,
                        source,
                    ),
                    None => Err(HubError::NoReachableHost),
                };
                match upload {
                    Ok(upload) => self.send_on(hub, upload),
                    Err(_) => self.settle(hub, false),
                }
            },
            (PushStage::Uploading { upload }, PushEvent::Answered { status, .. }) => {
                let mut upload = upload;
                match upload.answered(status) {
                    Ok(()) => self.send_on(hub, upload),
                    Err(_) => self.settle(hub, false),
                }
            },
            _ => self.settle(hub, false),
        }
    }

    /// How the broadcast went so far. Once it is finished, every client was either reached or not.
    pub fn report(&self) -> (report: BroadcastReport)
        requires
            self.wf(),
        ensures
            report.attempted == self@.all.len(),
            report.delivered == self@.delivered,
            report.failed == self@.failed,
            self@.served() == self@.all.len() ==> report.attempted == report.delivered
                + report.failed,
    {
        self.broadcast.report()
    }
}

/// Every event brings a broadcast further: to a later client, or to a later stage or piece of the
/// one that is being served.
pub proof fn law_push_advances(
    hub: Hub,
    before: PushRunView,
    event: PushEvent,
    after: PushRunView,
    action: PushAction,
)
    requires
        push_step(hub, before, event, after, action),
        !(before.stage is Choosing),
    ensures
        ({
            ||| after.served() > before.served()
            ||| after.served() == before.served() && stage_rank(after.stage) > stage_rank(
                before.stage,
            )
        }),
{
}

/// How far a stage has come.
pub open spec fn stage_rank(stage: PushStageView) -> int {
    match stage {
        PushStageView::Choosing => 0,
        PushStageView::Announced { .. } => 1,
        PushStageView::Reading { .. } => 2,
        PushStageView::Loading { .. } => 3,
        PushStageView::Uploading { upload } => 4 + upload.sent + if upload.confirmed {
            1int
        } else {
            0int
        },
    }
}

/// Whether the event is the client's word that it has the whole file.
pub open spec fn is_confirmed(state: PushRunView, event: PushEvent) -> bool {
    match (state.stage, event) {
        (PushStageView::Uploading { upload }, PushEvent::Answered { status, .. }) => {
            upload.sent >= upload.parts.len() && delivery::succeeds(status)
        },
        _ => false,
    }
}

/// How many clients said that they have the whole file.
pub open spec fn confirmed_count(states: Seq<PushRunView>, events: Seq<PushEvent>) -> nat
    decreases events.len(),
{
    if events.len() == 0 {
        0
    } else {
        confirmed_count(states, events.drop_last()) + if is_confirmed(
            states[events.len() - 1],
            events.last(),
        ) {
            1nat
        } else {
            0nat
        }
    }
}

/// Whether this is the broadcast of a file from beginning to end. It begins as `start`, and stands
/// as in `states` before each of the events and after the last, with what is then to be done in
/// `actions`. Each time the hub is as in `hubs`.
pub open spec fn is_push_run(
    hubs: Seq<Hub>,
    start: PushRunView,
    states: Seq<PushRunView>,
    events: Seq<PushEvent>,
    actions: Seq<PushAction>,
) -> bool {
    let last = events.len() as int;
    &&& hubs.len() == last + 1
    &&& states.len() == last + 1
    &&& actions.len() == last + 1
    &&& start.served() == 0
    &&& chooses(hubs[0], start, states[0], actions[0])
    &&& forall|i: int|
        0 <= i < last ==> {
            &&& !(states[i].stage is Choosing)
            &&& push_step(
                hubs[i + 1],
                states[i],
                #[trigger] events[i],
                states[i + 1],
                actions[i + 1],
            )
        }
    &&& actions[last] is Finished
}

proof fn lemma_push_run(
    hubs: Seq<Hub>,
    start: PushRunView,
    states: Seq<PushRunView>,
    events: Seq<PushEvent>,
    actions: Seq<PushAction>,
    place: int,
)
    requires
        is_push_run(hubs, start, states, events, actions),
        0 <= place <= events.len(),
    ensures
        states[place].all == start.all,
        states[place].delivered == confirmed_count(states, events.take(place)),
        states[place].stage is Choosing || states[place].served() < start.all.len(),
        states[place].stage matches PushStageView::Uploading { upload } ==> !upload.confirmed,
        actions[place] is Finished ==> states[place].served() == start.all.len(),
        forall|i: int|
            0 <= i < place ==> {
                ||| (#[trigger] states[i]).served() < states[place].served()
                ||| states[i].served() == states[place].served() && stage_rank(states[i].stage)
                    < stage_rank(states[place].stage)
            },
    decreases place,
{
    if place > 0 {
        lemma_push_run(hubs, start, states, events, actions, place - 1);
        let event = events[place - 1];
        assert(push_step(
            hubs[place],
            states[place - 1],
            event,
            states[place],
            actions[place],
        ));
        law_push_advances(
            hubs[place],
            states[place - 1],
            event,
            states[place],
            actions[place],
        );
        assert(events.take(place).drop_last() =~= events.take(place - 1));
        assert(events.take(place).last() == event);
    } else {
        assert(events.take(0) =~= Seq::empty());
    }
}

/// In the broadcast of a file, the clients other than the source are the ones that are tried, and
/// each of them was either reached or not. The file is announced to none of them twice, and not to
/// the source. As many were reached as said that they have the whole file.
pub proof fn law_push_run(
    order: Seq<Seq<char>>,
    infos: Map<Seq<char>, SyncInfoView>,
    from: Seq<char>,
    hubs: Seq<Hub>,
    start: PushRunView,
    states: Seq<PushRunView>,
    events: Seq<PushEvent>,
    actions: Seq<PushAction>,
)
    requires
        is_push_run(hubs, start, states, events, actions),
        order.no_duplicates(),
        order.to_set() == infos.dom(),
        start.all == delivery::targets_of(order, infos, from),
    ensures
        ({
            let end = states[events.len() as int];
            &&& end.delivered + end.failed == infos.dom().remove(from).len()
            &&& end.delivered == confirmed_count(states, events)
        }),
        forall|i: int|
            0 <= i <= events.len() && (#[trigger] states[i]).stage is Announced
                ==> states[i].client() != from,
        forall|i: int, j: int|
            0 <= i < j <= events.len() && (#[trigger] states[i]).stage is Announced && (
            #[trigger] states[j]).stage is Announced ==> states[i].client() != states[j].client(),
{
    let last = events.len() as int;
    lemma_push_run(hubs, start, states, events, actions, last);
    assert(events.take(last) =~= events);
    delivery::law_targets_once(order, infos, from);
    delivery::law_targets(order, infos, from, from);
    assert forall|i: int|
        0 <= i <= events.len() && (
        #[trigger] states[i]).stage is Announced implies states[i].client() != from by {
        lemma_push_run(hubs, start, states, events, actions, i);
    }
    assert forall|i: int, j: int|
        0 <= i < j <= events.len() && (#[trigger] states[i]).stage is Announced && (
        #[trigger] states[j]).stage is Announced implies states[i].client()
        != states[j].client() by {
        lemma_push_run(hubs, start, states, events, actions, i);
        lemma_push_run(hubs, start, states, events, actions, j);
        let targets = delivery::targets_of(order, infos, from);
        assert(targets[states[i].served()].0 != targets[states[j].served()].0);
    }
}

/// An entry can be handed to a client exactly where the server holds a key of the client's that can
/// be read and the client lists an address; the same goes for a file.
pub proof fn law_reachable(hub: Hub, client: Seq<char>, info: SyncInfoView)
    ensures
        can_hand(hub, (client, info)) <==> {
            &&& hub@.client_crypt_keys.contains_key(client)
            &&& secure::shared_key_of(
                hub.server_keys().crypt_secret(),
                hub@.client_crypt_keys[client],
            ) is Ok
            &&& info.endpoint_info.host_info_list.len() > 0
        },
        can_announce(hub, (client, info)) <==> can_hand(hub, (client, info)),
{
}

/// An answer counts for a client exactly where it came and its status is one of the two hundreds;
/// each client counts once, as reached or as not.
pub proof fn law_counted(report: BroadcastReport, status: Option<u16>)
    requires
        report.delivered < usize::MAX,
        report.failed < usize::MAX,
    ensures
        ({
            let after = counted(report, is_granted(status));
            let granted = status is Some && status->0 / 100 == 2;
            &&& after.attempted == report.attempted
            &&& granted ==> after.delivered == report.delivered + 1 && after.failed
                == report.failed
            &&& !granted ==> after.delivered == report.delivered && after.failed == report.failed
                + 1
        }),
{
}

proof fn lemma_asked(
    hubs: Seq<Hub>,
    before: Seq<Broadcast>,
    chosen: Seq<Broadcast>,
    statuses: Seq<Option<u16>>,
    target: int,
    place: int,
)
    requires
        is_paste_run(hubs, before, chosen, statuses),
        0 <= target < before[0].all().len(),
        forall|i: int|
            0 <= i <= statuses.len() ==> can_hand(#[trigger] hubs[i], before[0].all()[target]),
        0 <= place <= statuses.len(),
        before[place].served() > target,
    ensures
        exists|i: int| 0 <= i < place && (#[trigger] chosen[i]).served() == target,
    decreases place,
{
    if place > 0 {
        lemma_paste_run(hubs, before, chosen, statuses, place - 1);
        let asked = chosen[place - 1];
        assert(before[place - 1 + 1].served() == asked.served() + 1);
        if before[place - 1].served() > target {
            lemma_asked(hubs, before, chosen, statuses, target, place - 1);
            let i = choose|i: int| 0 <= i < place - 1 && (#[trigger] chosen[i]).served() == target;
            assert(chosen[i].served() == target);
        } else if asked.served() > target {
            assert(can_hand(hubs[place - 1], before[place - 1].all()[target]));
        }
    }
}

/// In the broadcast of an entry no client is left out that can be reached all along: each of them is
/// asked.
pub proof fn law_every_reachable_client_is_asked(
    hubs: Seq<Hub>,
    before: Seq<Broadcast>,
    chosen: Seq<Broadcast>,
    statuses: Seq<Option<u16>>,
    target: int,
)
    requires
        is_paste_run(hubs, before, chosen, statuses),
        0 <= target < before[0].all().len(),
        forall|i: int|
            0 <= i <= statuses.len() ==> can_hand(#[trigger] hubs[i], before[0].all()[target]),
    ensures
        exists|i: int|
            {
                &&& 0 <= i < statuses.len()
                &&& (#[trigger] chosen[i]).all() == before[0].all()
                &&& chosen[i].served() == target
            },
{
    let last = statuses.len() as int;
    lemma_paste_run(hubs, before, chosen, statuses, last);
    if before[last].served() <= target {
        assert(chosen[last].served() == chosen[last].all().len());
        assert(can_hand(hubs[last], before[last].all()[target]));
    }
    lemma_asked(hubs, before, chosen, statuses, target, last);
    let i = choose|i: int| 0 <= i < last && (#[trigger] chosen[i]).served() == target;
    lemma_paste_run(hubs, before, chosen, statuses, i);
    assert(chosen[i].all() == before[i].all());
}

/// Whether the file was announced to that client by then.
spec fn was_announced(states: Seq<PushRunView>, place: int, target: int) -> bool {
    exists|i: int|
        0 <= i <= place && (#[trigger] states[i]).stage is Announced && states[i].served() == target
}

proof fn lemma_announced(
    hubs: Seq<Hub>,
    start: PushRunView,
    states: Seq<PushRunView>,
    events: Seq<PushEvent>,
    actions: Seq<PushAction>,
    target: int,
    place: int,
)
    requires
        is_push_run(hubs, start, states, events, actions),
        0 <= target < start.all.len(),
        forall|i: int|
            0 <= i <= events.len() ==> can_announce(#[trigger] hubs[i], start.all[target]),
        0 <= place <= events.len(),
    ensures
        states[place].served() > target || (states[place].served() == target && !(
        states[place].stage is Choosing)) ==> was_announced(states, place, target),
    decreases place,
{
    lemma_push_run(hubs, start, states, events, actions, place);
    let after = states[place];
    if after.stage is Announced && after.served() == target {
        assert(was_announced(states, place, target));
    }
    if place == 0 {
        assert(can_announce(hubs[0], start.all[target]));
    } else {
        lemma_announced(hubs, start, states, events, actions, target, place - 1);
        lemma_push_run(hubs, start, states, events, actions, place - 1);
        let before = states[place - 1];
        assert(push_step(hubs[place], before, events[place - 1], after, actions[place]));
        assert(can_announce(hubs[place], start.all[target]));
        if was_announced(states, place - 1, target) {
            let i = choose|i: int|
                0 <= i <= place - 1 && (#[trigger] states[i]).stage is Announced
                    && states[i].served() == target;
            assert(states[i].stage is Announced);
            assert(was_announced(states, place, target));
        } else {
            assert(before.served() <= target);
            assert(before.served() < target);
            if after.served() > target {
                assert(!can_announce(hubs[place], before.all[target]));
            }
        }
    }
}

/// In the broadcast of a file no client is left out that can be reached all along: the file is
/// announced to each of them.
pub proof fn law_file_is_announced_to_every_reachable_client(
    hubs: Seq<Hub>,
    start: PushRunView,
    states: Seq<PushRunView>,
    events: Seq<PushEvent>,
    actions: Seq<PushAction>,
    target: int,
)
    requires
        is_push_run(hubs, start, states, events, actions),
        0 <= target < start.all.len(),
        forall|i: int|
            0 <= i <= events.len() ==> can_announce(#[trigger] hubs[i], start.all[target]),
    ensures
        exists|i: int|
            0 <= i <= events.len() && (#[trigger] states[i]).stage is Announced
                && states[i].served() == target && states[i].client() == start.all[target].0,
{
    let last = events.len() as int;
    lemma_push_run(hubs, start, states, events, actions, last);
    lemma_announced(hubs, start, states, events, actions, target, last);
    let i = choose|i: int|
        0 <= i <= last && (#[trigger] states[i]).stage is Announced && states[i].served() == target;
    lemma_push_run(hubs, start, states, events, actions, i);
    assert(states[i].stage is Announced && states[i].client() == start.all[target].0);
}

/// A file goes to a client step by step: what it answers to the announcement is opened and read, the
/// file is loaded and cut as the client asked, each piece follows the one before it as soon as that
/// is taken, and after the last the client is told that all were sent. The client is reached once it
/// grants that, and not reached where anything fails on the way.
pub proof fn law_push_step(
    hub: Hub,
    before: PushRunView,
    event: PushEvent,
    after: PushRunView,
    action: PushAction,
    json: Seq<u8>,
    status: u16,
    answer: Vec<u8>,
    source: Vec<u8>,
)
    requires
        push_step(hub, before, event, after, action),
    ensures
        before.stage is Announced && event == (PushEvent::Answered { status, body: answer })
            && status / 100 == 2 && hub.opened_from(before.client(), answer@) == Ok::<
            Seq<u8>,
            HubErrorView,
        >(json) ==> {
            &&& action matches PushAction::Read(shown) && shown@ == json
            &&& after.served() == before.served()
        },
        before.stage is Reading && event is Prepared ==> action is Load && after.served()
            == before.served(),
        before.stage matches PushStageView::Loading {
            base,
            paste_id,
            chunk_size,
            chunk_count,
            token,
        } ==> (event == PushEvent::Loaded(source) && can_seal(hub, before.client()) && (
        delivery::upload_parts(chunk_size, chunk_count, source@) matches Ok(parts) && parts.len()
            > 0) ==> {
            &&& after.stage matches PushStageView::Uploading { upload }
            &&& upload.base == base
            &&& upload.client == before.client()
            &&& upload.server == before.server
            &&& upload.paste_id == paste_id
            &&& upload.token == token
            &&& upload.sent == 0
            &&& pieces::joined(upload.parts) == source@
            &&& action matches PushAction::Send(call) && delivery::is_chunk_call(hub, call, upload)
        }),
        before.stage matches PushStageView::Uploading { upload } ==> (event == (
        PushEvent::Answered { status, body: answer }) && status / 100 == 2 && can_seal(hub, upload.client) && !upload.confirmed ==> {
            &&& upload.sent + 1 < upload.parts.len() ==> {
                &&& after.stage matches PushStageView::Uploading { upload: next }
                &&& next == (UploadView { sent: upload.sent + 1, ..upload })
                &&& action matches PushAction::Send(call)
                &&& delivery::is_chunk_call(hub, call, next)
            }
            &&& upload.sent + 1 == upload.parts.len() ==> {
                &&& action matches PushAction::Send(call)
                &&& delivery::is_completion_call(
                    hub,
                    call,
                    UploadView { sent: upload.sent + 1, ..upload },
                )
            }
        }),
        is_confirmed(before, event) ==> after.delivered == before.delivered + 1,
        !is_confirmed(before, event) ==> after.delivered == before.delivered || (
        before.stage matches PushStageView::Uploading { upload } && upload.confirmed),
        event is Failed ==> after.failed > before.failed,
        event matches PushEvent::Answered { status: refused, .. } && refused / 100 != 2
            ==> after.failed > before.failed,
{
    if let PushStageView::Loading { chunk_size, chunk_count, .. } = before.stage {
        if delivery::upload_parts(chunk_size, chunk_count, source@) is Ok {
            delivery::law_upload_is_whole(chunk_size, chunk_count, source@);
        }
    }
}

} // verus!
