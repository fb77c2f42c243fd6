//! The coordinator's decisions: what the portal's requests do to the
//! registry, what a registration does, what each broadcast tick sends, and
//! what a failed delivery does.
use vstd::prelude::*;
use crate::command::{
    command_option_view, current_directive, spec_current_directive, CommandView, MicroAnimation,
    MicroCommand, MicroMessage, MicroTimer,
};
use crate::registry::{
    selects, spec_add, spec_add_time, spec_remove, spec_set_current, worker_views, Endpoint,
    IpAddress, MicroManager, MicroWorker, WorkerView,
};
use crate::text::{parse_decimal, spec_parse_decimal};
use crate::wire::{parse_register, spec_parse_register, spec_serialize};

verus! {

/// `{id, message}` from the portal.
pub struct MessageRequest {
    pub id: String,
    pub message: String,
}

/// `{id, duration}` from the portal; the duration is a count of minutes.
pub struct TimerRequest {
    pub id: String,
    pub duration: String,
}

/// `{id, animation}` from the portal.
pub struct AnimationRequest {
    pub id: String,
    pub animation: String,
}

/// `{status}` for the portal.
#[derive(Clone, Debug, PartialEq, Eq)]
pub struct RequestReceipt {
    pub status: String,
}

pub open spec fn complete_word() -> Seq<char> {
    seq!['C', 'o', 'm', 'p', 'l', 'e', 't', 'e']
}

pub open spec fn unavailable_word() -> Seq<char> {
    seq!['U', 'n', 'a', 'v', 'a', 'i', 'l', 'a', 'b', 'l', 'e']
}

/// The status reported for a request that did (`true`) or did not take effect.
pub open spec fn status_text(done: bool) -> Seq<char> {
    if done {
        complete_word()
    } else {
        unavailable_word()
    }
}

/// The seconds that a duration of `d` minutes stands for: `None` unless `d`
/// is a decimal count of minutes whose seconds fit in a `u64`.
pub open spec fn spec_duration_secs(d: Seq<char>) -> Option<u64> {
    match spec_parse_decimal(d) {
        Some(m) => if m * 60 <= u64::MAX {
            Some((m * 60) as u64)
        } else {
            None
        },
        None => None,
    }
}

fn receipt(done: bool) -> (r: RequestReceipt)
    ensures
        r.status@ == status_text(done),
{
    if done {
        proof {
            reveal_strlit("Complete");
        }
        let status = String::from_str("Complete");
        assert(status@ =~= complete_word());
        RequestReceipt { status }
    } else {
        proof {
            reveal_strlit("Unavailable");
        }
        let status = String::from_str("Unavailable");
        assert(status@ =~= unavailable_word());
        RequestReceipt { status }
    }
}

/// The seconds in `duration` minutes, if it is a valid count.
pub fn duration_secs(duration: &str) -> (r: Option<u64>)
    ensures
        r == spec_duration_secs(duration@),
{
    match parse_decimal(duration) {
        Some(m) => m.checked_mul(60),
        None => None,
    }
}

/// Shows `message` on the worker `id`, or on every worker for `Broadcast`.
pub fn message_handler(manager: &mut MicroManager, request: &MessageRequest) -> (r:
    RequestReceipt)
    requires
        old(manager).wf(),
    ensures
        final(manager).wf(),
        final(manager).table_view() == old(manager).table_view(),
        final(manager)@ == spec_set_current(
            old(manager)@,
            request.id@,
            CommandView::Message(request.message@),
        ),
        r.status@ == status_text(selects(old(manager)@, request.id@)),
{
    let cmd = MicroCommand::Message(MicroMessage { message: request.message.clone() });
    let done = manager.set_current(request.id.as_str(), &cmd);
    receipt(done)
}

/// Starts a countdown of `duration` minutes at `now_ms` on the worker `id`,
/// or on every worker for `Broadcast`. A duration that is not a valid count
/// changes nothing and is reported unavailable.
pub fn timer_start_handler(manager: &mut MicroManager, request: &TimerRequest, now_ms: u64) -> (r:
    RequestReceipt)
    requires
        old(manager).wf(),
    ensures
        final(manager).wf(),
        final(manager).table_view() == old(manager).table_view(),
        match spec_duration_secs(request.duration@) {
            Some(secs) => {
                &&& final(manager)@ == spec_set_current(
                    old(manager)@,
                    request.id@,
                    CommandView::Timer { start_ms: now_ms, duration_secs: secs },
                )
                &&& r.status@ == status_text(selects(old(manager)@, request.id@))
            },
            None => final(manager)@ == old(manager)@ && r.status@ == unavailable_word(),
        },
{
    match duration_secs(request.duration.as_str()) {
        Some(secs) => {
            let cmd = MicroCommand::Timer(MicroTimer { start_ms: now_ms, duration_secs: secs });
            let done = manager.set_current(request.id.as_str(), &cmd);
            receipt(done)
        },
        None => receipt(false),
    }
}

/// Adds `duration` minutes at `now_ms` to the worker `id`, or to every
/// worker for `Broadcast`: a running timer is lengthened, anything else is
/// replaced by a fresh timer. A duration that is not a valid count changes
/// nothing and is reported unavailable.
pub fn timer_add_handler(manager: &mut MicroManager, request: &TimerRequest, now_ms: u64) -> (r:
    RequestReceipt)
    requires
        old(manager).wf(),
    ensures
        final(manager).wf(),
        final(manager).table_view() == old(manager).table_view(),
        match spec_duration_secs(request.duration@) {
            Some(secs) => {
                &&& final(manager)@ == spec_add_time(old(manager)@, request.id@, secs, now_ms)
                &&& r.status@ == status_text(selects(old(manager)@, request.id@))
            },
            None => final(manager)@ == old(manager)@ && r.status@ == unavailable_word(),
        },
{
    match duration_secs(request.duration.as_str()) {
        Some(secs) => {
            let done = manager.add_time(request.id.as_str(), secs, now_ms);
            receipt(done)
        },
        None => receipt(false),
    }
}

/// Plays `animation` on the worker `id`, or on every worker for `Broadcast`.
pub fn animation_handler(manager: &mut MicroManager, request: &AnimationRequest) -> (r:
    RequestReceipt)
    requires
        old(manager).wf(),
    ensures
        final(manager).wf(),
        final(manager).table_view() == old(manager).table_view(),
        final(manager)@ == spec_set_current(
            old(manager)@,
            request.id@,
            CommandView::Animation(request.animation@),
        ),
        r.status@ == status_text(selects(old(manager)@, request.id@)),
{
    let cmd = MicroCommand::Animation(MicroAnimation { animation: request.animation.clone() });
    let done = manager.set_current(request.id.as_str(), &cmd);
    receipt(done)
}

/// Handles the text that a connection to the registration port carried,
/// from a peer at `peer`: a `REGISTER <mac>` records the worker as
/// reachable at `peer` on `broadcast_port`; anything else changes nothing.
/// Returns whether a worker was registered.
pub fn register_worker(
    manager: &mut MicroManager,
    message: &str,
    peer: IpAddress,
    broadcast_port: u16,
) -> (r: bool)
    requires
        old(manager).wf(),
    ensures
        final(manager).wf(),
        final(manager).table_view() == old(manager).table_view(),
        r == spec_parse_register(message@) is Some,
        match spec_parse_register(message@) {
            Some(mac) => final(manager)@ == spec_add(
                old(manager)@,
                old(manager).table_view(),
                mac,
                Endpoint { ip: peer, port: broadcast_port },
            ),
            None => final(manager)@ == old(manager)@,
        },
{
    match parse_register(message) {
        Some(mac_address) => {
            manager.add_worker(mac_address, Endpoint { ip: peer, port: broadcast_port });
            true
        },
        None => false,
    }
}

// ---------------------------------------------------------------------------
// Broadcasting

/// One write of a broadcast tick: the current directive `command` of the
/// worker `mac_address`, to `address`.
#[derive(Clone, Debug, PartialEq, Eq)]
pub struct Delivery {
    pub mac_address: String,
    pub address: Endpoint,
    pub command: Option<MicroCommand>,
}

pub struct DeliveryView {
    pub mac: Seq<char>,
    pub address: Endpoint,
    pub command: Option<CommandView>,
}

impl View for Delivery {
    type V = DeliveryView;

    open spec fn view(&self) -> DeliveryView {
        DeliveryView {
            mac: self.mac_address@,
            address: self.address,
            command: command_option_view(self.command),
        }
    }
}

pub open spec fn delivery_views(v: Seq<Delivery>) -> Seq<DeliveryView> {
    v.map_values(|d: Delivery| d@)
}

/// The delivery for the worker `w`, reachable at `a`.
pub open spec fn delivery_for(w: WorkerView, a: Endpoint) -> DeliveryView {
    DeliveryView { mac: w.mac, address: a, command: w.current }
}

/// The writes of one tick over the records `ws`, in their order: one for each
/// worker with an address, carrying its current directive. Workers with no
/// address are skipped.
pub open spec fn spec_plan(ws: Seq<WorkerView>) -> Seq<DeliveryView>
    decreases ws.len(),
{
    if ws.len() == 0 {
        Seq::empty()
    } else {
        let rest = spec_plan(ws.drop_last());
        match ws.last().address {
            Some(a) => rest.push(delivery_for(ws.last(), a)),
            None => rest,
        }
    }
}

/// The writes of one tick over the snapshot `workers`.
pub fn broadcast_plan(workers: &Vec<MicroWorker>) -> (r: Vec<Delivery>)
    ensures
        delivery_views(r@) == spec_plan(worker_views(workers@)),
{
    let ghost ws = worker_views(workers@);
    let n = workers.len();
    let mut r: Vec<Delivery> = Vec::new();
    let mut i: usize = 0;
    while i < n
        invariant
            ws == worker_views(workers@),
            n == ws.len(),
            i <= n,
            delivery_views(r@) == spec_plan(ws.take(i as int)),
        decreases n - i,
    {
        let w = &workers[i];
        assert(ws.take(i + 1).drop_last() =~= ws.take(i as int));
        assert(ws.take(i + 1).last() == w@);
        match w.ip_address {
            Some(a) => {
                let command = match &w.current_cmd {
                    Some(c) => Some(c.duplicate()),
                    None => None,
                };
                let d = Delivery { mac_address: w.mac_address.clone(), address: a, command };
                let ghost before = r@;
                r.push(d);
                assert(delivery_views(r@) =~= delivery_views(before).push(d@));
            },
            None => {},
        }
        i = i + 1;
    }
    assert(ws.take(n as int) =~= ws);
    r
}

impl Delivery {
    /// The text to write at `now_ms`: the directive as it stands at that
    /// moment (for a timer, the seconds left then), or a ping when the worker
    /// has none.
    pub fn payload(&self, now_ms: u64) -> (r: String)
        ensures
            r@ == spec_serialize(spec_current_directive(command_option_view(self.command), now_ms)),
    {
        current_directive(&self.command, now_ms).serialize()
    }
}

/// How a delivery of a broadcast tick ended.
#[derive(Clone, Copy, Debug, PartialEq, Eq)]
pub enum DeliveryOutcome {
    /// The payload was written.
    Delivered,
    /// No connection could be made within the timeout.
    ConnectFailed,
    /// A connection was made but the write failed.
    WriteFailed,
}

/// Applies the outcome of a delivery to the worker `mac_address`: a failed
/// connection evicts it (a persistent worker is only deactivated); a
/// failed write is taken as transient and changes nothing.
pub fn record_outcome(manager: &mut MicroManager, mac_address: &str, outcome: DeliveryOutcome)
    requires
        old(manager).wf(),
    ensures
        final(manager).wf(),
        final(manager).table_view() == old(manager).table_view(),
        final(manager)@ == match outcome {
            DeliveryOutcome::ConnectFailed => spec_remove(old(manager)@, mac_address@),
            _ => old(manager)@,
        },
{
    match outcome {
        DeliveryOutcome::ConnectFailed => manager.remove_worker(mac_address),
        _ => {},
    }
}

/// A tick writes to every worker that has an address, carrying its current
/// directive, and to no one else.
pub proof fn lemma_plan_covers(ws: Seq<WorkerView>)
    ensures
        forall|i: int|
            0 <= i < ws.len() && (#[trigger] ws[i]).address is Some ==> exists|k: int|
                0 <= k < spec_plan(ws).len() && #[trigger] spec_plan(ws)[k] == delivery_for(
                    ws[i],
                    ws[i].address->0,
                ),
        forall|k: int|
            0 <= k < spec_plan(ws).len() ==> exists|i: int|
                0 <= i < ws.len() && (#[trigger] ws[i]).address == Some(
                    (#[trigger] spec_plan(ws)[k]).address,
                ) && spec_plan(ws)[k] == delivery_for(ws[i], ws[i].address->0),
    decreases ws.len(),
{
    if ws.len() > 0 {
        let init = ws.drop_last();
        lemma_plan_covers(init);
        let p = spec_plan(ws);
        let q = spec_plan(init);
        assert forall|i: int| 0 <= i < ws.len() && (#[trigger] ws[i]).address is Some implies exists|k: int|
            0 <= k < p.len() && #[trigger] p[k] == delivery_for(ws[i], ws[i].address->0) by {
            if i < ws.len() - 1 {
                assert(init[i] == ws[i]);
                let k = choose|k: int|
                    0 <= k < q.len() && #[trigger] q[k] == delivery_for(init[i], init[i].address->0);
                assert(p[k] == q[k]);
            } else {
                assert(p[q.len() as int] == delivery_for(ws[i], ws[i].address->0));
            }
        }
        assert forall|k: int| 0 <= k < p.len() implies exists|i: int|
            0 <= i < ws.len() && (#[trigger] ws[i]).address == Some((#[trigger] p[k]).address)
                && p[k] == delivery_for(ws[i], ws[i].address->0) by {
            if k < q.len() {
                assert(p[k] == q[k]);
                let i = choose|i: int|
                    0 <= i < init.len() && (#[trigger] init[i]).address == Some((#[trigger] q[k]).address)
                        && q[k] == delivery_for(init[i], init[i].address->0);
                assert(ws[i] == init[i]);
            } else {
                assert(ws[ws.len() - 1] == ws.last());
            }
        }
    }
}

} // verus!
