//! The per-subscription dispatch loop: it drains one subscription's event
//! queue, invokes the registered handler once per event in receipt order,
//! keeps going when a handler fails, and signals "queue closed" exactly once
//! when the session tears the queue down. The loop around it performs the
//! waiting and the handler call; this module decides, and proves the laws
//! the loop then enjoys.

use vstd::prelude::*;
use crate::msg::MsgModel;
use crate::value::{Value, ValueModel, view_items, view_pairs};

verus! {

/// One published event as a subscription's queue carries it.
pub struct EventRecord {
    pub publication_id: u64,
    pub args: Vec<Value>,
    pub kwargs: Vec<(Vec<u8>, Value)>,
}

/// The model of one published event.
pub struct EventModel {
    pub publication_id: u64,
    pub args: Seq<ValueModel>,
    pub kwargs: Seq<(Seq<u8>, ValueModel)>,
}

impl View for EventRecord {
    type V = EventModel;

    open spec fn view(&self) -> EventModel {
        EventModel {
            publication_id: self.publication_id,
            args: view_items(self.args@),
            kwargs: view_pairs(self.kwargs@),
        }
    }
}

/// One thing a dispatch loop can see on its queue: an event (paired, in the
/// model, with whether its handler succeeds), or the end of the queue.
pub enum QueueItemModel {
    Delivered { event: EventModel, handler_ok: bool },
    Closed,
}

/// What one complete dispatch run does: which events it hands to the
/// handler, in order, and how often it signals "queue closed".
pub struct RunOutcome {
    pub invoked: Seq<EventModel>,
    pub closed_signals: nat,
}

/// The dispatch loop over a queue: every event before the first Closed is
/// handed to the handler, in receipt order and whatever each handler call
/// returned; at the first Closed the loop signals once and terminates.
pub open spec fn dispatch_run(items: Seq<QueueItemModel>) -> RunOutcome
    decreases items.len(),
{
    if items.len() == 0 {
        RunOutcome { invoked: Seq::empty(), closed_signals: 0 }
    } else {
        match items[0] {
            QueueItemModel::Delivered { event, handler_ok: _ } => {
                let rest = dispatch_run(items.drop_first());
                RunOutcome {
                    invoked: seq![event] + rest.invoked,
                    closed_signals: rest.closed_signals,
                }
            },
            QueueItemModel::Closed => RunOutcome { invoked: Seq::empty(), closed_signals: 1 },
        }
    }
}

/// The queue carrying `events` in order, the handler succeeding on event `i`
/// exactly when `oks[i]`.
pub open spec fn queue_of(events: Seq<EventModel>, oks: Seq<bool>) -> Seq<QueueItemModel> {
    Seq::new(events.len(), |i: int| QueueItemModel::Delivered {
        event: events[i],
        handler_ok: oks[i],
    })
}

/// Receiving N publications on a subscription invokes its handler exactly N
/// times, in publication order, whatever each handler call returns.
pub proof fn lemma_dispatch_exactly_once(events: Seq<EventModel>, oks: Seq<bool>)
    requires
        oks.len() == events.len(),
    ensures
        dispatch_run(queue_of(events, oks)).invoked == events,
        dispatch_run(queue_of(events, oks)).closed_signals == 0,
    decreases events.len(),
{
    let q = queue_of(events, oks);
    if events.len() == 0 {
        assert(dispatch_run(q).invoked =~= events);
    } else {
        lemma_dispatch_exactly_once(events.drop_first(), oks.drop_first());
        assert(q.drop_first() =~= queue_of(events.drop_first(), oks.drop_first()));
        assert(q[0] == (QueueItemModel::Delivered { event: events[0], handler_ok: oks[0] }));
        assert(seq![events[0]] + events.drop_first() =~= events);
    }
}

/// A handler that fails on event k does not prevent delivery of event k+1:
/// the events handed to the handler do not depend on the handlers' outcomes
/// at all, so the one after a failure is still delivered, in its place.
pub proof fn lemma_handler_failure_isolated(events: Seq<EventModel>, oks: Seq<bool>, k: int)
    requires
        oks.len() == events.len(),
        0 <= k < events.len(),
        !oks[k],
    ensures
        dispatch_run(queue_of(events, oks)).invoked == events,
        k + 1 < events.len() ==> dispatch_run(queue_of(events, oks)).invoked[k + 1] == events[
            k + 1
        ],
{
    lemma_dispatch_exactly_once(events, oks);
}

/// Closing the queue while events are still waiting behind the Closed mark
/// terminates the loop: everything before the close is handled, the loop
/// signals "queue closed" exactly once, and nothing after the close runs.
pub proof fn lemma_close_terminates(
    events: Seq<EventModel>,
    oks: Seq<bool>,
    stale: Seq<QueueItemModel>,
)
    requires
        oks.len() == events.len(),
    ensures
        dispatch_run(queue_of(events, oks) + seq![QueueItemModel::Closed] + stale).invoked
            == events,
        dispatch_run(queue_of(events, oks) + seq![QueueItemModel::Closed] + stale).closed_signals
            == 1,
    decreases events.len(),
{
    let q = queue_of(events, oks) + seq![QueueItemModel::Closed] + stale;
    if events.len() == 0 {
        assert(q[0] == QueueItemModel::Closed);
        assert(dispatch_run(q).invoked =~= events);
    } else {
        lemma_close_terminates(events.drop_first(), oks.drop_first(), stale);
        assert(q.drop_first() =~= queue_of(events.drop_first(), oks.drop_first()) + seq![
            QueueItemModel::Closed,
        ] + stale);
        assert(q[0] == (QueueItemModel::Delivered { event: events[0], handler_ok: oks[0] }));
        assert(seq![events[0]] + events.drop_first() =~= events);
    }
}

/// The running state of one subscription's dispatch loop.
pub struct DispatchState {
    /// How many events this loop has handed to its handler.
    pub handled: u64,
    /// How many handler calls reported failure; failures never stop the loop.
    pub failed: u64,
    /// False once the queue closed and the single notification went out.
    pub open: bool,
}

impl DispatchState {
    /// A fresh loop for a just-opened subscription queue.
    pub fn new() -> (r: DispatchState)
        ensures
            r.handled == 0,
            r.failed == 0,
            r.open,
    {
        DispatchState { handled: 0, failed: 0, open: true }
    }

    /// The queue yielded an event: the handler is to be invoked, always,
    /// whatever earlier handler calls returned.
    pub fn on_event(&mut self) -> (invoke: bool)
        requires
            old(self).open,
            old(self).handled < u64::MAX,
        ensures
            invoke,
            final(self).handled == old(self).handled + 1,
            final(self).failed == old(self).failed,
            final(self).open,
    {
        self.handled = self.handled + 1;
        true
    }

    /// The handler for the last event returned: a failure is recorded and
    /// isolated — the loop stays open either way.
    pub fn on_handler_outcome(&mut self, ok: bool)
        requires
            old(self).failed < u64::MAX,
        ensures
            final(self).handled == old(self).handled,
            final(self).open == old(self).open,
            final(self).failed == if ok {
                old(self).failed as int
            } else {
                old(self).failed + 1
            },
    {
        if !ok {
            self.failed = self.failed + 1;
        }
    }

    /// The queue closed: the loop signals "queue closed" exactly once — on
    /// the first close and never again — and terminates.
    pub fn on_closed(&mut self) -> (notify: bool)
        ensures
            notify == old(self).open,
            !final(self).open,
            final(self).handled == old(self).handled,
            final(self).failed == old(self).failed,
    {
        let was_open = self.open;
        self.open = false;
        was_open
    }
}

/// Whether `m` is an event published to subscription `sid`.
pub open spec fn is_event_for(m: MsgModel, sid: u64) -> bool {
    m matches MsgModel::Event { subscription_id, .. } && subscription_id == sid
}

/// The events of an incoming frame stream that the pump routes to the queue
/// of subscription `sid`, in stream order.
pub open spec fn deliveries(msgs: Seq<MsgModel>, sid: u64) -> Seq<MsgModel> {
    msgs.filter(|m: MsgModel| is_event_for(m, sid))
}

/// Interleaved publications keep per-subscription order: routing one more
/// frame appends it to the queue of exactly the one subscription it names
/// and leaves every other subscription's queue untouched, so each
/// subscription sees exactly its own events, in stream order.
pub proof fn lemma_per_subscription_order(msgs: Seq<MsgModel>, m: MsgModel, a: u64, b: u64)
    requires
        a != b,
    ensures
        is_event_for(m, a) ==> deliveries(msgs.push(m), a) == deliveries(msgs, a).push(m)
            && deliveries(msgs.push(m), b) == deliveries(msgs, b),
        !is_event_for(m, a) && !is_event_for(m, b) ==> deliveries(msgs.push(m), a) == deliveries(
            msgs,
            a,
        ) && deliveries(msgs.push(m), b) == deliveries(msgs, b),
        forall|i: int|
            0 <= i < deliveries(msgs, a).len() ==> is_event_for(
                #[trigger] deliveries(msgs, a)[i],
                a,
            ) && !is_event_for(deliveries(msgs, a)[i], b),
{
    reveal(Seq::filter);
    let s2 = msgs.push(m);
    assert(s2.drop_last() =~= msgs);
    assert(s2.last() == m);
    assert(deliveries(s2, a) == if is_event_for(m, a) {
        deliveries(msgs, a).push(m)
    } else {
        deliveries(msgs, a)
    });
    assert(deliveries(s2, b) == if is_event_for(m, b) {
        deliveries(msgs, b).push(m)
    } else {
        deliveries(msgs, b)
    });
    deliveries_all_events(msgs, a);
    assert forall|i: int| 0 <= i < deliveries(msgs, a).len() implies !is_event_for(
        #[trigger] deliveries(msgs, a)[i],
        b,
    ) by {
        assert(is_event_for(deliveries(msgs, a)[i], a));
    }
}

/// Every frame in a subscription's queue is an event for that subscription.
proof fn deliveries_all_events(msgs: Seq<MsgModel>, sid: u64)
    ensures
        forall|i: int|
            0 <= i < deliveries(msgs, sid).len() ==> is_event_for(
                #[trigger] deliveries(msgs, sid)[i],
                sid,
            ),
{
    assert forall|i: int| 0 <= i < deliveries(msgs, sid).len() implies is_event_for(
        #[trigger] deliveries(msgs, sid)[i],
        sid,
    ) by {
        msgs.lemma_filter_pred(|m: MsgModel| is_event_for(m, sid), i);
    }
}

} // verus!
