//! The session layer: the realm-scoped state machine that turns a raw
//! connection into a session, correlates each broker reply with exactly one
//! outstanding request, and routes published events to the queue of the
//! matching subscription. The surrounding transport loop performs I/O and
//! feeds every decoded frame through `on_message`.

use vstd::prelude::*;
use crate::msg::{Msg, MsgModel};
use crate::value::Value;

verus! {

/// Why a session operation failed.
#[derive(Debug, PartialEq, Eq)]
pub enum ClientError {
    /// The transport failed; fatal to the session.
    Transport,
    /// The broker answered the handshake with Abort; fatal.
    Handshake,
    /// A frame could not be encoded.
    Serialization,
    /// A frame could not be decoded during handshake or a correlated reply.
    Deserialization,
    /// The broker answered a request with an error reply.
    Protocol,
    /// A handler failed; isolated to one event.
    Handler,
    /// The operation does not fit the session's current state.
    InvalidState,
}

/// What a request still waiting for its reply asked for.
pub enum PendingKind {
    Subscribe { topic: Vec<u8> },
    Unsubscribe { subscription_id: u64 },
    Publish,
    Call,
}

/// One outstanding request.
pub struct PendingRequest {
    pub request_id: u64,
    pub kind: PendingKind,
}

/// One active subscription: the broker-assigned id and its topic.
pub struct Subscription {
    pub subscription_id: u64,
    pub topic: Vec<u8>,
}

/// What the connection loop must do after one incoming frame.
pub enum RouteAction {
    /// The handshake finished: the session is established.
    Established { session_id: u64 },
    /// The broker aborted the handshake or the session; fatal.
    Aborted { reason: Vec<u8> },
    /// A Subscribe request was acknowledged: open a queue for this id.
    SubscriptionOpened { request_id: u64, subscription_id: u64, topic: Vec<u8> },
    /// An Unsubscribe request was acknowledged: close that queue.
    SubscriptionClosed { request_id: u64, subscription_id: u64 },
    /// A publish or call completed.
    RequestCompleted { request_id: u64 },
    /// The broker answered a request with an error reply.
    RequestFailed { request_id: u64, reason: Vec<u8> },
    /// Push this event into the queue of subscription `subscription_id`.
    Deliver {
        subscription_id: u64,
        publication_id: u64,
        args: Vec<Value>,
        kwargs: Vec<(Vec<u8>, Value)>,
    },
    /// Duplicate, unmatched or unexpected frame: discarded, never fatal.
    Dropped,
}

/// Whether `rid` is the id of an outstanding request.
pub open spec fn has_req(pending: Seq<PendingRequest>, rid: u64) -> bool {
    exists|i: int| 0 <= i < pending.len() && (#[trigger] pending[i]).request_id == rid
}

/// Whether `sid` is the id of an active subscription.
pub open spec fn has_sub(subs: Seq<Subscription>, sid: u64) -> bool {
    exists|i: int| 0 <= i < subs.len() && (#[trigger] subs[i]).subscription_id == sid
}

/// Whether `rid` is the id of an outstanding Subscribe request.
pub open spec fn has_subscribe_req(pending: Seq<PendingRequest>, rid: u64) -> bool {
    exists|i: int|
        0 <= i < pending.len() && (#[trigger] pending[i]).request_id == rid
            && pending[i].kind is Subscribe
}

/// Whether the outstanding request `rid` is an Unsubscribe of `sid`.
pub open spec fn unsub_req_for(pending: Seq<PendingRequest>, rid: u64, sid: u64) -> bool {
    exists|i: int|
        0 <= i < pending.len() && (#[trigger] pending[i]).request_id == rid && (pending[i].kind
            matches PendingKind::Unsubscribe { subscription_id: s } && s == sid)
}

/// Whether an unsubscribe for `sid` is already outstanding.
pub open spec fn has_unsub_req(pending: Seq<PendingRequest>, sid: u64) -> bool {
    exists|i: int|
        0 <= i < pending.len() && ((#[trigger] pending[i]).kind matches PendingKind::Unsubscribe {
            subscription_id,
        } && subscription_id == sid)
}

/// A session: the realm, the handshake outcome, and the two tables the pump
/// task owns — outstanding requests and active subscriptions.
pub struct SessionState {
    pub realm: Vec<u8>,
    pub joined: bool,
    pub closed: bool,
    pub session_id: u64,
    pub next_request_id: u64,
    pub pending: Vec<PendingRequest>,
    pub subs: Vec<Subscription>,
}

impl SessionState {
    /// Request ids are unique in flight; subscription ids are unique; ids
    /// already spent stay below the next fresh one.
    pub open spec fn wf(&self) -> bool {
        &&& (forall|i: int, j: int|
            0 <= i < j < self.pending@.len() ==> (#[trigger] self.pending@[i]).request_id != (
            #[trigger] self.pending@[j]).request_id)
        &&& (forall|i: int, j: int|
            0 <= i < j < self.subs@.len() ==> (#[trigger] self.subs@[i]).subscription_id != (
            #[trigger] self.subs@[j]).subscription_id)
        &&& (forall|i: int|
            0 <= i < self.pending@.len() ==> (#[trigger] self.pending@[i]).request_id
                < self.next_request_id)
    }

    /// A new, not yet joined session for `realm`, and the Hello message that
    /// opens the handshake.
    pub fn connect(realm: Vec<u8>) -> (r: (SessionState, Msg))
        ensures
            r.0.wf(),
            !r.0.joined,
            !r.0.closed,
            r.0.realm@ == realm@,
            r.0.pending@.len() == 0,
            r.0.subs@.len() == 0,
            r.1@ == (MsgModel::Hello { realm: realm@ }),
    {
        let hello = Msg::Hello { realm: realm.clone() };
        let st = SessionState {
            realm,
            joined: false,
            closed: false,
            session_id: 0,
            next_request_id: 1,
            pending: Vec::new(),
            subs: Vec::new(),
        };
        (st, hello)
    }

    /// Issues a Subscribe request for `topic`: records it as outstanding
    /// under a fresh request id and returns the message to send. Fails with
    /// InvalidState if and only if the session is not established or closed.
    pub fn subscribe(&mut self, topic: Vec<u8>) -> (r: Result<Msg, ClientError>)
        requires
            old(self).wf(),
            old(self).next_request_id < u64::MAX,
        ensures
            final(self).wf(),
            r is Ok <==> (old(self).joined && !old(self).closed),
            r matches Err(e) ==> e == ClientError::InvalidState && *final(self) == *old(self),
            r matches Ok(m) ==> {
                &&& m@ == (MsgModel::Subscribe {
                    request_id: old(self).next_request_id,
                    topic: topic@,
                })
                &&& final(self).pending@.len() == old(self).pending@.len() + 1
                &&& final(self).pending@.last().request_id == old(self).next_request_id
                &&& (final(self).pending@.last().kind matches PendingKind::Subscribe {
                    topic: t,
                } && t@ == topic@)
                &&& final(self).pending@.drop_last() == old(self).pending@
                &&& final(self).subs@ == old(self).subs@
                &&& final(self).joined && !final(self).closed
                &&& final(self).next_request_id == old(self).next_request_id + 1
            },
    {
        if !self.joined || self.closed {
            return Err(ClientError::InvalidState);
        }
        let rid = self.next_request_id;
        self.next_request_id = rid + 1;
        let msg = Msg::Subscribe { request_id: rid, topic: topic.clone() };
        self.pending.push(PendingRequest { request_id: rid, kind: PendingKind::Subscribe { topic } });
        assert(self.pending@.drop_last() =~= old(self).pending@);
        Ok(msg)
    }

    /// Issues an Unsubscribe request for an active subscription. Fails with
    /// InvalidState if and only if the session is not usable, the
    /// subscription id is not active, or an unsubscribe for it is already
    /// outstanding — so asking twice for the same subscription fails.
    pub fn unsubscribe(&mut self, subscription_id: u64) -> (r: Result<Msg, ClientError>)
        requires
            old(self).wf(),
            old(self).next_request_id < u64::MAX,
        ensures
            final(self).wf(),
            r is Ok <==> (old(self).joined && !old(self).closed && has_sub(
                old(self).subs@,
                subscription_id,
            ) && !has_unsub_req(old(self).pending@, subscription_id)),
            r matches Err(e) ==> e == ClientError::InvalidState && *final(self) == *old(self),
            r matches Ok(m) ==> {
                &&& m@ == (MsgModel::Unsubscribe {
                    request_id: old(self).next_request_id,
                    subscription_id,
                })
                &&& final(self).pending@.len() == old(self).pending@.len() + 1
                &&& final(self).pending@.last().request_id == old(self).next_request_id
                &&& (final(self).pending@.last().kind matches PendingKind::Unsubscribe {
                    subscription_id: s,
                } && s == subscription_id)
                &&& final(self).pending@.drop_last() == old(self).pending@
                &&& final(self).subs@ == old(self).subs@
                &&& final(self).next_request_id == old(self).next_request_id + 1
            },
    {
        if !self.joined || self.closed {
            return Err(ClientError::InvalidState);
        }
        let mut found = false;
        let mut i: usize = 0;
        while i < self.subs.len()
            invariant
                i <= self.subs@.len(),
                found <==> exists|j: int|
                    0 <= j < i && (#[trigger] self.subs@[j]).subscription_id == subscription_id,
            decreases self.subs@.len() - i,
        {
            if self.subs[i].subscription_id == subscription_id {
                found = true;
            }
            i += 1;
        }
        if !found {
            return Err(ClientError::InvalidState);
        }
        let mut dup = false;
        let mut k: usize = 0;
        while k < self.pending.len()
            invariant
                k <= self.pending@.len(),
                dup <==> exists|j: int|
                    0 <= j < k && ((#[trigger] self.pending@[j]).kind
                        matches PendingKind::Unsubscribe { subscription_id: s }
                        && s == subscription_id),
            decreases self.pending@.len() - k,
        {
            let is_dup = match &self.pending[k].kind {
                PendingKind::Unsubscribe { subscription_id: s } => *s == subscription_id,
                _ => false,
            };
            if is_dup {
                dup = true;
            }
            k += 1;
        }
        if dup {
            return Err(ClientError::InvalidState);
        }
        let rid = self.next_request_id;
        self.next_request_id = rid + 1;
        let msg = Msg::Unsubscribe { request_id: rid, subscription_id };
        self.pending.push(
            PendingRequest { request_id: rid, kind: PendingKind::Unsubscribe { subscription_id } },
        );
        assert(self.pending@.drop_last() =~= old(self).pending@);
        Ok(msg)
    }

    /// Issues a Publish request: records it as outstanding and returns the
    /// message to send. Fails with InvalidState if and only if the session
    /// is not established or closed.
    pub fn publish(
        &mut self,
        topic: Vec<u8>,
        args: Vec<Value>,
        kwargs: Vec<(Vec<u8>, Value)>,
    ) -> (r: Result<Msg, ClientError>)
        requires
            old(self).wf(),
            old(self).next_request_id < u64::MAX,
        ensures
            final(self).wf(),
            r is Ok <==> (old(self).joined && !old(self).closed),
            r matches Err(e) ==> e == ClientError::InvalidState && *final(self) == *old(self),
            r matches Ok(m) ==> {
                &&& m@ == (MsgModel::Publish {
                    request_id: old(self).next_request_id,
                    topic: topic@,
                    args: crate::value::view_items(args@),
                    kwargs: crate::value::view_pairs(kwargs@),
                })
                &&& final(self).pending@.len() == old(self).pending@.len() + 1
                &&& final(self).pending@.last().request_id == old(self).next_request_id
                &&& final(self).pending@.last().kind is Publish
                &&& final(self).pending@.drop_last() == old(self).pending@
                &&& final(self).subs@ == old(self).subs@
                &&& final(self).next_request_id == old(self).next_request_id + 1
            },
    {
        if !self.joined || self.closed {
            return Err(ClientError::InvalidState);
        }
        let rid = self.next_request_id;
        self.next_request_id = rid + 1;
        let msg = Msg::Publish { request_id: rid, topic, args, kwargs };
        self.pending.push(PendingRequest { request_id: rid, kind: PendingKind::Publish });
        assert(self.pending@.drop_last() =~= old(self).pending@);
        Ok(msg)
    }

    /// Issues a Call request, sharing the same correlation mechanism.
    pub fn call(
        &mut self,
        procedure: Vec<u8>,
        args: Vec<Value>,
        kwargs: Vec<(Vec<u8>, Value)>,
    ) -> (r: Result<Msg, ClientError>)
        requires
            old(self).wf(),
            old(self).next_request_id < u64::MAX,
        ensures
            final(self).wf(),
            r is Ok <==> (old(self).joined && !old(self).closed),
            r matches Err(e) ==> e == ClientError::InvalidState && *final(self) == *old(self),
            r matches Ok(m) ==> {
                &&& m@ == (MsgModel::Call {
                    request_id: old(self).next_request_id,
                    procedure: procedure@,
                    args: crate::value::view_items(args@),
                    kwargs: crate::value::view_pairs(kwargs@),
                })
                &&& final(self).pending@.len() == old(self).pending@.len() + 1
                &&& final(self).pending@.last().request_id == old(self).next_request_id
                &&& final(self).pending@.last().kind is Call
                &&& final(self).pending@.drop_last() == old(self).pending@
                &&& final(self).subs@ == old(self).subs@
                &&& final(self).next_request_id == old(self).next_request_id + 1
            },
    {
        if !self.joined || self.closed {
            return Err(ClientError::InvalidState);
        }
        let rid = self.next_request_id;
        self.next_request_id = rid + 1;
        let msg = Msg::Call { request_id: rid, procedure, args, kwargs };
        self.pending.push(PendingRequest { request_id: rid, kind: PendingKind::Call });
        assert(self.pending@.drop_last() =~= old(self).pending@);
        Ok(msg)
    }

    /// Finds the outstanding request with id `rid`, if any.
    fn find_pending(&self, rid: u64) -> (r: Option<usize>)
        ensures
            match r {
                Some(i) => i < self.pending@.len() && self.pending@[i as int].request_id == rid,
                None => !has_req(self.pending@, rid),
            },
    {
        let mut i: usize = 0;
        while i < self.pending.len()
            invariant
                i <= self.pending@.len(),
                forall|j: int| 0 <= j < i ==> (#[trigger] self.pending@[j]).request_id != rid,
            decreases self.pending@.len() - i,
        {
            if self.pending[i].request_id == rid {
                return Some(i);
            }
            i += 1;
        }
        None
    }

    /// Finds the active subscription with id `sid`, if any.
    fn find_sub(&self, sid: u64) -> (r: Option<usize>)
        ensures
            match r {
                Some(i) => i < self.subs@.len() && self.subs@[i as int].subscription_id == sid,
                None => !has_sub(self.subs@, sid),
            },
    {
        let mut i: usize = 0;
        while i < self.subs.len()
            invariant
                i <= self.subs@.len(),
                forall|j: int| 0 <= j < i ==> (#[trigger] self.subs@[j]).subscription_id != sid,
            decreases self.subs@.len() - i,
        {
            if self.subs[i].subscription_id == sid {
                return Some(i);
            }
            i += 1;
        }
        None
    }

    /// Routes one incoming frame: replies complete the matching outstanding
    /// request (each reply matches at most one, by id; duplicates and
    /// unmatched replies are dropped), events go to the queue of the active
    /// subscription they name, unmatched events are dropped, and Abort
    /// closes the session. Routing never blocks on a handler: a Deliver
    /// action is only a queue push for the caller.
    pub fn on_message(&mut self, m: Msg) -> (r: RouteAction)
        requires
            old(self).wf(),
        ensures
            final(self).wf(),
            final(self).realm@ == old(self).realm@,
            final(self).next_request_id == old(self).next_request_id,
            // The handshake completes on the first Welcome.
            m@ matches MsgModel::Welcome { session_id } ==> if !old(self).joined && !old(
                self,
            ).closed {
                r matches RouteAction::Established { session_id: s } && s == session_id
                    && final(self).joined && final(self).session_id == session_id
                    && final(self).pending@ == old(self).pending@ && final(self).subs@ == old(
                    self,
                ).subs@
            } else {
                r is Dropped
            },
            // Abort is fatal: the session closes.
            m@ matches MsgModel::Abort { reason } ==> (r matches RouteAction::Aborted {
                reason: rr,
            } && rr@ == reason) && final(self).closed && final(self).pending@ == old(
                self,
            ).pending@ && final(self).subs@ == old(self).subs@,
            // A Subscribed reply completes exactly the matching Subscribe:
            // the request leaves the table, the subscription becomes active.
            m@ matches MsgModel::Subscribed { request_id, subscription_id } ==> {
                if !old(self).closed && has_subscribe_req(old(self).pending@, request_id)
                    && !has_sub(old(self).subs@, subscription_id) {
                    &&& (r matches RouteAction::SubscriptionOpened {
                        request_id: rid2,
                        subscription_id: sid2,
                        ..
                    } && rid2 == request_id && sid2 == subscription_id)
                    &&& has_sub(final(self).subs@, subscription_id)
                    &&& !has_req(final(self).pending@, request_id)
                    &&& final(self).pending@.len() + 1 == old(self).pending@.len()
                    &&& final(self).subs@.len() == old(self).subs@.len() + 1
                } else {
                    r is Dropped && *final(self) == *old(self)
                }
            },
            // An Unsubscribed reply completes exactly the matching
            // Unsubscribe and retires that subscription.
            m@ matches MsgModel::Unsubscribed { request_id } ==> {
                if !old(self).closed && (exists|i: int|
                    0 <= i < old(self).pending@.len() && (#[trigger] old(
                        self,
                    ).pending@[i]).request_id == request_id && old(
                        self,
                    ).pending@[i].kind is Unsubscribe) {
                    &&& (r matches RouteAction::SubscriptionClosed {
                        request_id: rid2,
                        subscription_id: sid2,
                    } && rid2 == request_id && !has_sub(final(self).subs@, sid2)
                        && unsub_req_for(old(self).pending@, request_id, sid2))
                    &&& !has_req(final(self).pending@, request_id)
                } else {
                    r is Dropped && *final(self) == *old(self)
                }
            },
            // A call result completes exactly the matching request.
            m@ matches MsgModel::CallResult { request_id, .. } ==> {
                if !old(self).closed && has_req(old(self).pending@, request_id) {
                    &&& (r matches RouteAction::RequestCompleted { request_id: rid2 } && rid2
                        == request_id)
                    &&& !has_req(final(self).pending@, request_id)
                    &&& final(self).subs@ == old(self).subs@
                } else {
                    r is Dropped && *final(self) == *old(self)
                }
            },
            // An Event for an active subscription is delivered to exactly
            // that subscription's queue, payload intact; otherwise dropped.
            m@ matches MsgModel::Event { subscription_id, publication_id, args, kwargs } ==> {
                &&& final(self).pending@ == old(self).pending@
                &&& final(self).subs@ == old(self).subs@
                &&& final(self).closed == old(self).closed
                &&& if has_sub(old(self).subs@, subscription_id) && !old(self).closed {
                    r matches RouteAction::Deliver {
                        subscription_id: sid2,
                        publication_id: pid2,
                        args: a2,
                        kwargs: k2,
                    } && sid2 == subscription_id && pid2 == publication_id
                        && crate::value::view_items(a2@) == args && crate::value::view_pairs(k2@)
                        == kwargs
                } else {
                    r is Dropped
                }
            },
            // An error reply fails exactly the matching request.
            m@ matches MsgModel::ErrorReply { request_id, reason } ==> {
                if has_req(old(self).pending@, request_id) && !old(self).closed {
                    (r matches RouteAction::RequestFailed { request_id: rid2, reason: rr }
                        && rid2 == request_id && rr@ == reason) && !has_req(
                        final(self).pending@,
                        request_id,
                    ) && final(self).subs@ == old(self).subs@
                } else {
                    r is Dropped && *final(self) == *old(self)
                }
            },
            // A duplicate Welcome, a client-to-broker frame, or any reply
            // that matches no outstanding request is discarded unchanged.
            r is Dropped ==> *final(self) == *old(self),
    {
        match m {
            Msg::Welcome { session_id } => {
                if !self.joined && !self.closed {
                    self.joined = true;
                    self.session_id = session_id;
                    RouteAction::Established { session_id }
                } else {
                    RouteAction::Dropped
                }
            },
            Msg::Abort { reason } => {
                self.closed = true;
                RouteAction::Aborted { reason }
            },
            Msg::Subscribed { request_id, subscription_id } => {
                if self.closed {
                    return RouteAction::Dropped;
                }
                match self.find_pending(request_id) {
                    None => RouteAction::Dropped,
                    Some(i) => {
                        let is_sub = match &self.pending[i].kind {
                            PendingKind::Subscribe { .. } => true,
                            _ => false,
                        };
                        if !is_sub {
                            return RouteAction::Dropped;
                        }
                        if self.find_sub(subscription_id).is_some() {
                            return RouteAction::Dropped;
                        }
                        let req = self.pending.remove(i);
                        let topic = match req.kind {
                            PendingKind::Subscribe { topic } => topic,
                            _ => Vec::new(),
                        };
                        let t2 = topic.clone();
                        self.subs.push(Subscription { subscription_id, topic });
                        proof {
                            assert(self.subs@.last().subscription_id == subscription_id);
                            assert forall|a: int, b: int|
                                0 <= a < b < self.pending@.len() implies (#[trigger] self
                                .pending@[a]).request_id != (#[trigger] self
                                .pending@[b]).request_id by {
                                assert(self.pending@ == old(self).pending@.remove(i as int));
                            }
                        }
                        RouteAction::SubscriptionOpened {
                            request_id,
                            subscription_id,
                            topic: t2,
                        }
                    },
                }
            },
            Msg::Unsubscribed { request_id } => {
                if self.closed {
                    return RouteAction::Dropped;
                }
                match self.find_pending(request_id) {
                    None => RouteAction::Dropped,
                    Some(i) => {
                        let sid = match &self.pending[i].kind {
                            PendingKind::Unsubscribe { subscription_id } => Some(*subscription_id),
                            _ => None,
                        };
                        match sid {
                            None => RouteAction::Dropped,
                            Some(subscription_id) => {
                                self.pending.remove(i);
                                match self.find_sub(subscription_id) {
                                    Some(j) => {
                                        self.subs.remove(j);
                                    },
                                    None => {},
                                }
                                RouteAction::SubscriptionClosed { request_id, subscription_id }
                            },
                        }
                    },
                }
            },
            Msg::ErrorReply { request_id, reason } => {
                if self.closed {
                    return RouteAction::Dropped;
                }
                match self.find_pending(request_id) {
                    None => RouteAction::Dropped,
                    Some(i) => {
                        self.pending.remove(i);
                        proof {
                            assert forall|j: int|
                                0 <= j < self.pending@.len() implies (#[trigger] self
                                .pending@[j]).request_id != request_id by {
                                assert(self.pending@ == old(self).pending@.remove(i as int));
                            }
                        }
                        RouteAction::RequestFailed { request_id, reason }
                    },
                }
            },
            Msg::Event { subscription_id, publication_id, args, kwargs } => {
                if self.closed {
                    return RouteAction::Dropped;
                }
                match self.find_sub(subscription_id) {
                    None => RouteAction::Dropped,
                    Some(_) => RouteAction::Deliver {
                        subscription_id,
                        publication_id,
                        args,
                        kwargs,
                    },
                }
            },
            Msg::CallResult { request_id, .. } => {
                if self.closed {
                    return RouteAction::Dropped;
                }
                match self.find_pending(request_id) {
                    None => RouteAction::Dropped,
                    Some(i) => {
                        self.pending.remove(i);
                        RouteAction::RequestCompleted { request_id }
                    },
                }
            },
            _ => RouteAction::Dropped,
        }
    }

    /// Tears the session down: every subscription queue is to be closed by
    /// the caller; no further frame changes the state.
    pub fn close(&mut self)
        ensures
            final(self).closed,
            final(self).realm@ == old(self).realm@,
            final(self).pending@ == old(self).pending@,
            final(self).subs@ == old(self).subs@,
    {
        self.closed = true;
    }
}

/// Connection options recognized at session creation: TLS certificate
/// verification and the ordered list of acceptable wire formats.
pub struct ClientConfig {
    pub ssl_verify: bool,
    pub serializers: Vec<WireFormat>,
}

/// The wire formats a session can ask the broker for.
#[derive(Debug, PartialEq, Eq, Clone, Copy)]
pub enum WireFormat {
    CompactBinary,
}

impl ClientConfig {
    /// The default configuration: TLS verification on, the compact binary
    /// format requested.
    pub fn new() -> (r: ClientConfig)
        ensures
            r.ssl_verify,
            r.serializers@ =~= seq![WireFormat::CompactBinary],
    {
        let mut serializers = Vec::new();
        serializers.push(WireFormat::CompactBinary);
        ClientConfig { ssl_verify: true, serializers }
    }

    /// Turns TLS certificate verification on or off.
    pub fn set_ssl_verify(self, ssl_verify: bool) -> (r: ClientConfig)
        ensures
            r.ssl_verify == ssl_verify,
            r.serializers@ == self.serializers@,
    {
        ClientConfig { ssl_verify, serializers: self.serializers }
    }
}

} // verus!
