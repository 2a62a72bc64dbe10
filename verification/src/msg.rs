//! Protocol messages: the envelopes exchanged with the broker. Every message
//! is carried on the wire as a list value whose first element is the message
//! code, so the value codec and its round-trip law carry over to messages.

use vstd::prelude::*;
use crate::value::{
    Value, ValueModel, representable, view_items, view_pairs,
};
use crate::codec::{enc_value, dec_value};

verus! {

pub const CODE_HELLO: u64 = 1;
pub const CODE_WELCOME: u64 = 2;
pub const CODE_ABORT: u64 = 3;
pub const CODE_ERROR: u64 = 8;
pub const CODE_PUBLISH: u64 = 16;
pub const CODE_SUBSCRIBE: u64 = 32;
pub const CODE_SUBSCRIBED: u64 = 33;
pub const CODE_UNSUBSCRIBE: u64 = 34;
pub const CODE_UNSUBSCRIBED: u64 = 35;
pub const CODE_EVENT: u64 = 36;
pub const CODE_CALL: u64 = 48;
pub const CODE_RESULT: u64 = 50;

/// The mathematical model of a protocol message.
pub enum MsgModel {
    Hello { realm: Seq<u8> },
    Welcome { session_id: u64 },
    Abort { reason: Seq<u8> },
    Subscribe { request_id: u64, topic: Seq<u8> },
    Subscribed { request_id: u64, subscription_id: u64 },
    Unsubscribe { request_id: u64, subscription_id: u64 },
    Unsubscribed { request_id: u64 },
    Publish {
        request_id: u64,
        topic: Seq<u8>,
        args: Seq<ValueModel>,
        kwargs: Seq<(Seq<u8>, ValueModel)>,
    },
    Event {
        subscription_id: u64,
        publication_id: u64,
        args: Seq<ValueModel>,
        kwargs: Seq<(Seq<u8>, ValueModel)>,
    },
    ErrorReply { request_id: u64, reason: Seq<u8> },
    Call {
        request_id: u64,
        procedure: Seq<u8>,
        args: Seq<ValueModel>,
        kwargs: Seq<(Seq<u8>, ValueModel)>,
    },
    CallResult { request_id: u64, args: Seq<ValueModel>, kwargs: Seq<(Seq<u8>, ValueModel)> },
}

/// A protocol message as the executable code holds it.
#[derive(Debug, PartialEq, Eq)]
pub enum Msg {
    Hello { realm: Vec<u8> },
    Welcome { session_id: u64 },
    Abort { reason: Vec<u8> },
    Subscribe { request_id: u64, topic: Vec<u8> },
    Subscribed { request_id: u64, subscription_id: u64 },
    Unsubscribe { request_id: u64, subscription_id: u64 },
    Unsubscribed { request_id: u64 },
    Publish {
        request_id: u64,
        topic: Vec<u8>,
        args: Vec<Value>,
        kwargs: Vec<(Vec<u8>, Value)>,
    },
    Event {
        subscription_id: u64,
        publication_id: u64,
        args: Vec<Value>,
        kwargs: Vec<(Vec<u8>, Value)>,
    },
    ErrorReply { request_id: u64, reason: Vec<u8> },
    Call {
        request_id: u64,
        procedure: Vec<u8>,
        args: Vec<Value>,
        kwargs: Vec<(Vec<u8>, Value)>,
    },
    CallResult { request_id: u64, args: Vec<Value>, kwargs: Vec<(Vec<u8>, Value)> },
}

impl View for Msg {
    type V = MsgModel;

    open spec fn view(&self) -> MsgModel {
        match self {
            Msg::Hello { realm } => MsgModel::Hello { realm: realm@ },
            Msg::Welcome { session_id } => MsgModel::Welcome { session_id: *session_id },
            Msg::Abort { reason } => MsgModel::Abort { reason: reason@ },
            Msg::Subscribe { request_id, topic } => MsgModel::Subscribe {
                request_id: *request_id,
                topic: topic@,
            },
            Msg::Subscribed { request_id, subscription_id } => MsgModel::Subscribed {
                request_id: *request_id,
                subscription_id: *subscription_id,
            },
            Msg::Unsubscribe { request_id, subscription_id } => MsgModel::Unsubscribe {
                request_id: *request_id,
                subscription_id: *subscription_id,
            },
            Msg::Unsubscribed { request_id } => MsgModel::Unsubscribed {
                request_id: *request_id,
            },
            Msg::Publish { request_id, topic, args, kwargs } => MsgModel::Publish {
                request_id: *request_id,
                topic: topic@,
                args: view_items(args@),
                kwargs: view_pairs(kwargs@),
            },
            Msg::Event { subscription_id, publication_id, args, kwargs } => MsgModel::Event {
                subscription_id: *subscription_id,
                publication_id: *publication_id,
                args: view_items(args@),
                kwargs: view_pairs(kwargs@),
            },
            Msg::ErrorReply { request_id, reason } => MsgModel::ErrorReply {
                request_id: *request_id,
                reason: reason@,
            },
            Msg::Call { request_id, procedure, args, kwargs } => MsgModel::Call {
                request_id: *request_id,
                procedure: procedure@,
                args: view_items(args@),
                kwargs: view_pairs(kwargs@),
            },
            Msg::CallResult { request_id, args, kwargs } => MsgModel::CallResult {
                request_id: *request_id,
                args: view_items(args@),
                kwargs: view_pairs(kwargs@),
            },
        }
    }
}

/// The list value that carries `m` on the wire.
pub open spec fn msg_to_value(m: MsgModel) -> ValueModel {
    match m {
        MsgModel::Hello { realm } => ValueModel::List(
            seq![ValueModel::Int(CODE_HELLO), ValueModel::Text(realm)],
        ),
        MsgModel::Welcome { session_id } => ValueModel::List(
            seq![ValueModel::Int(CODE_WELCOME), ValueModel::Int(session_id)],
        ),
        MsgModel::Abort { reason } => ValueModel::List(
            seq![ValueModel::Int(CODE_ABORT), ValueModel::Text(reason)],
        ),
        MsgModel::Subscribe { request_id, topic } => ValueModel::List(
            seq![
                ValueModel::Int(CODE_SUBSCRIBE),
                ValueModel::Int(request_id),
                ValueModel::Text(topic),
            ],
        ),
        MsgModel::Subscribed { request_id, subscription_id } => ValueModel::List(
            seq![
                ValueModel::Int(CODE_SUBSCRIBED),
                ValueModel::Int(request_id),
                ValueModel::Int(subscription_id),
            ],
        ),
        MsgModel::Unsubscribe { request_id, subscription_id } => ValueModel::List(
            seq![
                ValueModel::Int(CODE_UNSUBSCRIBE),
                ValueModel::Int(request_id),
                ValueModel::Int(subscription_id),
            ],
        ),
        MsgModel::Unsubscribed { request_id } => ValueModel::List(
            seq![ValueModel::Int(CODE_UNSUBSCRIBED), ValueModel::Int(request_id)],
        ),
        MsgModel::Publish { request_id, topic, args, kwargs } => ValueModel::List(
            seq![
                ValueModel::Int(CODE_PUBLISH),
                ValueModel::Int(request_id),
                ValueModel::Text(topic),
                ValueModel::List(args),
                ValueModel::Dict(kwargs),
            ],
        ),
        MsgModel::Event { subscription_id, publication_id, args, kwargs } => ValueModel::List(
            seq![
                ValueModel::Int(CODE_EVENT),
                ValueModel::Int(subscription_id),
                ValueModel::Int(publication_id),
                ValueModel::List(args),
                ValueModel::Dict(kwargs),
            ],
        ),
        MsgModel::ErrorReply { request_id, reason } => ValueModel::List(
            seq![
                ValueModel::Int(CODE_ERROR),
                ValueModel::Int(request_id),
                ValueModel::Text(reason),
            ],
        ),
        MsgModel::Call { request_id, procedure, args, kwargs } => ValueModel::List(
            seq![
                ValueModel::Int(CODE_CALL),
                ValueModel::Int(request_id),
                ValueModel::Text(procedure),
                ValueModel::List(args),
                ValueModel::Dict(kwargs),
            ],
        ),
        MsgModel::CallResult { request_id, args, kwargs } => ValueModel::List(
            seq![
                ValueModel::Int(CODE_RESULT),
                ValueModel::Int(request_id),
                ValueModel::List(args),
                ValueModel::Dict(kwargs),
            ],
        ),
    }
}

/// The message carried by a decoded value, if the value has the shape of one.
pub open spec fn value_to_msg(v: ValueModel) -> Option<MsgModel> {
    match v {
        ValueModel::List(f) => if f.len() < 2 {
            None
        } else {
            match f[0] {
                ValueModel::Int(code) => if code == CODE_HELLO && f.len() == 2 {
                    match f[1] {
                        ValueModel::Text(realm) => Some(MsgModel::Hello { realm }),
                        _ => None,
                    }
                } else if code == CODE_WELCOME && f.len() == 2 {
                    match f[1] {
                        ValueModel::Int(session_id) => Some(MsgModel::Welcome { session_id }),
                        _ => None,
                    }
                } else if code == CODE_ABORT && f.len() == 2 {
                    match f[1] {
                        ValueModel::Text(reason) => Some(MsgModel::Abort { reason }),
                        _ => None,
                    }
                } else if code == CODE_SUBSCRIBE && f.len() == 3 {
                    match (f[1], f[2]) {
                        (ValueModel::Int(request_id), ValueModel::Text(topic)) => Some(
                            MsgModel::Subscribe { request_id, topic },
                        ),
                        _ => None,
                    }
                } else if code == CODE_SUBSCRIBED && f.len() == 3 {
                    match (f[1], f[2]) {
                        (ValueModel::Int(request_id), ValueModel::Int(subscription_id)) => Some(
                            MsgModel::Subscribed { request_id, subscription_id },
                        ),
                        _ => None,
                    }
                } else if code == CODE_UNSUBSCRIBE && f.len() == 3 {
                    match (f[1], f[2]) {
                        (ValueModel::Int(request_id), ValueModel::Int(subscription_id)) => Some(
                            MsgModel::Unsubscribe { request_id, subscription_id },
                        ),
                        _ => None,
                    }
                } else if code == CODE_UNSUBSCRIBED && f.len() == 2 {
                    match f[1] {
                        ValueModel::Int(request_id) => Some(
                            MsgModel::Unsubscribed { request_id },
                        ),
                        _ => None,
                    }
                } else if code == CODE_PUBLISH && f.len() == 5 {
                    match (f[1], f[2], f[3], f[4]) {
                        (
                            ValueModel::Int(request_id),
                            ValueModel::Text(topic),
                            ValueModel::List(args),
                            ValueModel::Dict(kwargs),
                        ) => Some(MsgModel::Publish { request_id, topic, args, kwargs }),
                        _ => None,
                    }
                } else if code == CODE_EVENT && f.len() == 5 {
                    match (f[1], f[2], f[3], f[4]) {
                        (
                            ValueModel::Int(subscription_id),
                            ValueModel::Int(publication_id),
                            ValueModel::List(args),
                            ValueModel::Dict(kwargs),
                        ) => Some(
                            MsgModel::Event { subscription_id, publication_id, args, kwargs },
                        ),
                        _ => None,
                    }
                } else if code == CODE_ERROR && f.len() == 3 {
                    match (f[1], f[2]) {
                        (ValueModel::Int(request_id), ValueModel::Text(reason)) => Some(
                            MsgModel::ErrorReply { request_id, reason },
                        ),
                        _ => None,
                    }
                } else if code == CODE_CALL && f.len() == 5 {
                    match (f[1], f[2], f[3], f[4]) {
                        (
                            ValueModel::Int(request_id),
                            ValueModel::Text(procedure),
                            ValueModel::List(args),
                            ValueModel::Dict(kwargs),
                        ) => Some(MsgModel::Call { request_id, procedure, args, kwargs }),
                        _ => None,
                    }
                } else if code == CODE_RESULT && f.len() == 4 {
                    match (f[1], f[2], f[3]) {
                        (
                            ValueModel::Int(request_id),
                            ValueModel::List(args),
                            ValueModel::Dict(kwargs),
                        ) => Some(MsgModel::CallResult { request_id, args, kwargs }),
                        _ => None,
                    }
                } else {
                    None
                },
                _ => None,
            }
        },
        _ => None,
    }
}

/// Whether the wire format can carry `m`.
pub open spec fn msg_representable(m: MsgModel) -> bool {
    representable(msg_to_value(m))
}

/// The encoding of a message.
pub open spec fn enc_msg(m: MsgModel) -> Seq<u8> {
    enc_value(msg_to_value(m))
}

/// The message decoded from `b`, if `b` is exactly one message.
pub open spec fn dec_msg(b: Seq<u8>) -> Option<MsgModel> {
    match dec_value(b, 0) {
        Some((v, p)) => if p == b.len() {
            value_to_msg(v)
        } else {
            None
        },
        None => None,
    }
}

/// The value carrying a message decodes back to that message.
pub proof fn lemma_value_to_msg_round(m: MsgModel)
    ensures
        value_to_msg(msg_to_value(m)) == Some(m),
{
}

/// Round-trip law for messages: any message the wire format can carry decodes
/// back from its own encoding.
pub proof fn lemma_msg_round_trip(m: MsgModel)
    requires
        msg_representable(m),
    ensures
        dec_msg(enc_msg(m)) == Some(m),
{
    let s = enc_msg(m);
    assert(s.subrange(0, s.len() as int) =~= s);
    crate::codec::lemma_dec_enc_value(s, 0, msg_to_value(m));
    lemma_value_to_msg_round(m);
}

/// Truncating a message's encoding always fails to decode: no strict prefix
/// of a valid encoding is a message.
pub proof fn lemma_truncation_fails(m: MsgModel, k: int)
    requires
        msg_representable(m),
        0 <= k < enc_msg(m).len(),
    ensures
        dec_msg(enc_msg(m).subrange(0, k)) is None,
{
    let b = enc_msg(m);
    let p = b.subrange(0, k);
    assert(b.subrange(0, b.len() as int) =~= b);
    crate::codec::lemma_dec_enc_value(b, 0, msg_to_value(m));
    match dec_value(p, 0) {
        Some((v, q)) => {
            crate::codec::lemma_dec_value_bounds(p, 0);
            assert(p.subrange(0, q) =~= b.subrange(0, q));
            crate::codec::lemma_dec_value_local(p, b, 0);
            assert(false);
        },
        None => {},
    }
}

} // verus!
