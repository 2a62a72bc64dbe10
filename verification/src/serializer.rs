//! The pluggable serializer abstraction and its compact binary
//! implementation: executable `pack` and `unpack` for protocol messages,
//! verified against the model-level codec.

use vstd::prelude::*;
use crate::bytes::{push_be32, push_be64, read_be32, read_be64};
use crate::codec::{
    enc_text, enc_value, enc_list, enc_pairs, dec_text, dec_value, dec_list, dec_pairs,
    TAG_FALSE, TAG_TRUE, TAG_U64, TAG_STR, TAG_ARR, TAG_MAP,
};
use crate::msg::{Msg, MsgModel, msg_to_value, value_to_msg, enc_msg, dec_msg, msg_representable};
use crate::value::{
    Value, ValueModel, representable, view_items, view_pairs, lemma_view_items, lemma_view_pairs,
};

verus! {

/// Why a message could not be packed or unpacked.
#[derive(Debug, PartialEq, Eq)]
pub enum SerializerError {
    /// The message holds a value the wire format cannot represent.
    Serialization,
    /// The bytes are malformed, truncated, or no known message.
    Deserialization,
}

/// Splitting an encoded run of values at its last element.
proof fn lemma_enc_list_snoc(s: Seq<ValueModel>)
    requires
        s.len() > 0,
    ensures
        enc_list(s) == enc_list(s.drop_last()) + enc_value(s.last()),
    decreases s,
{
    if s.len() == 1 {
        assert(s.drop_first() =~= Seq::<ValueModel>::empty());
        assert(s.drop_last() =~= Seq::<ValueModel>::empty());
        assert(enc_list(s.drop_last()) + enc_value(s.last()) =~= enc_value(s[0])
            + enc_list(s.drop_first()));
    } else {
        lemma_enc_list_snoc(s.drop_first());
        assert(s.drop_first().drop_last() =~= s.drop_last().drop_first());
        assert(s.drop_first().last() == s.last());
        assert(s.drop_last()[0] == s[0]);
        assert(s.drop_last().len() > 0);
        assert(enc_list(s) == enc_value(s[0]) + (enc_list(s.drop_last().drop_first())
            + enc_value(s.last())));
        assert(enc_value(s[0]) + (enc_list(s.drop_last().drop_first()) + enc_value(s.last()))
            =~= (enc_value(s[0]) + enc_list(s.drop_last().drop_first())) + enc_value(s.last()));
    }
}

/// Splitting an encoded run of pairs at its last pair.
proof fn lemma_enc_pairs_snoc(s: Seq<(Seq<u8>, ValueModel)>)
    requires
        s.len() > 0,
    ensures
        enc_pairs(s) == enc_pairs(s.drop_last()) + enc_text(s.last().0)
            + enc_value(s.last().1),
    decreases s,
{
    if s.len() == 1 {
        assert(s.drop_first() =~= Seq::<(Seq<u8>, ValueModel)>::empty());
        assert(s.drop_last() =~= Seq::<(Seq<u8>, ValueModel)>::empty());
        assert(enc_pairs(s.drop_last()) + enc_text(s.last().0) + enc_value(s.last().1)
            =~= enc_text(s[0].0) + enc_value(s[0].1) + enc_pairs(s.drop_first()));
    } else {
        lemma_enc_pairs_snoc(s.drop_first());
        assert(s.drop_first().drop_last() =~= s.drop_last().drop_first());
        assert(s.drop_first().last() == s.last());
        assert(s.drop_last()[0] == s[0]);
        assert(s.drop_last().len() > 0);
        let a = enc_text(s[0].0) + enc_value(s[0].1);
        let b = enc_pairs(s.drop_last().drop_first());
        let c = enc_text(s.last().0) + enc_value(s.last().1);
        assert(enc_pairs(s.drop_first()) == (b + enc_text(s.last().0)) + enc_value(s.last().1));
        assert((b + enc_text(s.last().0)) + enc_value(s.last().1) =~= b + c);
        assert(enc_pairs(s) == a + (b + c));
        assert(enc_pairs(s.drop_last()) == a + b);
        assert(a + (b + c) =~= ((a + b) + enc_text(s.last().0)) + enc_value(s.last().1));
    }
}

/// Appends the bytes of `t` to `out`.
fn push_bytes(out: &mut Vec<u8>, t: &Vec<u8>)
    ensures
        final(out)@ == old(out)@ + t@,
{
    let ghost start = out@;
    let mut i: usize = 0;
    while i < t.len()
        invariant
            i <= t@.len(),
            out@ == start + t@.take(i as int),
        decreases t@.len() - i,
    {
        out.push(t[i]);
        assert(t@.take(i + 1) =~= t@.take(i as int).push(t@[i as int]));
        assert(start + t@.take(i + 1) =~= (start + t@.take(i as int)).push(t@[i as int]));
        i += 1;
    }
    assert(t@.take(t@.len() as int) =~= t@);
}

/// Appends the encoding of the text `t`; fails only if `t` is too long.
fn push_text(out: &mut Vec<u8>, t: &Vec<u8>) -> (ok: bool)
    ensures
        ok <==> t@.len() < 0x1_0000_0000,
        ok ==> final(out)@ == old(out)@ + enc_text(t@),
{
    if t.len() as u64 >= 0x1_0000_0000u64 {
        return false;
    }
    out.push(TAG_STR);
    push_be32(out, t.len() as u32);
    push_bytes(out, t);
    assert(final(out)@ =~= old(out)@ + enc_text(t@));
    true
}

/// Appends the encoding of the integer `n`.
fn push_int(out: &mut Vec<u8>, n: u64)
    ensures
        final(out)@ == old(out)@ + enc_value(ValueModel::Int(n)),
{
    out.push(TAG_U64);
    push_be64(out, n);
    assert(final(out)@ =~= old(out)@ + enc_value(ValueModel::Int(n)));
}

/// Appends the encoding of one value; fails only if some part of the value
/// is too long for the wire format.
fn push_value(out: &mut Vec<u8>, v: &Value) -> (ok: bool)
    ensures
        ok <==> representable(v@),
        ok ==> final(out)@ == old(out)@ + enc_value(v@),
    decreases v,
{
    match v {
        Value::Bool(b) => {
            if *b {
                out.push(TAG_TRUE);
            } else {
                out.push(TAG_FALSE);
            }
            assert(final(out)@ =~= old(out)@ + enc_value(v@));
            true
        },
        Value::Int(n) => {
            push_int(out, *n);
            true
        },
        Value::Text(t) => {
            push_text(out, t)
        },
        Value::List(items) => {
            push_list(out, items)
        },
        Value::Dict(pairs) => {
            push_dict(out, pairs)
        },
    }
}

/// Appends the encoding of a list value (header and elements).
fn push_list(out: &mut Vec<u8>, items: &Vec<Value>) -> (ok: bool)
    ensures
        ok <==> representable(ValueModel::List(view_items(items@))),
        ok ==> final(out)@ == old(out)@ + enc_value(ValueModel::List(view_items(items@))),
    decreases items,
{
    proof {
        lemma_view_items(items@);
    }
    if items.len() as u64 >= 0x1_0000_0000u64 {
        return false;
    }
    let ghost model = view_items(items@);
    let ghost start = out@;
    out.push(TAG_ARR);
    push_be32(out, items.len() as u32);
    let ghost after_header = out@;
    assert(after_header =~= start + seq![TAG_ARR] + crate::bytes::be32(items@.len() as u32));
    let mut i: usize = 0;
    while i < items.len()
        invariant
            i <= items@.len(),
            model == view_items(items@),
            model.len() == items@.len(),
            forall|j: int| 0 <= j < items@.len() ==> model[j] == items@[j]@,
            out@ == after_header + enc_list(model.take(i as int)),
            forall|j: int| 0 <= j < i ==> representable(#[trigger] model[j]),
        decreases items@.len() - i,
    {
        let ok = push_value(out, &items[i]);
        if !ok {
            assert(!representable(model[i as int]));
            return false;
        }
        proof {
            lemma_enc_list_snoc(model.take(i + 1));
            assert(model.take(i + 1).drop_last() =~= model.take(i as int));
            assert(model.take(i + 1).last() == model[i as int]);
            assert((after_header + enc_list(model.take(i as int))) + enc_value(model[i as int])
                =~= after_header + enc_list(model.take(i + 1)));
        }
        i += 1;
    }
    assert(model.take(items@.len() as int) =~= model);
    assert(out@ =~= old(out)@ + enc_value(ValueModel::List(model)));
    true
}

/// Appends the encoding of a dictionary value (header and pairs).
fn push_dict(out: &mut Vec<u8>, pairs: &Vec<(Vec<u8>, Value)>) -> (ok: bool)
    ensures
        ok <==> representable(ValueModel::Dict(view_pairs(pairs@))),
        ok ==> final(out)@ == old(out)@ + enc_value(ValueModel::Dict(view_pairs(pairs@))),
    decreases pairs,
{
    proof {
        lemma_view_pairs(pairs@);
    }
    if pairs.len() as u64 >= 0x1_0000_0000u64 {
        return false;
    }
    let ghost model = view_pairs(pairs@);
    let ghost start = out@;
    out.push(TAG_MAP);
    push_be32(out, pairs.len() as u32);
    let ghost after_header = out@;
    assert(after_header =~= start + seq![TAG_MAP] + crate::bytes::be32(pairs@.len() as u32));
    let mut i: usize = 0;
    while i < pairs.len()
        invariant
            i <= pairs@.len(),
            model == view_pairs(pairs@),
            model.len() == pairs@.len(),
            forall|j: int| 0 <= j < pairs@.len() ==> model[j] == (pairs@[j].0@, pairs@[j].1@),
            out@ == after_header + enc_pairs(model.take(i as int)),
            forall|j: int| 0 <= j < i ==> (#[trigger] model[j]).0.len() < 0x1_0000_0000
                && representable(model[j].1),
        decreases pairs@.len() - i,
    {
        let ghost before = out@;
        let ok_k = push_text(out, &pairs[i].0);
        if !ok_k {
            assert(model[i as int].0.len() >= 0x1_0000_0000);
            return false;
        }
        let ok_v = push_value(out, &pairs[i].1);
        if !ok_v {
            assert(!representable(model[i as int].1));
            return false;
        }
        proof {
            lemma_enc_pairs_snoc(model.take(i + 1));
            assert(model.take(i + 1).drop_last() =~= model.take(i as int));
            assert(model.take(i + 1).last() == model[i as int]);
            assert(out@ =~= after_header + enc_pairs(model.take(i + 1)));
        }
        i += 1;
    }
    assert(model.take(pairs@.len() as int) =~= model);
    assert(out@ =~= old(out)@ + enc_value(ValueModel::Dict(model)));
    true
}

/// The encoding of a message envelope: array header, then its fields.
proof fn lemma_enc_envelope(f: Seq<ValueModel>)
    requires
        f.len() < 0x1_0000_0000,
    ensures
        enc_value(ValueModel::List(f)) == seq![TAG_ARR] + crate::bytes::be32(f.len() as u32)
            + enc_list(f),
{
}

/// Unfolds the encoding of a two-field envelope body.
proof fn lemma_enc_list2(a: ValueModel, b: ValueModel)
    ensures
        enc_list(seq![a, b]) == enc_value(a) + enc_value(b),
{
    assert(seq![a, b].drop_first() =~= seq![b]);
    assert(seq![b].drop_first() =~= Seq::<ValueModel>::empty());
    assert(enc_list(Seq::<ValueModel>::empty()) == Seq::<u8>::empty());
    assert(enc_list(seq![b]) == enc_value(seq![b][0]) + enc_list(seq![b].drop_first()));
    assert(enc_list(seq![a, b]) == enc_value(seq![a, b][0]) + enc_list(seq![a, b].drop_first()));
    assert(enc_value(a) + (enc_value(b) + Seq::<u8>::empty()) =~= enc_value(a) + enc_value(b));
}

/// Unfolds the encoding of a three-field envelope body.
proof fn lemma_enc_list3(a: ValueModel, b: ValueModel, c: ValueModel)
    ensures
        enc_list(seq![a, b, c]) == enc_value(a) + enc_value(b) + enc_value(c),
{
    assert(seq![a, b, c].drop_first() =~= seq![b, c]);
    assert(enc_list(seq![a, b, c]) == enc_value(seq![a, b, c][0]) + enc_list(
        seq![a, b, c].drop_first(),
    ));
    lemma_enc_list2(b, c);
    assert(enc_value(a) + (enc_value(b) + enc_value(c)) =~= enc_value(a) + enc_value(b)
        + enc_value(c));
}

/// Unfolds the encoding of a four-field envelope body.
proof fn lemma_enc_list4(a: ValueModel, b: ValueModel, c: ValueModel, d: ValueModel)
    ensures
        enc_list(seq![a, b, c, d]) == enc_value(a) + enc_value(b) + enc_value(c) + enc_value(d),
{
    assert(seq![a, b, c, d].drop_first() =~= seq![b, c, d]);
    assert(enc_list(seq![a, b, c, d]) == enc_value(seq![a, b, c, d][0]) + enc_list(
        seq![a, b, c, d].drop_first(),
    ));
    lemma_enc_list3(b, c, d);
    assert(enc_value(a) + (enc_value(b) + enc_value(c) + enc_value(d)) =~= enc_value(a)
        + enc_value(b) + enc_value(c) + enc_value(d));
}

/// Unfolds the encoding of a five-field envelope body.
proof fn lemma_enc_list5(a: ValueModel, b: ValueModel, c: ValueModel, d: ValueModel, e: ValueModel)
    ensures
        enc_list(seq![a, b, c, d, e]) == enc_value(a) + enc_value(b) + enc_value(c) + enc_value(d)
            + enc_value(e),
{
    assert(seq![a, b, c, d, e].drop_first() =~= seq![b, c, d, e]);
    assert(enc_list(seq![a, b, c, d, e]) == enc_value(seq![a, b, c, d, e][0]) + enc_list(
        seq![a, b, c, d, e].drop_first(),
    ));
    lemma_enc_list4(b, c, d, e);
    assert(enc_value(a) + (enc_value(b) + enc_value(c) + enc_value(d) + enc_value(e))
        =~= enc_value(a) + enc_value(b) + enc_value(c) + enc_value(d) + enc_value(e));
}

/// Encodes one Hello envelope.
fn pack_hello(realm: &Vec<u8>) -> (r: Result<Vec<u8>, SerializerError>)
    ensures
        r matches Ok(b) ==> b@ == enc_msg(MsgModel::Hello { realm: realm@ }),
        r is Ok <==> msg_representable(MsgModel::Hello { realm: realm@ }),
        r matches Err(e) ==> e == SerializerError::Serialization,
{
    let ghost f = seq![
            ValueModel::Int(crate::msg::CODE_HELLO),
            ValueModel::Text(realm@),
        ];
    let ghost m = MsgModel::Hello { realm: realm@ };
    proof {
        assert(msg_to_value(m) == ValueModel::List(f));
        assert(f[0] == ValueModel::Int(crate::msg::CODE_HELLO));
        assert(f[1] == ValueModel::Text(realm@));
    }
    let mut out: Vec<u8> = Vec::new();
    out.push(TAG_ARR);
    push_be32(&mut out, 2);
    push_int(&mut out, crate::msg::CODE_HELLO);
    if !push_text(&mut out, realm) {
        assert(!representable(f[1]));
        assert(!representable(ValueModel::List(f)));
        return Err(SerializerError::Serialization);
    }
    proof {
        lemma_enc_envelope(f);
        lemma_enc_list2(f[0], f[1]);
        assert forall|i: int| 0 <= i < f.len() implies representable(
            #[trigger] f[i],
        ) by {
            if i == 0 { assert(representable(f[0])); } else if i == 1 { assert(representable(f[1])); }
        }
        assert(representable(ValueModel::List(f)));
        assert(out@ =~= enc_msg(m));
    }
    Ok(out)
}

/// Encodes one Welcome envelope.
fn pack_welcome(session_id: &u64) -> (r: Result<Vec<u8>, SerializerError>)
    ensures
        r matches Ok(b) ==> b@ == enc_msg(MsgModel::Welcome { session_id: *session_id }),
        r is Ok <==> msg_representable(MsgModel::Welcome { session_id: *session_id }),
        r matches Err(e) ==> e == SerializerError::Serialization,
{
    let ghost f = seq![
            ValueModel::Int(crate::msg::CODE_WELCOME),
            ValueModel::Int(*session_id),
        ];
    let ghost m = MsgModel::Welcome { session_id: *session_id };
    proof {
        assert(msg_to_value(m) == ValueModel::List(f));
        assert(f[0] == ValueModel::Int(crate::msg::CODE_WELCOME));
        assert(f[1] == ValueModel::Int(*session_id));
    }
    let mut out: Vec<u8> = Vec::new();
    out.push(TAG_ARR);
    push_be32(&mut out, 2);
    push_int(&mut out, crate::msg::CODE_WELCOME);
    push_int(&mut out, *session_id);
    proof {
        lemma_enc_envelope(f);
        lemma_enc_list2(f[0], f[1]);
        assert forall|i: int| 0 <= i < f.len() implies representable(
            #[trigger] f[i],
        ) by {
            if i == 0 { assert(representable(f[0])); } else if i == 1 { assert(representable(f[1])); }
        }
        assert(representable(ValueModel::List(f)));
        assert(out@ =~= enc_msg(m));
    }
    Ok(out)
}

/// Encodes one Abort envelope.
fn pack_abort(reason: &Vec<u8>) -> (r: Result<Vec<u8>, SerializerError>)
    ensures
        r matches Ok(b) ==> b@ == enc_msg(MsgModel::Abort { reason: reason@ }),
        r is Ok <==> msg_representable(MsgModel::Abort { reason: reason@ }),
        r matches Err(e) ==> e == SerializerError::Serialization,
{
    let ghost f = seq![
            ValueModel::Int(crate::msg::CODE_ABORT),
            ValueModel::Text(reason@),
        ];
    let ghost m = MsgModel::Abort { reason: reason@ };
    proof {
        assert(msg_to_value(m) == ValueModel::List(f));
        assert(f[0] == ValueModel::Int(crate::msg::CODE_ABORT));
        assert(f[1] == ValueModel::Text(reason@));
    }
    let mut out: Vec<u8> = Vec::new();
    out.push(TAG_ARR);
    push_be32(&mut out, 2);
    push_int(&mut out, crate::msg::CODE_ABORT);
    if !push_text(&mut out, reason) {
        assert(!representable(f[1]));
        assert(!representable(ValueModel::List(f)));
        return Err(SerializerError::Serialization);
    }
    proof {
        lemma_enc_envelope(f);
        lemma_enc_list2(f[0], f[1]);
        assert forall|i: int| 0 <= i < f.len() implies representable(
            #[trigger] f[i],
        ) by {
            if i == 0 { assert(representable(f[0])); } else if i == 1 { assert(representable(f[1])); }
        }
        assert(representable(ValueModel::List(f)));
        assert(out@ =~= enc_msg(m));
    }
    Ok(out)
}

/// Encodes one Subscribe envelope.
fn pack_subscribe(request_id: &u64, topic: &Vec<u8>) -> (r: Result<Vec<u8>, SerializerError>)
    ensures
        r matches Ok(b) ==> b@ == enc_msg(MsgModel::Subscribe { request_id: *request_id, topic: topic@ }),
        r is Ok <==> msg_representable(MsgModel::Subscribe { request_id: *request_id, topic: topic@ }),
        r matches Err(e) ==> e == SerializerError::Serialization,
{
    let ghost f = seq![
            ValueModel::Int(crate::msg::CODE_SUBSCRIBE),
            ValueModel::Int(*request_id),
            ValueModel::Text(topic@),
        ];
    let ghost m = MsgModel::Subscribe { request_id: *request_id, topic: topic@ };
    proof {
        assert(msg_to_value(m) == ValueModel::List(f));
        assert(f[0] == ValueModel::Int(crate::msg::CODE_SUBSCRIBE));
        assert(f[1] == ValueModel::Int(*request_id));
        assert(f[2] == ValueModel::Text(topic@));
    }
    let mut out: Vec<u8> = Vec::new();
    out.push(TAG_ARR);
    push_be32(&mut out, 3);
    push_int(&mut out, crate::msg::CODE_SUBSCRIBE);
    push_int(&mut out, *request_id);
    if !push_text(&mut out, topic) {
        assert(!representable(f[2]));
        assert(!representable(ValueModel::List(f)));
        return Err(SerializerError::Serialization);
    }
    proof {
        lemma_enc_envelope(f);
        lemma_enc_list3(f[0], f[1], f[2]);
        assert forall|i: int| 0 <= i < f.len() implies representable(
            #[trigger] f[i],
        ) by {
            if i == 0 { assert(representable(f[0])); } else if i == 1 { assert(representable(f[1])); } else if i == 2 { assert(representable(f[2])); }
        }
        assert(representable(ValueModel::List(f)));
        assert(out@ =~= enc_msg(m));
    }
    Ok(out)
}

/// Encodes one Subscribed envelope.
fn pack_subscribed(request_id: &u64, subscription_id: &u64) -> (r: Result<Vec<u8>, SerializerError>)
    ensures
        r matches Ok(b) ==> b@ == enc_msg(MsgModel::Subscribed { request_id: *request_id, subscription_id: *subscription_id }),
        r is Ok <==> msg_representable(MsgModel::Subscribed { request_id: *request_id, subscription_id: *subscription_id }),
        r matches Err(e) ==> e == SerializerError::Serialization,
{
    let ghost f = seq![
            ValueModel::Int(crate::msg::CODE_SUBSCRIBED),
            ValueModel::Int(*request_id),
            ValueModel::Int(*subscription_id),
        ];
    let ghost m = MsgModel::Subscribed { request_id: *request_id, subscription_id: *subscription_id };
    proof {
        assert(msg_to_value(m) == ValueModel::List(f));
        assert(f[0] == ValueModel::Int(crate::msg::CODE_SUBSCRIBED));
        assert(f[1] == ValueModel::Int(*request_id));
        assert(f[2] == ValueModel::Int(*subscription_id));
    }
    let mut out: Vec<u8> = Vec::new();
    out.push(TAG_ARR);
    push_be32(&mut out, 3);
    push_int(&mut out, crate::msg::CODE_SUBSCRIBED);
    push_int(&mut out, *request_id);
    push_int(&mut out, *subscription_id);
    proof {
        lemma_enc_envelope(f);
        lemma_enc_list3(f[0], f[1], f[2]);
        assert forall|i: int| 0 <= i < f.len() implies representable(
            #[trigger] f[i],
        ) by {
            if i == 0 { assert(representable(f[0])); } else if i == 1 { assert(representable(f[1])); } else if i == 2 { assert(representable(f[2])); }
        }
        assert(representable(ValueModel::List(f)));
        assert(out@ =~= enc_msg(m));
    }
    Ok(out)
}

/// Encodes one Unsubscribe envelope.
fn pack_unsubscribe(request_id: &u64, subscription_id: &u64) -> (r: Result<Vec<u8>, SerializerError>)
    ensures
        r matches Ok(b) ==> b@ == enc_msg(MsgModel::Unsubscribe { request_id: *request_id, subscription_id: *subscription_id }),
        r is Ok <==> msg_representable(MsgModel::Unsubscribe { request_id: *request_id, subscription_id: *subscription_id }),
        r matches Err(e) ==> e == SerializerError::Serialization,
{
    let ghost f = seq![
            ValueModel::Int(crate::msg::CODE_UNSUBSCRIBE),
            ValueModel::Int(*request_id),
            ValueModel::Int(*subscription_id),
        ];
    let ghost m = MsgModel::Unsubscribe { request_id: *request_id, subscription_id: *subscription_id };
    proof {
        assert(msg_to_value(m) == ValueModel::List(f));
        assert(f[0] == ValueModel::Int(crate::msg::CODE_UNSUBSCRIBE));
        assert(f[1] == ValueModel::Int(*request_id));
        assert(f[2] == ValueModel::Int(*subscription_id));
    }
    let mut out: Vec<u8> = Vec::new();
    out.push(TAG_ARR);
    push_be32(&mut out, 3);
    push_int(&mut out, crate::msg::CODE_UNSUBSCRIBE);
    push_int(&mut out, *request_id);
    push_int(&mut out, *subscription_id);
    proof {
        lemma_enc_envelope(f);
        lemma_enc_list3(f[0], f[1], f[2]);
        assert forall|i: int| 0 <= i < f.len() implies representable(
            #[trigger] f[i],
        ) by {
            if i == 0 { assert(representable(f[0])); } else if i == 1 { assert(representable(f[1])); } else if i == 2 { assert(representable(f[2])); }
        }
        assert(representable(ValueModel::List(f)));
        assert(out@ =~= enc_msg(m));
    }
    Ok(out)
}

/// Encodes one Unsubscribed envelope.
fn pack_unsubscribed(request_id: &u64) -> (r: Result<Vec<u8>, SerializerError>)
    ensures
        r matches Ok(b) ==> b@ == enc_msg(MsgModel::Unsubscribed { request_id: *request_id }),
        r is Ok <==> msg_representable(MsgModel::Unsubscribed { request_id: *request_id }),
        r matches Err(e) ==> e == SerializerError::Serialization,
{
    let ghost f = seq![
            ValueModel::Int(crate::msg::CODE_UNSUBSCRIBED),
            ValueModel::Int(*request_id),
        ];
    let ghost m = MsgModel::Unsubscribed { request_id: *request_id };
    proof {
        assert(msg_to_value(m) == ValueModel::List(f));
        assert(f[0] == ValueModel::Int(crate::msg::CODE_UNSUBSCRIBED));
        assert(f[1] == ValueModel::Int(*request_id));
    }
    let mut out: Vec<u8> = Vec::new();
    out.push(TAG_ARR);
    push_be32(&mut out, 2);
    push_int(&mut out, crate::msg::CODE_UNSUBSCRIBED);
    push_int(&mut out, *request_id);
    proof {
        lemma_enc_envelope(f);
        lemma_enc_list2(f[0], f[1]);
        assert forall|i: int| 0 <= i < f.len() implies representable(
            #[trigger] f[i],
        ) by {
            if i == 0 { assert(representable(f[0])); } else if i == 1 { assert(representable(f[1])); }
        }
        assert(representable(ValueModel::List(f)));
        assert(out@ =~= enc_msg(m));
    }
    Ok(out)
}

/// Encodes one Publish envelope.
fn pack_publish(request_id: &u64, topic: &Vec<u8>, args: &Vec<Value>, kwargs: &Vec<(Vec<u8>, Value)>) -> (r: Result<Vec<u8>, SerializerError>)
    ensures
        r matches Ok(b) ==> b@ == enc_msg(MsgModel::Publish { request_id: *request_id, topic: topic@, args: view_items(args@), kwargs: view_pairs(kwargs@) }),
        r is Ok <==> msg_representable(MsgModel::Publish { request_id: *request_id, topic: topic@, args: view_items(args@), kwargs: view_pairs(kwargs@) }),
        r matches Err(e) ==> e == SerializerError::Serialization,
{
    let ghost f = seq![
            ValueModel::Int(crate::msg::CODE_PUBLISH),
            ValueModel::Int(*request_id),
            ValueModel::Text(topic@),
            ValueModel::List(view_items(args@)),
            ValueModel::Dict(view_pairs(kwargs@)),
        ];
    let ghost m = MsgModel::Publish { request_id: *request_id, topic: topic@, args: view_items(args@), kwargs: view_pairs(kwargs@) };
    proof {
        assert(msg_to_value(m) == ValueModel::List(f));
        assert(f[0] == ValueModel::Int(crate::msg::CODE_PUBLISH));
        assert(f[1] == ValueModel::Int(*request_id));
        assert(f[2] == ValueModel::Text(topic@));
        assert(f[3] == ValueModel::List(view_items(args@)));
        assert(f[4] == ValueModel::Dict(view_pairs(kwargs@)));
    }
    let mut out: Vec<u8> = Vec::new();
    out.push(TAG_ARR);
    push_be32(&mut out, 5);
    push_int(&mut out, crate::msg::CODE_PUBLISH);
    push_int(&mut out, *request_id);
    if !push_text(&mut out, topic) {
        assert(!representable(f[2]));
        assert(!representable(ValueModel::List(f)));
        return Err(SerializerError::Serialization);
    }
    if !push_list(&mut out, args) {
        assert(!representable(f[3]));
        assert(!representable(ValueModel::List(f)));
        return Err(SerializerError::Serialization);
    }
    if !push_dict(&mut out, kwargs) {
        assert(!representable(f[4]));
        assert(!representable(ValueModel::List(f)));
        return Err(SerializerError::Serialization);
    }
    proof {
        lemma_enc_envelope(f);
        lemma_enc_list5(f[0], f[1], f[2], f[3], f[4]);
        assert forall|i: int| 0 <= i < f.len() implies representable(
            #[trigger] f[i],
        ) by {
            if i == 0 { assert(representable(f[0])); } else if i == 1 { assert(representable(f[1])); } else if i == 2 { assert(representable(f[2])); } else if i == 3 { assert(representable(f[3])); } else if i == 4 { assert(representable(f[4])); }
        }
        assert(representable(ValueModel::List(f)));
        assert(out@ =~= enc_msg(m));
    }
    Ok(out)
}

/// Encodes one Event envelope.
fn pack_event(subscription_id: &u64, publication_id: &u64, args: &Vec<Value>, kwargs: &Vec<(Vec<u8>, Value)>) -> (r: Result<Vec<u8>, SerializerError>)
    ensures
        r matches Ok(b) ==> b@ == enc_msg(MsgModel::Event { subscription_id: *subscription_id, publication_id: *publication_id, args: view_items(args@), kwargs: view_pairs(kwargs@) }),
        r is Ok <==> msg_representable(MsgModel::Event { subscription_id: *subscription_id, publication_id: *publication_id, args: view_items(args@), kwargs: view_pairs(kwargs@) }),
        r matches Err(e) ==> e == SerializerError::Serialization,
{
    let ghost f = seq![
            ValueModel::Int(crate::msg::CODE_EVENT),
            ValueModel::Int(*subscription_id),
            ValueModel::Int(*publication_id),
            ValueModel::List(view_items(args@)),
            ValueModel::Dict(view_pairs(kwargs@)),
        ];
    let ghost m = MsgModel::Event { subscription_id: *subscription_id, publication_id: *publication_id, args: view_items(args@), kwargs: view_pairs(kwargs@) };
    proof {
        assert(msg_to_value(m) == ValueModel::List(f));
        assert(f[0] == ValueModel::Int(crate::msg::CODE_EVENT));
        assert(f[1] == ValueModel::Int(*subscription_id));
        assert(f[2] == ValueModel::Int(*publication_id));
        assert(f[3] == ValueModel::List(view_items(args@)));
        assert(f[4] == ValueModel::Dict(view_pairs(kwargs@)));
    }
    let mut out: Vec<u8> = Vec::new();
    out.push(TAG_ARR);
    push_be32(&mut out, 5);
    push_int(&mut out, crate::msg::CODE_EVENT);
    push_int(&mut out, *subscription_id);
    push_int(&mut out, *publication_id);
    if !push_list(&mut out, args) {
        assert(!representable(f[3]));
        assert(!representable(ValueModel::List(f)));
        return Err(SerializerError::Serialization);
    }
    if !push_dict(&mut out, kwargs) {
        assert(!representable(f[4]));
        assert(!representable(ValueModel::List(f)));
        return Err(SerializerError::Serialization);
    }
    proof {
        lemma_enc_envelope(f);
        lemma_enc_list5(f[0], f[1], f[2], f[3], f[4]);
        assert forall|i: int| 0 <= i < f.len() implies representable(
            #[trigger] f[i],
        ) by {
            if i == 0 { assert(representable(f[0])); } else if i == 1 { assert(representable(f[1])); } else if i == 2 { assert(representable(f[2])); } else if i == 3 { assert(representable(f[3])); } else if i == 4 { assert(representable(f[4])); }
        }
        assert(representable(ValueModel::List(f)));
        assert(out@ =~= enc_msg(m));
    }
    Ok(out)
}

/// Encodes one ErrorReply envelope.
fn pack_error_reply(request_id: &u64, reason: &Vec<u8>) -> (r: Result<Vec<u8>, SerializerError>)
    ensures
        r matches Ok(b) ==> b@ == enc_msg(MsgModel::ErrorReply { request_id: *request_id, reason: reason@ }),
        r is Ok <==> msg_representable(MsgModel::ErrorReply { request_id: *request_id, reason: reason@ }),
        r matches Err(e) ==> e == SerializerError::Serialization,
{
    let ghost f = seq![
            ValueModel::Int(crate::msg::CODE_ERROR),
            ValueModel::Int(*request_id),
            ValueModel::Text(reason@),
        ];
    let ghost m = MsgModel::ErrorReply { request_id: *request_id, reason: reason@ };
    proof {
        assert(msg_to_value(m) == ValueModel::List(f));
        assert(f[0] == ValueModel::Int(crate::msg::CODE_ERROR));
        assert(f[1] == ValueModel::Int(*request_id));
        assert(f[2] == ValueModel::Text(reason@));
    }
    let mut out: Vec<u8> = Vec::new();
    out.push(TAG_ARR);
    push_be32(&mut out, 3);
    push_int(&mut out, crate::msg::CODE_ERROR);
    push_int(&mut out, *request_id);
    if !push_text(&mut out, reason) {
        assert(!representable(f[2]));
        assert(!representable(ValueModel::List(f)));
        return Err(SerializerError::Serialization);
    }
    proof {
        lemma_enc_envelope(f);
        lemma_enc_list3(f[0], f[1], f[2]);
        assert forall|i: int| 0 <= i < f.len() implies representable(
            #[trigger] f[i],
        ) by {
            if i == 0 { assert(representable(f[0])); } else if i == 1 { assert(representable(f[1])); } else if i == 2 { assert(representable(f[2])); }
        }
        assert(representable(ValueModel::List(f)));
        assert(out@ =~= enc_msg(m));
    }
    Ok(out)
}

/// Encodes one Call envelope.
fn pack_call(request_id: &u64, procedure: &Vec<u8>, args: &Vec<Value>, kwargs: &Vec<(Vec<u8>, Value)>) -> (r: Result<Vec<u8>, SerializerError>)
    ensures
        r matches Ok(b) ==> b@ == enc_msg(MsgModel::Call { request_id: *request_id, procedure: procedure@, args: view_items(args@), kwargs: view_pairs(kwargs@) }),
        r is Ok <==> msg_representable(MsgModel::Call { request_id: *request_id, procedure: procedure@, args: view_items(args@), kwargs: view_pairs(kwargs@) }),
        r matches Err(e) ==> e == SerializerError::Serialization,
{
    let ghost f = seq![
            ValueModel::Int(crate::msg::CODE_CALL),
            ValueModel::Int(*request_id),
            ValueModel::Text(procedure@),
            ValueModel::List(view_items(args@)),
            ValueModel::Dict(view_pairs(kwargs@)),
        ];
    let ghost m = MsgModel::Call { request_id: *request_id, procedure: procedure@, args: view_items(args@), kwargs: view_pairs(kwargs@) };
    proof {
        assert(msg_to_value(m) == ValueModel::List(f));
        assert(f[0] == ValueModel::Int(crate::msg::CODE_CALL));
        assert(f[1] == ValueModel::Int(*request_id));
        assert(f[2] == ValueModel::Text(procedure@));
        assert(f[3] == ValueModel::List(view_items(args@)));
        assert(f[4] == ValueModel::Dict(view_pairs(kwargs@)));
    }
    let mut out: Vec<u8> = Vec::new();
    out.push(TAG_ARR);
    push_be32(&mut out, 5);
    push_int(&mut out, crate::msg::CODE_CALL);
    push_int(&mut out, *request_id);
    if !push_text(&mut out, procedure) {
        assert(!representable(f[2]));
        assert(!representable(ValueModel::List(f)));
        return Err(SerializerError::Serialization);
    }
    if !push_list(&mut out, args) {
        assert(!representable(f[3]));
        assert(!representable(ValueModel::List(f)));
        return Err(SerializerError::Serialization);
    }
    if !push_dict(&mut out, kwargs) {
        assert(!representable(f[4]));
        assert(!representable(ValueModel::List(f)));
        return Err(SerializerError::Serialization);
    }
    proof {
        lemma_enc_envelope(f);
        lemma_enc_list5(f[0], f[1], f[2], f[3], f[4]);
        assert forall|i: int| 0 <= i < f.len() implies representable(
            #[trigger] f[i],
        ) by {
            if i == 0 { assert(representable(f[0])); } else if i == 1 { assert(representable(f[1])); } else if i == 2 { assert(representable(f[2])); } else if i == 3 { assert(representable(f[3])); } else if i == 4 { assert(representable(f[4])); }
        }
        assert(representable(ValueModel::List(f)));
        assert(out@ =~= enc_msg(m));
    }
    Ok(out)
}

/// Encodes one CallResult envelope.
fn pack_call_result(request_id: &u64, args: &Vec<Value>, kwargs: &Vec<(Vec<u8>, Value)>) -> (r: Result<Vec<u8>, SerializerError>)
    ensures
        r matches Ok(b) ==> b@ == enc_msg(MsgModel::CallResult { request_id: *request_id, args: view_items(args@), kwargs: view_pairs(kwargs@) }),
        r is Ok <==> msg_representable(MsgModel::CallResult { request_id: *request_id, args: view_items(args@), kwargs: view_pairs(kwargs@) }),
        r matches Err(e) ==> e == SerializerError::Serialization,
{
    let ghost f = seq![
            ValueModel::Int(crate::msg::CODE_RESULT),
            ValueModel::Int(*request_id),
            ValueModel::List(view_items(args@)),
            ValueModel::Dict(view_pairs(kwargs@)),
        ];
    let ghost m = MsgModel::CallResult { request_id: *request_id, args: view_items(args@), kwargs: view_pairs(kwargs@) };
    proof {
        assert(msg_to_value(m) == ValueModel::List(f));
        assert(f[0] == ValueModel::Int(crate::msg::CODE_RESULT));
        assert(f[1] == ValueModel::Int(*request_id));
        assert(f[2] == ValueModel::List(view_items(args@)));
        assert(f[3] == ValueModel::Dict(view_pairs(kwargs@)));
    }
    let mut out: Vec<u8> = Vec::new();
    out.push(TAG_ARR);
    push_be32(&mut out, 4);
    push_int(&mut out, crate::msg::CODE_RESULT);
    push_int(&mut out, *request_id);
    if !push_list(&mut out, args) {
        assert(!representable(f[2]));
        assert(!representable(ValueModel::List(f)));
        return Err(SerializerError::Serialization);
    }
    if !push_dict(&mut out, kwargs) {
        assert(!representable(f[3]));
        assert(!representable(ValueModel::List(f)));
        return Err(SerializerError::Serialization);
    }
    proof {
        lemma_enc_envelope(f);
        lemma_enc_list4(f[0], f[1], f[2], f[3]);
        assert forall|i: int| 0 <= i < f.len() implies representable(
            #[trigger] f[i],
        ) by {
            if i == 0 { assert(representable(f[0])); } else if i == 1 { assert(representable(f[1])); } else if i == 2 { assert(representable(f[2])); } else if i == 3 { assert(representable(f[3])); }
        }
        assert(representable(ValueModel::List(f)));
        assert(out@ =~= enc_msg(m));
    }
    Ok(out)
}

/// A wire format for protocol messages. Each implementation fixes an
/// encoding function, a decoding function, and the set of messages it can
/// carry, and must prove the round-trip law relating them.
pub trait SerializerImpl: Sized {
    /// The bytes this format produces for `m`.
    spec fn enc_spec(&self, m: MsgModel) -> Seq<u8>;

    /// The message this format reads from `b`, if any.
    spec fn dec_spec(&self, b: Seq<u8>) -> Option<MsgModel>;

    /// Whether this format can carry `m`.
    spec fn accepts(&self, m: MsgModel) -> bool;

    /// Round-trip law: every message the format accepts decodes back from
    /// its own encoding.
    proof fn round_trip(&self, m: MsgModel)
        requires
            self.accepts(m),
        ensures
            self.dec_spec(self.enc_spec(m)) == Some(m),
    ;

    /// Encodes `value`; fails exactly on messages the format cannot carry.
    fn pack(&self, value: &Msg) -> (r: Result<Vec<u8>, SerializerError>)
        ensures
            r matches Ok(b) ==> b@ == self.enc_spec(value@),
            r is Ok <==> self.accepts(value@),
            r matches Err(e) ==> e == SerializerError::Serialization,
    ;

    /// Decodes one message from `v`; fails exactly on byte sequences that
    /// are not the encoding of any message.
    fn unpack(&self, v: &[u8]) -> (r: Result<Msg, SerializerError>)
        ensures
            r matches Ok(m) ==> self.dec_spec(v@) == Some(m@),
            r is Ok <==> self.dec_spec(v@) is Some,
            r matches Err(e) ==> e == SerializerError::Deserialization,
    ;
}

/// The compact binary wire format.
pub struct MsgPackSerializer {}

impl SerializerImpl for MsgPackSerializer {
    open spec fn enc_spec(&self, m: MsgModel) -> Seq<u8> {
        enc_msg(m)
    }

    open spec fn dec_spec(&self, b: Seq<u8>) -> Option<MsgModel> {
        dec_msg(b)
    }

    open spec fn accepts(&self, m: MsgModel) -> bool {
        msg_representable(m)
    }

    proof fn round_trip(&self, m: MsgModel) {
        crate::msg::lemma_msg_round_trip(m);
    }

    fn pack(&self, value: &Msg) -> (r: Result<Vec<u8>, SerializerError>) {
        match value {
            Msg::Hello { realm } => pack_hello(realm),
            Msg::Welcome { session_id } => pack_welcome(session_id),
            Msg::Abort { reason } => pack_abort(reason),
            Msg::Subscribe { request_id, topic } => pack_subscribe(request_id, topic),
            Msg::Subscribed { request_id, subscription_id } => pack_subscribed(request_id, subscription_id),
            Msg::Unsubscribe { request_id, subscription_id } => pack_unsubscribe(request_id, subscription_id),
            Msg::Unsubscribed { request_id } => pack_unsubscribed(request_id),
            Msg::Publish { request_id, topic, args, kwargs } => pack_publish(request_id, topic, args, kwargs),
            Msg::Event { subscription_id, publication_id, args, kwargs } => pack_event(subscription_id, publication_id, args, kwargs),
            Msg::ErrorReply { request_id, reason } => pack_error_reply(request_id, reason),
            Msg::Call { request_id, procedure, args, kwargs } => pack_call(request_id, procedure, args, kwargs),
            Msg::CallResult { request_id, args, kwargs } => pack_call_result(request_id, args, kwargs),
        }
    }

    fn unpack(&self, v: &[u8]) -> (r: Result<Msg, SerializerError>) {
        match take_value(v, 0) {
            None => Err(SerializerError::Deserialization),
            Some((val, p)) => {
                if p != v.len() {
                    return Err(SerializerError::Deserialization);
                }
                match msg_of_value(val) {
                    Some(m) => Ok(m),
                    None => Err(SerializerError::Deserialization),
                }
            },
        }
    }
}

/// A value and its model are built from the same constructor.
proof fn lemma_value_view_ctor(v: Value)
    ensures
        v is Bool <==> v@ is Bool,
        v is Int <==> v@ is Int,
        v is Text <==> v@ is Text,
        v is List <==> v@ is List,
        v is Dict <==> v@ is Dict,
{
    match v {
        Value::Bool(_) => {},
        Value::Int(_) => {},
        Value::Text(_) => {},
        Value::List(_) => {},
        Value::Dict(_) => {},
    }
}

/// Reads one text at `pos`, as `dec_text` describes.
fn take_text(b: &[u8], pos: usize) -> (r: Option<(Vec<u8>, usize)>)
    ensures
        match r {
            Some((t, p)) => dec_text(b@, pos as int) == Some((t@, p as int)) && pos < p
                <= b@.len(),
            None => dec_text(b@, pos as int) is None,
        },
{
    if pos >= b.len() || b.len() - pos < 5 || b[pos] != TAG_STR {
        return None;
    }
    let n = read_be32(b, pos + 1);
    let n_us = n as usize;
    if b.len() - (pos + 5) < n_us {
        return None;
    }
    let t = vstd::slice::slice_to_vec(vstd::slice::slice_subrange(b, pos + 5, pos + 5 + n_us));
    Some((t, pos + 5 + n_us))
}

/// Reads one value at `pos`, as `dec_value` describes.
fn take_value(b: &[u8], pos: usize) -> (r: Option<(Value, usize)>)
    ensures
        match r {
            Some((v, p)) => dec_value(b@, pos as int) == Some((v@, p as int)) && pos < p
                <= b@.len(),
            None => dec_value(b@, pos as int) is None,
        },
    decreases b@.len() - pos, 0int, 0int,
{
    if pos >= b.len() {
        return None;
    }
    let tag = b[pos];
    if tag == TAG_FALSE {
        Some((Value::Bool(false), pos + 1))
    } else if tag == TAG_TRUE {
        Some((Value::Bool(true), pos + 1))
    } else if tag == TAG_U64 {
        if b.len() - pos < 9 {
            return None;
        }
        let n = read_be64(b, pos + 1);
        Some((Value::Int(n), pos + 9))
    } else if tag == TAG_STR {
        match take_text(b, pos) {
            Some((t, p)) => Some((Value::Text(t), p)),
            None => None,
        }
    } else if tag == TAG_ARR {
        if b.len() - pos < 5 {
            return None;
        }
        let n = read_be32(b, pos + 1);
        match take_list(b, pos + 5, n) {
            Some((items, p)) => Some((Value::List(items), p)),
            None => None,
        }
    } else if tag == TAG_MAP {
        if b.len() - pos < 5 {
            return None;
        }
        let n = read_be32(b, pos + 1);
        match take_pairs(b, pos + 5, n) {
            Some((pairs, p)) => Some((Value::Dict(pairs), p)),
            None => None,
        }
    } else {
        None
    }
}

/// Reads `n` consecutive values at `pos`, as `dec_list` describes.
fn take_list(b: &[u8], pos: usize, n: u32) -> (r: Option<(Vec<Value>, usize)>)
    ensures
        match r {
            Some((items, p)) => dec_list(b@, pos as int, n as int) == Some((
                view_items(items@),
                p as int,
            )) && pos <= p <= b@.len(),
            None => dec_list(b@, pos as int, n as int) is None,
        },
    decreases b@.len() - pos, n as int, 1int,
{
    if pos > b.len() {
        return None;
    }
    if n == 0 {
        let items: Vec<Value> = Vec::new();
        assert(view_items(items@) =~= Seq::<ValueModel>::empty());
        return Some((items, pos));
    }
    match take_value(b, pos) {
        None => None,
        Some((v, p2)) => {
            match take_list(b, p2, n - 1) {
                None => None,
                Some((tail, p3)) => {
                    let ghost old_tail = tail@;
                    let mut items = tail;
                    items.insert(0, v);
                    proof {
                        assert(items@ =~= seq![v] + old_tail);
                        assert(view_items(items@) == seq![items@[0]@] + view_items(
                            items@.drop_first(),
                        ));
                        assert(items@.drop_first() =~= old_tail);
                        assert(view_items(items@) =~= seq![v@] + view_items(old_tail));
                    }
                    Some((items, p3))
                },
            }
        },
    }
}

/// Reads `n` consecutive key/value pairs at `pos`, as `dec_pairs` describes.
fn take_pairs(b: &[u8], pos: usize, n: u32) -> (r: Option<(Vec<(Vec<u8>, Value)>, usize)>)
    ensures
        match r {
            Some((pairs, p)) => dec_pairs(b@, pos as int, n as int) == Some((
                view_pairs(pairs@),
                p as int,
            )) && pos <= p <= b@.len(),
            None => dec_pairs(b@, pos as int, n as int) is None,
        },
    decreases b@.len() - pos, n as int, 1int,
{
    if pos > b.len() {
        return None;
    }
    if n == 0 {
        let pairs: Vec<(Vec<u8>, Value)> = Vec::new();
        assert(view_pairs(pairs@) =~= Seq::<(Seq<u8>, ValueModel)>::empty());
        return Some((pairs, pos));
    }
    match take_text(b, pos) {
        None => None,
        Some((k, p1)) => {
            match take_value(b, p1) {
                None => None,
                Some((v, p2)) => {
                    match take_pairs(b, p2, n - 1) {
                        None => None,
                        Some((tail, p3)) => {
                            let ghost old_tail = tail@;
                            let ghost kv = (k@, v@);
                            let mut pairs = tail;
                            pairs.insert(0, (k, v));
                            proof {
                                assert(view_pairs(pairs@) == seq![
                                    (pairs@[0].0@, pairs@[0].1@),
                                ] + view_pairs(pairs@.drop_first()));
                                assert(pairs@.drop_first() =~= old_tail);
                                assert(view_pairs(pairs@) =~= seq![kv] + view_pairs(old_tail));
                            }
                            Some((pairs, p3))
                        },
                    }
                },
            }
        },
    }
}

/// Rebuilds the message carried by a decoded value, if it has the shape of
/// one, as `value_to_msg` describes.
fn msg_of_value(v: Value) -> (r: Option<Msg>)
    ensures
        match r {
            Some(m) => value_to_msg(v@) == Some(m@),
            None => value_to_msg(v@) is None,
        },
{
    proof {
        lemma_value_view_ctor(v);
    }
    match v {
        Value::List(f) => {
            proof {
                lemma_view_items(f@);
            }
            let ghost fm = view_items(f@);
            if f.len() < 2 {
                return None;
            }
            proof {
                lemma_value_view_ctor(f@[0]);
                lemma_value_view_ctor(f@[1]);
                if f@.len() > 2 {
                    lemma_value_view_ctor(f@[2]);
                }
                if f@.len() > 3 {
                    lemma_value_view_ctor(f@[3]);
                }
                if f@.len() > 4 {
                    lemma_value_view_ctor(f@[4]);
                }
            }
            let code: u64 = match &f[0] {
                Value::Int(n) => *n,
                _ => {
                    return None;
                },
            };
            let len = f.len();
            let mut fields = f;
            if code == crate::msg::CODE_HELLO && len == 2 {
                match fields.remove(1) {
                    Value::Text(realm) => Some(Msg::Hello { realm }),
                    _ => None,
                }
            } else if code == crate::msg::CODE_WELCOME && len == 2 {
                match fields.remove(1) {
                    Value::Int(session_id) => Some(Msg::Welcome { session_id }),
                    _ => None,
                }
            } else if code == crate::msg::CODE_ABORT && len == 2 {
                match fields.remove(1) {
                    Value::Text(reason) => Some(Msg::Abort { reason }),
                    _ => None,
                }
            } else if code == crate::msg::CODE_SUBSCRIBE && len == 3 {
                match (fields.remove(2), fields.remove(1)) {
                    (Value::Text(topic), Value::Int(request_id)) => Some(
                        Msg::Subscribe { request_id, topic },
                    ),
                    _ => None,
                }
            } else if code == crate::msg::CODE_SUBSCRIBED && len == 3 {
                match (fields.remove(2), fields.remove(1)) {
                    (Value::Int(subscription_id), Value::Int(request_id)) => Some(
                        Msg::Subscribed { request_id, subscription_id },
                    ),
                    _ => None,
                }
            } else if code == crate::msg::CODE_UNSUBSCRIBE && len == 3 {
                match (fields.remove(2), fields.remove(1)) {
                    (Value::Int(subscription_id), Value::Int(request_id)) => Some(
                        Msg::Unsubscribe { request_id, subscription_id },
                    ),
                    _ => None,
                }
            } else if code == crate::msg::CODE_UNSUBSCRIBED && len == 2 {
                match fields.remove(1) {
                    Value::Int(request_id) => Some(Msg::Unsubscribed { request_id }),
                    _ => None,
                }
            } else if code == crate::msg::CODE_PUBLISH && len == 5 {
                match (fields.remove(4), fields.remove(3), fields.remove(2), fields.remove(1)) {
                    (
                        Value::Dict(kwargs),
                        Value::List(args),
                        Value::Text(topic),
                        Value::Int(request_id),
                    ) => Some(Msg::Publish { request_id, topic, args, kwargs }),
                    _ => None,
                }
            } else if code == crate::msg::CODE_EVENT && len == 5 {
                match (fields.remove(4), fields.remove(3), fields.remove(2), fields.remove(1)) {
                    (
                        Value::Dict(kwargs),
                        Value::List(args),
                        Value::Int(publication_id),
                        Value::Int(subscription_id),
                    ) => Some(Msg::Event { subscription_id, publication_id, args, kwargs }),
                    _ => None,
                }
            } else if code == crate::msg::CODE_ERROR && len == 3 {
                match (fields.remove(2), fields.remove(1)) {
                    (Value::Text(reason), Value::Int(request_id)) => Some(
                        Msg::ErrorReply { request_id, reason },
                    ),
                    _ => None,
                }
            } else if code == crate::msg::CODE_CALL && len == 5 {
                match (fields.remove(4), fields.remove(3), fields.remove(2), fields.remove(1)) {
                    (
                        Value::Dict(kwargs),
                        Value::List(args),
                        Value::Text(procedure),
                        Value::Int(request_id),
                    ) => Some(Msg::Call { request_id, procedure, args, kwargs }),
                    _ => None,
                }
            } else if code == crate::msg::CODE_RESULT && len == 4 {
                match (fields.remove(3), fields.remove(2), fields.remove(1)) {
                    (Value::Dict(kwargs), Value::List(args), Value::Int(request_id)) => Some(
                        Msg::CallResult { request_id, args, kwargs },
                    ),
                    _ => None,
                }
            } else {
                None
            }
        },
        _ => None,
    }
}

} // verus!
