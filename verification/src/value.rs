//! The loosely-typed values carried by protocol messages: payload arguments
//! are ordered sequences of such values, named arguments map text keys to them.

use vstd::prelude::*;

verus! {

/// The mathematical model of a payload value. Text is a sequence of bytes
/// (the UTF-8 encoding of the text); lists and dictionaries nest arbitrarily.
pub enum ValueModel {
    Bool(bool),
    Int(u64),
    Text(Seq<u8>),
    List(Seq<ValueModel>),
    Dict(Seq<(Seq<u8>, ValueModel)>),
}

/// A payload value as the executable code holds it.
#[derive(Debug, PartialEq, Eq)]
pub enum Value {
    Bool(bool),
    Int(u64),
    Text(Vec<u8>),
    List(Vec<Value>),
    Dict(Vec<(Vec<u8>, Value)>),
}

/// The models of the values of `s`, in order.
pub open spec fn view_items(s: Seq<Value>) -> Seq<ValueModel>
    decreases s,
{
    if s.len() == 0 {
        Seq::<ValueModel>::empty()
    } else {
        seq![s[0]@] + view_items(s.drop_first())
    }
}

/// The models of the key/value pairs of `s`, in order.
pub open spec fn view_pairs(s: Seq<(Vec<u8>, Value)>) -> Seq<(Seq<u8>, ValueModel)>
    decreases s,
{
    if s.len() == 0 {
        Seq::<(Seq<u8>, ValueModel)>::empty()
    } else {
        seq![(s[0].0@, s[0].1@)] + view_pairs(s.drop_first())
    }
}

impl View for Value {
    type V = ValueModel;

    open spec fn view(&self) -> ValueModel
        decreases self,
    {
        match self {
            Value::Bool(b) => ValueModel::Bool(*b),
            Value::Int(n) => ValueModel::Int(*n),
            Value::Text(t) => ValueModel::Text(t@),
            Value::List(items) => ValueModel::List(view_items(items@)),
            Value::Dict(pairs) => ValueModel::Dict(view_pairs(pairs@)),
        }
    }
}

/// `view_items` maps each element to its model, keeping length and order.
pub proof fn lemma_view_items(s: Seq<Value>)
    ensures
        view_items(s).len() == s.len(),
        forall|i: int| 0 <= i < s.len() ==> view_items(s)[i] == s[i]@,
    decreases s,
{
    if s.len() > 0 {
        lemma_view_items(s.drop_first());
        assert(view_items(s) == seq![s[0]@] + view_items(s.drop_first()));
        assert forall|i: int| 0 <= i < s.len() implies view_items(s)[i] == s[i]@ by {
            if i > 0 {
                assert(s.drop_first()[i - 1] == s[i]);
                assert(view_items(s)[i] == view_items(s.drop_first())[i - 1]);
            }
        }
    }
}

/// `view_pairs` maps each pair to its model, keeping length and order.
pub proof fn lemma_view_pairs(s: Seq<(Vec<u8>, Value)>)
    ensures
        view_pairs(s).len() == s.len(),
        forall|i: int| 0 <= i < s.len() ==> view_pairs(s)[i] == (s[i].0@, s[i].1@),
    decreases s,
{
    if s.len() > 0 {
        lemma_view_pairs(s.drop_first());
        assert(view_pairs(s) == seq![(s[0].0@, s[0].1@)] + view_pairs(s.drop_first()));
        assert forall|i: int| 0 <= i < s.len() implies view_pairs(s)[i] == (s[i].0@, s[i].1@) by {
            if i > 0 {
                assert(s.drop_first()[i - 1] == s[i]);
                assert(view_pairs(s)[i] == view_pairs(s.drop_first())[i - 1]);
            }
        }
    }
}

/// Whether the wire format can carry `v`: every text, list and dictionary
/// in it is shorter than 2^32.
pub open spec fn representable(v: ValueModel) -> bool
    decreases v,
{
    match v {
        ValueModel::Bool(_) => true,
        ValueModel::Int(_) => true,
        ValueModel::Text(t) => t.len() < 0x1_0000_0000,
        ValueModel::List(items) => items.len() < 0x1_0000_0000 && (forall|i: int|
            0 <= i < items.len() ==> representable(#[trigger] items[i])),
        ValueModel::Dict(pairs) => pairs.len() < 0x1_0000_0000 && (forall|i: int|
            0 <= i < pairs.len() ==> (#[trigger] pairs[i]).0.len() < 0x1_0000_0000
                && representable(pairs[i].1)),
    }
}

/// Whether the wire format can carry every value of `items`.
pub open spec fn representable_all(items: Seq<ValueModel>) -> bool {
    forall|i: int| 0 <= i < items.len() ==> representable(#[trigger] items[i])
}

/// Whether the wire format can carry every key and value of `pairs`.
pub open spec fn representable_pairs(pairs: Seq<(Seq<u8>, ValueModel)>) -> bool {
    forall|i: int| 0 <= i < pairs.len() ==> (#[trigger] pairs[i]).0.len() < 0x1_0000_0000
        && representable(pairs[i].1)
}

} // verus!
