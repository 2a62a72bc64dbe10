//! The compact binary wire format for payload values: its encoding and
//! decoding functions at the model level, and the round-trip law relating
//! them. The format is a fixed-width subset of a MessagePack-style grammar:
//! one tag byte, then fixed-width big-endian lengths and payloads.

use vstd::prelude::*;
use crate::bytes::{be32, be64, from_be32, from_be64};
use crate::value::{ValueModel, representable, representable_all, representable_pairs};

verus! {

pub const TAG_FALSE: u8 = 0xc2;
pub const TAG_TRUE: u8 = 0xc3;
pub const TAG_U64: u8 = 0xcf;
pub const TAG_STR: u8 = 0xdb;
pub const TAG_ARR: u8 = 0xdd;
pub const TAG_MAP: u8 = 0xdf;

/// The encoding of a text: tag, four-byte length, then the bytes themselves.
pub open spec fn enc_text(t: Seq<u8>) -> Seq<u8> {
    seq![TAG_STR] + be32(t.len() as u32) + t
}

/// The encoding of one value.
pub open spec fn enc_value(v: ValueModel) -> Seq<u8>
    decreases v, 0int,
{
    match v {
        ValueModel::Bool(b) => seq![if b { TAG_TRUE } else { TAG_FALSE }],
        ValueModel::Int(n) => seq![TAG_U64] + be64(n),
        ValueModel::Text(t) => enc_text(t),
        ValueModel::List(items) => seq![TAG_ARR] + be32(items.len() as u32) + enc_list(items),
        ValueModel::Dict(pairs) => seq![TAG_MAP] + be32(pairs.len() as u32) + enc_pairs(pairs),
    }
}

/// The encodings of the values of `items`, in order.
pub open spec fn enc_list(items: Seq<ValueModel>) -> Seq<u8>
    decreases items, 1int,
{
    if items.len() == 0 {
        Seq::empty()
    } else {
        enc_value(items[0]) + enc_list(items.drop_first())
    }
}

/// The encodings of the key/value pairs of `pairs`, in order.
pub open spec fn enc_pairs(pairs: Seq<(Seq<u8>, ValueModel)>) -> Seq<u8>
    decreases pairs, 1int,
{
    if pairs.len() == 0 {
        Seq::empty()
    } else {
        enc_text(pairs[0].0) + enc_value(pairs[0].1) + enc_pairs(pairs.drop_first())
    }
}

/// Decodes a text at `pos`: returns the bytes and the position after them.
pub open spec fn dec_text(s: Seq<u8>, pos: int) -> Option<(Seq<u8>, int)> {
    if 0 <= pos && pos + 5 <= s.len() && s[pos] == TAG_STR {
        let n = from_be32(s[pos + 1], s[pos + 2], s[pos + 3], s[pos + 4]) as int;
        if pos + 5 + n <= s.len() {
            Some((s.subrange(pos + 5, pos + 5 + n), pos + 5 + n))
        } else {
            None
        }
    } else {
        None
    }
}

/// Decodes one value at `pos`: returns the value and the position after it.
pub open spec fn dec_value(s: Seq<u8>, pos: int) -> Option<(ValueModel, int)>
    decreases s.len() - pos, 0int, 0int,
{
    if pos < 0 || pos >= s.len() {
        None
    } else {
        let tag = s[pos];
        if tag == TAG_FALSE {
            Some((ValueModel::Bool(false), pos + 1))
        } else if tag == TAG_TRUE {
            Some((ValueModel::Bool(true), pos + 1))
        } else if tag == TAG_U64 {
            if pos + 9 <= s.len() {
                Some((
                    ValueModel::Int(from_be64(
                        s[pos + 1], s[pos + 2], s[pos + 3], s[pos + 4],
                        s[pos + 5], s[pos + 6], s[pos + 7], s[pos + 8],
                    )),
                    pos + 9,
                ))
            } else {
                None
            }
        } else if tag == TAG_STR {
            match dec_text(s, pos) {
                Some((t, p)) => Some((ValueModel::Text(t), p)),
                None => None,
            }
        } else if tag == TAG_ARR {
            if pos + 5 <= s.len() {
                let n = from_be32(s[pos + 1], s[pos + 2], s[pos + 3], s[pos + 4]) as int;
                match dec_list(s, pos + 5, n) {
                    Some((items, p)) => Some((ValueModel::List(items), p)),
                    None => None,
                }
            } else {
                None
            }
        } else if tag == TAG_MAP {
            if pos + 5 <= s.len() {
                let n = from_be32(s[pos + 1], s[pos + 2], s[pos + 3], s[pos + 4]) as int;
                match dec_pairs(s, pos + 5, n) {
                    Some((pairs, p)) => Some((ValueModel::Dict(pairs), p)),
                    None => None,
                }
            } else {
                None
            }
        } else {
            None
        }
    }
}

/// Decodes `n` consecutive values starting at `pos`.
pub open spec fn dec_list(s: Seq<u8>, pos: int, n: int) -> Option<(Seq<ValueModel>, int)>
    decreases s.len() - pos, n, 1int,
{
    if pos < 0 || pos > s.len() {
        None
    } else if n <= 0 {
        Some((Seq::<ValueModel>::empty(), pos))
    } else {
        match dec_value(s, pos) {
            Some((v, p2)) => if p2 <= pos || p2 > s.len() {
                None
            } else {
                match dec_list(s, p2, n - 1) {
                    Some((tail, p3)) => Some((seq![v] + tail, p3)),
                    None => None,
                }
            },
            None => None,
        }
    }
}

/// Decodes `n` consecutive key/value pairs starting at `pos`.
pub open spec fn dec_pairs(s: Seq<u8>, pos: int, n: int) -> Option<
    (Seq<(Seq<u8>, ValueModel)>, int),
>
    decreases s.len() - pos, n, 1int,
{
    if pos < 0 || pos > s.len() {
        None
    } else if n <= 0 {
        Some((Seq::<(Seq<u8>, ValueModel)>::empty(), pos))
    } else {
        match dec_text(s, pos) {
            Some((k, p1)) => if p1 <= pos || p1 > s.len() {
                None
            } else {
                match dec_value(s, p1) {
                    Some((v, p2)) => if p2 <= p1 || p2 > s.len() {
                        None
                    } else {
                        match dec_pairs(s, p2, n - 1) {
                            Some((tail, p3)) => Some((seq![(k, v)] + tail, p3)),
                            None => None,
                        }
                    },
                    None => None,
                }
            },
            None => None,
        }
    }
}

/// Every encoding starts with its tag byte, so is at least one byte long.
pub proof fn lemma_enc_len(v: ValueModel)
    ensures
        enc_value(v).len() >= 1,
{
    match v {
        ValueModel::Bool(_) => {},
        ValueModel::Int(_) => {},
        ValueModel::Text(_) => {},
        ValueModel::List(_) => {},
        ValueModel::Dict(_) => {},
    }
}

/// A slice of `s` known to equal `a + b` splits into a slice equal to `a`
/// followed by one equal to `b`.
pub proof fn lemma_slice_parts(s: Seq<u8>, pos: int, a: Seq<u8>, b: Seq<u8>)
    requires
        0 <= pos,
        pos + a.len() + b.len() <= s.len(),
        s.subrange(pos, pos + a.len() + b.len()) == a + b,
    ensures
        s.subrange(pos, pos + a.len() as int) == a,
        s.subrange(pos + a.len() as int, pos + a.len() + b.len()) == b,
{
    let whole = s.subrange(pos, pos + a.len() + b.len());
    assert forall|i: int| 0 <= i < a.len() implies s.subrange(pos, pos + a.len() as int)[i]
        == a[i] by {
        assert(whole[i] == (a + b)[i]);
    }
    assert(s.subrange(pos, pos + a.len() as int) =~= a);
    assert forall|i: int| 0 <= i < b.len() implies s.subrange(
        pos + a.len() as int,
        pos + a.len() + b.len(),
    )[i] == b[i] by {
        assert(whole[a.len() + i] == (a + b)[a.len() + i]);
    }
    assert(s.subrange(pos + a.len() as int, pos + a.len() + b.len()) =~= b);
}

/// Each byte of a slice of `s` known to equal `e` is the matching byte of `e`.
pub proof fn lemma_slice_index(s: Seq<u8>, pos: int, e: Seq<u8>, i: int)
    requires
        0 <= pos,
        pos + e.len() <= s.len(),
        s.subrange(pos, pos + e.len() as int) == e,
        0 <= i < e.len(),
    ensures
        s[pos + i] == e[i],
{
    assert(e[i] == s.subrange(pos, pos + e.len() as int)[i]);
}

/// Round trip for one value: decoding at the start of its encoding yields
/// the value back and stops exactly after it, whatever bytes follow.
pub proof fn lemma_dec_enc_value(s: Seq<u8>, pos: int, v: ValueModel)
    requires
        representable(v),
        0 <= pos,
        pos + enc_value(v).len() <= s.len(),
        s.subrange(pos, pos + enc_value(v).len() as int) == enc_value(v),
    ensures
        dec_value(s, pos) == Some((v, pos + enc_value(v).len() as int)),
    decreases v,
{
    let e = enc_value(v);
    lemma_slice_index(s, pos, e, 0);
    match v {
        ValueModel::Bool(_) => {},
        ValueModel::Int(n) => {
            assert(e == seq![TAG_U64] + be64(n));
            lemma_slice_index(s, pos, e, 1);
            lemma_slice_index(s, pos, e, 2);
            lemma_slice_index(s, pos, e, 3);
            lemma_slice_index(s, pos, e, 4);
            lemma_slice_index(s, pos, e, 5);
            lemma_slice_index(s, pos, e, 6);
            lemma_slice_index(s, pos, e, 7);
            lemma_slice_index(s, pos, e, 8);
            assert(s[pos + 1] == be64(n)[0] && s[pos + 2] == be64(n)[1] && s[pos + 3]
                == be64(n)[2] && s[pos + 4] == be64(n)[3] && s[pos + 5] == be64(n)[4] && s[pos
                + 6] == be64(n)[5] && s[pos + 7] == be64(n)[6] && s[pos + 8] == be64(n)[7]);
            crate::bytes::lemma_be64_round(n);
        },
        ValueModel::Text(t) => {
            lemma_dec_enc_text(s, pos, t);
        },
        ValueModel::List(items) => {
            let header = seq![TAG_ARR] + be32(items.len() as u32);
            let body = enc_list(items);
            assert(e == header + body);
            lemma_slice_parts(s, pos, header, body);
            lemma_slice_index(s, pos, header, 1);
            lemma_slice_index(s, pos, header, 2);
            lemma_slice_index(s, pos, header, 3);
            lemma_slice_index(s, pos, header, 4);
            assert(s[pos + 1] == be32(items.len() as u32)[0] && s[pos + 2] == be32(items.len()
                as u32)[1] && s[pos + 3] == be32(items.len() as u32)[2] && s[pos + 4]
                == be32(items.len() as u32)[3]);
            crate::bytes::lemma_be32_round(items.len() as u32);
            assert(from_be32(s[pos + 1], s[pos + 2], s[pos + 3], s[pos + 4]) as int
                == items.len());
            lemma_dec_enc_list(s, pos + 5, items);
        },
        ValueModel::Dict(pairs) => {
            let header = seq![TAG_MAP] + be32(pairs.len() as u32);
            let body = enc_pairs(pairs);
            assert(e == header + body);
            lemma_slice_parts(s, pos, header, body);
            lemma_slice_index(s, pos, header, 1);
            lemma_slice_index(s, pos, header, 2);
            lemma_slice_index(s, pos, header, 3);
            lemma_slice_index(s, pos, header, 4);
            assert(s[pos + 1] == be32(pairs.len() as u32)[0] && s[pos + 2] == be32(pairs.len()
                as u32)[1] && s[pos + 3] == be32(pairs.len() as u32)[2] && s[pos + 4]
                == be32(pairs.len() as u32)[3]);
            crate::bytes::lemma_be32_round(pairs.len() as u32);
            assert(from_be32(s[pos + 1], s[pos + 2], s[pos + 3], s[pos + 4]) as int
                == pairs.len());
            lemma_dec_enc_pairs(s, pos + 5, pairs);
        },
    }
}

/// Round trip for a text: decoding at the start of its encoding yields the
/// text back and stops exactly after it.
pub proof fn lemma_dec_enc_text(s: Seq<u8>, pos: int, t: Seq<u8>)
    requires
        t.len() < 0x1_0000_0000,
        0 <= pos,
        pos + enc_text(t).len() <= s.len(),
        s.subrange(pos, pos + enc_text(t).len() as int) == enc_text(t),
    ensures
        dec_text(s, pos) == Some((t, pos + enc_text(t).len() as int)),
{
    let e = enc_text(t);
    let header = seq![TAG_STR] + be32(t.len() as u32);
    assert(e == header + t);
    lemma_slice_parts(s, pos, header, t);
    lemma_slice_index(s, pos, e, 0);
    lemma_slice_index(s, pos, header, 1);
    lemma_slice_index(s, pos, header, 2);
    lemma_slice_index(s, pos, header, 3);
    lemma_slice_index(s, pos, header, 4);
    assert(s[pos + 1] == be32(t.len() as u32)[0] && s[pos + 2] == be32(t.len() as u32)[1]
        && s[pos + 3] == be32(t.len() as u32)[2] && s[pos + 4] == be32(t.len() as u32)[3]);
    crate::bytes::lemma_be32_round(t.len() as u32);
    assert(from_be32(s[pos + 1], s[pos + 2], s[pos + 3], s[pos + 4]) as int == t.len());
    assert(s.subrange(pos + 5, pos + 5 + t.len() as int) == t);
}

/// Round trip for a run of values: decoding as many values as were encoded
/// yields them back, in order.
pub proof fn lemma_dec_enc_list(s: Seq<u8>, pos: int, items: Seq<ValueModel>)
    requires
        representable_all(items),
        0 <= pos,
        pos + enc_list(items).len() <= s.len(),
        s.subrange(pos, pos + enc_list(items).len() as int) == enc_list(items),
    ensures
        dec_list(s, pos, items.len() as int) == Some((
            items,
            pos + enc_list(items).len() as int,
        )),
    decreases items,
{
    if items.len() == 0 {
        assert(items =~= Seq::<ValueModel>::empty());
    } else {
        let hd = items[0];
        let tl = items.drop_first();
        let eh = enc_value(hd);
        let et = enc_list(tl);
        assert(enc_list(items) == eh + et);
        lemma_slice_parts(s, pos, eh, et);
        assert(representable(hd));
        lemma_dec_enc_value(s, pos, hd);
        lemma_enc_len(hd);
        let p2 = pos + eh.len() as int;
        assert forall|i: int| 0 <= i < tl.len() implies representable(#[trigger] tl[i]) by {
            assert(tl[i] == items[i + 1]);
        }
        lemma_dec_enc_list(s, p2, tl);
        assert(seq![hd] + tl =~= items);
    }
}

/// A successful decode always makes progress and stays inside the input.
pub proof fn lemma_dec_value_bounds(s: Seq<u8>, pos: int)
    ensures
        dec_value(s, pos) matches Some(r) ==> pos < r.1 <= s.len(),
    decreases s.len() - pos, 0int, 0int,
{
    if 0 <= pos < s.len() {
        let tag = s[pos];
        if tag == TAG_ARR || tag == TAG_MAP {
            if pos + 5 <= s.len() {
                let n = from_be32(s[pos + 1], s[pos + 2], s[pos + 3], s[pos + 4]) as int;
                if tag == TAG_ARR {
                    lemma_dec_list_bounds(s, pos + 5, n);
                } else {
                    lemma_dec_pairs_bounds(s, pos + 5, n);
                }
            }
        }
    }
}

/// A successful run decode never moves backwards nor outside the input.
pub proof fn lemma_dec_list_bounds(s: Seq<u8>, pos: int, n: int)
    ensures
        dec_list(s, pos, n) matches Some(r) ==> pos <= r.1 <= s.len(),
    decreases s.len() - pos, n, 1int,
{
    if 0 <= pos <= s.len() && n > 0 {
        lemma_dec_value_bounds(s, pos);
        match dec_value(s, pos) {
            Some((v, p2)) => {
                if pos < p2 <= s.len() {
                    lemma_dec_list_bounds(s, p2, n - 1);
                }
            },
            None => {},
        }
    }
}

/// A successful pair-run decode never moves backwards nor outside the input.
pub proof fn lemma_dec_pairs_bounds(s: Seq<u8>, pos: int, n: int)
    ensures
        dec_pairs(s, pos, n) matches Some(r) ==> pos <= r.1 <= s.len(),
    decreases s.len() - pos, n, 1int,
{
    if 0 <= pos <= s.len() && n > 0 {
        match dec_text(s, pos) {
            Some((k, p1)) => {
                if pos < p1 <= s.len() {
                    lemma_dec_value_bounds(s, p1);
                    match dec_value(s, p1) {
                        Some((v, p2)) => {
                            if p1 < p2 <= s.len() {
                                lemma_dec_pairs_bounds(s, p2, n - 1);
                            }
                        },
                        None => {},
                    }
                }
            },
            None => {},
        }
    }
}

/// Decoding reads only the bytes it consumes: on any input that carries the
/// same bytes over the consumed range, the decode comes out the same.
pub proof fn lemma_dec_value_local(s1: Seq<u8>, s2: Seq<u8>, pos: int)
    requires
        0 <= pos,
        dec_value(s1, pos) matches Some(r) && r.1 <= s2.len() && s1.subrange(pos, r.1)
            == s2.subrange(pos, r.1),
    ensures
        dec_value(s2, pos) == dec_value(s1, pos),
    decreases s1.len() - pos, 0int, 0int,
{
    let (v, p) = dec_value(s1, pos)->Some_0;
    lemma_dec_value_bounds(s1, pos);
    assert forall|i: int| pos <= i < p implies s2[i] == s1[i] by {
        assert(s1.subrange(pos, p)[i - pos] == s2.subrange(pos, p)[i - pos]);
    }
    let tag = s1[pos];
    if tag == TAG_STR {
        assert(dec_text(s2, pos) == dec_text(s1, pos)) by {
            lemma_dec_text_local(s1, s2, pos);
        }
    } else if tag == TAG_ARR || tag == TAG_MAP {
        let n = from_be32(s1[pos + 1], s1[pos + 2], s1[pos + 3], s1[pos + 4]) as int;
        if tag == TAG_ARR {
            match dec_list(s1, pos + 5, n) {
                Some((items, p3)) => {
                    lemma_dec_list_bounds(s1, pos + 5, n);
                    assert(s1.subrange(pos + 5, p3) =~= s2.subrange(pos + 5, p3));
                    lemma_dec_list_local(s1, s2, pos + 5, n);
                },
                None => {},
            }
        } else {
            match dec_pairs(s1, pos + 5, n) {
                Some((pairs, p3)) => {
                    lemma_dec_pairs_bounds(s1, pos + 5, n);
                    assert(s1.subrange(pos + 5, p3) =~= s2.subrange(pos + 5, p3));
                    lemma_dec_pairs_local(s1, s2, pos + 5, n);
                },
                None => {},
            }
        }
    }
}

/// Text decoding reads only the bytes it consumes.
proof fn lemma_dec_text_local(s1: Seq<u8>, s2: Seq<u8>, pos: int)
    requires
        0 <= pos,
        dec_text(s1, pos) matches Some(r) && r.1 <= s2.len() && s1.subrange(pos, r.1)
            == s2.subrange(pos, r.1),
    ensures
        dec_text(s2, pos) == dec_text(s1, pos),
{
    let (t, p) = dec_text(s1, pos)->Some_0;
    assert forall|i: int| pos <= i < p implies s2[i] == s1[i] by {
        assert(s1.subrange(pos, p)[i - pos] == s2.subrange(pos, p)[i - pos]);
    }
    assert(s2.subrange(pos + 5, p) =~= s1.subrange(pos + 5, p));
}

/// Run decoding reads only the bytes it consumes.
proof fn lemma_dec_list_local(s1: Seq<u8>, s2: Seq<u8>, pos: int, n: int)
    requires
        0 <= pos,
        dec_list(s1, pos, n) matches Some(r) && r.1 <= s2.len() && s1.subrange(pos, r.1)
            == s2.subrange(pos, r.1),
        pos <= s2.len(),
    ensures
        dec_list(s2, pos, n) == dec_list(s1, pos, n),
    decreases s1.len() - pos, n, 1int,
{
    if n <= 0 {
    } else {
        let (items, p3) = dec_list(s1, pos, n)->Some_0;
        let (v, p2) = dec_value(s1, pos)->Some_0;
        lemma_dec_value_bounds(s1, pos);
        lemma_dec_list_bounds(s1, p2, n - 1);
        assert(s1.subrange(pos, p2) =~= s1.subrange(pos, p3).subrange(0, p2 - pos));
        assert(s2.subrange(pos, p2) =~= s2.subrange(pos, p3).subrange(0, p2 - pos));
        lemma_dec_value_local(s1, s2, pos);
        assert(s1.subrange(p2, p3) =~= s1.subrange(pos, p3).subrange(p2 - pos, p3 - pos));
        assert(s2.subrange(p2, p3) =~= s2.subrange(pos, p3).subrange(p2 - pos, p3 - pos));
        lemma_dec_list_local(s1, s2, p2, n - 1);
    }
}

/// Pair-run decoding reads only the bytes it consumes.
proof fn lemma_dec_pairs_local(s1: Seq<u8>, s2: Seq<u8>, pos: int, n: int)
    requires
        0 <= pos,
        dec_pairs(s1, pos, n) matches Some(r) && r.1 <= s2.len() && s1.subrange(pos, r.1)
            == s2.subrange(pos, r.1),
        pos <= s2.len(),
    ensures
        dec_pairs(s2, pos, n) == dec_pairs(s1, pos, n),
    decreases s1.len() - pos, n, 1int,
{
    if n <= 0 {
    } else {
        let (pairs, p3) = dec_pairs(s1, pos, n)->Some_0;
        let (k, p1) = dec_text(s1, pos)->Some_0;
        let (v, p2) = dec_value(s1, p1)->Some_0;
        lemma_dec_value_bounds(s1, p1);
        lemma_dec_pairs_bounds(s1, p2, n - 1);
        assert(s1.subrange(pos, p1) =~= s1.subrange(pos, p3).subrange(0, p1 - pos));
        assert(s2.subrange(pos, p1) =~= s2.subrange(pos, p3).subrange(0, p1 - pos));
        lemma_dec_text_local(s1, s2, pos);
        assert(s1.subrange(p1, p2) =~= s1.subrange(pos, p3).subrange(p1 - pos, p2 - pos));
        assert(s2.subrange(p1, p2) =~= s2.subrange(pos, p3).subrange(p1 - pos, p2 - pos));
        lemma_dec_value_local(s1, s2, p1);
        assert(s1.subrange(p2, p3) =~= s1.subrange(pos, p3).subrange(p2 - pos, p3 - pos));
        assert(s2.subrange(p2, p3) =~= s2.subrange(pos, p3).subrange(p2 - pos, p3 - pos));
        lemma_dec_pairs_local(s1, s2, p2, n - 1);
    }
}

/// Round trip for a run of key/value pairs.
pub proof fn lemma_dec_enc_pairs(s: Seq<u8>, pos: int, pairs: Seq<(Seq<u8>, ValueModel)>)
    requires
        representable_pairs(pairs),
        0 <= pos,
        pos + enc_pairs(pairs).len() <= s.len(),
        s.subrange(pos, pos + enc_pairs(pairs).len() as int) == enc_pairs(pairs),
    ensures
        dec_pairs(s, pos, pairs.len() as int) == Some((
            pairs,
            pos + enc_pairs(pairs).len() as int,
        )),
    decreases pairs,
{
    if pairs.len() == 0 {
        assert(pairs =~= Seq::<(Seq<u8>, ValueModel)>::empty());
    } else {
        let k = pairs[0].0;
        let hd = pairs[0].1;
        let tl = pairs.drop_first();
        let ek = enc_text(k);
        let eh = enc_value(hd);
        let et = enc_pairs(tl);
        assert(enc_pairs(pairs) == ek + (eh + et)) by {
            assert(enc_pairs(pairs) == ek + eh + et);
            assert(ek + eh + et =~= ek + (eh + et));
        }
        lemma_slice_parts(s, pos, ek, eh + et);
        let p1 = pos + ek.len() as int;
        lemma_slice_parts(s, p1, eh, et);
        assert(k.len() < 0x1_0000_0000 && representable(hd));
        lemma_dec_enc_text(s, pos, k);
        lemma_dec_enc_value(s, p1, hd);
        lemma_enc_len(hd);
        let p2 = p1 + eh.len() as int;
        assert forall|i: int| 0 <= i < tl.len() implies (#[trigger] tl[i]).0.len()
            < 0x1_0000_0000 && representable(tl[i].1) by {
            assert(tl[i] == pairs[i + 1]);
        }
        lemma_dec_enc_pairs(s, p2, tl);
        assert(seq![(k, hd)] + tl =~= pairs);
    }
}

} // verus!
