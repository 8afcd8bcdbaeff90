//! The executable encoder: builds the byte sequence the specification
//! describes, and succeeds exactly on the values the specification calls
//! encodable.

use vstd::prelude::*;

use crate::codec::{
    enc_bytes_size, enc_dict, enc_elems, enc_entries, enc_int, enc_int_list, enc_int_list_val,
    enc_node, enc_node_list, enc_nodes, enc_path, enc_rel, enc_size, enc_str, enc_str_list,
    enc_str_list_val, enc_unbound, enc_unbound_list, enc_unbounds, enc_val, encodable_elems,
    encodable_entries, encodable_node, encodable_nodes, encodable_unbound, encodable_unbounds,
    encodable_val, str_fits, MARKER_BYTES_16, MARKER_BYTES_32, MARKER_BYTES_8, MARKER_FALSE,
    MARKER_FLOAT, MARKER_INT_16, MARKER_INT_32, MARKER_INT_64, MARKER_INT_8, MARKER_LIST_16,
    MARKER_LIST_32, MARKER_LIST_8, MARKER_MAP_16, MARKER_MAP_32, MARKER_MAP_8, MARKER_NULL,
    MARKER_STRING_16, MARKER_STRING_32, MARKER_STRING_8, MARKER_TINY_LIST, MARKER_TINY_MAP,
    MARKER_TINY_STRING, MARKER_TINY_STRUCT, MARKER_TRUE, SIG_DATE, SIG_NODE, SIG_PATH,
    SIG_RELATIONSHIP, SIG_TIME, SIG_UNBOUND_RELATIONSHIP,
};
use crate::error::Error;
use crate::value::{
    entry_models, lemma_entry_models_index, lemma_entry_models_len, lemma_node_models_index,
    lemma_node_models_len, lemma_unbound_models_index, lemma_unbound_models_len,
    lemma_val_models_index, lemma_val_models_len, node_models, str_models, unbound_models,
    val_models, BVal, Node, Path, Relationship, UnboundRelationship, Value,
};
use crate::wire::{push_be2, push_be4, push_be8};
use vstd::utf8::encode_utf8;

verus! {

broadcast use {
    vstd::std_specs::vec::axiom_vec_index_decreases,
    lemma_val_models_len,
    lemma_val_models_index,
    lemma_entry_models_len,
    lemma_entry_models_index,
    lemma_node_models_len,
    lemma_node_models_index,
    lemma_unbound_models_len,
    lemma_unbound_models_index,
};

/// Splitting a sequence splits the encodings of its values.
proof fn lemma_enc_elems_concat(a: Seq<BVal>, b: Seq<BVal>)
    ensures
        enc_elems(a + b) == enc_elems(a) + enc_elems(b),
    decreases a,
{
    if a.len() == 0 {
        assert(a + b =~= b);
        assert(enc_elems(a) + enc_elems(b) =~= enc_elems(b));
    } else {
        assert((a + b).drop_first() =~= a.drop_first() + b);
        lemma_enc_elems_concat(a.drop_first(), b);
        assert(enc_val((a + b)[0]) + (enc_elems(a.drop_first()) + enc_elems(b)) =~= (enc_val(a[0])
            + enc_elems(a.drop_first())) + enc_elems(b));
    }
}

/// Splitting a sequence splits the encodings of its entries.
proof fn lemma_enc_entries_concat(a: Seq<(Seq<char>, BVal)>, b: Seq<(Seq<char>, BVal)>)
    ensures
        enc_entries(a + b) == enc_entries(a) + enc_entries(b),
    decreases a,
{
    if a.len() == 0 {
        assert(a + b =~= b);
        assert(enc_entries(a) + enc_entries(b) =~= enc_entries(b));
    } else {
        assert((a + b).drop_first() =~= a.drop_first() + b);
        lemma_enc_entries_concat(a.drop_first(), b);
        assert(enc_str((a + b)[0].0) + enc_val((a + b)[0].1) + (enc_entries(a.drop_first())
            + enc_entries(b)) =~= (enc_str(a[0].0) + enc_val(a[0].1) + enc_entries(
            a.drop_first(),
        )) + enc_entries(b));
    }
}

/// Splitting a sequence splits the encodings of its strings.
proof fn lemma_enc_str_list_concat(a: Seq<Seq<char>>, b: Seq<Seq<char>>)
    ensures
        enc_str_list(a + b) == enc_str_list(a) + enc_str_list(b),
    decreases a,
{
    if a.len() == 0 {
        assert(a + b =~= b);
        assert(enc_str_list(a) + enc_str_list(b) =~= enc_str_list(b));
    } else {
        assert((a + b).drop_first() =~= a.drop_first() + b);
        lemma_enc_str_list_concat(a.drop_first(), b);
        assert(enc_str((a + b)[0]) + (enc_str_list(a.drop_first()) + enc_str_list(b)) =~= (
        enc_str(a[0]) + enc_str_list(a.drop_first())) + enc_str_list(b));
    }
}

/// Splitting a sequence splits the encodings of its integers.
proof fn lemma_enc_int_list_concat(a: Seq<i64>, b: Seq<i64>)
    ensures
        enc_int_list(a + b) == enc_int_list(a) + enc_int_list(b),
    decreases a,
{
    if a.len() == 0 {
        assert(a + b =~= b);
        assert(enc_int_list(a) + enc_int_list(b) =~= enc_int_list(b));
    } else {
        assert((a + b).drop_first() =~= a.drop_first() + b);
        lemma_enc_int_list_concat(a.drop_first(), b);
        assert(enc_int((a + b)[0]) + (enc_int_list(a.drop_first()) + enc_int_list(b)) =~= (
        enc_int(a[0]) + enc_int_list(a.drop_first())) + enc_int_list(b));
    }
}

/// Splitting a sequence splits the encodings of its nodes.
proof fn lemma_enc_nodes_concat(a: Seq<crate::value::NodeM>, b: Seq<crate::value::NodeM>)
    ensures
        enc_nodes(a + b) == enc_nodes(a) + enc_nodes(b),
    decreases a,
{
    if a.len() == 0 {
        assert(a + b =~= b);
        assert(enc_nodes(a) + enc_nodes(b) =~= enc_nodes(b));
    } else {
        assert((a + b).drop_first() =~= a.drop_first() + b);
        lemma_enc_nodes_concat(a.drop_first(), b);
        assert(enc_node((a + b)[0]) + (enc_nodes(a.drop_first()) + enc_nodes(b)) =~= (enc_node(
            a[0],
        ) + enc_nodes(a.drop_first())) + enc_nodes(b));
    }
}

/// Splitting a sequence splits the encodings of its unbound relationships.
proof fn lemma_enc_unbounds_concat(
    a: Seq<crate::value::UnboundRelM>,
    b: Seq<crate::value::UnboundRelM>,
)
    ensures
        enc_unbounds(a + b) == enc_unbounds(a) + enc_unbounds(b),
    decreases a,
{
    if a.len() == 0 {
        assert(a + b =~= b);
        assert(enc_unbounds(a) + enc_unbounds(b) =~= enc_unbounds(b));
    } else {
        assert((a + b).drop_first() =~= a.drop_first() + b);
        lemma_enc_unbounds_concat(a.drop_first(), b);
        assert(enc_unbound((a + b)[0]) + (enc_unbounds(a.drop_first()) + enc_unbounds(b)) =~= (
        enc_unbound(a[0]) + enc_unbounds(a.drop_first())) + enc_unbounds(b));
    }
}

/// Appends the smallest-width encoding of `n`.
pub fn encode_int_into(n: i64, out: &mut Vec<u8>)
    ensures
        final(out)@ == old(out)@ + enc_int(n),
{
    if -16 <= n && n <= 127 {
        out.push(#[verifier::truncate] (n as u8));
        assert(out@ =~= old(out)@ + enc_int(n));
    } else if -128 <= n && n < -16 {
        out.push(MARKER_INT_8);
        out.push(#[verifier::truncate] (n as u8));
        assert(out@ =~= old(out)@ + enc_int(n));
    } else if -0x8000 <= n && n <= 0x7fff {
        out.push(MARKER_INT_16);
        push_be2(out, #[verifier::truncate] (n as u16));
        assert(out@ =~= old(out)@ + enc_int(n));
    } else if -0x8000_0000 <= n && n <= 0x7fff_ffff {
        out.push(MARKER_INT_32);
        push_be4(out, #[verifier::truncate] (n as u32));
        assert(out@ =~= old(out)@ + enc_int(n));
    } else {
        out.push(MARKER_INT_64);
        push_be8(out, #[verifier::truncate] (n as u64));
        assert(out@ =~= old(out)@ + enc_int(n));
    }
}

/// Appends the size header of a container with a tiny form.
fn encode_size_into(tiny_base: u8, m8: u8, m16: u8, m32: u8, len: usize, out: &mut Vec<u8>)
    requires
        len <= 0xffff_ffff,
        tiny_base == MARKER_TINY_STRING || tiny_base == MARKER_TINY_LIST || tiny_base
            == MARKER_TINY_MAP,
    ensures
        final(out)@ == old(out)@ + enc_size(tiny_base, m8, m16, m32, len as nat),
{
    if len <= 15 {
        out.push(tiny_base + len as u8);
        assert(out@ =~= old(out)@ + enc_size(tiny_base, m8, m16, m32, len as nat));
    } else if len <= 0xff {
        out.push(m8);
        out.push(len as u8);
        assert(out@ =~= old(out)@ + enc_size(tiny_base, m8, m16, m32, len as nat));
    } else if len <= 0xffff {
        out.push(m16);
        push_be2(out, len as u16);
        assert(out@ =~= old(out)@ + enc_size(tiny_base, m8, m16, m32, len as nat));
    } else {
        out.push(m32);
        push_be4(out, len as u32);
        assert(out@ =~= old(out)@ + enc_size(tiny_base, m8, m16, m32, len as nat));
    }
}

/// Appends the encoding of a string; fails only when its UTF-8 form
/// exceeds the widest length form.
pub fn encode_string_into(s: &str, out: &mut Vec<u8>) -> (r: Result<(), Error>)
    ensures
        r is Ok ==> final(out)@ == old(out)@ + enc_str(s@),
        r is Ok <==> str_fits(s@),
        r is Err ==> r->Err_0 == Error::EncoderOverflow,
{
    let bs = s.as_bytes();
    if bs.len() as u64 > 0xffff_ffffu64 {
        return Err(Error::EncoderOverflow);
    }
    encode_size_into(MARKER_TINY_STRING, MARKER_STRING_8, MARKER_STRING_16, MARKER_STRING_32,
        bs.len(), out);
    out.extend_from_slice(bs);
    assert(out@ =~= old(out)@ + enc_str(s@));
    Ok(())
}

/// Appends the encoded entries of a map in order, after its size header.
pub(crate) fn encode_dict_into(es: &Vec<(String, Value)>, out: &mut Vec<u8>) -> (r: Result<(), Error>)
    ensures
        r is Ok ==> final(out)@ == old(out)@ + enc_dict(entry_models(es@)),
        r is Ok <==> es@.len() <= 0xffff_ffff && encodable_entries(entry_models(es@)),
        r is Err ==> r->Err_0 == Error::EncoderOverflow,
    decreases es, 1int,
{
    let ghost m = entry_models(es@);
    if es.len() as u64 > 0xffff_ffffu64 {
        return Err(Error::EncoderOverflow);
    }
    encode_size_into(MARKER_TINY_MAP, MARKER_MAP_8, MARKER_MAP_16, MARKER_MAP_32, es.len(), out);
    let ghost base = out@;
    let n = es.len();
    let mut i: usize = 0;
    while i < n
        invariant
            n == es@.len(),
            m == entry_models(es@),
            m.len() == n,
            i <= n,
            out@ == base + enc_entries(m.take(i as int)),
            forall|j: int| 0 <= j < i ==> str_fits((#[trigger] m[j]).0) && encodable_val(m[j].1),
        decreases n - i,
    {
        let ghost out_before = out@;
        match encode_string_into(es[i].0.as_str(), out) {
            Ok(()) => {}
            Err(e) => {
                proof {
                    assert(m[i as int].0 == es@[i as int].0@);
                    assert(!str_fits(m[i as int].0));
                    assert(!encodable_entries(m));
                }
                return Err(Error::EncoderOverflow);
            }
        }
        match encode_value_into(&es[i].1, out) {
            Ok(()) => {}
            Err(e) => {
                proof {
                    assert(m[i as int].1 == es@[i as int].1.model());
                    assert(!encodable_val(m[i as int].1));
                    assert(!encodable_entries(m));
                }
                return Err(Error::EncoderOverflow);
            }
        }
        proof {
            assert(m.take(i + 1) =~= m.take(i as int) + seq![m[i as int]]);
            lemma_enc_entries_concat(m.take(i as int), seq![m[i as int]]);
            assert(seq![m[i as int]].drop_first() =~= Seq::<(Seq<char>, BVal)>::empty());
            assert(enc_entries(seq![m[i as int]]) =~= enc_str(m[i as int].0) + enc_val(
                m[i as int].1,
            ) + enc_entries(Seq::empty()));
            assert(out@ =~= base + enc_entries(m.take(i + 1)));
        }
        i += 1;
    }
    proof {
        assert(m.take(n as int) =~= m);
        assert(encodable_entries(m));
    }
    Ok(())
}

/// Appends the encoding of a list of strings, as used for node labels.
fn encode_str_list_into(ls: &Vec<String>, out: &mut Vec<u8>) -> (r: Result<(), Error>)
    ensures
        r is Ok ==> final(out)@ == old(out)@ + enc_str_list_val(str_models(ls@)),
        r is Ok <==> ls@.len() <= 0xffff_ffff && (forall|i: int|
            0 <= i < ls@.len() ==> str_fits(#[trigger] str_models(ls@)[i])),
        r is Err ==> r->Err_0 == Error::EncoderOverflow,
{
    let ghost m = str_models(ls@);
    if ls.len() as u64 > 0xffff_ffffu64 {
        return Err(Error::EncoderOverflow);
    }
    encode_size_into(MARKER_TINY_LIST, MARKER_LIST_8, MARKER_LIST_16, MARKER_LIST_32, ls.len(),
        out);
    let ghost base = out@;
    let n = ls.len();
    let mut i: usize = 0;
    while i < n
        invariant
            n == ls@.len(),
            m == str_models(ls@),
            m.len() == n,
            i <= n,
            out@ == base + enc_str_list(m.take(i as int)),
            forall|j: int| 0 <= j < i ==> str_fits(#[trigger] m[j]),
        decreases n - i,
    {
        match encode_string_into(ls[i].as_str(), out) {
            Ok(()) => {}
            Err(e) => {
                proof {
                    assert(m[i as int] == ls@[i as int]@);
                    assert(!str_fits(m[i as int]));
                }
                return Err(Error::EncoderOverflow);
            }
        }
        proof {
            assert(m.take(i + 1) =~= m.take(i as int) + seq![m[i as int]]);
            lemma_enc_str_list_concat(m.take(i as int), seq![m[i as int]]);
            assert(seq![m[i as int]].drop_first() =~= Seq::<Seq<char>>::empty());
            assert(enc_str_list(seq![m[i as int]]) =~= enc_str(m[i as int]) + enc_str_list(
                Seq::empty(),
            ));
            assert(out@ =~= base + enc_str_list(m.take(i + 1)));
        }
        i += 1;
    }
    proof {
        assert(m.take(n as int) =~= m);
    }
    Ok(())
}

/// Appends the encoding of a list of integers.
fn encode_int_list_into(ns: &Vec<i64>, out: &mut Vec<u8>) -> (r: Result<(), Error>)
    ensures
        r is Ok ==> final(out)@ == old(out)@ + enc_int_list_val(ns@),
        r is Ok <==> ns@.len() <= 0xffff_ffff,
        r is Err ==> r->Err_0 == Error::EncoderOverflow,
{
    if ns.len() as u64 > 0xffff_ffffu64 {
        return Err(Error::EncoderOverflow);
    }
    encode_size_into(MARKER_TINY_LIST, MARKER_LIST_8, MARKER_LIST_16, MARKER_LIST_32, ns.len(),
        out);
    let ghost base = out@;
    let n = ns.len();
    let mut i: usize = 0;
    while i < n
        invariant
            n == ns@.len(),
            i <= n,
            out@ == base + enc_int_list(ns@.take(i as int)),
        decreases n - i,
    {
        encode_int_into(ns[i], out);
        proof {
            assert(ns@.take(i + 1) =~= ns@.take(i as int) + seq![ns@[i as int]]);
            lemma_enc_int_list_concat(ns@.take(i as int), seq![ns@[i as int]]);
            assert(seq![ns@[i as int]].drop_first() =~= Seq::<i64>::empty());
            assert(enc_int_list(seq![ns@[i as int]]) =~= enc_int(ns@[i as int]) + enc_int_list(
                Seq::empty(),
            ));
            assert(out@ =~= base + enc_int_list(ns@.take(i + 1)));
        }
        i += 1;
    }
    proof {
        assert(ns@.take(n as int) =~= ns@);
    }
    Ok(())
}

/// Appends the encoding of a node structure.
fn encode_node_into(node: &Node, out: &mut Vec<u8>) -> (r: Result<(), Error>)
    ensures
        r is Ok ==> final(out)@ == old(out)@ + enc_node(node.model()),
        r is Ok <==> encodable_node(node.model()),
        r is Err ==> r->Err_0 == Error::EncoderOverflow,
    decreases node, 2int,
{
    out.push(MARKER_TINY_STRUCT + 3);
    out.push(SIG_NODE);
    encode_int_into(node.id, out);
    match encode_str_list_into(&node.labels, out) {
        Ok(()) => {}
        Err(e) => {
            proof {
                assert(!(node.model().labels.len() <= 0xffff_ffff && (forall|i: int|
                    0 <= i < node.model().labels.len() ==> str_fits(
                        #[trigger] node.model().labels[i],
                    ))));
            }
            return Err(Error::EncoderOverflow);
        }
    }
    match encode_dict_into(&node.properties, out) {
        Ok(()) => {}
        Err(e) => {
            proof {
                assert(!(node.properties@.len() <= 0xffff_ffff && encodable_entries(
                    entry_models(node.properties@),
                )));
                assert(node.model().properties == entry_models(node.properties@));
                assert(!(node.model().properties.len() <= 0xffff_ffff && encodable_entries(
                    node.model().properties,
                )));
            }
            return Err(Error::EncoderOverflow);
        }
    }
    assert(out@ =~= old(out)@ + enc_node(node.model()));
    Ok(())
}

/// Appends the encoding of an unbound relationship structure.
fn encode_unbound_into(rel: &UnboundRelationship, out: &mut Vec<u8>) -> (r: Result<(), Error>)
    ensures
        r is Ok ==> final(out)@ == old(out)@ + enc_unbound(rel.model()),
        r is Ok <==> encodable_unbound(rel.model()),
        r is Err ==> r->Err_0 == Error::EncoderOverflow,
    decreases rel, 2int,
{
    out.push(MARKER_TINY_STRUCT + 3);
    out.push(SIG_UNBOUND_RELATIONSHIP);
    encode_int_into(rel.id, out);
    match encode_string_into(rel.rel_type.as_str(), out) {
        Ok(()) => {}
        Err(e) => {
            proof {
                assert(!str_fits(rel.model().rel_type));
            }
            return Err(Error::EncoderOverflow);
        }
    }
    match encode_dict_into(&rel.properties, out) {
        Ok(()) => {}
        Err(e) => {
            proof {
                assert(!(rel.properties@.len() <= 0xffff_ffff && encodable_entries(
                    entry_models(rel.properties@),
                )));
                assert(rel.model().properties == entry_models(rel.properties@));
                assert(!(rel.model().properties.len() <= 0xffff_ffff && encodable_entries(
                    rel.model().properties,
                )));
            }
            return Err(Error::EncoderOverflow);
        }
    }
    assert(out@ =~= old(out)@ + enc_unbound(rel.model()));
    Ok(())
}

/// Appends the encoding of a list of nodes.
fn encode_node_list_into(ns: &Vec<Node>, out: &mut Vec<u8>) -> (r: Result<(), Error>)
    ensures
        r is Ok ==> final(out)@ == old(out)@ + enc_node_list(node_models(ns@)),
        r is Ok <==> ns@.len() <= 0xffff_ffff && encodable_nodes(node_models(ns@)),
        r is Err ==> r->Err_0 == Error::EncoderOverflow,
    decreases ns, 3int,
{
    let ghost m = node_models(ns@);
    if ns.len() as u64 > 0xffff_ffffu64 {
        return Err(Error::EncoderOverflow);
    }
    encode_size_into(MARKER_TINY_LIST, MARKER_LIST_8, MARKER_LIST_16, MARKER_LIST_32, ns.len(),
        out);
    let ghost base = out@;
    let n = ns.len();
    let mut i: usize = 0;
    while i < n
        invariant
            n == ns@.len(),
            m == node_models(ns@),
            m.len() == n,
            i <= n,
            out@ == base + enc_nodes(m.take(i as int)),
            forall|j: int| 0 <= j < i ==> encodable_node(#[trigger] m[j]),
        decreases n - i,
    {
        match encode_node_into(&ns[i], out) {
            Ok(()) => {}
            Err(e) => {
                proof {
                    assert(m[i as int] == ns@[i as int].model());
                    assert(!encodable_node(m[i as int]));
                    assert(!encodable_nodes(m));
                }
                return Err(Error::EncoderOverflow);
            }
        }
        proof {
            assert(m.take(i + 1) =~= m.take(i as int) + seq![m[i as int]]);
            lemma_enc_nodes_concat(m.take(i as int), seq![m[i as int]]);
            assert(seq![m[i as int]].drop_first() =~= Seq::<crate::value::NodeM>::empty());
            assert(enc_nodes(seq![m[i as int]]) =~= enc_node(m[i as int]) + enc_nodes(
                Seq::empty(),
            ));
            assert(out@ =~= base + enc_nodes(m.take(i + 1)));
        }
        i += 1;
    }
    proof {
        assert(m.take(n as int) =~= m);
        assert(encodable_nodes(m));
    }
    Ok(())
}

/// Appends the encoding of a list of unbound relationships.
fn encode_unbound_list_into(rs: &Vec<UnboundRelationship>, out: &mut Vec<u8>) -> (r: Result<
    (),
    Error,
>)
    ensures
        r is Ok ==> final(out)@ == old(out)@ + enc_unbound_list(unbound_models(rs@)),
        r is Ok <==> rs@.len() <= 0xffff_ffff && encodable_unbounds(unbound_models(rs@)),
        r is Err ==> r->Err_0 == Error::EncoderOverflow,
    decreases rs, 3int,
{
    let ghost m = unbound_models(rs@);
    if rs.len() as u64 > 0xffff_ffffu64 {
        return Err(Error::EncoderOverflow);
    }
    encode_size_into(MARKER_TINY_LIST, MARKER_LIST_8, MARKER_LIST_16, MARKER_LIST_32, rs.len(),
        out);
    let ghost base = out@;
    let n = rs.len();
    let mut i: usize = 0;
    while i < n
        invariant
            n == rs@.len(),
            m == unbound_models(rs@),
            m.len() == n,
            i <= n,
            out@ == base + enc_unbounds(m.take(i as int)),
            forall|j: int| 0 <= j < i ==> encodable_unbound(#[trigger] m[j]),
        decreases n - i,
    {
        match encode_unbound_into(&rs[i], out) {
            Ok(()) => {}
            Err(e) => {
                proof {
                    assert(m[i as int] == rs@[i as int].model());
                    assert(!encodable_unbound(m[i as int]));
                    assert(!encodable_unbounds(m));
                }
                return Err(Error::EncoderOverflow);
            }
        }
        proof {
            assert(m.take(i + 1) =~= m.take(i as int) + seq![m[i as int]]);
            lemma_enc_unbounds_concat(m.take(i as int), seq![m[i as int]]);
            assert(seq![m[i as int]].drop_first() =~= Seq::<crate::value::UnboundRelM>::empty());
            assert(enc_unbounds(seq![m[i as int]]) =~= enc_unbound(m[i as int]) + enc_unbounds(
                Seq::empty(),
            ));
            assert(out@ =~= base + enc_unbounds(m.take(i + 1)));
        }
        i += 1;
    }
    proof {
        assert(m.take(n as int) =~= m);
        assert(encodable_unbounds(m));
    }
    Ok(())
}

/// Appends the encoding of a list of values.
pub(crate) fn encode_list_into(l: &Vec<Value>, out: &mut Vec<u8>) -> (r: Result<(), Error>)
    ensures
        r is Ok ==> final(out)@ == old(out)@ + enc_size(
            MARKER_TINY_LIST,
            MARKER_LIST_8,
            MARKER_LIST_16,
            MARKER_LIST_32,
            l@.len(),
        ) + enc_elems(val_models(l@)),
        r is Ok <==> l@.len() <= 0xffff_ffff && encodable_elems(val_models(l@)),
        r is Err ==> r->Err_0 == Error::EncoderOverflow,
    decreases l, 3int,
{
    let ghost m = val_models(l@);
    if l.len() as u64 > 0xffff_ffffu64 {
        return Err(Error::EncoderOverflow);
    }
    encode_size_into(MARKER_TINY_LIST, MARKER_LIST_8, MARKER_LIST_16, MARKER_LIST_32, l.len(),
        out);
    let ghost base = out@;
    let n = l.len();
    let mut i: usize = 0;
    while i < n
        invariant
            n == l@.len(),
            m == val_models(l@),
            m.len() == n,
            i <= n,
            out@ == base + enc_elems(m.take(i as int)),
            forall|j: int| 0 <= j < i ==> encodable_val(#[trigger] m[j]),
        decreases n - i,
    {
        proof {
            assert(decreases_to!(*l => (*l)[i as int]));
        }
        match encode_value_into(&l[i], out) {
            Ok(()) => {}
            Err(e) => {
                proof {
                    assert(m[i as int] == l@[i as int].model());
                    assert(!encodable_val(m[i as int]));
                    assert(!encodable_elems(m));
                }
                return Err(Error::EncoderOverflow);
            }
        }
        proof {
            assert(m.take(i + 1) =~= m.take(i as int) + seq![m[i as int]]);
            lemma_enc_elems_concat(m.take(i as int), seq![m[i as int]]);
            assert(seq![m[i as int]].drop_first() =~= Seq::<BVal>::empty());
            assert(enc_elems(seq![m[i as int]]) =~= enc_val(m[i as int]) + enc_elems(
                Seq::empty(),
            ));
            assert(out@ =~= base + enc_elems(m.take(i + 1)));
        }
        i += 1;
    }
    proof {
        assert(m.take(n as int) =~= m);
        assert(encodable_elems(m));
    }
    Ok(())
}

/// Appends the encoding of a relationship structure.
fn encode_rel_into(rel: &Relationship, out: &mut Vec<u8>) -> (r: Result<(), Error>)
    ensures
        r is Ok ==> final(out)@ == old(out)@ + enc_rel(rel.model()),
        r is Ok <==> str_fits(rel.model().rel_type) && rel.model().properties.len()
            <= 0xffff_ffff && encodable_entries(rel.model().properties),
        r is Err ==> r->Err_0 == Error::EncoderOverflow,
    decreases rel, 2int,
{
    out.push(MARKER_TINY_STRUCT + 5);
    out.push(SIG_RELATIONSHIP);
    encode_int_into(rel.id, out);
    encode_int_into(rel.start_node_id, out);
    encode_int_into(rel.end_node_id, out);
    match encode_string_into(rel.rel_type.as_str(), out) {
        Ok(()) => {}
        Err(e) => {
            proof {
                assert(!str_fits(rel.model().rel_type));
            }
            return Err(Error::EncoderOverflow);
        }
    }
    match encode_dict_into(&rel.properties, out) {
        Ok(()) => {}
        Err(e) => {
            proof {
                assert(!(rel.properties@.len() <= 0xffff_ffff && encodable_entries(
                    entry_models(rel.properties@),
                )));
                assert(rel.model().properties == entry_models(rel.properties@));
            }
            return Err(Error::EncoderOverflow);
        }
    }
    assert(out@ =~= old(out)@ + enc_rel(rel.model()));
    Ok(())
}

/// Appends the encoding of a path structure.
fn encode_path_into(path: &Path, out: &mut Vec<u8>) -> (r: Result<(), Error>)
    ensures
        r is Ok ==> final(out)@ == old(out)@ + enc_path(path.model()),
        r is Ok <==> path.model().nodes.len() <= 0xffff_ffff
            && path.model().relationships.len() <= 0xffff_ffff && path.model().sequence.len()
            <= 0xffff_ffff && encodable_nodes(path.model().nodes) && encodable_unbounds(
            path.model().relationships,
        ),
        r is Err ==> r->Err_0 == Error::EncoderOverflow,
    decreases path, 5int,
{
    out.push(MARKER_TINY_STRUCT + 3);
    out.push(SIG_PATH);
    match encode_node_list_into(&path.nodes, out) {
        Ok(()) => {}
        Err(e) => {
            proof {
                assert(!(path.nodes@.len() <= 0xffff_ffff && encodable_nodes(
                    node_models(path.nodes@),
                )));
                assert(path.model().nodes == node_models(path.nodes@));
            }
            return Err(Error::EncoderOverflow);
        }
    }
    match encode_unbound_list_into(&path.relationships, out) {
        Ok(()) => {}
        Err(e) => {
            proof {
                assert(!(path.relationships@.len() <= 0xffff_ffff && encodable_unbounds(
                    unbound_models(path.relationships@),
                )));
                assert(path.model().relationships == unbound_models(path.relationships@));
            }
            return Err(Error::EncoderOverflow);
        }
    }
    match encode_int_list_into(&path.sequence, out) {
        Ok(()) => {}
        Err(e) => {
            proof {
                assert(path.model().sequence == path.sequence@);
            }
            return Err(Error::EncoderOverflow);
        }
    }
    assert(out@ =~= old(out)@ + enc_path(path.model()));
    Ok(())
}

/// Appends the encoding of a value: exactly the bytes the specification
/// assigns to its model. Fails, with `EncoderOverflow`, exactly when some
/// length in the value exceeds its widest form.
#[verifier::rlimit(100)]
#[verifier::spinoff_prover]
pub fn encode_value_into(v: &Value, out: &mut Vec<u8>) -> (r: Result<(), Error>)
    ensures
        r is Ok ==> final(out)@ == old(out)@ + enc_val(v.model()),
        r is Ok <==> encodable_val(v.model()),
        r is Err ==> r->Err_0 == Error::EncoderOverflow,
    decreases v, 4int,
{
    match v {
        Value::Null => {
            out.push(MARKER_NULL);
            assert(out@ =~= old(out)@ + enc_val(v.model()));
            Ok(())
        }
        Value::Boolean(b) => {
            if *b {
                out.push(MARKER_TRUE);
            } else {
                out.push(MARKER_FALSE);
            }
            assert(out@ =~= old(out)@ + enc_val(v.model()));
            Ok(())
        }
        Value::Integer(n) => {
            encode_int_into(*n, out);
            Ok(())
        }
        Value::Float(bits) => {
            out.push(MARKER_FLOAT);
            push_be8(out, *bits);
            assert(out@ =~= old(out)@ + enc_val(v.model()));
            Ok(())
        }
        Value::Bytes(p) => {
            if p.len() as u64 > 0xffff_ffffu64 {
                return Err(Error::EncoderOverflow);
            }
            if p.len() <= 0xff {
                out.push(MARKER_BYTES_8);
                out.push(p.len() as u8);
            } else if p.len() <= 0xffff {
                out.push(MARKER_BYTES_16);
                push_be2(out, p.len() as u16);
            } else {
                out.push(MARKER_BYTES_32);
                push_be4(out, p.len() as u32);
            }
            out.extend_from_slice(p.as_slice());
            assert(out@ =~= old(out)@ + (enc_bytes_size(p@.len()) + p@));
            Ok(())
        }
        Value::String(s) => {
            match encode_string_into(s.as_str(), out) {
                Ok(()) => Ok(()),
                Err(e) => Err(Error::EncoderOverflow),
            }
        }
        Value::List(l) => {
            proof {
                assert(val_models(l@).len() == l@.len());
            }
            match encode_list_into(l, out) {
                Ok(()) => Ok(()),
                Err(e) => Err(Error::EncoderOverflow),
            }
        }
        Value::Dictionary(es) => {
            proof {
                assert(entry_models(es@).len() == es@.len());
            }
            match encode_dict_into(es, out) {
                Ok(()) => Ok(()),
                Err(e) => Err(Error::EncoderOverflow),
            }
        }
        Value::Node(node) => {
            match encode_node_into(node, out) {
                Ok(()) => Ok(()),
                Err(e) => Err(Error::EncoderOverflow),
            }
        }
        Value::Relationship(rel) => {
            match encode_rel_into(rel, out) {
                Ok(()) => Ok(()),
                Err(e) => Err(Error::EncoderOverflow),
            }
        }
        Value::UnboundRelationship(rel) => {
            match encode_unbound_into(rel, out) {
                Ok(()) => Ok(()),
                Err(e) => Err(Error::EncoderOverflow),
            }
        }
        Value::Path(path) => {
            match encode_path_into(path, out) {
                Ok(()) => Ok(()),
                Err(e) => Err(Error::EncoderOverflow),
            }
        }
        Value::Date(days) => {
            out.push(MARKER_TINY_STRUCT + 1);
            out.push(SIG_DATE);
            encode_int_into(*days, out);
            assert(out@ =~= old(out)@ + enc_val(v.model()));
            Ok(())
        }
        Value::Time(nanos, offset) => {
            out.push(MARKER_TINY_STRUCT + 2);
            out.push(SIG_TIME);
            encode_int_into(*nanos, out);
            encode_int_into(*offset, out);
            assert(out@ =~= old(out)@ + enc_val(v.model()));
            Ok(())
        }
    }
}

impl Value {
    /// The encoding of this value, or `EncoderOverflow` exactly when some
    /// length in it exceeds its widest form.
    pub fn to_bytes(&self) -> (r: Result<Vec<u8>, Error>)
        ensures
            r is Ok ==> r->Ok_0@ == enc_val(self.model()),
            r is Ok <==> encodable_val(self.model()),
            r is Err ==> r->Err_0 == Error::EncoderOverflow,
    {
        let mut out: Vec<u8> = Vec::new();
        match encode_value_into(self, &mut out) {
            Ok(()) => {
                assert(out@ =~= enc_val(self.model()));
                Ok(out)
            }
            Err(e) => Err(Error::EncoderOverflow),
        }
    }
}

} // verus!
