//! Round-trip laws of the value codec: decoding an encoding yields the
//! original value, whatever bytes follow it.

use vstd::prelude::*;

use crate::codec::{
    all_int, all_node, all_str, all_unbound, dec_elems, dec_entries, dec_size, dec_val,
    enc_bytes_size, enc_dict, enc_elems, enc_entries, enc_int, enc_int_list, enc_int_list_val,
    enc_node, enc_node_list, enc_nodes, enc_path, enc_rel, enc_size, enc_str, enc_str_list, enc_str_list_val,
    enc_struct_hdr, enc_unbound, enc_unbound_list, enc_unbounds, enc_val, encodable_elems,
    encodable_entries, encodable_node, encodable_nodes, encodable_unbound, encodable_unbounds,
    encodable_val, ints_of, known_value_sig, nodes_of, str_fits, strs_of, struct_of, unbounds_of,
    MARKER_BYTES_16, MARKER_BYTES_32, MARKER_BYTES_8, MARKER_FALSE, MARKER_FLOAT, MARKER_INT_16,
    MARKER_INT_32, MARKER_INT_64, MARKER_INT_8, MARKER_LIST_16, MARKER_LIST_32, MARKER_LIST_8,
    MARKER_MAP_16, MARKER_MAP_32, MARKER_MAP_8, MARKER_NULL, MARKER_STRING_16, MARKER_STRING_32,
    MARKER_STRING_8, MARKER_STRUCT_16, MARKER_STRUCT_8, MARKER_TINY_LIST, MARKER_TINY_MAP,
    MARKER_TINY_STRING, MARKER_TINY_STRUCT, MARKER_TRUE, MAX_LEN_32, SIG_DATE, SIG_NODE, SIG_PATH,
    SIG_RELATIONSHIP, SIG_TIME, SIG_UNBOUND_RELATIONSHIP,
};
use crate::error::Error;
use crate::value::{BVal, NodeM, PathM, RelM, UnboundRelM};
use crate::wire::{
    be2, be2_val, be4, be4_val, be8, be8_val, lemma_be2_round_trip, lemma_be4_round_trip,
    lemma_be8_round_trip, lemma_i64_u16_round_trip, lemma_i64_u32_round_trip,
    lemma_i64_u64_round_trip, lemma_i64_u8_round_trip,
};
use vstd::utf8::{decode_utf8, encode_utf8, encode_utf8_decode_utf8, encode_utf8_valid_utf8,
    valid_utf8};

verus! {


/// A size header is parsed back to the size it was built from, provided the
/// wider markers stay clear of the tiny range and of each other.
#[verifier::spinoff_prover]
proof fn lemma_size_round_trip(
    tiny_base: u8,
    m8: u8,
    m16: u8,
    m32: u8,
    len: nat,
    tail: Seq<u8>,
)
    requires
        len <= MAX_LEN_32,
        tiny_base + 16 <= m8,
        tiny_base + 16 <= m16,
        tiny_base + 16 <= m32,
        m8 != m16,
        m8 != m32,
        m16 != m32,
    ensures
        ({
            let hdr = enc_size(tiny_base, m8, m16, m32, len);
            dec_size(hdr + tail, tiny_base, m8, m16, m32) == Ok::<(nat, int), Error>(
                (len, hdr.len() as int),
            )
        }),
{
    broadcast use {lemma_be2_round_trip, lemma_be4_round_trip};

    let hdr = enc_size(tiny_base, m8, m16, m32, len);
    let b = hdr + tail;
    if len <= 15 {
        assert(b[0] == (tiny_base + len) as u8);
    } else if len <= 0xff {
        assert(b[0] == m8 && b[1] == len as u8);
    } else if len <= 0xffff {
        assert(b[0] == m16);
        assert(b[1] == be2(len as u16)[0] && b[2] == be2(len as u16)[1]);
        assert(be2_val(be2(len as u16)[0], be2(len as u16)[1]) == len as u16);
    } else {
        assert(b[0] == m32);
        assert(b[1] == be4(len as u32)[0] && b[2] == be4(len as u32)[1] && b[3] == be4(
            len as u32,
        )[2] && b[4] == be4(len as u32)[3]);
        assert(be4_val(be4(len as u32)[0], be4(len as u32)[1], be4(len as u32)[2], be4(
            len as u32,
        )[3]) == len as u32);
    }
}

/// An encoded integer decodes back to itself, whatever bytes follow; the
/// encoding always takes at least one byte.
#[verifier::spinoff_prover]
pub proof fn lemma_int_round_trip(n: i64, tail: Seq<u8>)
    ensures
        dec_val(enc_int(n) + tail) == Ok::<(BVal, int), Error>((BVal::Int(n), enc_int(n).len() as int)),
        1 <= enc_int(n).len(),
{
    broadcast use {
        lemma_be2_round_trip,
        lemma_be4_round_trip,
        lemma_be8_round_trip,
        lemma_i64_u8_round_trip,
        lemma_i64_u16_round_trip,
        lemma_i64_u32_round_trip,
        lemma_i64_u64_round_trip,
    };

    let b = enc_int(n) + tail;
    if -16 <= n <= 127 {
        let m = b[0];
        assert(m == n as u8);
        assert(n >= 0 ==> m <= 0x7f) by (bit_vector)
            requires m == n as u8 && -16 <= n <= 127;
        assert(n < 0 ==> m >= 0xf0) by (bit_vector)
            requires m == n as u8 && -16 <= n <= 127;
        assert(m as i8 as i64 == n);
    } else if -128 <= n < -16 {
        assert(b[0] == MARKER_INT_8 && b[1] == n as u8);
        assert(b[1] as i8 as i64 == n) by {
            assert((n as u8) as i8 as i64 == n);
        }
    } else if -0x8000 <= n <= 0x7fff {
        assert(b[0] == MARKER_INT_16);
        let e = be2(n as u16);
        assert(b[1] == e[0] && b[2] == e[1]);
        assert(be2_val(e[0], e[1]) == n as u16);
        assert((n as u16) as i16 as i64 == n);
    } else if -0x8000_0000 <= n <= 0x7fff_ffff {
        assert(b[0] == MARKER_INT_32);
        let e = be4(n as u32);
        assert(b[1] == e[0] && b[2] == e[1] && b[3] == e[2] && b[4] == e[3]);
        assert(be4_val(e[0], e[1], e[2], e[3]) == n as u32);
        assert((n as u32) as i32 as i64 == n);
    } else {
        assert(b[0] == MARKER_INT_64);
        let e = be8(n as u64);
        assert(b[1] == e[0] && b[2] == e[1] && b[3] == e[2] && b[4] == e[3] && b[5] == e[4]
            && b[6] == e[5] && b[7] == e[6] && b[8] == e[7]);
        assert(be8_val(e[0], e[1], e[2], e[3], e[4], e[5], e[6], e[7]) == n as u64);
        assert((n as u64) as i64 == n);
    }
}

/// An encoded string decodes back to itself, whatever bytes follow.
#[verifier::spinoff_prover]
pub proof fn lemma_str_round_trip(s: Seq<char>, tail: Seq<u8>)
    requires
        str_fits(s),
    ensures
        dec_val(enc_str(s) + tail) == Ok::<(BVal, int), Error>((BVal::Str(s), enc_str(s).len() as int)),
        1 <= enc_str(s).len(),
{
    broadcast use {encode_utf8_valid_utf8, encode_utf8_decode_utf8};

    let pb = encode_utf8(s);
    let hdr = enc_size(MARKER_TINY_STRING, MARKER_STRING_8, MARKER_STRING_16, MARKER_STRING_32,
        pb.len());
    let b = enc_str(s) + tail;
    assert(b =~= hdr + (pb + tail));
    let m = b[0];
    assert(m == hdr[0]);
    lemma_size_round_trip(MARKER_TINY_STRING, MARKER_STRING_8, MARKER_STRING_16, MARKER_STRING_32,
        pb.len(), pb + tail);
    assert(dec_size(b, MARKER_TINY_STRING, MARKER_STRING_8, MARKER_STRING_16, MARKER_STRING_32)
        == Ok::<(nat, int), Error>((pb.len(), hdr.len() as int)));
    // The marker takes the string branch of the decoder's dispatch.
    assert((MARKER_TINY_STRING <= m < MARKER_TINY_STRING + 16) || m == MARKER_STRING_8
        || m == MARKER_STRING_16 || m == MARKER_STRING_32);
    assert(b.subrange(hdr.len() as int, (hdr.len() + pb.len()) as int) =~= pb);
    assert(valid_utf8(pb));
    assert(decode_utf8(pb) == s);
}


/// The given strings, each wrapped as a string value.
pub open spec fn str_vals(ls: Seq<Seq<char>>) -> Seq<BVal> {
    Seq::new(ls.len(), |i: int| BVal::Str(ls[i]))
}

/// The given nodes, each wrapped as a node value.
pub open spec fn node_vals(ns: Seq<NodeM>) -> Seq<BVal> {
    Seq::new(ns.len(), |i: int| BVal::Node(ns[i]))
}

/// The given unbound relationships, each wrapped as a value.
pub open spec fn unbound_vals(rs: Seq<UnboundRelM>) -> Seq<BVal> {
    Seq::new(rs.len(), |i: int| BVal::UnboundRel(rs[i]))
}

/// The given integers, each wrapped as an integer value.
pub open spec fn int_vals(ns: Seq<i64>) -> Seq<BVal> {
    Seq::new(ns.len(), |i: int| BVal::Int(ns[i]))
}

/// An encoded float decodes back to its bits, whatever bytes follow.
#[verifier::spinoff_prover]
proof fn lemma_float_round_trip(bits: u64, tail: Seq<u8>)
    ensures
        dec_val((seq![MARKER_FLOAT] + be8(bits)) + tail) == Ok::<(BVal, int), Error>(
            (BVal::Float(bits), 9int),
        ),
{
    broadcast use lemma_be8_round_trip;

    let b = (seq![MARKER_FLOAT] + be8(bits)) + tail;
    let e = be8(bits);
    assert(b[1] == e[0] && b[2] == e[1] && b[3] == e[2] && b[4] == e[3] && b[5] == e[4]
        && b[6] == e[5] && b[7] == e[6] && b[8] == e[7]);
    assert(be8_val(e[0], e[1], e[2], e[3], e[4], e[5], e[6], e[7]) == bits);
}

/// An encoded byte array decodes back to itself, whatever bytes follow.
#[verifier::spinoff_prover]
proof fn lemma_bytes_round_trip(p: Seq<u8>, tail: Seq<u8>)
    requires
        p.len() <= MAX_LEN_32,
    ensures
        dec_val((enc_bytes_size(p.len()) + p) + tail) == Ok::<(BVal, int), Error>(
            (BVal::Bytes(p), (enc_bytes_size(p.len()).len() + p.len()) as int),
        ),
{
    broadcast use {lemma_be2_round_trip, lemma_be4_round_trip};

    let hdr = enc_bytes_size(p.len());
    let b = (hdr + p) + tail;
    assert(b =~= hdr + (p + tail));
    if p.len() <= 0xff {
        assert(b[0] == MARKER_BYTES_8 && b[1] == p.len() as u8);
    } else if p.len() <= 0xffff {
        let e = be2(p.len() as u16);
        assert(b[0] == MARKER_BYTES_16 && b[1] == e[0] && b[2] == e[1]);
        assert(be2_val(e[0], e[1]) == p.len() as u16);
    } else {
        let e = be4(p.len() as u32);
        assert(b[0] == MARKER_BYTES_32 && b[1] == e[0] && b[2] == e[1] && b[3] == e[2]
            && b[4] == e[3]);
        assert(be4_val(e[0], e[1], e[2], e[3]) == p.len() as u32);
    }
    assert(b.subrange(hdr.len() as int, (hdr.len() + p.len()) as int) =~= p);
}

/// Decoding a tiny structure is: parse the field count and signature, then
/// the fields, then assemble. Proved once so the per-structure lemmas never
/// unfold the decoder's dispatch themselves.
#[verifier::spinoff_prover]
proof fn lemma_tiny_struct_parse(n: nat, sig: u8, body: Seq<u8>)
    requires
        1 <= n <= 15,
        known_value_sig(sig, n),
    ensures
        dec_val(seq![(MARKER_TINY_STRUCT + n) as u8, sig] + body) == (match dec_elems(body, n) {
            Err(e) => Err::<(BVal, int), Error>(e),
            Ok((fs, c)) => match struct_of(sig, n, fs) {
                Err(e) => Err(e),
                Ok(v) => Ok((v, 2 + c)),
            },
        }),
{
    let b = seq![(MARKER_TINY_STRUCT + n) as u8, sig] + body;
    let m = b[0];
    assert(m == MARKER_TINY_STRUCT + n);
    assert(b[1] == sig);
    assert(b.skip(2) =~= body);
    assert((m - MARKER_TINY_STRUCT) as nat == n);
}

/// One step of parsing values back to back: a parsed head followed by
/// parsed remaining elements.
#[verifier::spinoff_prover]
proof fn lemma_dec_elems_cons(b: Seq<u8>, v: BVal, c: int, n: nat, vs: Seq<BVal>, c2: int)
    requires
        dec_val(b) == Ok::<(BVal, int), Error>((v, c)),
        1 <= c <= b.len(),
        dec_elems(b.skip(c), n) == Ok::<(Seq<BVal>, int), Error>((vs, c2)),
    ensures
        dec_elems(b, (n + 1) as nat) == Ok::<(Seq<BVal>, int), Error>((seq![v] + vs, c + c2)),
{
}

/// Encoded integers laid back to back parse back to themselves.
#[verifier::spinoff_prover]
proof fn lemma_int_elems_round_trip(ns: Seq<i64>, tail: Seq<u8>)
    ensures
        dec_elems(enc_int_list(ns) + tail, ns.len()) == Ok::<(Seq<BVal>, int), Error>(
            (int_vals(ns), enc_int_list(ns).len() as int),
        ),
    decreases ns,
{
    if ns.len() == 0 {
        assert(enc_int_list(ns) + tail =~= tail);
        assert(int_vals(ns) =~= Seq::<BVal>::empty());
    } else {
        let e0 = enc_int(ns[0]);
        let erest = enc_int_list(ns.drop_first());
        let b = enc_int_list(ns) + tail;
        assert(b =~= e0 + (erest + tail));
        lemma_int_round_trip(ns[0], erest + tail);
        assert(b.skip(e0.len() as int) =~= erest + tail);
        lemma_int_elems_round_trip(ns.drop_first(), tail);
        lemma_dec_elems_cons(b, BVal::Int(ns[0]), e0.len() as int, ns.drop_first().len(),
            int_vals(ns.drop_first()), erest.len() as int);
        assert(seq![BVal::Int(ns[0])] + int_vals(ns.drop_first()) =~= int_vals(ns));
    }
}

/// An encoded list of integers decodes back to the integer values.
#[verifier::spinoff_prover]
proof fn lemma_int_list_round_trip(ns: Seq<i64>, tail: Seq<u8>)
    requires
        ns.len() <= MAX_LEN_32,
    ensures
        dec_val(enc_int_list_val(ns) + tail) == Ok::<(BVal, int), Error>(
            (BVal::List(int_vals(ns)), enc_int_list_val(ns).len() as int),
        ),
        1 <= enc_int_list_val(ns).len(),
{
    let hdr = enc_size(MARKER_TINY_LIST, MARKER_LIST_8, MARKER_LIST_16, MARKER_LIST_32, ns.len());
    let b = enc_int_list_val(ns) + tail;
    assert(b =~= hdr + (enc_int_list(ns) + tail));
    lemma_size_round_trip(MARKER_TINY_LIST, MARKER_LIST_8, MARKER_LIST_16, MARKER_LIST_32,
        ns.len(), enc_int_list(ns) + tail);
    assert(b.skip(hdr.len() as int) =~= enc_int_list(ns) + tail);
    lemma_int_elems_round_trip(ns, tail);
    assert(int_vals(ns).len() == ns.len());
}

/// Encoded strings laid back to back parse back to themselves.
#[verifier::spinoff_prover]
proof fn lemma_str_elems_round_trip(ls: Seq<Seq<char>>, tail: Seq<u8>)
    requires
        forall|i: int| 0 <= i < ls.len() ==> str_fits(#[trigger] ls[i]),
    ensures
        dec_elems(enc_str_list(ls) + tail, ls.len()) == Ok::<(Seq<BVal>, int), Error>(
            (str_vals(ls), enc_str_list(ls).len() as int),
        ),
    decreases ls,
{
    if ls.len() == 0 {
        assert(enc_str_list(ls) + tail =~= tail);
        assert(str_vals(ls) =~= Seq::<BVal>::empty());
    } else {
        let e0 = enc_str(ls[0]);
        let erest = enc_str_list(ls.drop_first());
        let b = enc_str_list(ls) + tail;
        assert(b =~= e0 + (erest + tail));
        lemma_str_round_trip(ls[0], erest + tail);
        assert(b.skip(e0.len() as int) =~= erest + tail);
        assert(forall|i: int|
            0 <= i < ls.drop_first().len() ==> str_fits(#[trigger] ls.drop_first()[i]));
        lemma_str_elems_round_trip(ls.drop_first(), tail);
        lemma_dec_elems_cons(b, BVal::Str(ls[0]), e0.len() as int, ls.drop_first().len(),
            str_vals(ls.drop_first()), erest.len() as int);
        assert(seq![BVal::Str(ls[0])] + str_vals(ls.drop_first()) =~= str_vals(ls));
    }
}

/// An encoded list of strings decodes back to the string values.
#[verifier::spinoff_prover]
proof fn lemma_str_list_round_trip(ls: Seq<Seq<char>>, tail: Seq<u8>)
    requires
        ls.len() <= MAX_LEN_32,
        forall|i: int| 0 <= i < ls.len() ==> str_fits(#[trigger] ls[i]),
    ensures
        dec_val(enc_str_list_val(ls) + tail) == Ok::<(BVal, int), Error>(
            (BVal::List(str_vals(ls)), enc_str_list_val(ls).len() as int),
        ),
        1 <= enc_str_list_val(ls).len(),
{
    let hdr = enc_size(MARKER_TINY_LIST, MARKER_LIST_8, MARKER_LIST_16, MARKER_LIST_32, ls.len());
    let b = enc_str_list_val(ls) + tail;
    assert(b =~= hdr + (enc_str_list(ls) + tail));
    lemma_size_round_trip(MARKER_TINY_LIST, MARKER_LIST_8, MARKER_LIST_16, MARKER_LIST_32,
        ls.len(), enc_str_list(ls) + tail);
    assert(b.skip(hdr.len() as int) =~= enc_str_list(ls) + tail);
    lemma_str_elems_round_trip(ls, tail);
    assert(str_vals(ls).len() == ls.len());
}

/// An encoded date structure decodes back to itself.
#[verifier::spinoff_prover]
proof fn lemma_date_round_trip(days: i64, tail: Seq<u8>)
    ensures
        dec_val(enc_val(BVal::Date(days)) + tail) == Ok::<(BVal, int), Error>(
            (BVal::Date(days), enc_val(BVal::Date(days)).len() as int),
        ),
        1 <= enc_val(BVal::Date(days)).len(),
{
    let e1 = enc_int(days);
    let body = e1 + tail;
    let b = enc_val(BVal::Date(days)) + tail;
    assert(b =~= seq![(MARKER_TINY_STRUCT + 1) as u8, SIG_DATE] + body);
    lemma_int_round_trip(days, tail);
    assert(body.skip(e1.len() as int) =~= tail);
    assert(dec_elems(tail, 0) == Ok::<(Seq<BVal>, int), Error>((Seq::empty(), 0int)));
    lemma_dec_elems_cons(body, BVal::Int(days), e1.len() as int, 0, Seq::empty(), 0int);
    lemma_tiny_struct_parse(1, SIG_DATE, body);
    assert(seq![BVal::Int(days)] + Seq::<BVal>::empty() =~= seq![BVal::Int(days)]);
    assert(struct_of(SIG_DATE, 1, seq![BVal::Int(days)]) == Ok::<BVal, Error>(
        BVal::Date(days),
    ));
}

/// An encoded time structure decodes back to itself.
#[verifier::spinoff_prover]
proof fn lemma_time_round_trip(nanos: i64, offset: i64, tail: Seq<u8>)
    ensures
        dec_val(enc_val(BVal::Time(nanos, offset)) + tail) == Ok::<(BVal, int), Error>(
            (BVal::Time(nanos, offset), enc_val(BVal::Time(nanos, offset)).len() as int),
        ),
        1 <= enc_val(BVal::Time(nanos, offset)).len(),
{
    let e1 = enc_int(nanos);
    let e2 = enc_int(offset);
    let r2 = e2 + tail;
    let body = e1 + r2;
    let b = enc_val(BVal::Time(nanos, offset)) + tail;
    assert(b =~= seq![(MARKER_TINY_STRUCT + 2) as u8, SIG_TIME] + body);
    lemma_int_round_trip(offset, tail);
    assert(r2.skip(e2.len() as int) =~= tail);
    assert(dec_elems(tail, 0) == Ok::<(Seq<BVal>, int), Error>((Seq::empty(), 0int)));
    lemma_dec_elems_cons(r2, BVal::Int(offset), e2.len() as int, 0, Seq::empty(), 0int);
    lemma_int_round_trip(nanos, r2);
    assert(body.skip(e1.len() as int) =~= r2);
    lemma_dec_elems_cons(body, BVal::Int(nanos), e1.len() as int, 1,
        seq![BVal::Int(offset)] + Seq::<BVal>::empty(), e2.len() as int);
    lemma_tiny_struct_parse(2, SIG_TIME, body);
    let fs = seq![BVal::Int(nanos)] + (seq![BVal::Int(offset)] + Seq::<BVal>::empty());
    assert(fs =~= seq![BVal::Int(nanos), BVal::Int(offset)]);
    assert(struct_of(SIG_TIME, 2, fs) == Ok::<BVal, Error>(BVal::Time(nanos, offset)));
}

/// An encoded value decodes back to itself, whatever bytes follow.
///
/// This is the codec's central law: for every encodable value, the decoder
/// run on its encoding (with any suffix) returns exactly that value and
/// consumes exactly its encoding.
#[verifier::spinoff_prover]
pub proof fn lemma_val_round_trip(v: BVal, tail: Seq<u8>)
    requires
        encodable_val(v),
    ensures
        dec_val(enc_val(v) + tail) == Ok::<(BVal, int), Error>((v, enc_val(v).len() as int)),
        1 <= enc_val(v).len(),
    decreases v, 2int,
{
    match v {
        BVal::Null => {}
        BVal::Bool(_) => {}
        BVal::Int(n) => {
            lemma_int_round_trip(n, tail);
        }
        BVal::Float(bits) => {
            lemma_float_round_trip(bits, tail);
        }
        BVal::Bytes(p) => {
            lemma_bytes_round_trip(p, tail);
        }
        BVal::Str(s) => {
            lemma_str_round_trip(s, tail);
        }
        BVal::List(l) => {
            lemma_list_round_trip(l, tail);
        }
        BVal::Dict(es) => {
            lemma_dict_round_trip(es, tail);
        }
        BVal::Node(n) => {
            lemma_node_round_trip(n, tail);
        }
        BVal::Rel(r) => {
            lemma_rel_round_trip(r, tail);
        }
        BVal::UnboundRel(r) => {
            lemma_unbound_round_trip(r, tail);
        }
        BVal::Path(p) => {
            lemma_path_round_trip(p, tail);
        }
        BVal::Date(days) => {
            lemma_date_round_trip(days, tail);
        }
        BVal::Time(nanos, offset) => {
            lemma_time_round_trip(nanos, offset, tail);
        }
    }
}

/// Encoded values laid back to back parse back to themselves.
#[verifier::spinoff_prover]
proof fn lemma_elems_round_trip(l: Seq<BVal>, tail: Seq<u8>)
    requires
        encodable_elems(l),
    ensures
        dec_elems(enc_elems(l) + tail, l.len()) == Ok::<(Seq<BVal>, int), Error>(
            (l, enc_elems(l).len() as int),
        ),
    decreases l, 0int,
{
    if l.len() == 0 {
        assert(enc_elems(l) + tail =~= tail);
        assert(l =~= Seq::<BVal>::empty());
    } else {
        let e0 = enc_val(l[0]);
        let erest = enc_elems(l.drop_first());
        let b = enc_elems(l) + tail;
        assert(b =~= e0 + (erest + tail));
        assert(encodable_val(l[0]));
        lemma_val_round_trip(l[0], erest + tail);
        assert(b.skip(e0.len() as int) =~= erest + tail);
        assert(forall|i: int|
            0 <= i < l.drop_first().len() ==> encodable_val(#[trigger] l.drop_first()[i]));
        lemma_elems_round_trip(l.drop_first(), tail);
        lemma_dec_elems_cons(b, l[0], e0.len() as int, l.drop_first().len(), l.drop_first(),
            erest.len() as int);
        assert(seq![l[0]] + l.drop_first() =~= l);
    }
}

/// An encoded list decodes back to its elements, whatever bytes follow.
#[verifier::spinoff_prover]
pub proof fn lemma_list_round_trip(l: Seq<BVal>, tail: Seq<u8>)
    requires
        l.len() <= MAX_LEN_32,
        encodable_elems(l),
    ensures
        dec_val(enc_val(BVal::List(l)) + tail) == Ok::<(BVal, int), Error>(
            (BVal::List(l), enc_val(BVal::List(l)).len() as int),
        ),
        1 <= enc_val(BVal::List(l)).len(),
    decreases l, 1int,
{
    let hdr = enc_size(MARKER_TINY_LIST, MARKER_LIST_8, MARKER_LIST_16, MARKER_LIST_32, l.len());
    let b = enc_val(BVal::List(l)) + tail;
    assert(b =~= hdr + (enc_elems(l) + tail));
    lemma_size_round_trip(MARKER_TINY_LIST, MARKER_LIST_8, MARKER_LIST_16, MARKER_LIST_32,
        l.len(), enc_elems(l) + tail);
    assert(b.skip(hdr.len() as int) =~= enc_elems(l) + tail);
    lemma_elems_round_trip(l, tail);
}

/// One step of parsing entries back to back.
#[verifier::spinoff_prover]
proof fn lemma_dec_entries_cons(
    b: Seq<u8>,
    k: Seq<char>,
    ck: int,
    v: BVal,
    cv: int,
    n: nat,
    es: Seq<(Seq<char>, BVal)>,
    c2: int,
)
    requires
        dec_val(b) == Ok::<(BVal, int), Error>((BVal::Str(k), ck)),
        1 <= ck <= b.len(),
        dec_val(b.skip(ck)) == Ok::<(BVal, int), Error>((v, cv)),
        1 <= cv <= b.len() - ck,
        dec_entries(b.skip(ck + cv), n) == Ok::<(Seq<(Seq<char>, BVal)>, int), Error>((es, c2)),
    ensures
        dec_entries(b, (n + 1) as nat) == Ok::<(Seq<(Seq<char>, BVal)>, int), Error>(
            (seq![(k, v)] + es, ck + cv + c2),
        ),
{
    assert(b.skip(ck).skip(cv) =~= b.skip(ck + cv));
}

/// Encoded (key, value) entries laid back to back parse back to themselves.
#[verifier::spinoff_prover]
proof fn lemma_entries_round_trip(es: Seq<(Seq<char>, BVal)>, tail: Seq<u8>)
    requires
        encodable_entries(es),
    ensures
        dec_entries(enc_entries(es) + tail, es.len()) == Ok::<
            (Seq<(Seq<char>, BVal)>, int),
            Error,
        >((es, enc_entries(es).len() as int)),
    decreases es, 0int,
{
    if es.len() == 0 {
        assert(enc_entries(es) + tail =~= tail);
        assert(es =~= Seq::<(Seq<char>, BVal)>::empty());
    } else {
        let ek = enc_str(es[0].0);
        let ev = enc_val(es[0].1);
        let erest = enc_entries(es.drop_first());
        let b = enc_entries(es) + tail;
        let rv = ev + (erest + tail);
        assert(b =~= ek + rv);
        lemma_str_round_trip(es[0].0, rv);
        assert(encodable_val(es[0].1));
        lemma_val_round_trip(es[0].1, erest + tail);
        assert(b.skip(ek.len() as int) =~= rv);
        assert(rv.skip(ev.len() as int) =~= erest + tail);
        assert(b.skip((ek.len() + ev.len()) as int) =~= erest + tail);
        assert(forall|i: int|
            0 <= i < es.drop_first().len() ==> str_fits((#[trigger] es.drop_first()[i]).0)
                && encodable_val(es.drop_first()[i].1));
        lemma_entries_round_trip(es.drop_first(), tail);
        lemma_dec_entries_cons(b, es[0].0, ek.len() as int, es[0].1, ev.len() as int,
            es.drop_first().len(), es.drop_first(), erest.len() as int);
        assert(seq![(es[0].0, es[0].1)] + es.drop_first() =~= es);
    }
}

/// An encoded map decodes back to its entries, whatever bytes follow.
#[verifier::spinoff_prover]
pub proof fn lemma_dict_round_trip(es: Seq<(Seq<char>, BVal)>, tail: Seq<u8>)
    requires
        es.len() <= MAX_LEN_32,
        encodable_entries(es),
    ensures
        dec_val(enc_dict(es) + tail) == Ok::<(BVal, int), Error>(
            (BVal::Dict(es), enc_dict(es).len() as int),
        ),
        1 <= enc_dict(es).len(),
    decreases es, 1int,
{
    let hdr = enc_size(MARKER_TINY_MAP, MARKER_MAP_8, MARKER_MAP_16, MARKER_MAP_32, es.len());
    let b = enc_dict(es) + tail;
    assert(b =~= hdr + (enc_entries(es) + tail));
    lemma_size_round_trip(MARKER_TINY_MAP, MARKER_MAP_8, MARKER_MAP_16, MARKER_MAP_32, es.len(),
        enc_entries(es) + tail);
    assert(b.skip(hdr.len() as int) =~= enc_entries(es) + tail);
    lemma_entries_round_trip(es, tail);
}

/// An encoded node structure decodes back to itself.
#[verifier::spinoff_prover]
proof fn lemma_node_round_trip(n: NodeM, tail: Seq<u8>)
    requires
        encodable_node(n),
    ensures
        dec_val(enc_node(n) + tail) == Ok::<(BVal, int), Error>(
            (BVal::Node(n), enc_node(n).len() as int),
        ),
        1 <= enc_node(n).len(),
    decreases n, 2int,
{
    let e1 = enc_int(n.id);
    let e2 = enc_str_list_val(n.labels);
    let e3 = enc_dict(n.properties);
    let r3 = e3 + tail;
    let r2 = e2 + r3;
    let body = e1 + r2;
    let b = enc_node(n) + tail;
    assert(b =~= seq![(MARKER_TINY_STRUCT + 3) as u8, SIG_NODE] + body);
    lemma_dict_round_trip(n.properties, tail);
    assert(r3.skip(e3.len() as int) =~= tail);
    assert(dec_elems(tail, 0) == Ok::<(Seq<BVal>, int), Error>((Seq::empty(), 0int)));
    lemma_dec_elems_cons(r3, BVal::Dict(n.properties), e3.len() as int, 0, Seq::empty(), 0int);
    lemma_str_list_round_trip(n.labels, r3);
    assert(r2.skip(e2.len() as int) =~= r3);
    lemma_dec_elems_cons(r2, BVal::List(str_vals(n.labels)), e2.len() as int, 1,
        seq![BVal::Dict(n.properties)] + Seq::<BVal>::empty(), e3.len() as int);
    lemma_int_round_trip(n.id, r2);
    assert(body.skip(e1.len() as int) =~= r2);
    lemma_dec_elems_cons(body, BVal::Int(n.id), e1.len() as int, 2,
        seq![BVal::List(str_vals(n.labels))] + (seq![BVal::Dict(n.properties)]
            + Seq::<BVal>::empty()), (e2.len() + e3.len()) as int);
    lemma_tiny_struct_parse(3, SIG_NODE, body);
    let fs = seq![BVal::Int(n.id)] + (seq![BVal::List(str_vals(n.labels))] + (seq![
        BVal::Dict(n.properties),
    ] + Seq::<BVal>::empty()));
    assert(fs =~= seq![
        BVal::Int(n.id),
        BVal::List(str_vals(n.labels)),
        BVal::Dict(n.properties),
    ]);
    assert(struct_of(SIG_NODE, 3, fs) == Ok::<BVal, Error>(BVal::Node(n))) by {
        assert(all_str(str_vals(n.labels)));
        assert(strs_of(str_vals(n.labels)) =~= n.labels);
        assert(struct_of(SIG_NODE, 3, fs)->Ok_0->Node_0 =~= n);
    }
}

/// Encoded nodes laid back to back parse back to node values.
#[verifier::spinoff_prover]
proof fn lemma_nodes_round_trip(ns: Seq<NodeM>, tail: Seq<u8>)
    requires
        encodable_nodes(ns),
    ensures
        dec_elems(enc_nodes(ns) + tail, ns.len()) == Ok::<(Seq<BVal>, int), Error>(
            (node_vals(ns), enc_nodes(ns).len() as int),
        ),
    decreases ns, 3int,
{
    if ns.len() == 0 {
        assert(enc_nodes(ns) + tail =~= tail);
        assert(node_vals(ns) =~= Seq::<BVal>::empty());
    } else {
        let e0 = enc_node(ns[0]);
        let erest = enc_nodes(ns.drop_first());
        let b = enc_nodes(ns) + tail;
        assert(b =~= e0 + (erest + tail));
        assert(encodable_node(ns[0]));
        lemma_node_round_trip(ns[0], erest + tail);
        assert(b.skip(e0.len() as int) =~= erest + tail);
        assert(forall|i: int|
            0 <= i < ns.drop_first().len() ==> encodable_node(#[trigger] ns.drop_first()[i]));
        lemma_nodes_round_trip(ns.drop_first(), tail);
        lemma_dec_elems_cons(b, BVal::Node(ns[0]), e0.len() as int, ns.drop_first().len(),
            node_vals(ns.drop_first()), erest.len() as int);
        assert(seq![BVal::Node(ns[0])] + node_vals(ns.drop_first()) =~= node_vals(ns));
    }
}

/// An encoded list of nodes decodes back to the node values.
#[verifier::spinoff_prover]
proof fn lemma_node_list_round_trip(ns: Seq<NodeM>, tail: Seq<u8>)
    requires
        ns.len() <= MAX_LEN_32,
        encodable_nodes(ns),
    ensures
        dec_val(enc_node_list(ns) + tail) == Ok::<(BVal, int), Error>(
            (BVal::List(node_vals(ns)), enc_node_list(ns).len() as int),
        ),
        1 <= enc_node_list(ns).len(),
    decreases ns, 4int,
{
    let hdr = enc_size(MARKER_TINY_LIST, MARKER_LIST_8, MARKER_LIST_16, MARKER_LIST_32, ns.len());
    let b = enc_node_list(ns) + tail;
    assert(b =~= hdr + (enc_nodes(ns) + tail));
    lemma_size_round_trip(MARKER_TINY_LIST, MARKER_LIST_8, MARKER_LIST_16, MARKER_LIST_32,
        ns.len(), enc_nodes(ns) + tail);
    assert(b.skip(hdr.len() as int) =~= enc_nodes(ns) + tail);
    lemma_nodes_round_trip(ns, tail);
    assert(node_vals(ns).len() == ns.len());
}

/// An encoded unbound relationship decodes back to itself.
#[verifier::spinoff_prover]
proof fn lemma_unbound_round_trip(r: UnboundRelM, tail: Seq<u8>)
    requires
        encodable_unbound(r),
    ensures
        dec_val(enc_unbound(r) + tail) == Ok::<(BVal, int), Error>(
            (BVal::UnboundRel(r), enc_unbound(r).len() as int),
        ),
        1 <= enc_unbound(r).len(),
    decreases r, 2int,
{
    let e1 = enc_int(r.id);
    let e2 = enc_str(r.rel_type);
    let e3 = enc_dict(r.properties);
    let r3 = e3 + tail;
    let r2 = e2 + r3;
    let body = e1 + r2;
    let b = enc_unbound(r) + tail;
    assert(b =~= seq![(MARKER_TINY_STRUCT + 3) as u8, SIG_UNBOUND_RELATIONSHIP] + body);
    lemma_dict_round_trip(r.properties, tail);
    assert(r3.skip(e3.len() as int) =~= tail);
    assert(dec_elems(tail, 0) == Ok::<(Seq<BVal>, int), Error>((Seq::empty(), 0int)));
    lemma_dec_elems_cons(r3, BVal::Dict(r.properties), e3.len() as int, 0, Seq::empty(), 0int);
    lemma_str_round_trip(r.rel_type, r3);
    assert(r2.skip(e2.len() as int) =~= r3);
    lemma_dec_elems_cons(r2, BVal::Str(r.rel_type), e2.len() as int, 1,
        seq![BVal::Dict(r.properties)] + Seq::<BVal>::empty(), e3.len() as int);
    lemma_int_round_trip(r.id, r2);
    assert(body.skip(e1.len() as int) =~= r2);
    lemma_dec_elems_cons(body, BVal::Int(r.id), e1.len() as int, 2,
        seq![BVal::Str(r.rel_type)] + (seq![BVal::Dict(r.properties)] + Seq::<BVal>::empty()),
        (e2.len() + e3.len()) as int);
    lemma_tiny_struct_parse(3, SIG_UNBOUND_RELATIONSHIP, body);
    let fs = seq![BVal::Int(r.id)] + (seq![BVal::Str(r.rel_type)] + (seq![
        BVal::Dict(r.properties),
    ] + Seq::<BVal>::empty()));
    assert(fs =~= seq![BVal::Int(r.id), BVal::Str(r.rel_type), BVal::Dict(r.properties)]);
    assert(struct_of(SIG_UNBOUND_RELATIONSHIP, 3, fs) == Ok::<BVal, Error>(
        BVal::UnboundRel(r),
    )) by {
        assert(struct_of(SIG_UNBOUND_RELATIONSHIP, 3, fs)->Ok_0->UnboundRel_0 =~= r);
    }
}

/// Encoded unbound relationships laid back to back parse back to values.
#[verifier::spinoff_prover]
proof fn lemma_unbounds_round_trip(rs: Seq<UnboundRelM>, tail: Seq<u8>)
    requires
        encodable_unbounds(rs),
    ensures
        dec_elems(enc_unbounds(rs) + tail, rs.len()) == Ok::<(Seq<BVal>, int), Error>(
            (unbound_vals(rs), enc_unbounds(rs).len() as int),
        ),
    decreases rs, 3int,
{
    if rs.len() == 0 {
        assert(enc_unbounds(rs) + tail =~= tail);
        assert(unbound_vals(rs) =~= Seq::<BVal>::empty());
    } else {
        let e0 = enc_unbound(rs[0]);
        let erest = enc_unbounds(rs.drop_first());
        let b = enc_unbounds(rs) + tail;
        assert(b =~= e0 + (erest + tail));
        assert(encodable_unbound(rs[0]));
        lemma_unbound_round_trip(rs[0], erest + tail);
        assert(b.skip(e0.len() as int) =~= erest + tail);
        assert(forall|i: int|
            0 <= i < rs.drop_first().len() ==> encodable_unbound(
                #[trigger] rs.drop_first()[i],
            ));
        lemma_unbounds_round_trip(rs.drop_first(), tail);
        lemma_dec_elems_cons(b, BVal::UnboundRel(rs[0]), e0.len() as int, rs.drop_first().len(),
            unbound_vals(rs.drop_first()), erest.len() as int);
        assert(seq![BVal::UnboundRel(rs[0])] + unbound_vals(rs.drop_first()) =~= unbound_vals(
            rs,
        ));
    }
}

/// An encoded list of unbound relationships decodes back to the values.
#[verifier::spinoff_prover]
proof fn lemma_unbound_list_round_trip(rs: Seq<UnboundRelM>, tail: Seq<u8>)
    requires
        rs.len() <= MAX_LEN_32,
        encodable_unbounds(rs),
    ensures
        dec_val(enc_unbound_list(rs) + tail) == Ok::<(BVal, int), Error>(
            (BVal::List(unbound_vals(rs)), enc_unbound_list(rs).len() as int),
        ),
        1 <= enc_unbound_list(rs).len(),
    decreases rs, 4int,
{
    let hdr = enc_size(MARKER_TINY_LIST, MARKER_LIST_8, MARKER_LIST_16, MARKER_LIST_32, rs.len());
    let b = enc_unbound_list(rs) + tail;
    assert(b =~= hdr + (enc_unbounds(rs) + tail));
    lemma_size_round_trip(MARKER_TINY_LIST, MARKER_LIST_8, MARKER_LIST_16, MARKER_LIST_32,
        rs.len(), enc_unbounds(rs) + tail);
    assert(b.skip(hdr.len() as int) =~= enc_unbounds(rs) + tail);
    lemma_unbounds_round_trip(rs, tail);
    assert(unbound_vals(rs).len() == rs.len());
}

/// An encoded relationship structure decodes back to itself.
#[verifier::rlimit(100)]
#[verifier::spinoff_prover]
proof fn lemma_rel_round_trip(r: RelM, tail: Seq<u8>)
    requires
        str_fits(r.rel_type),
        r.properties.len() <= MAX_LEN_32,
        encodable_entries(r.properties),
    ensures
        dec_val(enc_rel(r) + tail) == Ok::<(BVal, int), Error>(
            (BVal::Rel(r), enc_rel(r).len() as int),
        ),
        1 <= enc_rel(r).len(),
    decreases r, 2int,
{
    let e1 = enc_int(r.id);
    let e2 = enc_int(r.start_node_id);
    let e3 = enc_int(r.end_node_id);
    let e4 = enc_str(r.rel_type);
    let e5 = enc_dict(r.properties);
    let r5 = e5 + tail;
    let r4 = e4 + r5;
    let r3 = e3 + r4;
    let r2 = e2 + r3;
    let body = e1 + r2;
    let b = enc_rel(r) + tail;
    assert(b =~= seq![(MARKER_TINY_STRUCT + 5) as u8, SIG_RELATIONSHIP] + body);
    lemma_dict_round_trip(r.properties, tail);
    assert(r5.skip(e5.len() as int) =~= tail);
    assert(dec_elems(tail, 0) == Ok::<(Seq<BVal>, int), Error>((Seq::empty(), 0int)));
    lemma_dec_elems_cons(r5, BVal::Dict(r.properties), e5.len() as int, 0, Seq::empty(), 0int);
    lemma_str_round_trip(r.rel_type, r5);
    assert(r4.skip(e4.len() as int) =~= r5);
    lemma_dec_elems_cons(r4, BVal::Str(r.rel_type), e4.len() as int, 1,
        seq![BVal::Dict(r.properties)] + Seq::<BVal>::empty(), e5.len() as int);
    lemma_int_round_trip(r.end_node_id, r4);
    assert(r3.skip(e3.len() as int) =~= r4);
    lemma_dec_elems_cons(r3, BVal::Int(r.end_node_id), e3.len() as int, 2,
        seq![BVal::Str(r.rel_type)] + (seq![BVal::Dict(r.properties)] + Seq::<BVal>::empty()),
        (e4.len() + e5.len()) as int);
    lemma_int_round_trip(r.start_node_id, r3);
    assert(r2.skip(e2.len() as int) =~= r3);
    lemma_dec_elems_cons(r2, BVal::Int(r.start_node_id), e2.len() as int, 3,
        seq![BVal::Int(r.end_node_id)] + (seq![BVal::Str(r.rel_type)] + (seq![
            BVal::Dict(r.properties),
        ] + Seq::<BVal>::empty())), (e3.len() + e4.len() + e5.len()) as int);
    lemma_int_round_trip(r.id, r2);
    assert(body.skip(e1.len() as int) =~= r2);
    lemma_dec_elems_cons(body, BVal::Int(r.id), e1.len() as int, 4,
        seq![BVal::Int(r.start_node_id)] + (seq![BVal::Int(r.end_node_id)] + (seq![
            BVal::Str(r.rel_type),
        ] + (seq![BVal::Dict(r.properties)] + Seq::<BVal>::empty()))),
        (e2.len() + e3.len() + e4.len() + e5.len()) as int);
    lemma_tiny_struct_parse(5, SIG_RELATIONSHIP, body);
    let fs = seq![BVal::Int(r.id)] + (seq![BVal::Int(r.start_node_id)] + (seq![
        BVal::Int(r.end_node_id),
    ] + (seq![BVal::Str(r.rel_type)] + (seq![BVal::Dict(r.properties)]
        + Seq::<BVal>::empty()))));
    assert(fs =~= seq![
        BVal::Int(r.id),
        BVal::Int(r.start_node_id),
        BVal::Int(r.end_node_id),
        BVal::Str(r.rel_type),
        BVal::Dict(r.properties),
    ]);
    assert(struct_of(SIG_RELATIONSHIP, 5, fs) == Ok::<BVal, Error>(BVal::Rel(r))) by {
        assert(fs[0] is Int && fs[1] is Int && fs[2] is Int && fs[3] is Str && fs[4] is Dict);
        assert(struct_of(SIG_RELATIONSHIP, 5, fs)->Ok_0->Rel_0 =~= r);
    }
}

/// The three fields of a path structure parse back to the three list
/// values they encode.
#[verifier::rlimit(100)]
#[verifier::spinoff_prover]
proof fn lemma_path_fields_round_trip(p: PathM, tail: Seq<u8>)
    requires
        p.nodes.len() <= MAX_LEN_32,
        p.relationships.len() <= MAX_LEN_32,
        p.sequence.len() <= MAX_LEN_32,
        encodable_nodes(p.nodes),
        encodable_unbounds(p.relationships),
    ensures
        ({
            let e1 = enc_node_list(p.nodes);
            let e2 = enc_unbound_list(p.relationships);
            let e3 = enc_int_list_val(p.sequence);
            dec_elems(e1 + (e2 + (e3 + tail)), 3) == Ok::<(Seq<BVal>, int), Error>(
                (
                    seq![
                        BVal::List(node_vals(p.nodes)),
                        BVal::List(unbound_vals(p.relationships)),
                        BVal::List(int_vals(p.sequence)),
                    ],
                    (e1.len() + e2.len() + e3.len()) as int,
                ),
            )
        }),
    decreases p, 5int,
{
    let e1 = enc_node_list(p.nodes);
    let e2 = enc_unbound_list(p.relationships);
    let e3 = enc_int_list_val(p.sequence);
    let v1 = BVal::List(node_vals(p.nodes));
    let v2 = BVal::List(unbound_vals(p.relationships));
    let v3 = BVal::List(int_vals(p.sequence));
    let r3 = e3 + tail;
    let r2 = e2 + r3;
    let body = e1 + r2;
    lemma_int_list_round_trip(p.sequence, tail);
    assert(r3.skip(e3.len() as int) =~= tail);
    assert(dec_elems(tail, 0) == Ok::<(Seq<BVal>, int), Error>((Seq::empty(), 0int)));
    let f2 = seq![v3] + Seq::<BVal>::empty();
    let f1 = seq![v2] + f2;
    let f0 = seq![v1] + f1;
    lemma_dec_elems_cons(r3, v3, e3.len() as int, 0, Seq::empty(), 0int);
    lemma_unbound_list_round_trip(p.relationships, r3);
    assert(r2.skip(e2.len() as int) =~= r3);
    lemma_dec_elems_cons(r2, v2, e2.len() as int, 1, f2, e3.len() as int);
    lemma_node_list_round_trip(p.nodes, r2);
    assert(body.skip(e1.len() as int) =~= r2);
    lemma_dec_elems_cons(body, v1, e1.len() as int, 2, f1, (e2.len() + e3.len()) as int);
    assert(f0 =~= seq![v1, v2, v3]);
}

/// A path's decoded fields assemble back to the path.
#[verifier::spinoff_prover]
proof fn lemma_path_struct_of(p: PathM)
    ensures
        struct_of(
            SIG_PATH,
            3,
            seq![
                BVal::List(node_vals(p.nodes)),
                BVal::List(unbound_vals(p.relationships)),
                BVal::List(int_vals(p.sequence)),
            ],
        ) == Ok::<BVal, Error>(BVal::Path(p)),
{
    let fs = seq![
        BVal::List(node_vals(p.nodes)),
        BVal::List(unbound_vals(p.relationships)),
        BVal::List(int_vals(p.sequence)),
    ];
    assert(all_node(node_vals(p.nodes)));
    assert(all_unbound(unbound_vals(p.relationships)));
    assert(all_int(int_vals(p.sequence)));
    assert(nodes_of(node_vals(p.nodes)) =~= p.nodes);
    assert(unbounds_of(unbound_vals(p.relationships)) =~= p.relationships);
    assert(ints_of(int_vals(p.sequence)) =~= p.sequence);
    assert(struct_of(SIG_PATH, 3, fs)->Ok_0->Path_0 =~= p);
}

/// An encoded path structure decodes back to itself.
#[verifier::rlimit(100)]
#[verifier::spinoff_prover]
proof fn lemma_path_round_trip(p: PathM, tail: Seq<u8>)
    requires
        p.nodes.len() <= MAX_LEN_32,
        p.relationships.len() <= MAX_LEN_32,
        p.sequence.len() <= MAX_LEN_32,
        encodable_nodes(p.nodes),
        encodable_unbounds(p.relationships),
    ensures
        dec_val(enc_path(p) + tail) == Ok::<(BVal, int), Error>(
            (BVal::Path(p), enc_path(p).len() as int),
        ),
        1 <= enc_path(p).len(),
    decreases p, 6int,
{
    let e1 = enc_node_list(p.nodes);
    let e2 = enc_unbound_list(p.relationships);
    let e3 = enc_int_list_val(p.sequence);
    let body = e1 + (e2 + (e3 + tail));
    let b = enc_path(p) + tail;
    assert(b =~= seq![(MARKER_TINY_STRUCT + 3) as u8, SIG_PATH] + body);
    lemma_path_fields_round_trip(p, tail);
    lemma_tiny_struct_parse(3, SIG_PATH, body);
    lemma_path_struct_of(p);
    assert(enc_path(p).len() == 2 + e1.len() + e2.len() + e3.len());
}

/// The integer encoder picks the smallest width that fits, and decoding
/// that form yields the integer back: one byte inside the tiny range, a
/// marked byte down to -128, then 16, 32 and 64 bits as the value requires.
pub proof fn lemma_int_smallest_width(n: i64)
    ensures
        dec_val(enc_int(n)) == Ok::<(BVal, int), Error>((BVal::Int(n), enc_int(n).len() as int)),
        (-16 <= n <= 127) <==> enc_int(n).len() == 1,
        (-128 <= n < -16) <==> (enc_int(n).len() == 2 && enc_int(n)[0] == MARKER_INT_8),
        (-0x8000 <= n <= 0x7fff && !(-128 <= n <= 127)) <==> (enc_int(n).len() == 3 && enc_int(
            n,
        )[0] == MARKER_INT_16),
        (-0x8000_0000 <= n <= 0x7fff_ffff && !(-0x8000 <= n <= 0x7fff)) <==> (enc_int(n).len()
            == 5 && enc_int(n)[0] == MARKER_INT_32),
        !(-0x8000_0000 <= n <= 0x7fff_ffff) <==> (enc_int(n).len() == 9 && enc_int(n)[0]
            == MARKER_INT_64),
{
    lemma_int_round_trip(n, Seq::empty());
    assert(enc_int(n) + Seq::<u8>::empty() =~= enc_int(n));
}

} // verus!
