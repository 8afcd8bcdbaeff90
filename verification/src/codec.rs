//! The byte-level specification of the value codec: what the encoder emits
//! for every value, and what the decoder yields for every byte sequence.
//!
//! All integers on the wire are big-endian. Containers carry their size
//! either packed into the marker's low nibble (the tiny forms) or in a
//! length field whose width the marker names.

use vstd::prelude::*;

use crate::error::Error;
use crate::value::{BVal, NodeM, PathM, RelM, UnboundRelM};
use crate::wire::{be2, be2_val, be4, be4_val, be8, be8_val};
use vstd::utf8::{decode_utf8, encode_utf8, valid_utf8};

verus! {

pub const MARKER_NULL: u8 = 0xC0;
pub const MARKER_FLOAT: u8 = 0xC1;
pub const MARKER_FALSE: u8 = 0xC2;
pub const MARKER_TRUE: u8 = 0xC3;
pub const MARKER_INT_8: u8 = 0xC8;
pub const MARKER_INT_16: u8 = 0xC9;
pub const MARKER_INT_32: u8 = 0xCA;
pub const MARKER_INT_64: u8 = 0xCB;
pub const MARKER_BYTES_8: u8 = 0xCC;
pub const MARKER_BYTES_16: u8 = 0xCD;
pub const MARKER_BYTES_32: u8 = 0xCE;
pub const MARKER_TINY_STRING: u8 = 0x80;
pub const MARKER_STRING_8: u8 = 0xD0;
pub const MARKER_STRING_16: u8 = 0xD1;
pub const MARKER_STRING_32: u8 = 0xD2;
pub const MARKER_TINY_LIST: u8 = 0x90;
pub const MARKER_LIST_8: u8 = 0xD4;
pub const MARKER_LIST_16: u8 = 0xD5;
pub const MARKER_LIST_32: u8 = 0xD6;
pub const MARKER_TINY_MAP: u8 = 0xA0;
pub const MARKER_MAP_8: u8 = 0xD8;
pub const MARKER_MAP_16: u8 = 0xD9;
pub const MARKER_MAP_32: u8 = 0xDA;
pub const MARKER_TINY_STRUCT: u8 = 0xB0;
pub const MARKER_STRUCT_8: u8 = 0xDC;
pub const MARKER_STRUCT_16: u8 = 0xDD;

pub const SIG_NODE: u8 = 0x4E;
pub const SIG_RELATIONSHIP: u8 = 0x52;
pub const SIG_PATH: u8 = 0x50;
pub const SIG_UNBOUND_RELATIONSHIP: u8 = 0x72;
pub const SIG_DATE: u8 = 0x44;
pub const SIG_TIME: u8 = 0x54;

/// The widest length any container form can carry.
pub const MAX_LEN_32: u32 = 0xffff_ffff;

// ---------------------------------------------------------------------------
// Encoder specification
// ---------------------------------------------------------------------------

/// The smallest-width encoding of a signed integer.
pub open spec fn enc_int(n: i64) -> Seq<u8> {
    if -16 <= n <= 127 {
        seq![n as u8]
    } else if -128 <= n < -16 {
        seq![MARKER_INT_8, n as u8]
    } else if -0x8000 <= n <= 0x7fff {
        seq![MARKER_INT_16] + be2(n as u16)
    } else if -0x8000_0000 <= n <= 0x7fff_ffff {
        seq![MARKER_INT_32] + be4(n as u32)
    } else {
        seq![MARKER_INT_64] + be8(n as u64)
    }
}

/// The size header of a container with a tiny form: the size packed into
/// the marker's low nibble when it fits, else the named wider form.
/// Meaningful for `len <= MAX_LEN_32`.
pub open spec fn enc_size(tiny_base: u8, m8: u8, m16: u8, m32: u8, len: nat) -> Seq<u8> {
    if len <= 15 {
        seq![(tiny_base + len) as u8]
    } else if len <= 0xff {
        seq![m8, len as u8]
    } else if len <= 0xffff {
        seq![m16] + be2(len as u16)
    } else {
        seq![m32] + be4(len as u32)
    }
}

/// The size header of a byte array, which has no tiny form.
pub open spec fn enc_bytes_size(len: nat) -> Seq<u8> {
    if len <= 0xff {
        seq![MARKER_BYTES_8, len as u8]
    } else if len <= 0xffff {
        seq![MARKER_BYTES_16] + be2(len as u16)
    } else {
        seq![MARKER_BYTES_32] + be4(len as u32)
    }
}

/// The encoding of a string: byte-length header, then the UTF-8 bytes.
pub open spec fn enc_str(s: Seq<char>) -> Seq<u8> {
    enc_size(
        MARKER_TINY_STRING,
        MARKER_STRING_8,
        MARKER_STRING_16,
        MARKER_STRING_32,
        encode_utf8(s).len(),
    ) + encode_utf8(s)
}

/// The header of a structure: field count, then the signature byte.
/// Meaningful for `n <= 0xffff`.
pub open spec fn enc_struct_hdr(n: nat, sig: u8) -> Seq<u8> {
    if n <= 15 {
        seq![(MARKER_TINY_STRUCT + n) as u8, sig]
    } else if n <= 0xff {
        seq![MARKER_STRUCT_8, n as u8, sig]
    } else {
        seq![MARKER_STRUCT_16] + be2(n as u16) + seq![sig]
    }
}

/// The encoding of a list of strings, as used for node labels.
pub open spec fn enc_str_list(ls: Seq<Seq<char>>) -> Seq<u8>
    decreases ls,
{
    if ls.len() == 0 {
        Seq::empty()
    } else {
        enc_str(ls[0]) + enc_str_list(ls.drop_first())
    }
}

/// The encoding of a list value whose elements are strings.
pub open spec fn enc_str_list_val(ls: Seq<Seq<char>>) -> Seq<u8> {
    enc_size(MARKER_TINY_LIST, MARKER_LIST_8, MARKER_LIST_16, MARKER_LIST_32, ls.len())
        + enc_str_list(ls)
}

/// The encoding of the integers of a list, back to back.
pub open spec fn enc_int_list(ns: Seq<i64>) -> Seq<u8>
    decreases ns,
{
    if ns.len() == 0 {
        Seq::empty()
    } else {
        enc_int(ns[0]) + enc_int_list(ns.drop_first())
    }
}

/// The encoding of a list value whose elements are integers.
pub open spec fn enc_int_list_val(ns: Seq<i64>) -> Seq<u8> {
    enc_size(MARKER_TINY_LIST, MARKER_LIST_8, MARKER_LIST_16, MARKER_LIST_32, ns.len())
        + enc_int_list(ns)
}

/// The encoding of a value.
pub open spec fn enc_val(v: BVal) -> Seq<u8>
    decreases v, 2int,
{
    match v {
        BVal::Null => seq![MARKER_NULL],
        BVal::Bool(b) => if b {
            seq![MARKER_TRUE]
        } else {
            seq![MARKER_FALSE]
        },
        BVal::Int(n) => enc_int(n),
        BVal::Float(bits) => seq![MARKER_FLOAT] + be8(bits),
        BVal::Bytes(b) => enc_bytes_size(b.len()) + b,
        BVal::Str(s) => enc_str(s),
        BVal::List(l) => enc_size(
            MARKER_TINY_LIST,
            MARKER_LIST_8,
            MARKER_LIST_16,
            MARKER_LIST_32,
            l.len(),
        ) + enc_elems(l),
        BVal::Dict(es) => enc_dict(es),
        BVal::Node(n) => enc_node(n),
        BVal::Rel(r) => enc_rel(r),
        BVal::UnboundRel(r) => enc_unbound(r),
        BVal::Path(p) => enc_path(p),
        BVal::Date(days) => seq![(MARKER_TINY_STRUCT + 1) as u8, SIG_DATE] + enc_int(days),
        BVal::Time(nanos, offset) => seq![(MARKER_TINY_STRUCT + 2) as u8, SIG_TIME]
            + enc_int(nanos) + enc_int(offset),
    }
}

/// The encoding of a relationship structure.
pub open spec fn enc_rel(r: RelM) -> Seq<u8>
    decreases r, 2int,
{
    seq![(MARKER_TINY_STRUCT + 5) as u8, SIG_RELATIONSHIP] + enc_int(r.id)
        + enc_int(r.start_node_id) + enc_int(r.end_node_id) + enc_str(r.rel_type)
        + enc_dict(r.properties)
}

/// The encoding of a path structure.
pub open spec fn enc_path(p: PathM) -> Seq<u8>
    decreases p, 5int,
{
    seq![(MARKER_TINY_STRUCT + 3) as u8, SIG_PATH] + enc_node_list(p.nodes)
        + enc_unbound_list(p.relationships) + enc_int_list_val(p.sequence)
}

/// The encodings of a sequence of values, back to back.
pub open spec fn enc_elems(l: Seq<BVal>) -> Seq<u8>
    decreases l, 0int,
{
    if l.len() == 0 {
        Seq::empty()
    } else {
        enc_val(l[0]) + enc_elems(l.drop_first())
    }
}

/// The encodings of a sequence of (key, value) entries, back to back.
pub open spec fn enc_entries(es: Seq<(Seq<char>, BVal)>) -> Seq<u8>
    decreases es, 0int,
{
    if es.len() == 0 {
        Seq::empty()
    } else {
        enc_str(es[0].0) + enc_val(es[0].1) + enc_entries(es.drop_first())
    }
}

/// The encoding of a map value: entry-count header, then the entries.
pub open spec fn enc_dict(es: Seq<(Seq<char>, BVal)>) -> Seq<u8>
    decreases es, 1int,
{
    enc_size(MARKER_TINY_MAP, MARKER_MAP_8, MARKER_MAP_16, MARKER_MAP_32, es.len())
        + enc_entries(es)
}

/// The encoding of a node structure.
pub open spec fn enc_node(n: NodeM) -> Seq<u8>
    decreases n, 2int,
{
    seq![(MARKER_TINY_STRUCT + 3) as u8, SIG_NODE] + enc_int(n.id) + enc_str_list_val(n.labels)
        + enc_dict(n.properties)
}

/// The encodings of a sequence of nodes, back to back.
pub open spec fn enc_nodes(ns: Seq<NodeM>) -> Seq<u8>
    decreases ns, 3int,
{
    if ns.len() == 0 {
        Seq::empty()
    } else {
        enc_node(ns[0]) + enc_nodes(ns.drop_first())
    }
}

/// The encoding of a list value whose elements are nodes.
pub open spec fn enc_node_list(ns: Seq<NodeM>) -> Seq<u8>
    decreases ns, 4int,
{
    enc_size(MARKER_TINY_LIST, MARKER_LIST_8, MARKER_LIST_16, MARKER_LIST_32, ns.len())
        + enc_nodes(ns)
}

/// The encoding of an unbound-relationship structure.
pub open spec fn enc_unbound(r: UnboundRelM) -> Seq<u8>
    decreases r, 2int,
{
    seq![(MARKER_TINY_STRUCT + 3) as u8, SIG_UNBOUND_RELATIONSHIP] + enc_int(r.id)
        + enc_str(r.rel_type) + enc_dict(r.properties)
}

/// The encodings of a sequence of unbound relationships, back to back.
pub open spec fn enc_unbounds(rs: Seq<UnboundRelM>) -> Seq<u8>
    decreases rs, 3int,
{
    if rs.len() == 0 {
        Seq::empty()
    } else {
        enc_unbound(rs[0]) + enc_unbounds(rs.drop_first())
    }
}

/// The encoding of a list value whose elements are unbound relationships.
pub open spec fn enc_unbound_list(rs: Seq<UnboundRelM>) -> Seq<u8>
    decreases rs, 4int,
{
    enc_size(MARKER_TINY_LIST, MARKER_LIST_8, MARKER_LIST_16, MARKER_LIST_32, rs.len())
        + enc_unbounds(rs)
}

// ---------------------------------------------------------------------------
// What the encoder accepts
// ---------------------------------------------------------------------------

/// Whether a string's UTF-8 form fits the widest string form.
pub open spec fn str_fits(s: Seq<char>) -> bool {
    encode_utf8(s).len() <= MAX_LEN_32
}

/// Whether a value fits every length form its encoding needs; the encoder
/// succeeds exactly on these values.
pub open spec fn encodable_val(v: BVal) -> bool
    decreases v, 1int,
{
    match v {
        BVal::Null => true,
        BVal::Bool(_) => true,
        BVal::Int(_) => true,
        BVal::Float(_) => true,
        BVal::Bytes(b) => b.len() <= MAX_LEN_32,
        BVal::Str(s) => str_fits(s),
        BVal::List(l) => l.len() <= MAX_LEN_32 && encodable_elems(l),
        BVal::Dict(es) => es.len() <= MAX_LEN_32 && encodable_entries(es),
        BVal::Node(n) => encodable_node(n),
        BVal::Rel(r) => str_fits(r.rel_type) && r.properties.len() <= MAX_LEN_32
            && encodable_entries(r.properties),
        BVal::UnboundRel(r) => encodable_unbound(r),
        BVal::Path(p) => p.nodes.len() <= MAX_LEN_32 && p.relationships.len() <= MAX_LEN_32
            && p.sequence.len() <= MAX_LEN_32 && encodable_nodes(p.nodes)
            && encodable_unbounds(p.relationships),
        BVal::Date(_) => true,
        BVal::Time(_, _) => true,
    }
}

/// Whether every element of a list is encodable.
pub open spec fn encodable_elems(l: Seq<BVal>) -> bool
    decreases l, 0int,
{
    forall|i: int| 0 <= i < l.len() ==> encodable_val(#[trigger] l[i])
}

/// Whether every entry of a map has a fitting key and an encodable value.
pub open spec fn encodable_entries(es: Seq<(Seq<char>, BVal)>) -> bool
    decreases es, 0int,
{
    forall|i: int|
        0 <= i < es.len() ==> str_fits((#[trigger] es[i]).0) && encodable_val(es[i].1)
}

/// Whether a node fits every length form its encoding needs.
pub open spec fn encodable_node(n: NodeM) -> bool
    decreases n, 0int,
{
    &&& n.labels.len() <= MAX_LEN_32
    &&& forall|i: int| 0 <= i < n.labels.len() ==> str_fits(#[trigger] n.labels[i])
    &&& n.properties.len() <= MAX_LEN_32
    &&& encodable_entries(n.properties)
}

/// Whether an unbound relationship fits every length form it needs.
pub open spec fn encodable_unbound(r: UnboundRelM) -> bool
    decreases r, 0int,
{
    str_fits(r.rel_type) && r.properties.len() <= MAX_LEN_32 && encodable_entries(r.properties)
}

/// Whether every node of a sequence is encodable.
pub open spec fn encodable_nodes(ns: Seq<NodeM>) -> bool
    decreases ns, 1int,
{
    forall|i: int| 0 <= i < ns.len() ==> encodable_node(#[trigger] ns[i])
}

/// Whether every unbound relationship of a sequence is encodable.
pub open spec fn encodable_unbounds(rs: Seq<UnboundRelM>) -> bool
    decreases rs, 1int,
{
    forall|i: int| 0 <= i < rs.len() ==> encodable_unbound(#[trigger] rs[i])
}

// ---------------------------------------------------------------------------
// Decoder specification
// ---------------------------------------------------------------------------

/// Whether every element is a string value.
pub open spec fn all_str(l: Seq<BVal>) -> bool {
    forall|i: int| 0 <= i < l.len() ==> (#[trigger] l[i]) is Str
}

/// The strings of a sequence of string values.
pub open spec fn strs_of(l: Seq<BVal>) -> Seq<Seq<char>> {
    Seq::new(l.len(), |i: int| l[i]->Str_0)
}

/// Whether every element is a node value.
pub open spec fn all_node(l: Seq<BVal>) -> bool {
    forall|i: int| 0 <= i < l.len() ==> (#[trigger] l[i]) is Node
}

/// The nodes of a sequence of node values.
pub open spec fn nodes_of(l: Seq<BVal>) -> Seq<NodeM> {
    Seq::new(l.len(), |i: int| l[i]->Node_0)
}

/// Whether every element is an unbound-relationship value.
pub open spec fn all_unbound(l: Seq<BVal>) -> bool {
    forall|i: int| 0 <= i < l.len() ==> (#[trigger] l[i]) is UnboundRel
}

/// The unbound relationships of a sequence of such values.
pub open spec fn unbounds_of(l: Seq<BVal>) -> Seq<UnboundRelM> {
    Seq::new(l.len(), |i: int| l[i]->UnboundRel_0)
}

/// Whether every element is an integer value.
pub open spec fn all_int(l: Seq<BVal>) -> bool {
    forall|i: int| 0 <= i < l.len() ==> (#[trigger] l[i]) is Int
}

/// The integers of a sequence of integer values.
pub open spec fn ints_of(l: Seq<BVal>) -> Seq<i64> {
    Seq::new(l.len(), |i: int| l[i]->Int_0)
}

/// The (signature, field count) pairs that name a value structure.
pub open spec fn known_value_sig(sig: u8, n: nat) -> bool {
    ||| (sig == SIG_NODE && n == 3)
    ||| (sig == SIG_RELATIONSHIP && n == 5)
    ||| (sig == SIG_PATH && n == 3)
    ||| (sig == SIG_UNBOUND_RELATIONSHIP && n == 3)
    ||| (sig == SIG_DATE && n == 1)
    ||| (sig == SIG_TIME && n == 2)
}

/// The value structure a known (signature, field count) pair and its decoded
/// fields denote, or the error when a field has the wrong shape.
pub open spec fn struct_of(sig: u8, n: nat, fs: Seq<BVal>) -> Result<BVal, Error> {
    if sig == SIG_NODE {
        if fs[0] is Int && fs[1] is List && all_str(fs[1]->List_0) && fs[2] is Dict {
            Ok(
                BVal::Node(
                    NodeM {
                        id: fs[0]->Int_0,
                        labels: strs_of(fs[1]->List_0),
                        properties: fs[2]->Dict_0,
                    },
                ),
            )
        } else {
            Err(Error::DeserializerPanic)
        }
    } else if sig == SIG_RELATIONSHIP {
        if fs[0] is Int && fs[1] is Int && fs[2] is Int && fs[3] is Str && fs[4] is Dict {
            Ok(
                BVal::Rel(
                    RelM {
                        id: fs[0]->Int_0,
                        start_node_id: fs[1]->Int_0,
                        end_node_id: fs[2]->Int_0,
                        rel_type: fs[3]->Str_0,
                        properties: fs[4]->Dict_0,
                    },
                ),
            )
        } else {
            Err(Error::DeserializerPanic)
        }
    } else if sig == SIG_PATH {
        if fs[0] is List && all_node(fs[0]->List_0) && fs[1] is List && all_unbound(
            fs[1]->List_0,
        ) && fs[2] is List && all_int(fs[2]->List_0) {
            Ok(
                BVal::Path(
                    PathM {
                        nodes: nodes_of(fs[0]->List_0),
                        relationships: unbounds_of(fs[1]->List_0),
                        sequence: ints_of(fs[2]->List_0),
                    },
                ),
            )
        } else {
            Err(Error::DeserializerPanic)
        }
    } else if sig == SIG_UNBOUND_RELATIONSHIP {
        if fs[0] is Int && fs[1] is Str && fs[2] is Dict {
            Ok(
                BVal::UnboundRel(
                    UnboundRelM {
                        id: fs[0]->Int_0,
                        rel_type: fs[1]->Str_0,
                        properties: fs[2]->Dict_0,
                    },
                ),
            )
        } else {
            Err(Error::DeserializerPanic)
        }
    } else if sig == SIG_DATE {
        if fs[0] is Int {
            Ok(BVal::Date(fs[0]->Int_0))
        } else {
            Err(Error::DeserializerPanic)
        }
    } else {
        // SIG_TIME
        if fs[0] is Int && fs[1] is Int {
            Ok(BVal::Time(fs[0]->Int_0, fs[1]->Int_0))
        } else {
            Err(Error::DeserializerPanic)
        }
    }
}

/// Parses a size header whose marker has a tiny form; meaningful when
/// `b[0]` matches one of the four forms.
pub open spec fn dec_size(b: Seq<u8>, tiny_base: u8, m8: u8, m16: u8, m32: u8) -> Result<
    (nat, int),
    Error,
> {
    let m = b[0];
    if tiny_base <= m < tiny_base + 16 {
        Ok(((m - tiny_base) as nat, 1int))
    } else if m == m8 {
        if b.len() >= 2 {
            Ok((b[1] as nat, 2int))
        } else {
            Err(Error::UnexpectedEof)
        }
    } else if m == m16 {
        if b.len() >= 3 {
            Ok((be2_val(b[1], b[2]) as nat, 3int))
        } else {
            Err(Error::UnexpectedEof)
        }
    } else {
        if b.len() >= 5 {
            Ok((be4_val(b[1], b[2], b[3], b[4]) as nat, 5int))
        } else {
            Err(Error::UnexpectedEof)
        }
    }
}

/// Parses the value at the front of `b`: the value and how many bytes it
/// took, or the first error the bytes force.
pub open spec fn dec_val(b: Seq<u8>) -> Result<(BVal, int), Error>
    decreases b.len(), 0int, 0int,
{
    if b.len() == 0 {
        Err(Error::UnexpectedEof)
    } else {
        let m = b[0];
        if m == MARKER_NULL {
            Ok((BVal::Null, 1int))
        } else if m == MARKER_TRUE {
            Ok((BVal::Bool(true), 1int))
        } else if m == MARKER_FALSE {
            Ok((BVal::Bool(false), 1int))
        } else if m == MARKER_FLOAT {
            if b.len() >= 9 {
                Ok(
                    (
                        BVal::Float(
                            be8_val(b[1], b[2], b[3], b[4], b[5], b[6], b[7], b[8]),
                        ),
                        9int,
                    ),
                )
            } else {
                Err(Error::UnexpectedEof)
            }
        } else if m == MARKER_INT_8 {
            if b.len() >= 2 {
                Ok((BVal::Int(b[1] as i8 as i64), 2int))
            } else {
                Err(Error::UnexpectedEof)
            }
        } else if m == MARKER_INT_16 {
            if b.len() >= 3 {
                Ok((BVal::Int(be2_val(b[1], b[2]) as i16 as i64), 3int))
            } else {
                Err(Error::UnexpectedEof)
            }
        } else if m == MARKER_INT_32 {
            if b.len() >= 5 {
                Ok((BVal::Int(be4_val(b[1], b[2], b[3], b[4]) as i32 as i64), 5int))
            } else {
                Err(Error::UnexpectedEof)
            }
        } else if m == MARKER_INT_64 {
            if b.len() >= 9 {
                Ok(
                    (
                        BVal::Int(be8_val(b[1], b[2], b[3], b[4], b[5], b[6], b[7], b[8]) as i64),
                        9int,
                    ),
                )
            } else {
                Err(Error::UnexpectedEof)
            }
        } else if m == MARKER_BYTES_8 || m == MARKER_BYTES_16 || m == MARKER_BYTES_32 {
            let hdr = if m == MARKER_BYTES_8 {
                2int
            } else if m == MARKER_BYTES_16 {
                3int
            } else {
                5int
            };
            if b.len() < hdr {
                Err(Error::UnexpectedEof)
            } else {
                let len = if m == MARKER_BYTES_8 {
                    b[1] as int
                } else if m == MARKER_BYTES_16 {
                    be2_val(b[1], b[2]) as int
                } else {
                    be4_val(b[1], b[2], b[3], b[4]) as int
                };
                if b.len() >= hdr + len {
                    Ok((BVal::Bytes(b.subrange(hdr, hdr + len)), hdr + len))
                } else {
                    Err(Error::UnexpectedEof)
                }
            }
        } else if (MARKER_TINY_STRING <= m < MARKER_TINY_STRING + 16) || m == MARKER_STRING_8
            || m == MARKER_STRING_16 || m == MARKER_STRING_32 {
            match dec_size(b, MARKER_TINY_STRING, MARKER_STRING_8, MARKER_STRING_16,
                MARKER_STRING_32) {
                Err(e) => Err(e),
                Ok((len, hdr)) => {
                    if b.len() >= hdr + len {
                        let pb = b.subrange(hdr, hdr + len);
                        if valid_utf8(pb) {
                            Ok((BVal::Str(decode_utf8(pb)), hdr + len))
                        } else {
                            Err(Error::InvalidString)
                        }
                    } else {
                        Err(Error::UnexpectedEof)
                    }
                }
            }
        } else if (MARKER_TINY_LIST <= m < MARKER_TINY_LIST + 16) || m == MARKER_LIST_8
            || m == MARKER_LIST_16 || m == MARKER_LIST_32 {
            match dec_size(b, MARKER_TINY_LIST, MARKER_LIST_8, MARKER_LIST_16, MARKER_LIST_32) {
                Err(e) => Err(e),
                Ok((n, hdr)) => match dec_elems(b.skip(hdr), n) {
                    Err(e) => Err(e),
                    Ok((vs, c)) => Ok((BVal::List(vs), hdr + c)),
                },
            }
        } else if (MARKER_TINY_MAP <= m < MARKER_TINY_MAP + 16) || m == MARKER_MAP_8
            || m == MARKER_MAP_16 || m == MARKER_MAP_32 {
            match dec_size(b, MARKER_TINY_MAP, MARKER_MAP_8, MARKER_MAP_16, MARKER_MAP_32) {
                Err(e) => Err(e),
                Ok((n, hdr)) => match dec_entries(b.skip(hdr), n) {
                    Err(e) => Err(e),
                    Ok((es, c)) => Ok((BVal::Dict(es), hdr + c)),
                },
            }
        } else if (MARKER_TINY_STRUCT <= m < MARKER_TINY_STRUCT + 16) || m == MARKER_STRUCT_8
            || m == MARKER_STRUCT_16 {
            let hdr = if MARKER_TINY_STRUCT <= m < MARKER_TINY_STRUCT + 16 {
                2int
            } else if m == MARKER_STRUCT_8 {
                3int
            } else {
                4int
            };
            if b.len() < hdr {
                Err(Error::UnexpectedEof)
            } else {
                let n = if MARKER_TINY_STRUCT <= m < MARKER_TINY_STRUCT + 16 {
                    (m - MARKER_TINY_STRUCT) as nat
                } else if m == MARKER_STRUCT_8 {
                    b[1] as nat
                } else {
                    be2_val(b[1], b[2]) as nat
                };
                let sig = b[hdr - 1];
                if !known_value_sig(sig, n) {
                    Err(Error::InvalidSignature(sig, n as u16))
                } else {
                    match dec_elems(b.skip(hdr), n) {
                        Err(e) => Err(e),
                        Ok((fs, c)) => match struct_of(sig, n, fs) {
                            Err(e) => Err(e),
                            Ok(v) => Ok((v, hdr + c)),
                        },
                    }
                }
            }
        } else if m <= 0x7f || m >= 0xf0 {
            Ok((BVal::Int(m as i8 as i64), 1int))
        } else {
            Err(Error::InvalidMarker(m))
        }
    }
}

/// Parses `n` values back to back at the front of `b`.
pub open spec fn dec_elems(b: Seq<u8>, n: nat) -> Result<(Seq<BVal>, int), Error>
    decreases b.len(), 1int, n,
{
    if n == 0 {
        Ok((Seq::empty(), 0int))
    } else {
        match dec_val(b) {
            Err(e) => Err(e),
            Ok((v, c)) => {
                if 1 <= c <= b.len() {
                    match dec_elems(b.skip(c), (n - 1) as nat) {
                        Err(e) => Err(e),
                        Ok((vs, c2)) => Ok((seq![v] + vs, c + c2)),
                    }
                } else {
                    Err(Error::DeserializerPanic)
                }
            }
        }
    }
}

/// Parses `n` (string key, value) entries back to back at the front of `b`.
/// A key that is not a string fails the way the reference decoder's panic
/// catcher reported it.
pub open spec fn dec_entries(b: Seq<u8>, n: nat) -> Result<(Seq<(Seq<char>, BVal)>, int), Error>
    decreases b.len(), 1int, n,
{
    if n == 0 {
        Ok((Seq::empty(), 0int))
    } else {
        match dec_val(b) {
            Err(e) => Err(e),
            Ok((k, ck)) => {
                if !(k is Str) {
                    Err(Error::DeserializerPanic)
                } else if 1 <= ck <= b.len() {
                    match dec_val(b.skip(ck)) {
                        Err(e) => Err(e),
                        Ok((v, cv)) => {
                            if 1 <= cv <= b.len() - ck {
                                match dec_entries(b.skip(ck + cv), (n - 1) as nat) {
                                    Err(e) => Err(e),
                                    Ok((es, c2)) => Ok(
                                        (seq![(k->Str_0, v)] + es, ck + cv + c2),
                                    ),
                                }
                            } else {
                                Err(Error::DeserializerPanic)
                            }
                        }
                    }
                } else {
                    Err(Error::DeserializerPanic)
                }
            }
        }
    }
}

} // verus!
