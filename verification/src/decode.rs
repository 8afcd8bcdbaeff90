//! The executable decoder: parses exactly as the specification describes,
//! byte for byte, error for error.

use vstd::prelude::*;

use crate::codec::{
    all_int, all_node, all_str, all_unbound, dec_elems, dec_entries, dec_size, dec_val, ints_of,
    known_value_sig, nodes_of, strs_of, struct_of, unbounds_of, MARKER_BYTES_16, MARKER_BYTES_32,
    MARKER_BYTES_8, MARKER_FALSE, MARKER_FLOAT, MARKER_INT_16, MARKER_INT_32, MARKER_INT_64,
    MARKER_INT_8, MARKER_LIST_16, MARKER_LIST_32, MARKER_LIST_8, MARKER_MAP_16, MARKER_MAP_32,
    MARKER_MAP_8, MARKER_NULL, MARKER_STRING_16, MARKER_STRING_32, MARKER_STRING_8,
    MARKER_TINY_LIST, MARKER_TINY_MAP, MARKER_TINY_STRING, MARKER_TINY_STRUCT, MARKER_TRUE,
    MARKER_STRUCT_16, MARKER_STRUCT_8, SIG_DATE, SIG_NODE, SIG_PATH, SIG_RELATIONSHIP, SIG_TIME,
    SIG_UNBOUND_RELATIONSHIP,
};
use crate::error::Error;
use crate::value::{
    entry_models, lemma_entry_models_index, lemma_entry_models_len, lemma_node_models_index,
    lemma_node_models_len, lemma_unbound_models_index, lemma_unbound_models_len,
    lemma_val_models_index, lemma_val_models_len, node_models, str_models, unbound_models,
    val_models, BVal, Node, Path, Relationship, UnboundRelationship, Value,
};
use crate::wire::{read_be2, read_be4, read_be8};
use vstd::slice::{slice_subrange, slice_to_vec};
use vstd::utf8::{decode_utf8, valid_utf8};

verus! {

broadcast use {
    lemma_val_models_len,
    lemma_val_models_index,
    lemma_entry_models_len,
    lemma_entry_models_index,
    lemma_node_models_len,
    lemma_node_models_index,
    lemma_unbound_models_len,
    lemma_unbound_models_index,
};

/// Relies on `String::from_utf8`: it succeeds exactly on valid UTF-8 and
/// decodes it to the character sequence vstd's UTF-8 model assigns.
#[verifier::external_body]
fn string_from_utf8(bytes: Vec<u8>) -> (r: Option<String>)
    ensures
        valid_utf8(bytes@) ==> (r is Some && r->Some_0@ == decode_utf8(bytes@)),
        !valid_utf8(bytes@) ==> r is None,
{
    std::string::String::from_utf8(bytes).ok()
}

/// Turns a vector of string values into their strings; any other value
/// reports the shape error the decoder uses.
#[verifier::loop_isolation(false)]
fn strings_of_values(vals: &mut Vec<Value>) -> (r: Result<Vec<String>, Error>)
    ensures
        match r {
            Ok(ss) => all_str(val_models(old(vals)@)) && str_models(ss@) == strs_of(val_models(old(vals)@)),
            Err(e) => e == Error::DeserializerPanic && !all_str(val_models(old(vals)@)),
        },
{
    let ghost orig = old(vals)@;
    let ghost m = val_models(orig);
    let mut ss: Vec<String> = Vec::new();
    let n = vals.len();
    let mut k: usize = 0;
    while k < n
        invariant
            n == orig.len(),
            m == val_models(orig),
            m.len() == n,
            k <= n,
            vals@ =~= orig.skip(k as int),
            ss@.len() == k,
            forall|j: int| 0 <= j < k ==> (#[trigger] m[j]) is Str && ss@[j]@ == m[j]->Str_0,
        decreases n - k,
    {
        let head = vals.remove(0);
        proof {
            assert(orig.skip(k as int)[0] == orig[k as int]);
            assert(vals@ =~= orig.skip(k + 1));
            assert(m[k as int] == orig[k as int].model());
        }
        match head {
            Value::String(s) => {
                ss.push(s);
            }
            _ => {
                proof {
                    assert(!(m[k as int] is Str));
                    assert(!all_str(m));
                    assert(m == val_models(old(vals)@));
                }
                return Err(Error::DeserializerPanic);
            }
        }
        k += 1;
    }
    proof {
        assert(all_str(m));
        assert(str_models(ss@) =~= strs_of(m));
        assert(m == val_models(old(vals)@));
    }
    Ok(ss)
}

/// Turns a vector of integer values into their integers.
#[verifier::loop_isolation(false)]
fn ints_of_values(vals: &mut Vec<Value>) -> (r: Result<Vec<i64>, Error>)
    ensures
        match r {
            Ok(ns) => all_int(val_models(old(vals)@)) && ns@ == ints_of(val_models(old(vals)@)),
            Err(e) => e == Error::DeserializerPanic && !all_int(val_models(old(vals)@)),
        },
{
    let ghost orig = old(vals)@;
    let ghost m = val_models(orig);
    let mut ns: Vec<i64> = Vec::new();
    let n = vals.len();
    let mut k: usize = 0;
    while k < n
        invariant
            n == orig.len(),
            m == val_models(orig),
            m.len() == n,
            k <= n,
            vals@ =~= orig.skip(k as int),
            ns@.len() == k,
            forall|j: int| 0 <= j < k ==> (#[trigger] m[j]) is Int && ns@[j] == m[j]->Int_0,
        decreases n - k,
    {
        let head = vals.remove(0);
        proof {
            assert(orig.skip(k as int)[0] == orig[k as int]);
            assert(vals@ =~= orig.skip(k + 1));
            assert(m[k as int] == orig[k as int].model());
        }
        match head {
            Value::Integer(x) => {
                ns.push(x);
            }
            _ => {
                proof {
                    assert(!(m[k as int] is Int));
                    assert(!all_int(m));
                    assert(m == val_models(old(vals)@));
                }
                return Err(Error::DeserializerPanic);
            }
        }
        k += 1;
    }
    proof {
        assert(all_int(m));
        assert(ns@ =~= ints_of(m));
        assert(m == val_models(old(vals)@));
    }
    Ok(ns)
}

/// Turns a vector of node values into their nodes.
#[verifier::loop_isolation(false)]
fn nodes_of_values(vals: &mut Vec<Value>) -> (r: Result<Vec<Node>, Error>)
    ensures
        match r {
            Ok(ns) => all_node(val_models(old(vals)@)) && node_models(ns@) == nodes_of(
                val_models(old(vals)@),
            ),
            Err(e) => e == Error::DeserializerPanic && !all_node(val_models(old(vals)@)),
        },
{
    let ghost orig = old(vals)@;
    let ghost m = val_models(orig);
    let mut ns: Vec<Node> = Vec::new();
    let n = vals.len();
    let mut k: usize = 0;
    while k < n
        invariant
            n == orig.len(),
            m == val_models(orig),
            m.len() == n,
            k <= n,
            vals@ =~= orig.skip(k as int),
            ns@.len() == k,
            forall|j: int|
                0 <= j < k ==> (#[trigger] m[j]) is Node && ns@[j].model() == m[j]->Node_0,
        decreases n - k,
    {
        let head = vals.remove(0);
        proof {
            assert(orig.skip(k as int)[0] == orig[k as int]);
            assert(vals@ =~= orig.skip(k + 1));
            assert(m[k as int] == orig[k as int].model());
        }
        match head {
            Value::Node(nd) => {
                ns.push(nd);
            }
            _ => {
                proof {
                    assert(!(m[k as int] is Node));
                    assert(!all_node(m));
                    assert(m == val_models(old(vals)@));
                }
                return Err(Error::DeserializerPanic);
            }
        }
        k += 1;
    }
    proof {
        assert(all_node(m));
        assert(node_models(ns@) =~= nodes_of(m));
        assert(m == val_models(old(vals)@));
    }
    Ok(ns)
}

/// Turns a vector of unbound-relationship values into the relationships.
#[verifier::loop_isolation(false)]
fn unbounds_of_values(vals: &mut Vec<Value>) -> (r: Result<Vec<UnboundRelationship>, Error>)
    ensures
        match r {
            Ok(rs) => all_unbound(val_models(old(vals)@)) && unbound_models(rs@) == unbounds_of(
                val_models(old(vals)@),
            ),
            Err(e) => e == Error::DeserializerPanic && !all_unbound(val_models(old(vals)@)),
        },
{
    let ghost orig = old(vals)@;
    let ghost m = val_models(orig);
    let mut rs: Vec<UnboundRelationship> = Vec::new();
    let n = vals.len();
    let mut k: usize = 0;
    while k < n
        invariant
            n == orig.len(),
            m == val_models(orig),
            m.len() == n,
            k <= n,
            vals@ =~= orig.skip(k as int),
            rs@.len() == k,
            forall|j: int|
                0 <= j < k ==> (#[trigger] m[j]) is UnboundRel && rs@[j].model()
                    == m[j]->UnboundRel_0,
        decreases n - k,
    {
        let head = vals.remove(0);
        proof {
            assert(orig.skip(k as int)[0] == orig[k as int]);
            assert(vals@ =~= orig.skip(k + 1));
            assert(m[k as int] == orig[k as int].model());
        }
        match head {
            Value::UnboundRelationship(ur) => {
                rs.push(ur);
            }
            _ => {
                proof {
                    assert(!(m[k as int] is UnboundRel));
                    assert(!all_unbound(m));
                    assert(m == val_models(old(vals)@));
                }
                return Err(Error::DeserializerPanic);
            }
        }
        k += 1;
    }
    proof {
        assert(all_unbound(m));
        assert(unbound_models(rs@) =~= unbounds_of(m));
        assert(m == val_models(old(vals)@));
    }
    Ok(rs)
}

/// Reads the size header of a container form at `pos`; mirrors the
/// specification's header parse.
fn decode_size_at(buf: &Vec<u8>, pos: usize, tiny_base: u8, m8: u8, m16: u8, m32: u8) -> (r:
    Result<(usize, usize), Error>)
    requires
        pos < buf.len(),
    ensures
        match r {
            Ok((len, hdr)) => dec_size(buf@.skip(pos as int), tiny_base, m8, m16, m32) == Ok::<
                (nat, int),
                Error,
            >((len as nat, hdr as int)) && 1 <= hdr <= 5 && pos + hdr <= buf.len() && len
                <= 0xffff_ffff,
            Err(e) => dec_size(buf@.skip(pos as int), tiny_base, m8, m16, m32) == Err::<
                (nat, int),
                Error,
            >(e),
        },
{
    let m = buf[pos];
    if tiny_base <= m && (m as u16) < tiny_base as u16 + 16 {
        Ok((((m - tiny_base) as usize), 1))
    } else if m == m8 {
        if buf.len() - pos >= 2 {
            Ok((buf[pos + 1] as usize, 2))
        } else {
            Err(Error::UnexpectedEof)
        }
    } else if m == m16 {
        if buf.len() - pos >= 3 {
            Ok((read_be2(buf, pos + 1) as usize, 3))
        } else {
            Err(Error::UnexpectedEof)
        }
    } else {
        if buf.len() - pos >= 5 {
            Ok((read_be4(buf, pos + 1) as usize, 5))
        } else {
            Err(Error::UnexpectedEof)
        }
    }
}

/// Parses the value at `pos`: on success the value, whose model is exactly
/// what the specification decodes there, and the position just past it; on
/// failure exactly the specification's error.
#[verifier::rlimit(100)]
#[verifier::spinoff_prover]
pub fn decode_value_at(buf: &Vec<u8>, pos: usize) -> (r: Result<(Value, usize), Error>)
    requires
        pos <= buf.len(),
    ensures
        match r {
            Ok((v, end)) => dec_val(buf@.skip(pos as int)) == Ok::<(BVal, int), Error>(
                (v.model(), end - pos),
            ) && pos < end <= buf.len(),
            Err(e) => dec_val(buf@.skip(pos as int)) == Err::<(BVal, int), Error>(e),
        },
    decreases buf.len() - pos, 0int, 0int,
{
    let ghost b = buf@.skip(pos as int);
    if pos == buf.len() {
        return Err(Error::UnexpectedEof);
    }
    let m = buf[pos];
    assert(b[0] == m);
    if m == MARKER_NULL {
        Ok((Value::Null, pos + 1))
    } else if m == MARKER_TRUE {
        Ok((Value::Boolean(true), pos + 1))
    } else if m == MARKER_FALSE {
        Ok((Value::Boolean(false), pos + 1))
    } else if m == MARKER_FLOAT {
        if buf.len() - pos >= 9 {
            let bits = read_be8(buf, pos + 1);
            Ok((Value::Float(bits), pos + 9))
        } else {
            Err(Error::UnexpectedEof)
        }
    } else if m == MARKER_INT_8 {
        if buf.len() - pos >= 2 {
            let x = #[verifier::truncate] (buf[pos + 1] as i8);
            Ok((Value::Integer(x as i64), pos + 2))
        } else {
            Err(Error::UnexpectedEof)
        }
    } else if m == MARKER_INT_16 {
        if buf.len() - pos >= 3 {
            let x = #[verifier::truncate] (read_be2(buf, pos + 1) as i16);
            Ok((Value::Integer(x as i64), pos + 3))
        } else {
            Err(Error::UnexpectedEof)
        }
    } else if m == MARKER_INT_32 {
        if buf.len() - pos >= 5 {
            let x = #[verifier::truncate] (read_be4(buf, pos + 1) as i32);
            Ok((Value::Integer(x as i64), pos + 5))
        } else {
            Err(Error::UnexpectedEof)
        }
    } else if m == MARKER_INT_64 {
        if buf.len() - pos >= 9 {
            let x = #[verifier::truncate] (read_be8(buf, pos + 1) as i64);
            Ok((Value::Integer(x), pos + 9))
        } else {
            Err(Error::UnexpectedEof)
        }
    } else if m == MARKER_BYTES_8 || m == MARKER_BYTES_16 || m == MARKER_BYTES_32 {
        let hdr: usize = if m == MARKER_BYTES_8 {
            2
        } else if m == MARKER_BYTES_16 {
            3
        } else {
            5
        };
        if buf.len() - pos < hdr {
            return Err(Error::UnexpectedEof);
        }
        let len: usize = if m == MARKER_BYTES_8 {
            buf[pos + 1] as usize
        } else if m == MARKER_BYTES_16 {
            read_be2(buf, pos + 1) as usize
        } else {
            read_be4(buf, pos + 1) as usize
        };
        if len <= buf.len() - pos - hdr {
            let start = pos + hdr;
            let payload = slice_to_vec(slice_subrange(buf.as_slice(), start, start + len));
            proof {
                assert(payload@ =~= b.subrange(hdr as int, hdr + len));
            }
            Ok((Value::Bytes(payload), pos + hdr + len))
        } else {
            Err(Error::UnexpectedEof)
        }
    } else if (MARKER_TINY_STRING <= m && m < MARKER_TINY_STRING + 16) || m == MARKER_STRING_8
        || m == MARKER_STRING_16 || m == MARKER_STRING_32 {
        let (len, hdr) = match decode_size_at(buf, pos, MARKER_TINY_STRING, MARKER_STRING_8,
            MARKER_STRING_16, MARKER_STRING_32) {
            Ok(p) => p,
            Err(e) => {
                return Err(e);
            }
        };
        if len <= buf.len() - pos - hdr {
            let start = pos + hdr;
            let payload = slice_to_vec(slice_subrange(buf.as_slice(), start, start + len));
            proof {
                assert(payload@ =~= b.subrange(hdr as int, hdr + len));
            }
            match string_from_utf8(payload) {
                Some(s) => Ok((Value::String(s), pos + hdr + len)),
                None => Err(Error::InvalidString),
            }
        } else {
            Err(Error::UnexpectedEof)
        }
    } else if (MARKER_TINY_LIST <= m && m < MARKER_TINY_LIST + 16) || m == MARKER_LIST_8 || m
        == MARKER_LIST_16 || m == MARKER_LIST_32 {
        let (n, hdr) = match decode_size_at(buf, pos, MARKER_TINY_LIST, MARKER_LIST_8,
            MARKER_LIST_16, MARKER_LIST_32) {
            Ok(p) => p,
            Err(e) => {
                return Err(e);
            }
        };
        proof {
            assert(buf@.skip((pos + hdr) as int) =~= b.skip(hdr as int));
        }
        match decode_elems_at(buf, pos + hdr, n) {
            Ok((items, end)) => Ok((Value::List(items), end)),
            Err(e) => Err(e),
        }
    } else if (MARKER_TINY_MAP <= m && m < MARKER_TINY_MAP + 16) || m == MARKER_MAP_8 || m
        == MARKER_MAP_16 || m == MARKER_MAP_32 {
        let (n, hdr) = match decode_size_at(buf, pos, MARKER_TINY_MAP, MARKER_MAP_8,
            MARKER_MAP_16, MARKER_MAP_32) {
            Ok(p) => p,
            Err(e) => {
                return Err(e);
            }
        };
        proof {
            assert(buf@.skip((pos + hdr) as int) =~= b.skip(hdr as int));
        }
        match decode_entries_at(buf, pos + hdr, n) {
            Ok((entries, end)) => Ok((Value::Dictionary(entries), end)),
            Err(e) => Err(e),
        }
    } else if (MARKER_TINY_STRUCT <= m && m < MARKER_TINY_STRUCT + 16) || m == MARKER_STRUCT_8
        || m == MARKER_STRUCT_16 {
        let hdr: usize = if MARKER_TINY_STRUCT <= m && m < MARKER_TINY_STRUCT + 16 {
            2
        } else if m == MARKER_STRUCT_8 {
            3
        } else {
            4
        };
        if buf.len() - pos < hdr {
            return Err(Error::UnexpectedEof);
        }
        let n: usize = if MARKER_TINY_STRUCT <= m && m < MARKER_TINY_STRUCT + 16 {
            (m - MARKER_TINY_STRUCT) as usize
        } else if m == MARKER_STRUCT_8 {
            buf[pos + 1] as usize
        } else {
            read_be2(buf, pos + 1) as usize
        };
        let sig = buf[pos + hdr - 1];
        if !(sig == SIG_NODE && n == 3) && !(sig == SIG_RELATIONSHIP && n == 5) && !(sig
            == SIG_PATH && n == 3) && !(sig == SIG_UNBOUND_RELATIONSHIP && n == 3) && !(sig
            == SIG_DATE && n == 1) && !(sig == SIG_TIME && n == 2) {
            return Err(Error::InvalidSignature(sig, n as u16));
        }
        proof {
            assert(buf@.skip((pos + hdr) as int) =~= b.skip(hdr as int));
        }
        let (fields, end) = match decode_elems_at(buf, pos + hdr, n) {
            Ok(p) => p,
            Err(e) => {
                return Err(e);
            }
        };
        let ghost fm = val_models(fields@);
        match build_struct(sig, n, fields) {
            Ok(v) => {
                proof {
                    assert(struct_of(sig, n as nat, fm) == Ok::<BVal, Error>(v.model()));
                }
                Ok((v, end))
            }
            Err(e) => Err(e),
        }
    } else if m <= 0x7f || m >= 0xf0 {
        let x = #[verifier::truncate] (m as i8);
        Ok((Value::Integer(x as i64), pos + 1))
    } else {
        Err(Error::InvalidMarker(m))
    }
}

/// Assembles a known value structure from its decoded fields; a field of
/// the wrong shape reports the decoder's shape error.
fn build_struct(sig: u8, n: usize, fields: Vec<Value>) -> (r: Result<Value, Error>)
    requires
        known_value_sig(sig, n as nat),
        val_models(fields@).len() == n as nat,
    ensures
        match r {
            Ok(v) => struct_of(sig, n as nat, val_models(fields@)) == Ok::<BVal, Error>(
                v.model(),
            ),
            Err(e) => struct_of(sig, n as nat, val_models(fields@)) == Err::<BVal, Error>(e),
        },
{
    let ghost fm = val_models(fields@);
    let mut fs = fields;
    if sig == SIG_NODE {
        let f3 = fs.pop().unwrap();
        let f2 = fs.pop().unwrap();
        let f1 = fs.pop().unwrap();
        proof {
            assert(f1.model() == fm[0] && f2.model() == fm[1] && f3.model() == fm[2]);
        }
        match (f1, f2, f3) {
            (Value::Integer(id), Value::List(lv), Value::Dictionary(props)) => {
                let mut lvv = lv;
                let labels = match strings_of_values(&mut lvv) {
                    Ok(ss) => ss,
                    Err(e) => {
                        return Err(e);
                    }
                };
                Ok(Value::Node(Node { id, labels, properties: props }))
            }
            _ => Err(Error::DeserializerPanic),
        }
    } else if sig == SIG_RELATIONSHIP {
        let f5 = fs.pop().unwrap();
        let f4 = fs.pop().unwrap();
        let f3 = fs.pop().unwrap();
        let f2 = fs.pop().unwrap();
        let f1 = fs.pop().unwrap();
        proof {
            assert(f1.model() == fm[0] && f2.model() == fm[1] && f3.model() == fm[2] && f4.model()
                == fm[3] && f5.model() == fm[4]);
        }
        match (f1, f2, f3, f4, f5) {
            (
                Value::Integer(id),
                Value::Integer(start_node_id),
                Value::Integer(end_node_id),
                Value::String(rel_type),
                Value::Dictionary(props),
            ) => Ok(
                Value::Relationship(
                    Relationship {
                        id,
                        start_node_id,
                        end_node_id,
                        rel_type,
                        properties: props,
                    },
                ),
            ),
            _ => Err(Error::DeserializerPanic),
        }
    } else if sig == SIG_PATH {
        let f3 = fs.pop().unwrap();
        let f2 = fs.pop().unwrap();
        let f1 = fs.pop().unwrap();
        proof {
            assert(f1.model() == fm[0] && f2.model() == fm[1] && f3.model() == fm[2]);
        }
        match (f1, f2, f3) {
            (Value::List(nv), Value::List(rv), Value::List(sv)) => {
                let mut nvv = nv;
                let nodes = match nodes_of_values(&mut nvv) {
                    Ok(ns) => ns,
                    Err(e) => {
                        return Err(e);
                    }
                };
                let mut rvv = rv;
                let relationships = match unbounds_of_values(&mut rvv) {
                    Ok(rs) => rs,
                    Err(e) => {
                        return Err(e);
                    }
                };
                let mut svv = sv;
                let sequence = match ints_of_values(&mut svv) {
                    Ok(ns) => ns,
                    Err(e) => {
                        return Err(e);
                    }
                };
                Ok(Value::Path(Path { nodes, relationships, sequence }))
            }
            _ => Err(Error::DeserializerPanic),
        }
    } else if sig == SIG_UNBOUND_RELATIONSHIP {
        let f3 = fs.pop().unwrap();
        let f2 = fs.pop().unwrap();
        let f1 = fs.pop().unwrap();
        proof {
            assert(f1.model() == fm[0] && f2.model() == fm[1] && f3.model() == fm[2]);
        }
        match (f1, f2, f3) {
            (Value::Integer(id), Value::String(rel_type), Value::Dictionary(props)) => Ok(
                Value::UnboundRelationship(
                    UnboundRelationship { id, rel_type, properties: props },
                ),
            ),
            _ => Err(Error::DeserializerPanic),
        }
    } else if sig == SIG_DATE {
        let f1 = fs.pop().unwrap();
        proof {
            assert(f1.model() == fm[0]);
        }
        match f1 {
            Value::Integer(days) => Ok(Value::Date(days)),
            _ => Err(Error::DeserializerPanic),
        }
    } else {
        let f2 = fs.pop().unwrap();
        let f1 = fs.pop().unwrap();
        proof {
            assert(f1.model() == fm[0] && f2.model() == fm[1]);
        }
        match (f1, f2) {
            (Value::Integer(nanos), Value::Integer(offset)) => Ok(Value::Time(nanos, offset)),
            _ => Err(Error::DeserializerPanic),
        }
    }
}

/// Parses `n` values back to back starting at `pos`.
#[verifier::rlimit(100)]
#[verifier::spinoff_prover]
#[verifier::loop_isolation(false)]
pub(crate) fn decode_elems_at(buf: &Vec<u8>, pos: usize, n: usize) -> (r: Result<(Vec<Value>, usize), Error>)
    requires
        pos <= buf.len(),
    ensures
        match r {
            Ok((items, end)) => dec_elems(buf@.skip(pos as int), n as nat) == Ok::<
                (Seq<BVal>, int),
                Error,
            >((val_models(items@), end - pos)) && pos <= end <= buf.len() && items@.len()
                == n as nat,
            Err(e) => dec_elems(buf@.skip(pos as int), n as nat) == Err::<(Seq<BVal>, int), Error>(
                e,
            ),
        },
    decreases buf.len() - pos, 1int, n,
{
    let ghost b0 = buf@.skip(pos as int);
    let mut items: Vec<Value> = Vec::new();
    let mut cur = pos;
    let mut i: usize = 0;
    while i < n
        invariant
            pos <= cur <= buf.len(),
            i <= n,
            items@.len() == i,
            b0 == buf@.skip(pos as int),
            dec_elems(b0, n as nat) == (match dec_elems(buf@.skip(cur as int), (n - i) as nat) {
                Ok((vs, c)) => Ok::<(Seq<BVal>, int), Error>(
                    (val_models(items@) + vs, (cur - pos) + c),
                ),
                Err(e) => Err::<(Seq<BVal>, int), Error>(e),
            }),
        decreases n - i,
    {
        let ghost items_before = items@;
        let ghost cur_before = cur as int;
        match decode_value_at(buf, cur) {
            Ok((v, end)) => {
                items.push(v);
                proof {
                    assert(buf@.skip(cur_before).skip(end - cur_before) =~= buf@.skip(
                        end as int,
                    ));
                    assert(val_models(items@) =~= val_models(items_before) + seq![v.model()]);
                    match dec_elems(buf@.skip(end as int), (n - i - 1) as nat) {
                        Ok((vs, c2)) => {
                            assert((val_models(items_before) + (seq![v.model()] + vs)) =~= (
                            val_models(items_before) + seq![v.model()]) + vs);
                        }
                        Err(e2) => {}
                    }
                }
                cur = end;
            }
            Err(e) => {
                return Err(e);
            }
        }
        i += 1;
    }
    proof {
        assert(val_models(items@) + Seq::<BVal>::empty() =~= val_models(items@));
    }
    Ok((items, cur))
}

/// Parses `n` (string key, value) entries back to back starting at `pos`.
#[verifier::rlimit(100)]
#[verifier::spinoff_prover]
#[verifier::loop_isolation(false)]
fn decode_entries_at(buf: &Vec<u8>, pos: usize, n: usize) -> (r: Result<
    (Vec<(String, Value)>, usize),
    Error,
>)
    requires
        pos <= buf.len(),
    ensures
        match r {
            Ok((items, end)) => dec_entries(buf@.skip(pos as int), n as nat) == Ok::<
                (Seq<(Seq<char>, BVal)>, int),
                Error,
            >((entry_models(items@), end - pos)) && pos <= end <= buf.len(),
            Err(e) => dec_entries(buf@.skip(pos as int), n as nat) == Err::<
                (Seq<(Seq<char>, BVal)>, int),
                Error,
            >(e),
        },
    decreases buf.len() - pos, 1int, n,
{
    let ghost b0 = buf@.skip(pos as int);
    let mut items: Vec<(String, Value)> = Vec::new();
    let mut cur = pos;
    let mut i: usize = 0;
    while i < n
        invariant
            pos <= cur <= buf.len(),
            i <= n,
            items@.len() == i,
            b0 == buf@.skip(pos as int),
            dec_entries(b0, n as nat) == (match dec_entries(
                buf@.skip(cur as int),
                (n - i) as nat,
            ) {
                Ok((es, c)) => Ok::<(Seq<(Seq<char>, BVal)>, int), Error>(
                    (entry_models(items@) + es, (cur - pos) + c),
                ),
                Err(e) => Err::<(Seq<(Seq<char>, BVal)>, int), Error>(e),
            }),
        decreases n - i,
    {
        let ghost items_before = items@;
        let ghost cur_before = cur as int;
        let key = match decode_value_at(buf, cur) {
            Ok((k, kend)) => {
                match k {
                    Value::String(ks) => {
                        proof {
                            assert(buf@.skip(cur_before).skip(kend - cur_before) =~= buf@.skip(
                                kend as int,
                            ));
                        }
                        cur = kend;
                        ks
                    }
                    _ => {
                        return Err(Error::DeserializerPanic);
                    }
                }
            }
            Err(e) => {
                return Err(e);
            }
        };
        match decode_value_at(buf, cur) {
            Ok((v, end)) => {
                proof {
                    assert(buf@.skip(cur as int).skip(end - cur) =~= buf@.skip(end as int));
                    assert(buf@.skip(cur_before).skip((cur - cur_before) + (end - cur)) =~= buf@
                        .skip(end as int));
                }
                items.push((key, v));
                proof {
                    assert(entry_models(items@) =~= entry_models(items_before) + seq![
                        (key@, v.model()),
                    ]);
                    match dec_entries(buf@.skip(end as int), (n - i - 1) as nat) {
                        Ok((es, c2)) => {
                            assert((entry_models(items_before) + (seq![(key@, v.model())] + es))
                                =~= (entry_models(items_before) + seq![(key@, v.model())]) + es);
                        }
                        Err(e2) => {}
                    }
                }
                cur = end;
            }
            Err(e) => {
                return Err(e);
            }
        }
        i += 1;
    }
    proof {
        assert(entry_models(items@) + Seq::<(Seq<char>, BVal)>::empty() =~= entry_models(
            items@,
        ));
    }
    Ok((items, cur))
}

impl Value {
    /// Parses the value at the front of `buf`: exactly the specification's
    /// verdict on those bytes. Trailing bytes are left unread.
    pub fn from_bytes(buf: &Vec<u8>) -> (r: Result<(Value, usize), Error>)
        ensures
            match r {
                Ok((v, end)) => dec_val(buf@) == Ok::<(BVal, int), Error>(
                    (v.model(), end as int),
                ) && end <= buf.len(),
                Err(e) => dec_val(buf@) == Err::<(BVal, int), Error>(e),
            },
    {
        proof {
            assert(buf@.skip(0) =~= buf@);
        }
        decode_value_at(buf, 0)
    }
}

} // verus!
