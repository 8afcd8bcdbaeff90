//! The protocol messages: each one a structure whose signature byte names
//! the variant and whose fields are values, with shared signatures told
//! apart by field count.

use vstd::prelude::*;

use crate::codec::{
    dec_elems, enc_dict, enc_str, enc_val, encodable_elems, encodable_entries, str_fits,
    MARKER_STRUCT_16, MARKER_STRUCT_8, MARKER_TINY_STRUCT,
};
use crate::decode::decode_elems_at;
use crate::encode::{encode_dict_into, encode_list_into, encode_string_into};
use crate::error::Error;
use crate::value::{entry_models, val_models, BVal, Value};
use crate::wire::{be2_val, read_be2};

verus! {

broadcast use {
    crate::value::lemma_val_models_len,
    crate::value::lemma_val_models_index,
    crate::value::lemma_entry_models_len,
    crate::value::lemma_entry_models_index,
};

pub const SIG_INIT: u8 = 0x01;
pub const SIG_RUN: u8 = 0x10;
pub const SIG_DISCARD_ALL: u8 = 0x2F;
pub const SIG_PULL_ALL: u8 = 0x3F;
pub const SIG_ACK_FAILURE: u8 = 0x0E;
pub const SIG_RESET: u8 = 0x0F;
pub const SIG_RECORD: u8 = 0x71;
pub const SIG_SUCCESS: u8 = 0x70;
pub const SIG_FAILURE: u8 = 0x7F;
pub const SIG_IGNORED: u8 = 0x7E;
pub const SIG_HELLO: u8 = 0x01;
pub const SIG_GOODBYE: u8 = 0x02;
pub const SIG_BEGIN: u8 = 0x11;
pub const SIG_COMMIT: u8 = 0x12;
pub const SIG_ROLLBACK: u8 = 0x13;

/// The first message of a connection, carrying the client's name and its
/// authorization token.
#[derive(Debug, PartialEq, Eq)]
pub struct Init {
    pub client_name: String,
    pub auth_token: Vec<(String, Value)>,
}

/// The message that clears a failure state; it has no fields.
#[derive(Debug, PartialEq, Eq)]
pub struct AckFailure;

/// Every message of the protocol, grouped by the protocol version that
/// introduced it.
#[derive(Debug, PartialEq, Eq)]
pub enum Message {
    Init(Init),
    Run { statement: String, parameters: Vec<(String, Value)> },
    DiscardAll,
    PullAll,
    AckFailure,
    Reset,
    Record { fields: Vec<Value> },
    Success { metadata: Vec<(String, Value)> },
    Failure { metadata: Vec<(String, Value)> },
    Ignored,
    Hello { metadata: Vec<(String, Value)> },
    Goodbye,
    RunWithMetadata {
        statement: String,
        parameters: Vec<(String, Value)>,
        metadata: Vec<(String, Value)>,
    },
    Begin { metadata: Vec<(String, Value)> },
    Commit,
    Rollback,
    Discard { metadata: Vec<(String, Value)> },
    Pull { metadata: Vec<(String, Value)> },
}

/// Ghost model of a message.
#[verifier::ext_equal]
pub enum MsgM {
    Init { client_name: Seq<char>, auth_token: Seq<(Seq<char>, BVal)> },
    Run { statement: Seq<char>, parameters: Seq<(Seq<char>, BVal)> },
    DiscardAll,
    PullAll,
    AckFailure,
    Reset,
    Record { fields: Seq<BVal> },
    Success { metadata: Seq<(Seq<char>, BVal)> },
    Failure { metadata: Seq<(Seq<char>, BVal)> },
    Ignored,
    Hello { metadata: Seq<(Seq<char>, BVal)> },
    Goodbye,
    RunWithMetadata {
        statement: Seq<char>,
        parameters: Seq<(Seq<char>, BVal)>,
        metadata: Seq<(Seq<char>, BVal)>,
    },
    Begin { metadata: Seq<(Seq<char>, BVal)> },
    Commit,
    Rollback,
    Discard { metadata: Seq<(Seq<char>, BVal)> },
    Pull { metadata: Seq<(Seq<char>, BVal)> },
}

impl Message {
    /// The mathematical object this message denotes.
    pub open spec fn model(&self) -> MsgM {
        match self {
            Message::Init(i) => MsgM::Init {
                client_name: i.client_name@,
                auth_token: entry_models(i.auth_token@),
            },
            Message::Run { statement, parameters } => MsgM::Run {
                statement: statement@,
                parameters: entry_models(parameters@),
            },
            Message::DiscardAll => MsgM::DiscardAll,
            Message::PullAll => MsgM::PullAll,
            Message::AckFailure => MsgM::AckFailure,
            Message::Reset => MsgM::Reset,
            Message::Record { fields } => MsgM::Record { fields: val_models(fields@) },
            Message::Success { metadata } => MsgM::Success { metadata: entry_models(metadata@) },
            Message::Failure { metadata } => MsgM::Failure { metadata: entry_models(metadata@) },
            Message::Ignored => MsgM::Ignored,
            Message::Hello { metadata } => MsgM::Hello { metadata: entry_models(metadata@) },
            Message::Goodbye => MsgM::Goodbye,
            Message::RunWithMetadata { statement, parameters, metadata } => MsgM::RunWithMetadata {
                statement: statement@,
                parameters: entry_models(parameters@),
                metadata: entry_models(metadata@),
            },
            Message::Begin { metadata } => MsgM::Begin { metadata: entry_models(metadata@) },
            Message::Commit => MsgM::Commit,
            Message::Rollback => MsgM::Rollback,
            Message::Discard { metadata } => MsgM::Discard { metadata: entry_models(metadata@) },
            Message::Pull { metadata } => MsgM::Pull { metadata: entry_models(metadata@) },
        }
    }
}

/// The signature byte of a message.
pub open spec fn msg_sig(m: MsgM) -> u8 {
    match m {
        MsgM::Init { .. } => SIG_INIT,
        MsgM::Run { .. } => SIG_RUN,
        MsgM::DiscardAll => SIG_DISCARD_ALL,
        MsgM::PullAll => SIG_PULL_ALL,
        MsgM::AckFailure => SIG_ACK_FAILURE,
        MsgM::Reset => SIG_RESET,
        MsgM::Record { .. } => SIG_RECORD,
        MsgM::Success { .. } => SIG_SUCCESS,
        MsgM::Failure { .. } => SIG_FAILURE,
        MsgM::Ignored => SIG_IGNORED,
        MsgM::Hello { .. } => SIG_HELLO,
        MsgM::Goodbye => SIG_GOODBYE,
        MsgM::RunWithMetadata { .. } => SIG_RUN,
        MsgM::Begin { .. } => SIG_BEGIN,
        MsgM::Commit => SIG_COMMIT,
        MsgM::Rollback => SIG_ROLLBACK,
        MsgM::Discard { .. } => SIG_DISCARD_ALL,
        MsgM::Pull { .. } => SIG_PULL_ALL,
    }
}

/// The field count of a message's structure.
pub open spec fn msg_field_count(m: MsgM) -> nat {
    match m {
        MsgM::Init { .. } => 2,
        MsgM::Run { .. } => 2,
        MsgM::DiscardAll => 0,
        MsgM::PullAll => 0,
        MsgM::AckFailure => 0,
        MsgM::Reset => 0,
        MsgM::Record { .. } => 1,
        MsgM::Success { .. } => 1,
        MsgM::Failure { .. } => 1,
        MsgM::Ignored => 0,
        MsgM::Hello { .. } => 1,
        MsgM::Goodbye => 0,
        MsgM::RunWithMetadata { .. } => 3,
        MsgM::Begin { .. } => 1,
        MsgM::Commit => 0,
        MsgM::Rollback => 0,
        MsgM::Discard { .. } => 1,
        MsgM::Pull { .. } => 1,
    }
}

/// The encoded fields of a message, back to back.
pub open spec fn enc_msg_fields(m: MsgM) -> Seq<u8> {
    match m {
        MsgM::Init { client_name, auth_token } => enc_str(client_name) + enc_dict(auth_token),
        MsgM::Run { statement, parameters } => enc_str(statement) + enc_dict(parameters),
        MsgM::Record { fields } => enc_val(BVal::List(fields)),
        MsgM::Success { metadata } => enc_dict(metadata),
        MsgM::Failure { metadata } => enc_dict(metadata),
        MsgM::Hello { metadata } => enc_dict(metadata),
        MsgM::RunWithMetadata { statement, parameters, metadata } => enc_str(statement)
            + enc_dict(parameters) + enc_dict(metadata),
        MsgM::Begin { metadata } => enc_dict(metadata),
        MsgM::Discard { metadata } => enc_dict(metadata),
        MsgM::Pull { metadata } => enc_dict(metadata),
        _ => Seq::empty(),
    }
}

/// The encoding of a message: tiny structure header, signature, fields.
pub open spec fn enc_msg(m: MsgM) -> Seq<u8> {
    seq![(MARKER_TINY_STRUCT + msg_field_count(m)) as u8, msg_sig(m)] + enc_msg_fields(m)
}

/// Whether the encoder succeeds on a message: every string and container
/// in it fits its widest length form.
pub open spec fn encodable_msg(m: MsgM) -> bool {
    match m {
        MsgM::Init { client_name, auth_token } => str_fits(client_name) && auth_token.len()
            <= 0xffff_ffff && encodable_entries(auth_token),
        MsgM::Run { statement, parameters } => str_fits(statement) && parameters.len()
            <= 0xffff_ffff && encodable_entries(parameters),
        MsgM::Record { fields } => fields.len() <= 0xffff_ffff && encodable_elems(fields),
        MsgM::Success { metadata } => metadata.len() <= 0xffff_ffff && encodable_entries(metadata),
        MsgM::Failure { metadata } => metadata.len() <= 0xffff_ffff && encodable_entries(metadata),
        MsgM::Hello { metadata } => metadata.len() <= 0xffff_ffff && encodable_entries(metadata),
        MsgM::RunWithMetadata { statement, parameters, metadata } => str_fits(statement)
            && parameters.len() <= 0xffff_ffff && encodable_entries(parameters) && metadata.len()
            <= 0xffff_ffff && encodable_entries(metadata),
        MsgM::Begin { metadata } => metadata.len() <= 0xffff_ffff && encodable_entries(metadata),
        MsgM::Discard { metadata } => metadata.len() <= 0xffff_ffff && encodable_entries(metadata),
        MsgM::Pull { metadata } => metadata.len() <= 0xffff_ffff && encodable_entries(metadata),
        _ => true,
    }
}

/// The (signature, field count) pairs that name a message.
pub open spec fn known_msg_sig(sig: u8, n: nat) -> bool {
    ||| (sig == SIG_INIT && (n == 1 || n == 2))
    ||| (sig == SIG_RUN && (n == 2 || n == 3))
    ||| (sig == SIG_DISCARD_ALL && (n == 0 || n == 1))
    ||| (sig == SIG_PULL_ALL && (n == 0 || n == 1))
    ||| (sig == SIG_ACK_FAILURE && n == 0)
    ||| (sig == SIG_RESET && n == 0)
    ||| (sig == SIG_RECORD && n == 1)
    ||| (sig == SIG_SUCCESS && n == 1)
    ||| (sig == SIG_FAILURE && n == 1)
    ||| (sig == SIG_IGNORED && n == 0)
    ||| (sig == SIG_GOODBYE && n == 0)
    ||| (sig == SIG_BEGIN && n == 1)
    ||| (sig == SIG_COMMIT && n == 0)
    ||| (sig == SIG_ROLLBACK && n == 0)
}

/// The message a known (signature, field count) pair and its decoded
/// fields denote, or the shape error.
pub open spec fn msg_of(sig: u8, n: nat, fs: Seq<BVal>) -> Result<MsgM, Error> {
    if sig == SIG_INIT && n == 2 {
        if fs[0] is Str && fs[1] is Dict {
            Ok(MsgM::Init { client_name: fs[0]->Str_0, auth_token: fs[1]->Dict_0 })
        } else {
            Err(Error::DeserializerPanic)
        }
    } else if sig == SIG_INIT && n == 1 {
        if fs[0] is Dict {
            Ok(MsgM::Hello { metadata: fs[0]->Dict_0 })
        } else {
            Err(Error::DeserializerPanic)
        }
    } else if sig == SIG_RUN && n == 2 {
        if fs[0] is Str && fs[1] is Dict {
            Ok(MsgM::Run { statement: fs[0]->Str_0, parameters: fs[1]->Dict_0 })
        } else {
            Err(Error::DeserializerPanic)
        }
    } else if sig == SIG_RUN && n == 3 {
        if fs[0] is Str && fs[1] is Dict && fs[2] is Dict {
            Ok(
                MsgM::RunWithMetadata {
                    statement: fs[0]->Str_0,
                    parameters: fs[1]->Dict_0,
                    metadata: fs[2]->Dict_0,
                },
            )
        } else {
            Err(Error::DeserializerPanic)
        }
    } else if sig == SIG_DISCARD_ALL && n == 0 {
        Ok(MsgM::DiscardAll)
    } else if sig == SIG_DISCARD_ALL && n == 1 {
        if fs[0] is Dict {
            Ok(MsgM::Discard { metadata: fs[0]->Dict_0 })
        } else {
            Err(Error::DeserializerPanic)
        }
    } else if sig == SIG_PULL_ALL && n == 0 {
        Ok(MsgM::PullAll)
    } else if sig == SIG_PULL_ALL && n == 1 {
        if fs[0] is Dict {
            Ok(MsgM::Pull { metadata: fs[0]->Dict_0 })
        } else {
            Err(Error::DeserializerPanic)
        }
    } else if sig == SIG_ACK_FAILURE {
        Ok(MsgM::AckFailure)
    } else if sig == SIG_RESET {
        Ok(MsgM::Reset)
    } else if sig == SIG_RECORD {
        if fs[0] is List {
            Ok(MsgM::Record { fields: fs[0]->List_0 })
        } else {
            Err(Error::DeserializerPanic)
        }
    } else if sig == SIG_SUCCESS {
        if fs[0] is Dict {
            Ok(MsgM::Success { metadata: fs[0]->Dict_0 })
        } else {
            Err(Error::DeserializerPanic)
        }
    } else if sig == SIG_FAILURE {
        if fs[0] is Dict {
            Ok(MsgM::Failure { metadata: fs[0]->Dict_0 })
        } else {
            Err(Error::DeserializerPanic)
        }
    } else if sig == SIG_IGNORED {
        Ok(MsgM::Ignored)
    } else if sig == SIG_GOODBYE {
        Ok(MsgM::Goodbye)
    } else if sig == SIG_BEGIN {
        if fs[0] is Dict {
            Ok(MsgM::Begin { metadata: fs[0]->Dict_0 })
        } else {
            Err(Error::DeserializerPanic)
        }
    } else if sig == SIG_COMMIT {
        Ok(MsgM::Commit)
    } else {
        // SIG_ROLLBACK
        Ok(MsgM::Rollback)
    }
}

/// Parses the message at the front of `b`: structure header, signature,
/// fields; trailing bytes are left unread.
pub open spec fn dec_msg(b: Seq<u8>) -> Result<(MsgM, int), Error> {
    if b.len() == 0 {
        Err(Error::UnexpectedEof)
    } else {
        let m = b[0];
        if !((MARKER_TINY_STRUCT <= m < MARKER_TINY_STRUCT + 16) || m == MARKER_STRUCT_8 || m
            == MARKER_STRUCT_16) {
            Err(Error::InvalidMarker(m))
        } else {
            let hdr = if MARKER_TINY_STRUCT <= m < MARKER_TINY_STRUCT + 16 {
                2int
            } else if m == MARKER_STRUCT_8 {
                3int
            } else {
                4int
            };
            if b.len() < hdr {
                Err(Error::UnexpectedEof)
            } else {
                let n = if MARKER_TINY_STRUCT <= m < MARKER_TINY_STRUCT + 16 {
                    (m - MARKER_TINY_STRUCT) as nat
                } else if m == MARKER_STRUCT_8 {
                    b[1] as nat
                } else {
                    be2_val(b[1], b[2]) as nat
                };
                let sig = b[hdr - 1];
                if !known_msg_sig(sig, n) {
                    Err(Error::InvalidSignature(sig, n as u16))
                } else {
                    match dec_elems(b.skip(hdr), n) {
                        Err(e) => Err(e),
                        Ok((fs, c)) => match msg_of(sig, n, fs) {
                            Err(e) => Err(e),
                            Ok(msg) => Ok((msg, hdr + c)),
                        },
                    }
                }
            }
        }
    }
}

impl Message {
    /// The encoding of this message, or `EncoderOverflow` exactly when a
    /// length in it exceeds its widest form.
    pub fn to_bytes(&self) -> (r: Result<Vec<u8>, Error>)
        ensures
            r is Ok ==> r->Ok_0@ == enc_msg(self.model()),
            r is Ok <==> encodable_msg(self.model()),
            r is Err ==> r->Err_0 == Error::EncoderOverflow,
    {
        let mut out: Vec<u8> = Vec::new();
        match self {
            Message::Init(i) => {
                out.push(MARKER_TINY_STRUCT + 2);
                out.push(SIG_INIT);
                match encode_string_into(i.client_name.as_str(), &mut out) {
                    Ok(()) => {}
                    Err(e) => {
                        return Err(Error::EncoderOverflow);
                    }
                }
                match encode_dict_into(&i.auth_token, &mut out) {
                    Ok(()) => {}
                    Err(e) => {
                        return Err(Error::EncoderOverflow);
                    }
                }
            }
            Message::Run { statement, parameters } => {
                out.push(MARKER_TINY_STRUCT + 2);
                out.push(SIG_RUN);
                match encode_string_into(statement.as_str(), &mut out) {
                    Ok(()) => {}
                    Err(e) => {
                        return Err(Error::EncoderOverflow);
                    }
                }
                match encode_dict_into(parameters, &mut out) {
                    Ok(()) => {}
                    Err(e) => {
                        return Err(Error::EncoderOverflow);
                    }
                }
            }
            Message::DiscardAll => {
                out.push(MARKER_TINY_STRUCT);
                out.push(SIG_DISCARD_ALL);
            }
            Message::PullAll => {
                out.push(MARKER_TINY_STRUCT);
                out.push(SIG_PULL_ALL);
            }
            Message::AckFailure => {
                out.push(MARKER_TINY_STRUCT);
                out.push(SIG_ACK_FAILURE);
            }
            Message::Reset => {
                out.push(MARKER_TINY_STRUCT);
                out.push(SIG_RESET);
            }
            Message::Record { fields } => {
                out.push(MARKER_TINY_STRUCT + 1);
                out.push(SIG_RECORD);
                match encode_list_into(fields, &mut out) {
                    Ok(()) => {}
                    Err(e) => {
                        return Err(Error::EncoderOverflow);
                    }
                }
            }
            Message::Success { metadata } => {
                out.push(MARKER_TINY_STRUCT + 1);
                out.push(SIG_SUCCESS);
                match encode_dict_into(metadata, &mut out) {
                    Ok(()) => {}
                    Err(e) => {
                        return Err(Error::EncoderOverflow);
                    }
                }
            }
            Message::Failure { metadata } => {
                out.push(MARKER_TINY_STRUCT + 1);
                out.push(SIG_FAILURE);
                match encode_dict_into(metadata, &mut out) {
                    Ok(()) => {}
                    Err(e) => {
                        return Err(Error::EncoderOverflow);
                    }
                }
            }
            Message::Ignored => {
                out.push(MARKER_TINY_STRUCT);
                out.push(SIG_IGNORED);
            }
            Message::Hello { metadata } => {
                out.push(MARKER_TINY_STRUCT + 1);
                out.push(SIG_HELLO);
                match encode_dict_into(metadata, &mut out) {
                    Ok(()) => {}
                    Err(e) => {
                        return Err(Error::EncoderOverflow);
                    }
                }
            }
            Message::Goodbye => {
                out.push(MARKER_TINY_STRUCT);
                out.push(SIG_GOODBYE);
            }
            Message::RunWithMetadata { statement, parameters, metadata } => {
                out.push(MARKER_TINY_STRUCT + 3);
                out.push(SIG_RUN);
                match encode_string_into(statement.as_str(), &mut out) {
                    Ok(()) => {}
                    Err(e) => {
                        return Err(Error::EncoderOverflow);
                    }
                }
                match encode_dict_into(parameters, &mut out) {
                    Ok(()) => {}
                    Err(e) => {
                        return Err(Error::EncoderOverflow);
                    }
                }
                match encode_dict_into(metadata, &mut out) {
                    Ok(()) => {}
                    Err(e) => {
                        return Err(Error::EncoderOverflow);
                    }
                }
            }
            Message::Begin { metadata } => {
                out.push(MARKER_TINY_STRUCT + 1);
                out.push(SIG_BEGIN);
                match encode_dict_into(metadata, &mut out) {
                    Ok(()) => {}
                    Err(e) => {
                        return Err(Error::EncoderOverflow);
                    }
                }
            }
            Message::Commit => {
                out.push(MARKER_TINY_STRUCT);
                out.push(SIG_COMMIT);
            }
            Message::Rollback => {
                out.push(MARKER_TINY_STRUCT);
                out.push(SIG_ROLLBACK);
            }
            Message::Discard { metadata } => {
                out.push(MARKER_TINY_STRUCT + 1);
                out.push(SIG_DISCARD_ALL);
                match encode_dict_into(metadata, &mut out) {
                    Ok(()) => {}
                    Err(e) => {
                        return Err(Error::EncoderOverflow);
                    }
                }
            }
            Message::Pull { metadata } => {
                out.push(MARKER_TINY_STRUCT + 1);
                out.push(SIG_PULL_ALL);
                match encode_dict_into(metadata, &mut out) {
                    Ok(()) => {}
                    Err(e) => {
                        return Err(Error::EncoderOverflow);
                    }
                }
            }
        }
        assert(out@ =~= enc_msg(self.model()));
        Ok(out)
    }

    /// Parses the message at `pos`: exactly the specification's verdict on
    /// those bytes. Trailing bytes are left unread, as a chunked stream's
    /// accumulator may carry them.
    #[verifier::rlimit(100)]
    #[verifier::spinoff_prover]
    pub fn from_bytes_at(buf: &Vec<u8>, pos: usize) -> (r: Result<(Message, usize), Error>)
        requires
            pos <= buf.len(),
        ensures
            match r {
                Ok((msg, end)) => dec_msg(buf@.skip(pos as int)) == Ok::<(MsgM, int), Error>(
                    (msg.model(), end - pos),
                ) && pos <= end <= buf.len(),
                Err(e) => dec_msg(buf@.skip(pos as int)) == Err::<(MsgM, int), Error>(e),
            },
    {
        let ghost b = buf@.skip(pos as int);
        if pos == buf.len() {
            return Err(Error::UnexpectedEof);
        }
        let m = buf[pos];
        assert(b[0] == m);
        if !((MARKER_TINY_STRUCT <= m && m < MARKER_TINY_STRUCT + 16) || m == MARKER_STRUCT_8 || m
            == MARKER_STRUCT_16) {
            return Err(Error::InvalidMarker(m));
        }
        let hdr: usize = if MARKER_TINY_STRUCT <= m && m < MARKER_TINY_STRUCT + 16 {
            2
        } else if m == MARKER_STRUCT_8 {
            3
        } else {
            4
        };
        if buf.len() - pos < hdr {
            return Err(Error::UnexpectedEof);
        }
        let n: usize = if MARKER_TINY_STRUCT <= m && m < MARKER_TINY_STRUCT + 16 {
            (m - MARKER_TINY_STRUCT) as usize
        } else if m == MARKER_STRUCT_8 {
            buf[pos + 1] as usize
        } else {
            read_be2(buf, pos + 1) as usize
        };
        let sig = buf[pos + hdr - 1];
        if !(sig == SIG_INIT && (n == 1 || n == 2)) && !(sig == SIG_RUN && (n == 2 || n == 3))
            && !(sig == SIG_DISCARD_ALL && (n == 0 || n == 1)) && !(sig == SIG_PULL_ALL && (n == 0
            || n == 1)) && !(sig == SIG_ACK_FAILURE && n == 0) && !(sig == SIG_RESET && n == 0)
            && !(sig == SIG_RECORD && n == 1) && !(sig == SIG_SUCCESS && n == 1) && !(sig
            == SIG_FAILURE && n == 1) && !(sig == SIG_IGNORED && n == 0) && !(sig == SIG_GOODBYE
            && n == 0) && !(sig == SIG_BEGIN && n == 1) && !(sig == SIG_COMMIT && n == 0) && !(sig
            == SIG_ROLLBACK && n == 0) {
            return Err(Error::InvalidSignature(sig, n as u16));
        }
        proof {
            assert(buf@.skip((pos + hdr) as int) =~= b.skip(hdr as int));
        }
        let (fields, end) = match decode_elems_at(buf, pos + hdr, n) {
            Ok(p) => p,
            Err(e) => {
                return Err(e);
            }
        };
        let ghost fm = val_models(fields@);
        let msg = match build_message(sig, n, fields) {
            Ok(msg) => msg,
            Err(e) => {
                return Err(e);
            }
        };
        proof {
            assert(msg_of(sig, n as nat, fm) == Ok::<MsgM, Error>(msg.model()));
        }
        Ok((msg, end))
    }
}

/// Assembles a known message from its decoded fields; a field of the wrong
/// shape reports the decoder's shape error.
fn build_message(sig: u8, n: usize, fields: Vec<Value>) -> (r: Result<Message, Error>)
    requires
        known_msg_sig(sig, n as nat),
        val_models(fields@).len() == n as nat,
    ensures
        match r {
            Ok(msg) => msg_of(sig, n as nat, val_models(fields@)) == Ok::<MsgM, Error>(
                msg.model(),
            ),
            Err(e) => msg_of(sig, n as nat, val_models(fields@)) == Err::<MsgM, Error>(e),
        },
{
    let ghost fm = val_models(fields@);
    let mut fs = fields;
    if sig == SIG_INIT && n == 2 {
        let f2 = fs.pop().unwrap();
        let f1 = fs.pop().unwrap();
        proof {
            assert(f1.model() == fm[0] && f2.model() == fm[1]);
        }
        match (f1, f2) {
            (Value::String(client_name), Value::Dictionary(auth_token)) => Ok(
                Message::Init(Init { client_name, auth_token }),
            ),
            _ => Err(Error::DeserializerPanic),
        }
    } else if sig == SIG_INIT && n == 1 {
        let f1 = fs.pop().unwrap();
        proof {
            assert(f1.model() == fm[0]);
        }
        match f1 {
            Value::Dictionary(metadata) => Ok(Message::Hello { metadata }),
            _ => Err(Error::DeserializerPanic),
        }
    } else if sig == SIG_RUN && n == 2 {
        let f2 = fs.pop().unwrap();
        let f1 = fs.pop().unwrap();
        proof {
            assert(f1.model() == fm[0] && f2.model() == fm[1]);
        }
        match (f1, f2) {
            (Value::String(statement), Value::Dictionary(parameters)) => Ok(
                Message::Run { statement, parameters },
            ),
            _ => Err(Error::DeserializerPanic),
        }
    } else if sig == SIG_RUN && n == 3 {
        let f3 = fs.pop().unwrap();
        let f2 = fs.pop().unwrap();
        let f1 = fs.pop().unwrap();
        proof {
            assert(f1.model() == fm[0] && f2.model() == fm[1] && f3.model() == fm[2]);
        }
        match (f1, f2, f3) {
            (
                Value::String(statement),
                Value::Dictionary(parameters),
                Value::Dictionary(metadata),
            ) => Ok(Message::RunWithMetadata { statement, parameters, metadata }),
            _ => Err(Error::DeserializerPanic),
        }
    } else if sig == SIG_DISCARD_ALL && n == 0 {
        Ok(Message::DiscardAll)
    } else if sig == SIG_DISCARD_ALL && n == 1 {
        let f1 = fs.pop().unwrap();
        proof {
            assert(f1.model() == fm[0]);
        }
        match f1 {
            Value::Dictionary(metadata) => Ok(Message::Discard { metadata }),
            _ => Err(Error::DeserializerPanic),
        }
    } else if sig == SIG_PULL_ALL && n == 0 {
        Ok(Message::PullAll)
    } else if sig == SIG_PULL_ALL && n == 1 {
        let f1 = fs.pop().unwrap();
        proof {
            assert(f1.model() == fm[0]);
        }
        match f1 {
            Value::Dictionary(metadata) => Ok(Message::Pull { metadata }),
            _ => Err(Error::DeserializerPanic),
        }
    } else if sig == SIG_ACK_FAILURE {
        Ok(Message::AckFailure)
    } else if sig == SIG_RESET {
        Ok(Message::Reset)
    } else if sig == SIG_RECORD {
        let f1 = fs.pop().unwrap();
        proof {
            assert(f1.model() == fm[0]);
        }
        match f1 {
            Value::List(fields) => Ok(Message::Record { fields }),
            _ => Err(Error::DeserializerPanic),
        }
    } else if sig == SIG_SUCCESS {
        let f1 = fs.pop().unwrap();
        proof {
            assert(f1.model() == fm[0]);
        }
        match f1 {
            Value::Dictionary(metadata) => Ok(Message::Success { metadata }),
            _ => Err(Error::DeserializerPanic),
        }
    } else if sig == SIG_FAILURE {
        let f1 = fs.pop().unwrap();
        proof {
            assert(f1.model() == fm[0]);
        }
        match f1 {
            Value::Dictionary(metadata) => Ok(Message::Failure { metadata }),
            _ => Err(Error::DeserializerPanic),
        }
    } else if sig == SIG_IGNORED {
        Ok(Message::Ignored)
    } else if sig == SIG_GOODBYE {
        Ok(Message::Goodbye)
    } else if sig == SIG_BEGIN {
        let f1 = fs.pop().unwrap();
        proof {
            assert(f1.model() == fm[0]);
        }
        match f1 {
            Value::Dictionary(metadata) => Ok(Message::Begin { metadata }),
            _ => Err(Error::DeserializerPanic),
        }
    } else if sig == SIG_COMMIT {
        Ok(Message::Commit)
    } else {
        Ok(Message::Rollback)
    }
}

} // verus!
