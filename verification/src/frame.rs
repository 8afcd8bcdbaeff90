//! Chunked framing: an encoded message travels as length-prefixed chunks
//! of at most `CHUNK_SIZE` bytes, closed by a zero-length terminator.

use vstd::prelude::*;

use crate::error::Error;
use crate::message::{dec_msg, Message, MsgM};
use crate::wire::{be2, be2_val, lemma_be2_round_trip, push_be2, read_be2};

verus! {

/// The largest chunk payload: the default frame ceiling of the wire, less
/// the two bytes of the chunk's own length header.
pub const CHUNK_SIZE: usize = 16381;

/// The payloads a byte sequence is split into: full chunks, then the rest.
pub open spec fn chunks_of(b: Seq<u8>) -> Seq<Seq<u8>>
    decreases b.len(),
{
    if b.len() == 0 {
        Seq::empty()
    } else if b.len() <= CHUNK_SIZE {
        seq![b]
    } else {
        seq![b.take(CHUNK_SIZE as int)] + chunks_of(b.skip(CHUNK_SIZE as int))
    }
}

/// The framed form of a byte sequence: each chunk behind its 16-bit length,
/// then the terminator.
pub open spec fn frame_bytes(b: Seq<u8>) -> Seq<u8>
    decreases b.len(),
{
    if b.len() == 0 {
        seq![0u8, 0u8]
    } else if b.len() <= CHUNK_SIZE {
        be2(b.len() as u16) + b + seq![0u8, 0u8]
    } else {
        be2(CHUNK_SIZE as u16) + b.take(CHUNK_SIZE as int) + frame_bytes(b.skip(CHUNK_SIZE as int))
    }
}

/// Reassembles the chunked payloads at the front of a stream, up to and
/// including the terminator.
pub open spec fn dec_framed(s: Seq<u8>) -> Result<(Seq<u8>, int), Error>
    decreases s.len(),
{
    if s.len() < 2 {
        Err(Error::UnexpectedEof)
    } else {
        let l = be2_val(s[0], s[1]) as int;
        if l == 0 {
            Ok((Seq::empty(), 2int))
        } else if s.len() < 2 + l {
            Err(Error::UnexpectedEof)
        } else {
            match dec_framed(s.skip(2 + l)) {
                Err(e) => Err(e),
                Ok((rest, c)) => Ok((s.subrange(2, 2 + l) + rest, 2 + l + c)),
            }
        }
    }
}

/// Reassembling a framed byte sequence gives the sequence back, whatever
/// bytes follow the terminator.
pub proof fn lemma_frame_round_trip(b: Seq<u8>, tail: Seq<u8>)
    ensures
        dec_framed(frame_bytes(b) + tail) == Ok::<(Seq<u8>, int), Error>(
            (b, frame_bytes(b).len() as int),
        ),
    decreases b.len(),
{
    broadcast use lemma_be2_round_trip;

    let s = frame_bytes(b) + tail;
    if b.len() == 0 {
        assert(s[0] == 0 && s[1] == 0);
        assert(be2_val(0, 0) == 0) by (bit_vector);
        assert(b =~= Seq::<u8>::empty());
    } else if b.len() <= CHUNK_SIZE {
        let l = b.len() as u16;
        assert(s =~= be2(l) + (b + (seq![0u8, 0u8] + tail)));
        assert(s[0] == be2(l)[0] && s[1] == be2(l)[1]);
        assert(be2_val(s[0], s[1]) == l);
        assert(l != 0) by {
            assert(b.len() as u16 != 0);
        }
        assert(s.subrange(2, 2 + l as int) =~= b);
        assert(s.skip(2 + l as int) =~= seq![0u8, 0u8] + tail);
        assert(be2_val(0, 0) == 0) by (bit_vector);
        assert(dec_framed(seq![0u8, 0u8] + tail) == Ok::<(Seq<u8>, int), Error>(
            (Seq::empty(), 2int),
        ));
        assert(b + Seq::<u8>::empty() =~= b);
    } else {
        let head = b.take(CHUNK_SIZE as int);
        let rest = b.skip(CHUNK_SIZE as int);
        assert(s =~= be2(CHUNK_SIZE as u16) + (head + (frame_bytes(rest) + tail)));
        assert(s[0] == be2(CHUNK_SIZE as u16)[0] && s[1] == be2(CHUNK_SIZE as u16)[1]);
        assert(be2_val(s[0], s[1]) == CHUNK_SIZE as u16);
        assert(s.subrange(2, 2 + CHUNK_SIZE as int) =~= head);
        assert(s.skip(2 + CHUNK_SIZE as int) =~= frame_bytes(rest) + tail);
        lemma_frame_round_trip(rest, tail);
        assert(head + rest =~= b);
    }
}

/// A framed sequence holds exactly the ceiling of its length over the
/// chunk size in data chunks; an empty sequence has none.
pub proof fn lemma_chunk_count(b: Seq<u8>)
    ensures
        chunks_of(b).len() == (b.len() + CHUNK_SIZE - 1) as int / (CHUNK_SIZE as int),
    decreases b.len(),
{
    let cs = CHUNK_SIZE as int;
    if b.len() == 0 {
        assert((0 + cs - 1) / cs == 0);
    } else if b.len() <= CHUNK_SIZE {
        assert((b.len() + cs - 1) as int / cs == 1) by (nonlinear_arith)
            requires 1 <= b.len() <= cs, cs == 16381;
    } else {
        lemma_chunk_count(b.skip(cs));
        let rl = b.len() - cs;
        assert((rl + cs - 1) / cs + 1 == (b.len() + cs - 1) as int / cs) by (nonlinear_arith)
            requires rl == b.len() - cs, b.len() > cs, cs == 16381;
    }
}

/// Reassembles one message's bytes from the front of a chunked stream and
/// parses them.
pub open spec fn dec_framed_msg(s: Seq<u8>) -> Result<(MsgM, int), Error> {
    match dec_framed(s) {
        Err(e) => Err(e),
        Ok((body, c)) => match dec_msg(body) {
            Err(e) => Err(e),
            Ok((m, _)) => Ok((m, c)),
        },
    }
}

/// Frames a message body: chunk headers, payloads, terminator.
pub fn frame_message_bytes(body: &Vec<u8>, from: usize, out: &mut Vec<u8>)
    requires
        from <= body.len(),
    ensures
        final(out)@ == old(out)@ + frame_bytes(body@.skip(from as int)),
    decreases body.len() - from,
{
    let remaining = body.len() - from;
    if remaining == 0 {
        out.push(0);
        out.push(0);
        assert(out@ =~= old(out)@ + frame_bytes(body@.skip(from as int)));
    } else if remaining <= CHUNK_SIZE {
        push_be2(out, remaining as u16);
        out.extend_from_slice(vstd::slice::slice_subrange(body.as_slice(), from, body.len()));
        out.push(0);
        out.push(0);
        proof {
            let b = body@.skip(from as int);
            assert(body@.subrange(from as int, body@.len() as int) =~= b);
            assert(out@ =~= old(out)@ + (be2(b.len() as u16) + b + seq![0u8, 0u8]));
        }
    } else {
        push_be2(out, CHUNK_SIZE as u16);
        out.extend_from_slice(
            vstd::slice::slice_subrange(body.as_slice(), from, from + CHUNK_SIZE),
        );
        let ghost mid = out@;
        frame_message_bytes(body, from + CHUNK_SIZE, out);
        proof {
            let b = body@.skip(from as int);
            assert(body@.subrange(from as int, (from + CHUNK_SIZE) as int) =~= b.take(
                CHUNK_SIZE as int,
            ));
            assert(body@.skip((from + CHUNK_SIZE) as int) =~= b.skip(CHUNK_SIZE as int));
            assert(out@ =~= old(out)@ + (be2(CHUNK_SIZE as u16) + b.take(CHUNK_SIZE as int)
                + frame_bytes(b.skip(CHUNK_SIZE as int))));
        }
    }
}

/// Reassembles the chunked payloads at the front of `stream`, up to and
/// including the terminator: the body bytes and the position just past the
/// terminator. `UnexpectedEof` asks the caller for more stream bytes.
pub fn deframe(stream: &Vec<u8>, pos: usize) -> (r: Result<(Vec<u8>, usize), Error>)
    requires
        pos <= stream.len(),
    ensures
        match r {
            Ok((body, end)) => dec_framed(stream@.skip(pos as int)) == Ok::<(Seq<u8>, int), Error>(
                (body@, end - pos),
            ) && pos <= end <= stream.len(),
            Err(e) => dec_framed(stream@.skip(pos as int)) == Err::<(Seq<u8>, int), Error>(e),
        },
    decreases stream.len() - pos,
{
    let ghost s = stream@.skip(pos as int);
    if stream.len() - pos < 2 {
        return Err(Error::UnexpectedEof);
    }
    let l = read_be2(stream, pos) as usize;
    assert(s[0] == stream@[pos as int] && s[1] == stream@[pos + 1]);
    if l == 0 {
        let body: Vec<u8> = Vec::new();
        assert(body@ =~= Seq::<u8>::empty());
        return Ok((body, pos + 2));
    }
    if stream.len() - pos - 2 < l {
        return Err(Error::UnexpectedEof);
    }
    proof {
        assert(stream@.skip((pos + 2 + l) as int) =~= s.skip(2 + l as int));
    }
    match deframe(stream, pos + 2 + l) {
        Err(e) => Err(e),
        Ok((rest, end)) => {
            let mut body = vstd::slice::slice_to_vec(
                vstd::slice::slice_subrange(stream.as_slice(), pos + 2, pos + 2 + l),
            );
            let mut tailpart = rest;
            body.append(&mut tailpart);
            proof {
                assert(stream@.subrange((pos + 2) as int, (pos + 2 + l) as int) =~= s.subrange(
                    2,
                    2 + l as int,
                ));
            }
            Ok((body, end))
        }
    }
}

impl Message {
    /// The framed form of this message: its encoding split into chunks,
    /// each behind its 16-bit length, closed by the terminator.
    pub fn to_chunked_bytes(&self) -> (r: Result<Vec<u8>, Error>)
        ensures
            r is Ok ==> r->Ok_0@ == frame_bytes(crate::message::enc_msg(self.model())),
            r is Ok <==> crate::message::encodable_msg(self.model()),
            r is Err ==> r->Err_0 == Error::EncoderOverflow,
    {
        let body = match self.to_bytes() {
            Ok(b) => b,
            Err(e) => {
                return Err(Error::EncoderOverflow);
            }
        };
        let mut out: Vec<u8> = Vec::new();
        frame_message_bytes(&body, 0, &mut out);
        proof {
            assert(body@.skip(0) =~= body@);
            assert(out@ =~= frame_bytes(crate::message::enc_msg(self.model())));
        }
        Ok(out)
    }

    /// Reads the next complete message from the front of a chunked stream:
    /// reassembles the chunks up to the terminator and parses them.
    /// `UnexpectedEof` means the stream does not yet hold a full message.
    pub fn from_frames(stream: &Vec<u8>, pos: usize) -> (r: Result<(Message, usize), Error>)
        requires
            pos <= stream.len(),
        ensures
            match r {
                Ok((msg, end)) => dec_framed_msg(stream@.skip(pos as int)) == Ok::<
                    (MsgM, int),
                    Error,
                >((msg.model(), end - pos)) && pos <= end <= stream.len(),
                Err(e) => dec_framed_msg(stream@.skip(pos as int)) == Err::<(MsgM, int), Error>(e),
            },
    {
        let (body, end) = match deframe(stream, pos) {
            Ok(p) => p,
            Err(e) => {
                return Err(e);
            }
        };
        proof {
            assert(body@.skip(0) =~= body@);
        }
        match Message::from_bytes_at(&body, 0) {
            Ok((msg, _)) => Ok((msg, end)),
            Err(e) => Err(e),
        }
    }
}

} // verus!
