//! The framed message codec: a canonical, self-describing binary encoding.
//!
//! Fixed-width numbers are laid out little-endian; a variable-size byte
//! message is its eight-byte little-endian length followed by its bytes.
//! Message boundaries come from this structure alone, so a stream of framed
//! messages re-segments unambiguously.

use crate::errors::PipeError;
use crate::pipe::{PipeRead, PipeWrite};
use vstd::prelude::*;

verus! {

/// The four little-endian bytes of a 32-bit number.
pub open spec fn le32(v: u32) -> Seq<u8> {
    seq![
        (v & 0xff) as u8,
        ((v >> 8) & 0xff) as u8,
        ((v >> 16) & 0xff) as u8,
        ((v >> 24) & 0xff) as u8,
    ]
}

/// The eight little-endian bytes of a 64-bit number.
pub open spec fn le64(v: u64) -> Seq<u8> {
    seq![
        (v & 0xff) as u8,
        ((v >> 8) & 0xff) as u8,
        ((v >> 16) & 0xff) as u8,
        ((v >> 24) & 0xff) as u8,
        ((v >> 32) & 0xff) as u8,
        ((v >> 40) & 0xff) as u8,
        ((v >> 48) & 0xff) as u8,
        ((v >> 56) & 0xff) as u8,
    ]
}

/// The encoding of a signed 32-bit number: its two's-complement bits,
/// little-endian.
pub open spec fn enc_i32(v: i32) -> Seq<u8> {
    le32(v as u32)
}

/// The frame of a byte message: its length, then its bytes.
pub open spec fn enc_bytes(p: Seq<u8>) -> Seq<u8> {
    le64(p.len() as u64) + p
}

/// The frames of a message sequence, laid end to end.
pub open spec fn enc_stream(vs: Seq<Seq<u8>>) -> Seq<u8>
    decreases vs.len(),
{
    if vs.len() == 0 {
        Seq::empty()
    } else {
        enc_bytes(vs[0]) + enc_stream(vs.skip(1))
    }
}

/// Encodes a 32-bit number as its four little-endian bytes.
pub fn encode_u32(v: u32) -> (r: Vec<u8>)
    ensures
        r@ == le32(v),
{
    let mut out: Vec<u8> = Vec::new();
    out.push(#[verifier::truncate] ((v & 0xff) as u8));
    out.push(#[verifier::truncate] (((v >> 8) & 0xff) as u8));
    out.push(#[verifier::truncate] (((v >> 16) & 0xff) as u8));
    out.push(#[verifier::truncate] (((v >> 24) & 0xff) as u8));
    proof {
        assert(out@ =~= le32(v));
    }
    out
}

/// Encodes a 64-bit number as its eight little-endian bytes.
pub fn encode_u64(v: u64) -> (r: Vec<u8>)
    ensures
        r@ == le64(v),
{
    let mut out: Vec<u8> = Vec::new();
    out.push(#[verifier::truncate] ((v & 0xff) as u8));
    out.push(#[verifier::truncate] (((v >> 8) & 0xff) as u8));
    out.push(#[verifier::truncate] (((v >> 16) & 0xff) as u8));
    out.push(#[verifier::truncate] (((v >> 24) & 0xff) as u8));
    out.push(#[verifier::truncate] (((v >> 32) & 0xff) as u8));
    out.push(#[verifier::truncate] (((v >> 40) & 0xff) as u8));
    out.push(#[verifier::truncate] (((v >> 48) & 0xff) as u8));
    out.push(#[verifier::truncate] (((v >> 56) & 0xff) as u8));
    proof {
        assert(out@ =~= le64(v));
    }
    out
}

/// Decodes four little-endian bytes; the result is the one number whose
/// encoding is exactly those bytes.
pub fn decode_u32(b: &Vec<u8>) -> (r: u32)
    requires
        b@.len() == 4,
    ensures
        le32(r) == b@,
{
    let b0 = b[0];
    let b1 = b[1];
    let b2 = b[2];
    let b3 = b[3];
    let r = (b0 as u32) | ((b1 as u32) << 8) | ((b2 as u32) << 16) | ((b3 as u32) << 24);
    proof {
        assert((r & 0xff) == b0 as u32 && ((r >> 8) & 0xff) == b1 as u32
            && ((r >> 16) & 0xff) == b2 as u32 && ((r >> 24) & 0xff) == b3 as u32)
            by (bit_vector)
            requires
                r == (b0 as u32) | ((b1 as u32) << 8) | ((b2 as u32) << 16)
                    | ((b3 as u32) << 24),
        ;
        assert(le32(r) =~= b@);
    }
    r
}

/// Decodes eight little-endian bytes; the result is the one number whose
/// encoding is exactly those bytes.
pub fn decode_u64(b: &Vec<u8>) -> (r: u64)
    requires
        b@.len() == 8,
    ensures
        le64(r) == b@,
{
    let b0 = b[0];
    let b1 = b[1];
    let b2 = b[2];
    let b3 = b[3];
    let b4 = b[4];
    let b5 = b[5];
    let b6 = b[6];
    let b7 = b[7];
    let r = (b0 as u64) | ((b1 as u64) << 8) | ((b2 as u64) << 16) | ((b3 as u64) << 24)
        | ((b4 as u64) << 32) | ((b5 as u64) << 40) | ((b6 as u64) << 48) | ((b7 as u64) << 56);
    proof {
        assert((r & 0xff) == b0 as u64 && ((r >> 8) & 0xff) == b1 as u64
            && ((r >> 16) & 0xff) == b2 as u64 && ((r >> 24) & 0xff) == b3 as u64
            && ((r >> 32) & 0xff) == b4 as u64 && ((r >> 40) & 0xff) == b5 as u64
            && ((r >> 48) & 0xff) == b6 as u64 && ((r >> 56) & 0xff) == b7 as u64)
            by (bit_vector)
            requires
                r == (b0 as u64) | ((b1 as u64) << 8) | ((b2 as u64) << 16)
                    | ((b3 as u64) << 24) | ((b4 as u64) << 32) | ((b5 as u64) << 40)
                    | ((b6 as u64) << 48) | ((b7 as u64) << 56),
        ;
        assert(le64(r) =~= b@);
    }
    r
}

/// Two 32-bit numbers with the same encoding are the same number.
pub proof fn lemma_le32_injective(a: u32, b: u32)
    requires
        le32(a) == le32(b),
    ensures
        a == b,
{
    assert(le32(a)[0] == le32(b)[0] && le32(a)[1] == le32(b)[1]
        && le32(a)[2] == le32(b)[2] && le32(a)[3] == le32(b)[3]);
    assert(a & 0xff < 256 && (a >> 8) & 0xff < 256 && (a >> 16) & 0xff < 256
        && (a >> 24) & 0xff < 256) by (bit_vector);
    assert(b & 0xff < 256 && (b >> 8) & 0xff < 256 && (b >> 16) & 0xff < 256
        && (b >> 24) & 0xff < 256) by (bit_vector);
    assert(a == b) by (bit_vector)
        requires
            a & 0xff == b & 0xff,
            (a >> 8) & 0xff == (b >> 8) & 0xff,
            (a >> 16) & 0xff == (b >> 16) & 0xff,
            (a >> 24) & 0xff == (b >> 24) & 0xff,
    ;
}

/// Two 64-bit numbers with the same encoding are the same number.
pub proof fn lemma_le64_injective(a: u64, b: u64)
    requires
        le64(a) == le64(b),
    ensures
        a == b,
{
    assert(le64(a)[0] == le64(b)[0] && le64(a)[1] == le64(b)[1]
        && le64(a)[2] == le64(b)[2] && le64(a)[3] == le64(b)[3]
        && le64(a)[4] == le64(b)[4] && le64(a)[5] == le64(b)[5]
        && le64(a)[6] == le64(b)[6] && le64(a)[7] == le64(b)[7]);
    assert(a & 0xff < 256 && (a >> 8) & 0xff < 256 && (a >> 16) & 0xff < 256
        && (a >> 24) & 0xff < 256 && (a >> 32) & 0xff < 256 && (a >> 40) & 0xff < 256
        && (a >> 48) & 0xff < 256 && (a >> 56) & 0xff < 256) by (bit_vector);
    assert(b & 0xff < 256 && (b >> 8) & 0xff < 256 && (b >> 16) & 0xff < 256
        && (b >> 24) & 0xff < 256 && (b >> 32) & 0xff < 256 && (b >> 40) & 0xff < 256
        && (b >> 48) & 0xff < 256 && (b >> 56) & 0xff < 256) by (bit_vector);
    assert(a == b) by (bit_vector)
        requires
            a & 0xff == b & 0xff,
            (a >> 8) & 0xff == (b >> 8) & 0xff,
            (a >> 16) & 0xff == (b >> 16) & 0xff,
            (a >> 24) & 0xff == (b >> 24) & 0xff,
            (a >> 32) & 0xff == (b >> 32) & 0xff,
            (a >> 40) & 0xff == (b >> 40) & 0xff,
            (a >> 48) & 0xff == (b >> 48) & 0xff,
            (a >> 56) & 0xff == (b >> 56) & 0xff,
    ;
}

/// A framed stream splits in exactly one way: equal streams that both start
/// with a frame start with the same message and continue identically.
pub proof fn lemma_frame_splits_uniquely(p1: Seq<u8>, r1: Seq<u8>, p2: Seq<u8>, r2: Seq<u8>)
    requires
        p1.len() <= u64::MAX,
        p2.len() <= u64::MAX,
        enc_bytes(p1) + r1 == enc_bytes(p2) + r2,
    ensures
        p1 == p2,
        r1 == r2,
{
    let s = enc_bytes(p1) + r1;
    assert(le64(p1.len() as u64) =~= s.take(8));
    assert(le64(p2.len() as u64) =~= s.take(8));
    lemma_le64_injective(p1.len() as u64, p2.len() as u64);
    assert(p1.len() == p2.len());
    assert(p1 =~= p2) by {
        assert forall|i: int| 0 <= i < p1.len() implies p1[i] == p2[i] by {
            assert(s[8 + i] == p1[i]);
            assert(s[8 + i] == p2[i]);
        }
    }
    assert(r1 =~= r2) by {
        assert(enc_bytes(p1).len() == 8 + p1.len());
        assert(enc_bytes(p2).len() == 8 + p2.len());
        assert((enc_bytes(p1) + r1).len() == 8 + p1.len() + r1.len());
        assert((enc_bytes(p2) + r2).len() == 8 + p2.len() + r2.len());
        assert(r1.len() == r2.len());
        assert forall|i: int| 0 <= i < r1.len() implies r1[i] == r2[i] by {
            assert(s[8 + p1.len() + i] == r1[i]);
            assert(s[8 + p2.len() + i] == r2[i]);
        }
    }
}

/// Round trip of the framed codec: message boundaries come from the frames
/// alone, so one byte stream carrying equally many framed messages on both
/// readings carries the same messages, in the same order. Sending messages
/// in order and receiving them one by one therefore returns them unchanged.
pub proof fn lemma_stream_round_trip(vs: Seq<Seq<u8>>, ws: Seq<Seq<u8>>)
    requires
        vs.len() == ws.len(),
        forall|i: int| 0 <= i < vs.len() ==> #[trigger] vs[i].len() <= u64::MAX,
        forall|i: int| 0 <= i < ws.len() ==> #[trigger] ws[i].len() <= u64::MAX,
        enc_stream(vs) == enc_stream(ws),
    ensures
        vs == ws,
    decreases vs.len(),
{
    if vs.len() == 0 {
        assert(vs =~= ws);
    } else {
        lemma_frame_splits_uniquely(vs[0], enc_stream(vs.skip(1)), ws[0], enc_stream(ws.skip(1)));
        assert forall|i: int| 0 <= i < vs.skip(1).len()
            implies #[trigger] vs.skip(1)[i].len() <= u64::MAX by {
            assert(vs.skip(1)[i] == vs[i + 1]);
        }
        assert forall|i: int| 0 <= i < ws.skip(1).len()
            implies #[trigger] ws.skip(1)[i].len() <= u64::MAX by {
            assert(ws.skip(1)[i] == ws[i + 1]);
        }
        lemma_stream_round_trip(vs.skip(1), ws.skip(1));
        assert(vs =~= ws) by {
            assert forall|i: int| 0 <= i < vs.len() implies vs[i] == ws[i] by {
                if i > 0 {
                    assert(vs[i] == vs.skip(1)[i - 1]);
                    assert(ws[i] == ws.skip(1)[i - 1]);
                }
            }
        }
    }
}

/// Round trip over a channel: when a reader has consumed exactly the bytes a
/// writer sent — the channel delivered everything, in order — then equally
/// many framed messages sent and received are the same messages, in the same
/// order.
pub proof fn lemma_endpoint_round_trip(
    w: PipeWrite,
    r: PipeRead,
    sent_msgs: Seq<Seq<u8>>,
    recv_msgs: Seq<Seq<u8>>,
)
    requires
        sent_msgs.len() == recv_msgs.len(),
        forall|i: int| 0 <= i < sent_msgs.len() ==> #[trigger] sent_msgs[i].len() <= u64::MAX,
        forall|i: int| 0 <= i < recv_msgs.len() ==> #[trigger] recv_msgs[i].len() <= u64::MAX,
        w.sent() == enc_stream(sent_msgs),
        r.consumed() == enc_stream(recv_msgs),
        r.consumed() == w.sent(),
    ensures
        recv_msgs == sent_msgs,
{
    lemma_stream_round_trip(sent_msgs, recv_msgs);
}

/// Sends one byte message in full: its frame is written to the endpoint,
/// retrying partial writes until every byte is out.
pub fn send_bytes(w: &mut PipeWrite, payload: &Vec<u8>) -> (r: Result<(), PipeError>)
    ensures
        final(w).descriptor() == old(w).descriptor(),
        match r {
            Ok(_) => final(w).sent() == old(w).sent() + enc_bytes(payload@),
            Err(e) => old(w).sent().is_prefix_of(final(w).sent())
                && (e matches PipeError::Os(_)),
        },
{
    let header = encode_u64(payload.len() as u64);
    match w.write_all(&header) {
        Ok(_) => {}
        Err(e) => {
            return Err(e);
        }
    }
    match w.write_all(payload) {
        Ok(_) => {}
        Err(e) => {
            proof {
                lemma_prefix_chain(old(w).sent(), header@, w.sent());
            }
            return Err(e);
        }
    }
    proof {
        assert(old(w).sent() + header@ + payload@ =~= old(w).sent() + enc_bytes(payload@));
    }
    Ok(())
}

/// Receives exactly one framed byte message, accumulating bytes until the
/// frame is structurally complete. A stream that ends mid-frame is an
/// `Incomplete` failure, never an empty success; a frame whose announced
/// length exceeds the address space is rejected as malformed.
pub fn recv_bytes(r: &mut PipeRead) -> (res: Result<Vec<u8>, PipeError>)
    ensures
        final(r).descriptor() == old(r).descriptor(),
        match res {
            Ok(p) => final(r).consumed() == old(r).consumed() + enc_bytes(p@),
            Err(e) => old(r).consumed().is_prefix_of(final(r).consumed())
                && (e == PipeError::Incomplete || e == PipeError::Malformed
                    || (e matches PipeError::Os(_))),
        },
        res == Err::<Vec<u8>, PipeError>(PipeError::Malformed) ==> exists|n: u64|
            #![auto]
            n > usize::MAX && final(r).consumed() == old(r).consumed() + le64(n),
{
    let header = match r.read_exact(8) {
        Ok(h) => h,
        Err(e) => {
            return Err(e);
        }
    };
    let len = decode_u64(&header);
    if len > (usize::MAX as u64) {
        proof {
            lemma_prefix_chain(old(r).consumed(), header@, r.consumed());
            assert(len > usize::MAX && r.consumed() == old(r).consumed() + le64(len));
        }
        return Err(PipeError::Malformed);
    }
    let payload = match r.read_exact(len as usize) {
        Ok(p) => p,
        Err(e) => {
            proof {
                lemma_prefix_chain(old(r).consumed(), header@, r.consumed());
            }
            return Err(e);
        }
    };
    proof {
        assert(le64(payload@.len() as u64) == header@);
        assert(old(r).consumed() + header@ + payload@
            =~= old(r).consumed() + enc_bytes(payload@));
    }
    Ok(payload)
}

/// Sends one signed 32-bit number: its four encoding bytes, written in full.
pub fn send_i32(w: &mut PipeWrite, v: i32) -> (r: Result<(), PipeError>)
    ensures
        final(w).descriptor() == old(w).descriptor(),
        match r {
            Ok(_) => final(w).sent() == old(w).sent() + enc_i32(v),
            Err(e) => old(w).sent().is_prefix_of(final(w).sent())
                && (e matches PipeError::Os(_)),
        },
{
    let b = encode_u32(#[verifier::truncate] (v as u32));
    w.write_all(&b)
}

/// Receives one signed 32-bit number: exactly the four bytes of its encoding.
pub fn recv_i32(r: &mut PipeRead) -> (res: Result<i32, PipeError>)
    ensures
        final(r).descriptor() == old(r).descriptor(),
        match res {
            Ok(v) => final(r).consumed() == old(r).consumed() + enc_i32(v),
            Err(e) => old(r).consumed().is_prefix_of(final(r).consumed())
                && (e == PipeError::Incomplete || (e matches PipeError::Os(_))),
        },
{
    let b = match r.read_exact(4) {
        Ok(b) => b,
        Err(e) => {
            return Err(e);
        }
    };
    let u = decode_u32(&b);
    let v = #[verifier::truncate] (u as i32);
    proof {
        assert((v as u32) == u) by (bit_vector)
            requires
                v == u as i32,
        ;
    }
    Ok(v)
}

/// A span of time as plain values: whole seconds and the nanoseconds left
/// over, always fewer than one second's worth.
#[derive(Debug, Clone, Copy, PartialEq, Eq, Structural)]
pub struct TimeSpan {
    pub secs: u64,
    pub nanos: u32,
}

impl TimeSpan {
    /// The nanoseconds never reach a whole second.
    pub open spec fn wf(&self) -> bool {
        self.nanos < 1_000_000_000
    }

    /// A span of whole seconds.
    pub fn from_secs(secs: u64) -> (r: TimeSpan)
        ensures
            r.secs == secs,
            r.nanos == 0,
            r.wf(),
    {
        TimeSpan { secs, nanos: 0 }
    }
}

/// The encoding of a time span: its seconds, then its leftover nanoseconds.
pub open spec fn enc_span(t: TimeSpan) -> Seq<u8> {
    le64(t.secs) + le32(t.nanos)
}

/// Sends one time span: its twelve encoding bytes, written in full.
pub fn send_span(w: &mut PipeWrite, t: &TimeSpan) -> (r: Result<(), PipeError>)
    ensures
        final(w).descriptor() == old(w).descriptor(),
        match r {
            Ok(_) => final(w).sent() == old(w).sent() + enc_span(*t),
            Err(e) => old(w).sent().is_prefix_of(final(w).sent())
                && (e matches PipeError::Os(_)),
        },
{
    let hi = encode_u64(t.secs);
    match w.write_all(&hi) {
        Ok(_) => {}
        Err(e) => {
            return Err(e);
        }
    }
    let lo = encode_u32(t.nanos);
    match w.write_all(&lo) {
        Ok(_) => {}
        Err(e) => {
            proof {
                lemma_prefix_chain(old(w).sent(), hi@, w.sent());
            }
            return Err(e);
        }
    }
    proof {
        assert(old(w).sent() + hi@ + lo@ =~= old(w).sent() + enc_span(*t));
    }
    Ok(())
}

/// Receives one time span: exactly the twelve bytes of its encoding. Bytes
/// whose nanoseconds reach a whole second do not decode: they are rejected
/// as malformed, since no well-formed span encodes to them.
pub fn recv_span(r: &mut PipeRead) -> (res: Result<TimeSpan, PipeError>)
    ensures
        final(r).descriptor() == old(r).descriptor(),
        match res {
            Ok(t) => t.wf() && final(r).consumed() == old(r).consumed() + enc_span(t),
            Err(e) => old(r).consumed().is_prefix_of(final(r).consumed())
                && (e == PipeError::Incomplete || e == PipeError::Malformed
                    || (e matches PipeError::Os(_))),
        },
        res == Err::<TimeSpan, PipeError>(PipeError::Malformed) ==> exists|secs: u64, nanos: u32|
            #![auto]
            nanos >= 1_000_000_000
                && final(r).consumed() == old(r).consumed() + le64(secs) + le32(nanos),
{
    let hb = match r.read_exact(8) {
        Ok(b) => b,
        Err(e) => {
            return Err(e);
        }
    };
    let secs = decode_u64(&hb);
    let nb = match r.read_exact(4) {
        Ok(b) => b,
        Err(e) => {
            proof {
                lemma_prefix_chain(old(r).consumed(), hb@, r.consumed());
            }
            return Err(e);
        }
    };
    let nanos = decode_u32(&nb);
    if nanos >= 1_000_000_000 {
        proof {
            assert(old(r).consumed() + (hb@ + nb@) =~= r.consumed());
            lemma_prefix_chain(old(r).consumed(), hb@ + nb@, r.consumed());
            assert(r.consumed() == old(r).consumed() + le64(secs) + le32(nanos));
        }
        return Err(PipeError::Malformed);
    }
    let t = TimeSpan { secs, nanos };
    proof {
        assert(old(r).consumed() + hb@ + nb@ =~= old(r).consumed() + enc_span(t));
    }
    Ok(t)
}

/// A sequence followed first by one extension and then by more is still an
/// extension of the original.
proof fn lemma_prefix_chain(a: Seq<u8>, b: Seq<u8>, c: Seq<u8>)
    requires
        (a + b).is_prefix_of(c) || a + b == c,
    ensures
        a.is_prefix_of(c),
{
    assert((a + b).take(a.len() as int) =~= a);
    assert(c.take(a.len() as int) =~= a);
}

} // verus!
