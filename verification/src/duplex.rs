//! A bidirectional channel built from two independent unidirectional pipes.
//!
//! Each side holds exactly its own read endpoint and its own write endpoint.
//! The two directions share nothing: what one side sends can only ever be
//! read on the other side's incoming direction.

use crate::codec::{enc_bytes, enc_i32, recv_bytes, recv_i32, send_bytes, send_i32};
use crate::errors::PipeError;
use crate::pipe::{pipe, PipeRead, PipeWrite};
use vstd::prelude::*;

verus! {

/// One side's view of a bidirectional channel: its own read endpoint and its
/// own write endpoint, drawn from two independently created pipes.
pub struct DuplexChannel {
    pub rx: PipeRead,
    pub tx: PipeWrite,
}

/// Duplex message passing over one side of a bidirectional channel.
pub trait PipeSendRecv {
    /// Bytes this side has taken off its incoming direction.
    spec fn inbox(&self) -> Seq<u8>;

    /// Bytes this side has put on its outgoing direction.
    spec fn outbox(&self) -> Seq<u8>;

    /// Receives one framed message from the incoming direction. The outgoing
    /// direction is untouched: the two directions are independent.
    fn recv(&mut self) -> (res: Result<Vec<u8>, PipeError>)
        ensures
            final(self).outbox() == old(self).outbox(),
            match res {
                Ok(p) => final(self).inbox() == old(self).inbox() + enc_bytes(p@),
                Err(e) => old(self).inbox().is_prefix_of(final(self).inbox())
                    && (e == PipeError::Incomplete || e == PipeError::Malformed
                        || (e matches PipeError::Os(_))),
            },
    ;

    /// Sends one framed message on the outgoing direction. The incoming
    /// direction is untouched: the two directions are independent.
    fn send(&mut self, item: &Vec<u8>) -> (res: Result<(), PipeError>)
        ensures
            final(self).inbox() == old(self).inbox(),
            match res {
                Ok(_) => final(self).outbox() == old(self).outbox() + enc_bytes(item@),
                Err(e) => old(self).outbox().is_prefix_of(final(self).outbox())
                    && (e matches PipeError::Os(_)),
            },
    ;
}

impl PipeSendRecv for DuplexChannel {
    open spec fn inbox(&self) -> Seq<u8> {
        self.rx.consumed()
    }

    open spec fn outbox(&self) -> Seq<u8> {
        self.tx.sent()
    }

    fn recv(&mut self) -> (res: Result<Vec<u8>, PipeError>) {
        recv_bytes(&mut self.rx)
    }

    fn send(&mut self, item: &Vec<u8>) -> (res: Result<(), PipeError>) {
        send_bytes(&mut self.tx, item)
    }
}

impl DuplexChannel {
    /// Sends one signed 32-bit number on the outgoing direction; the incoming
    /// direction is untouched.
    pub fn send_num(&mut self, v: i32) -> (res: Result<(), PipeError>)
        ensures
            final(self).rx.consumed() == old(self).rx.consumed(),
            match res {
                Ok(_) => final(self).tx.sent() == old(self).tx.sent() + enc_i32(v),
                Err(e) => old(self).tx.sent().is_prefix_of(final(self).tx.sent())
                    && (e matches PipeError::Os(_)),
            },
    {
        send_i32(&mut self.tx, v)
    }

    /// Receives one signed 32-bit number from the incoming direction; the
    /// outgoing direction is untouched.
    pub fn recv_num(&mut self) -> (res: Result<i32, PipeError>)
        ensures
            final(self).tx.sent() == old(self).tx.sent(),
            match res {
                Ok(v) => final(self).rx.consumed() == old(self).rx.consumed() + enc_i32(v),
                Err(e) => old(self).rx.consumed().is_prefix_of(final(self).rx.consumed())
                    && (e == PipeError::Incomplete || (e matches PipeError::Os(_))),
            },
    {
        recv_i32(&mut self.rx)
    }
}

/// Builds two pipes and bundles them into the two sides of a bidirectional
/// channel: the left side's writes arrive at the right side's reads and the
/// other way round. Both sides start with empty byte histories, and each
/// side's read descriptor differs from the other side's write descriptor,
/// its own end of the same pipe. A failure is the OS error of whichever
/// channel creation failed, propagated unchanged; a channel created before
/// the failure is released by drop, so no descriptor leaks. Build the
/// channel before creating a child process; each process must then keep only
/// the side it owns and drop the other, so that end-of-stream and
/// broken-channel signalling work across the fork.
pub fn pipe_duplex() -> (r: Result<(DuplexChannel, DuplexChannel), PipeError>)
    ensures
        r matches Ok(d) ==> d.0.inbox() == Seq::<u8>::empty()
            && d.0.outbox() == Seq::<u8>::empty()
            && d.1.inbox() == Seq::<u8>::empty()
            && d.1.outbox() == Seq::<u8>::empty()
            && d.0.rx.descriptor() != d.1.tx.descriptor()
            && d.1.rx.descriptor() != d.0.tx.descriptor(),
        r matches Err(e) ==> (e matches PipeError::Os(_)),
{
    let (rx_left, tx_right) = match pipe() {
        Ok(p) => p,
        Err(e) => {
            return Err(e);
        }
    };
    let (rx_right, tx_left) = match pipe() {
        Ok(p) => p,
        Err(e) => {
            return Err(e);
        }
    };
    Ok((
        DuplexChannel { rx: rx_left, tx: tx_left },
        DuplexChannel { rx: rx_right, tx: tx_right },
    ))
}

} // verus!
