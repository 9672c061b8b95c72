//! Owned endpoints of a unidirectional OS byte channel.
//!
//! Each endpoint owns its descriptor and closes it exactly once when dropped.
//! The ghost view of an endpoint is the sequence of bytes it has carried so
//! far: `sent()` for a write endpoint, `consumed()` for a read endpoint.

use crate::errors::PipeError;
use vstd::prelude::*;

verus! {

/// Relies on nix::unistd::pipe: creates one unidirectional OS byte channel
/// and returns its (read, write) descriptor pair; the descriptors differ.
#[verifier::external_body]
fn pipe_fds() -> (r: Result<(i32, i32), PipeError>)
    ensures
        r matches Ok(p) ==> p.0 != p.1,
        r matches Err(e) ==> (e matches PipeError::Os(_)),
{
    match nix::unistd::pipe() {
        Ok((rfd, wfd)) => Ok((rfd, wfd)),
        Err(e) => Err(PipeError::Os(e as i32)),
    }
}

/// Relies on nix::unistd::read: reads into the front of `buf` and returns the
/// count of bytes placed there; the rest of `buf` and its length are
/// untouched. A zero count on a nonempty buffer is the end-of-stream signal.
#[verifier::external_body]
fn read_fd(fd: i32, buf: &mut Vec<u8>) -> (r: Result<usize, PipeError>)
    ensures
        final(buf)@.len() == old(buf)@.len(),
        r matches Ok(n) ==> n <= old(buf)@.len()
            && final(buf)@.skip(n as int) == old(buf)@.skip(n as int),
        r matches Err(e) ==> (e matches PipeError::Os(_)),
{
    match nix::unistd::read(fd, buf.as_mut_slice()) {
        Ok(n) => Ok(n),
        Err(e) => Err(PipeError::Os(e as i32)),
    }
}

/// Relies on nix::unistd::write: writes some prefix of `buf[from..]` to the
/// descriptor and returns how many bytes it took; a write of a nonempty
/// buffer never reports zero bytes on success.
#[verifier::external_body]
fn write_fd(fd: i32, buf: &Vec<u8>, from: usize) -> (r: Result<usize, PipeError>)
    requires
        from <= buf@.len(),
    ensures
        r matches Ok(n) ==> from + n <= buf@.len() && (from < buf@.len() ==> 1 <= n),
        r matches Err(e) ==> (e matches PipeError::Os(_)),
{
    match nix::unistd::write(fd, &buf[from..]) {
        Ok(n) => Ok(n),
        Err(e) => Err(PipeError::Os(e as i32)),
    }
}

/// Relies on nix::unistd::close: releases the descriptor. Close-time errors
/// are deliberately discarded, so closing is idempotent for the caller.
#[verifier::external_body]
fn close_fd(fd: i32)
    opens_invariants none
    no_unwind
{
    let _ = nix::unistd::close(fd);
}

/// Relies on nix::unistd::fsync: asks the OS for best-effort durability. On a
/// pipe this is advisory; its error code carries no precise meaning here.
#[verifier::external_body]
fn fsync_fd(fd: i32) -> (r: Result<(), PipeError>)
    ensures
        r matches Err(e) ==> (e matches PipeError::Os(_)),
{
    match nix::unistd::fsync(fd) {
        Ok(()) => Ok(()),
        Err(e) => Err(PipeError::Os(e as i32)),
    }
}

/// Relies on nix::fcntl::fcntl with F_SETFL(O_NONBLOCK): flips the
/// descriptor into nonblocking mode.
#[verifier::external_body]
fn nonblock_fd(fd: i32) -> (r: Result<(), PipeError>)
    ensures
        r matches Err(e) ==> (e matches PipeError::Os(_)),
{
    let arg = nix::fcntl::FcntlArg::F_SETFL(nix::fcntl::OFlag::O_NONBLOCK);
    match nix::fcntl::fcntl(fd, arg) {
        Ok(_) => Ok(()),
        Err(e) => Err(PipeError::Os(e as i32)),
    }
}

/// Read end of a unidirectional byte channel; sole owner of its descriptor.
pub struct PipeRead {
    fd: i32,
    taken: Ghost<Seq<u8>>,
}

/// Write end of a unidirectional byte channel; sole owner of its descriptor.
pub struct PipeWrite {
    fd: i32,
    log: Ghost<Seq<u8>>,
}

/// Opens one OS byte channel with both ends blocking. Each returned endpoint
/// starts with an empty byte history, and the two descriptors differ; a
/// failure is the OS error of the creation call, propagated unchanged.
pub fn pipe() -> (r: Result<(PipeRead, PipeWrite), PipeError>)
    ensures
        r matches Ok(p) ==> p.0.consumed() == Seq::<u8>::empty()
            && p.1.sent() == Seq::<u8>::empty()
            && p.0.descriptor() != p.1.descriptor(),
        r matches Err(e) ==> (e matches PipeError::Os(_)),
{
    match pipe_fds() {
        Ok((rfd, wfd)) => Ok((
            PipeRead { fd: rfd, taken: Ghost(Seq::empty()) },
            PipeWrite { fd: wfd, log: Ghost(Seq::empty()) },
        )),
        Err(e) => Err(e),
    }
}

impl PipeRead {
    /// The descriptor this endpoint owns.
    pub closed spec fn descriptor(&self) -> i32 {
        self.fd
    }

    /// Every byte this endpoint has taken off the channel, oldest first.
    pub closed spec fn consumed(&self) -> Seq<u8> {
        self.taken@
    }

    /// The raw descriptor value, for readiness registration.
    pub fn as_raw_fd(&self) -> (r: i32)
        ensures
            r == self.descriptor(),
    {
        self.fd
    }

    /// Relies on core::mem::forget: hands the descriptor out without closing
    /// it, skipping the drop glue; ownership leaves this endpoint entirely.
    #[verifier::external_body]
    pub fn into_raw_fd(self) -> (r: i32)
        ensures
            r == self.descriptor(),
    {
        let fd = self.fd;
        core::mem::forget(self);
        fd
    }

    /// Flips the descriptor into nonblocking mode; the endpoint itself and
    /// its history are unchanged.
    pub fn set_nonblocking(&self) -> (r: Result<(), PipeError>)
        ensures
            r matches Err(e) ==> (e matches PipeError::Os(_)),
    {
        nonblock_fd(self.fd)
    }

    /// One blocking read. The bytes land at the front of `buf`; the count
    /// is appended to this endpoint's history. A zero count on a nonempty
    /// buffer means the channel is exhausted: every write end is closed.
    pub fn read(&mut self, buf: &mut Vec<u8>) -> (r: Result<usize, PipeError>)
        ensures
            final(self).descriptor() == old(self).descriptor(),
            final(buf)@.len() == old(buf)@.len(),
            match r {
                Ok(n) => n <= old(buf)@.len()
                    && final(buf)@.skip(n as int) == old(buf)@.skip(n as int)
                    && final(self).consumed() == old(self).consumed()
                        + final(buf)@.take(n as int),
                Err(e) => final(self).consumed() == old(self).consumed()
                    && (e matches PipeError::Os(_)),
            },
    {
        match read_fd(self.fd, buf) {
            Ok(n) => {
                self.taken = Ghost(self.taken@ + buf@.take(n as int));
                Ok(n)
            }
            Err(e) => Err(e),
        }
    }

    /// Reads until exactly `count` bytes have arrived. Ends with an
    /// `Incomplete` error if the stream is exhausted first; either way the
    /// history grows by exactly the bytes that did arrive.
    pub fn read_exact(&mut self, count: usize) -> (r: Result<Vec<u8>, PipeError>)
        ensures
            final(self).descriptor() == old(self).descriptor(),
            match r {
                Ok(v) => v@.len() == count
                    && final(self).consumed() == old(self).consumed() + v@,
                Err(e) => old(self).consumed().is_prefix_of(final(self).consumed())
                    && final(self).consumed().len() < old(self).consumed().len() + count
                    && (e == PipeError::Incomplete || (e matches PipeError::Os(_))),
            },
    {
        let mut acc: Vec<u8> = Vec::new();
        while acc.len() < count
            invariant
                acc@.len() <= count,
                self.consumed() == old(self).consumed() + acc@,
                self.descriptor() == old(self).descriptor(),
            decreases count - acc@.len(),
        {
            let want = count - acc.len();
            let mut tmp = zero_vec(want);
            let ghost acc_before = acc@;
            match self.read(&mut tmp) {
                Ok(n) => {
                    if n == 0 {
                        proof {
                            assert(tmp@.take(0int) =~= Seq::<u8>::empty());
                            assert(old(self).consumed() + acc@ + Seq::<u8>::empty()
                                =~= old(self).consumed() + acc@);
                            lemma_seq_prefix_of_concat(old(self).consumed(), acc@);
                        }
                        return Err(PipeError::Incomplete);
                    }
                    let mut i: usize = 0;
                    while i < n
                        invariant
                            i <= n,
                            n <= tmp@.len(),
                            acc@ == acc_before + tmp@.take(i as int),
                        decreases n - i,
                    {
                        let b = tmp[i];
                        acc.push(b);
                        proof {
                            assert(acc_before + tmp@.take(i as int) + seq![tmp@[i as int]]
                                =~= acc_before + tmp@.take(i + 1int));
                        }
                        i = i + 1;
                    }
                    proof {
                        assert(old(self).consumed() + acc_before + tmp@.take(n as int)
                            =~= old(self).consumed() + (acc_before + tmp@.take(n as int)));
                    }
                }
                Err(e) => {
                    proof {
                        lemma_seq_prefix_of_concat(old(self).consumed(), acc@);
                    }
                    return Err(e);
                }
            }
        }
        Ok(acc)
    }
}

impl PipeWrite {
    /// The descriptor this endpoint owns.
    pub closed spec fn descriptor(&self) -> i32 {
        self.fd
    }

    /// Every byte this endpoint has put on the channel, oldest first.
    pub closed spec fn sent(&self) -> Seq<u8> {
        self.log@
    }

    /// The raw descriptor value, for readiness registration.
    pub fn as_raw_fd(&self) -> (r: i32)
        ensures
            r == self.descriptor(),
    {
        self.fd
    }

    /// Relies on core::mem::forget: hands the descriptor out without closing
    /// it, skipping the drop glue; ownership leaves this endpoint entirely.
    #[verifier::external_body]
    pub fn into_raw_fd(self) -> (r: i32)
        ensures
            r == self.descriptor(),
    {
        let fd = self.fd;
        core::mem::forget(self);
        fd
    }

    /// Flips the descriptor into nonblocking mode; the endpoint itself and
    /// its history are unchanged.
    pub fn set_nonblocking(&self) -> (r: Result<(), PipeError>)
        ensures
            r matches Err(e) ==> (e matches PipeError::Os(_)),
    {
        nonblock_fd(self.fd)
    }

    /// One blocking write. On success some nonempty prefix of `buf` went out
    /// and is appended to this endpoint's history; the write fails with an OS
    /// error once no read end of the channel remains open anywhere.
    pub fn write(&mut self, buf: &Vec<u8>) -> (r: Result<usize, PipeError>)
        ensures
            final(self).descriptor() == old(self).descriptor(),
            match r {
                Ok(n) => n <= buf@.len() && (buf@.len() > 0 ==> 1 <= n)
                    && final(self).sent() == old(self).sent() + buf@.take(n as int),
                Err(e) => final(self).sent() == old(self).sent()
                    && (e matches PipeError::Os(_)),
            },
    {
        match write_fd(self.fd, buf, 0) {
            Ok(n) => {
                self.log = Ghost(self.log@ + buf@.take(n as int));
                Ok(n)
            }
            Err(e) => Err(e),
        }
    }

    /// Writes all of `buf`, retrying partial writes until every byte is out.
    /// On failure the history still grew by exactly the prefix that made it.
    pub fn write_all(&mut self, buf: &Vec<u8>) -> (r: Result<(), PipeError>)
        ensures
            final(self).descriptor() == old(self).descriptor(),
            match r {
                Ok(_) => final(self).sent() == old(self).sent() + buf@,
                Err(e) => old(self).sent().is_prefix_of(final(self).sent())
                    && final(self).sent().len() <= old(self).sent().len() + buf@.len()
                    && (e matches PipeError::Os(_)),
            },
    {
        let mut done: usize = 0;
        while done < buf.len()
            invariant
                done <= buf@.len(),
                self.sent() == old(self).sent() + buf@.take(done as int),
                self.descriptor() == old(self).descriptor(),
            decreases buf@.len() - done,
        {
            match write_fd(self.fd, buf, done) {
                Ok(n) => {
                    proof {
                        assert(old(self).sent() + buf@.take(done as int)
                            + buf@.subrange(done as int, done + n as int)
                            =~= old(self).sent() + buf@.take(done + n as int));
                    }
                    self.log = Ghost(self.log@ + buf@.subrange(done as int, done + n as int));
                    done = done + n;
                }
                Err(e) => {
                    proof {
                        lemma_seq_prefix_of_concat(old(self).sent(), buf@.take(done as int));
                    }
                    return Err(e);
                }
            }
        }
        proof {
            assert(buf@.take(buf@.len() as int) =~= buf@);
        }
        Ok(())
    }

    /// Best-effort durability request. The channel is not a regular file, so
    /// the outcome is advisory; the endpoint and its history are unchanged.
    pub fn flush(&mut self) -> (r: Result<(), PipeError>)
        ensures
            final(self).descriptor() == old(self).descriptor(),
            final(self).sent() == old(self).sent(),
            r matches Err(e) ==> (e matches PipeError::Os(_)),
    {
        fsync_fd(self.fd)
    }
}

impl Drop for PipeRead {
    /// Closes the descriptor, once, suppressing any close-time error.
    fn drop(&mut self)
        opens_invariants none
        no_unwind
    {
        close_fd(self.fd);
    }
}

impl Drop for PipeWrite {
    /// Closes the descriptor, once, suppressing any close-time error.
    fn drop(&mut self)
        opens_invariants none
        no_unwind
    {
        close_fd(self.fd);
    }
}

/// A sequence is a prefix of itself followed by anything.
proof fn lemma_seq_prefix_of_concat(a: Seq<u8>, b: Seq<u8>)
    ensures
        a.is_prefix_of(a + b),
{
    assert((a + b).take(a.len() as int) =~= a);
}

/// A zero-filled buffer of the requested length.
fn zero_vec(n: usize) -> (r: Vec<u8>)
    ensures
        r@.len() == n,
{
    let mut v: Vec<u8> = Vec::new();
    while v.len() < n
        invariant
            v@.len() <= n,
        decreases n - v@.len(),
    {
        v.push(0);
    }
    v
}

} // verus!
