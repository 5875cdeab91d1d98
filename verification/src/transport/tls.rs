//! Split-capable blocking TLS stream.
//!
//! The read half and the write half share the state of the TLS connection, but hold it only while
//! they work on it, and never while a socket blocks: reading from the socket and writing to it are
//! done outside. Each half says what to do next, and is told what came of it.
//!
//! Only the write half sends TLS records, keeping reads independent of blocked writes.
//! KeyUpdate responses are deferred to the next write or flush.

use vstd::prelude::*;
use vstd::slice::slice_subrange;

use crate::text::push_text;
use crate::transport::connection::{
    at_most, differ_in_sendable, drain_tls, drains, fed, has_failed, is_failure, may_accept, may_process,
    process_new_packets, read_plaintext, read_tls, received_plaintext, sendable_tls, stream_end,
    write_plaintext, StreamEnd,
};
use crate::transport::io::{rustls_error_of, Cause, ErrorKind, IoError, RustlsError};
use crate::transport::output::{write_or_done, OutputStep, TlsOutput};

verus! {

/// How much ciphertext to ask a socket for at a time.
pub const CIPHERTEXT_CHUNK: usize = 16384;

/// The error where the shared state of the connection is lost, since its other user panicked.
pub fn connection_state_lost() -> (r: IoError)
    ensures
        r.says(ErrorKind::Other, "TLS connection state mutex poisoned"@),
{
    let mut message = String::new();
    push_text(&mut message, "TLS connection state mutex poisoned");
    assert(message@ =~= "TLS connection state mutex poisoned"@);
    IoError::message(ErrorKind::Other, message)
}

// ---------------------------------------------------------------------------------------------
// The read half
// ---------------------------------------------------------------------------------------------
/// Read half of a split [`TlsStream`].
#[derive(Debug)]
pub struct TlsReadHalf {
    /// Inbound bytes not yet consumed by the connection, which holds incomplete records itself.
    pending_incoming: Vec<u8>,
}

/// What to do next for a read.
#[derive(Debug)]
pub enum ReadStep {
    /// Read ciphertext from the socket, and tell by [`TlsReadHalf::resume`] what came of it, or by
    /// [`TlsReadHalf::read_ciphertext`] and [`TlsReadHalf::read_on`].
    ReadSocket,
    /// Nothing: the read is over, with this result.
    Done(Result<usize, IoError>),
}

/// What a read of ciphertext from the socket has come to.
#[derive(Debug)]
pub enum CiphertextStep {
    /// It was interrupted and is to be made again.
    Again,
    /// It gave some bytes (`true`), or the stream has ended (`false`).
    Got(bool),
    /// It failed.
    Fail(IoError),
}

/// What an attempt to read plaintext has come to: `None` needs more ciphertext; `Some(0)` is clean
/// TLS EOF.
pub open spec fn plaintext_of(result: Result<usize, IoError>) -> Result<Option<usize>, IoError> {
    match result {
        Ok(n) => Ok(Some(n)),
        Err(e) => if e.kind == ErrorKind::WouldBlock {
            Ok(None)
        } else {
            Err(e)
        },
    }
}

/// What is left of `pending` bytes, of which the connection took `n`: a connection that takes none
/// takes no more at all.
pub open spec fn left_after(pending: Seq<u8>, n: nat) -> Seq<u8> {
    if n == 0 {
        Seq::empty()
    } else {
        pending.skip(n as int)
    }
}

/// What a read of a chunk of ciphertext has come to.
pub open spec fn ciphertext_step(result: Result<usize, IoError>) -> CiphertextStep {
    match result {
        Ok(n) => CiphertextStep::Got(n > 0),
        Err(e) => if e.kind == ErrorKind::Interrupted {
            CiphertextStep::Again
        } else {
            CiphertextStep::Fail(e)
        },
    }
}

/// What working on the ciphertext has come to.
pub open spec fn processed_of(result: Result<(), RustlsError>) -> Result<(), IoError> {
    match result {
        Ok(_) => Ok(()),
        Err(e) => Err(IoError { kind: ErrorKind::InvalidData, cause: Cause::Tls(e) }),
    }
}

/// What a read has come to at the end of the stream: it is owed the plaintext that is there, and
/// the end comes too early where there is none and the peer has not closed the connection.
pub open spec fn read_at_eof(plaintext: Result<Option<usize>, IoError>) -> Result<usize, IoError> {
    match plaintext {
        Ok(Some(n)) => Ok(n),
        Ok(None) => Err(IoError { kind: ErrorKind::UnexpectedEof, cause: Cause::Kind }),
        Err(e) => Err(e),
    }
}

/// Whether an attempt to read plaintext into `buf` brings a connection from `before` to `after` and
/// `buf` to `filled`, with the result `r`.
pub open spec fn reads_plaintext(
    before: rustls::ClientConnection,
    buf: Seq<u8>,
    after: rustls::ClientConnection,
    filled: Seq<u8>,
    r: Result<Option<usize>, IoError>,
) -> bool {
    let held = received_plaintext(before);
    if held.len() > 0 || buf.len() == 0 {
        let n = at_most(held.len(), buf.len());
        &&& r matches Ok(Some(m)) && m == n
        &&& filled == held.take(n as int) + buf.skip(n as int)
        &&& received_plaintext(after) == held.skip(n as int)
        &&& sendable_tls(after) == sendable_tls(before)
        &&& stream_end(after) == stream_end(before)
        &&& has_failed(after) == has_failed(before)
    } else {
        &&& after == before
        &&& filled == buf
        &&& match stream_end(before) {
            StreamEnd::Open => r == Ok::<Option<usize>, IoError>(None),
            StreamEnd::Cut => r matches Err(e) && e.kind == ErrorKind::UnexpectedEof
                && e.is_of_stream(),
            StreamEnd::Closed => r == Ok::<Option<usize>, IoError>(Some(0)),
        }
    }
}

/// Whether feeding `pending` ciphertext into a connection brings it from `before` to `after` and
/// leaves `left` pending, with the result `r`. Plaintext that has arrived and ciphertext that is to
/// be sent stay, and more of them comes behind.
pub open spec fn processes(
    before: rustls::ClientConnection,
    pending: Seq<u8>,
    after: rustls::ClientConnection,
    left: Seq<u8>,
    r: Result<(), IoError>,
) -> bool {
    &&& received_plaintext(before).is_prefix_of(received_plaintext(after))
    &&& sendable_tls(before).is_prefix_of(sendable_tls(after))
    &&& match fed(before, pending).1 {
        Ok(n) => {
            &&& left == left_after(pending, n)
            &&& exists|result: Result<(), rustls::Error>|
                {
                    &&& #[trigger] may_process(fed(before, pending).0, after, result)
                    &&& r == processed_of(
                        match result {
                            Ok(_) => Ok(()),
                            Err(e) => Err(rustls_error_of(e)),
                        },
                    )
                }
        },
        Err(kind) => {
            &&& left == pending
            &&& after == fed(before, pending).0
            &&& r matches Err(e) && e.kind == kind && e.is_of_stream()
        },
    }
}

/// The states of a connection, of the pending ciphertext and of the buffer that is read into.
pub struct Reading {
    /// The connection.
    pub conn: rustls::ClientConnection,
    /// The pending ciphertext.
    pub pending: Seq<u8>,
    /// The buffer.
    pub buf: Seq<u8>,
}

/// The plaintext that a step of a read has put into `buf`.
pub open spec fn handed_out(step: ReadStep, buf: Seq<u8>) -> Seq<u8> {
    match step {
        ReadStep::Done(Ok(n)) => buf.take(n as int),
        _ => Seq::empty(),
    }
}

/// Whether reading plaintext leads from `before` to `after` and `step`: an attempt is made, then
/// pending ciphertext is fed into the connection, and so on, until there is plaintext, an end, an
/// error, or nothing left to feed.
pub open spec fn reads(before: Reading, after: Reading, step: ReadStep) -> bool
    decreases before.pending.len(),
{
    if received_plaintext(before.conn).len() > 0 || before.buf.len() == 0 || !(stream_end(
        before.conn,
    ) is Open) {
        &&& after.pending == before.pending
        &&& step matches ReadStep::Done(result) && reads_plaintext(
            before.conn,
            before.buf,
            after.conn,
            after.buf,
            match result {
                Ok(n) => Ok(Some(n)),
                Err(e) => Err(e),
            },
        )
    } else if before.pending.len() == 0 {
        &&& step is ReadSocket
        &&& after == before
    } else {
        exists|conn: rustls::ClientConnection, left: Seq<u8>, r: Result<(), IoError>|
            {
                &&& #[trigger] processes(before.conn, before.pending, conn, left, r)
                &&& match r {
                    Ok(_) => left.len() < before.pending.len() && reads(
                        Reading { conn, pending: left, buf: before.buf },
                        after,
                        step,
                    ),
                    Err(e) => step == ReadStep::Done(Err(e)) && after == (Reading {
                        conn,
                        pending: left,
                        buf: before.buf,
                    }),
                }
            }
    }
}

/// Whether reading on leads from `before` to `after` and `step`, once ciphertext that arrived is
/// pending (`more`), or the stream has ended.
pub open spec fn reads_on(before: Reading, more: bool, after: Reading, step: ReadStep) -> bool {
    exists|conn: rustls::ClientConnection, left: Seq<u8>, r: Result<(), IoError>|
        {
            &&& #[trigger] processes(before.conn, before.pending, conn, left, r)
            &&& match r {
                Ok(_) => if more {
                    reads(Reading { conn, pending: left, buf: before.buf }, after, step)
                } else {
                    &&& after.pending == left
                    &&& exists|plaintext: Result<Option<usize>, IoError>|
                        {
                            &&& #[trigger] reads_plaintext(
                                conn,
                                before.buf,
                                after.conn,
                                after.buf,
                                plaintext,
                            )
                            &&& step == ReadStep::Done(read_at_eof(plaintext))
                        }
                },
                Err(e) => step == ReadStep::Done(Err(e)) && after == (Reading {
                    conn,
                    pending: left,
                    buf: before.buf,
                }),
            }
        }
}

impl View for TlsReadHalf {
    type V = Seq<u8>;

    /// The ciphertext that the connection has not yet taken.
    closed spec fn view(&self) -> Seq<u8> {
        self.pending_incoming@
    }
}

/// What an attempt to read plaintext has come to.
pub fn told_plaintext(result: Result<usize, IoError>) -> (r: Result<Option<usize>, IoError>)
    ensures
        r == plaintext_of(result),
{
    match result {
        Ok(n) => Ok(Some(n)),
        Err(e) => if e.kind == ErrorKind::WouldBlock {
            Ok(None)
        } else {
            Err(e)
        },
    }
}

/// What working on the ciphertext has come to.
pub fn told_processed(result: Result<(), RustlsError>) -> (r: Result<(), IoError>)
    ensures
        r == processed_of(result),
{
    match result {
        Ok(_) => Ok(()),
        Err(e) => Err(IoError { kind: ErrorKind::InvalidData, cause: Cause::Tls(e) }),
    }
}

/// What a read has come to at the end of the stream.
pub fn told_at_eof(plaintext: Result<Option<usize>, IoError>) -> (r: Result<usize, IoError>)
    ensures
        r == read_at_eof(plaintext),
{
    match plaintext {
        Ok(Some(n)) => Ok(n),
        Ok(None) => Err(IoError::from(ErrorKind::UnexpectedEof)),
        Err(e) => Err(e),
    }
}

impl TlsReadHalf {
    /// Nothing has arrived.
    pub fn new() -> (r: Self)
        ensures
            r@ == Seq::<u8>::empty(),
    {
        TlsReadHalf { pending_incoming: Vec::new() }
    }

    /// Reads buffered plaintext without touching the socket.
    /// `None` needs more ciphertext; `Some(0)` is clean TLS EOF.
    pub fn try_read_plaintext(
        &self,
        conn: &mut rustls::ClientConnection,
        buf: &mut [u8],
    ) -> (r: Result<Option<usize>, IoError>)
        ensures
            reads_plaintext(*old(conn), old(buf)@, *final(conn), final(buf)@, r),
    {
        match read_plaintext(conn, buf) {
            Ok(n) => told_plaintext(Ok(n)),
            Err(e) => told_plaintext(Err(IoError::from(e))),
        }
    }

    /// Takes note of a read of ciphertext into `chunk`: what arrived is pending.
    pub fn read_ciphertext(&mut self, chunk: &[u8], result: Result<usize, IoError>) -> (r:
        CiphertextStep)
        requires
            result matches Ok(n) ==> n <= chunk@.len(),
        ensures
            final(self)@ == (match result {
                Ok(n) => old(self)@ + chunk@.take(n as int),
                Err(_) => old(self)@,
            }),
            r == ciphertext_step(result),
    {
        match result {
            Ok(n) => {
                let arrived = slice_subrange(chunk, 0, n);
                self.pending_incoming.extend_from_slice(arrived);
                assert(self@ =~= old(self)@ + chunk@.take(n as int));
                CiphertextStep::Got(n > 0)
            },
            Err(e) => if e.kind == ErrorKind::Interrupted {
                CiphertextStep::Again
            } else {
                CiphertextStep::Fail(e)
            },
        }
    }

    /// Takes note of how many bytes of pending ciphertext the connection took.
    pub fn taken(&mut self, n: usize)
        requires
            n <= old(self)@.len(),
        ensures
            final(self)@ == left_after(old(self)@, n as nat),
    {
        if n == 0 {
            self.pending_incoming.clear();
        } else {
            let mut rest: Vec<u8> = Vec::new();
            let all = self.pending_incoming.as_slice();
            rest.extend_from_slice(slice_subrange(all, n, all.len()));
            self.pending_incoming = rest;
        }
        assert(self@ =~= left_after(old(self)@, n as nat));
    }

    /// Feeds pending ciphertext (or the end of the stream) into the connection.
    ///
    /// None of it is lost, unless the peer has closed the connection.
    pub fn process_pending_incoming(&mut self, conn: &mut rustls::ClientConnection) -> (r: Result<
        (),
        IoError,
    >)
        ensures
            processes(*old(conn), old(self)@, *final(conn), final(self)@, r),
            fed(*old(conn), old(self)@).1 matches Ok(n) ==> {
                &&& n <= old(self)@.len()
                &&& n == 0 ==> old(self)@.len() == 0 || stream_end(*old(conn)) is Closed
            },
            r is Ok && old(self)@.len() == 0 ==> !(stream_end(*final(conn)) is Open),
            r is Ok && old(self)@.len() > 0 ==> final(self)@.len() < old(self)@.len(),
    {
        let n: usize = match read_tls(conn, self.pending_incoming.as_slice()) {
            Ok(n) => n,
            Err(e) => {
                return Err(IoError::from(e));
            },
        };
        self.taken(n);
        let ghost taken = *conn;
        let result = process_new_packets(conn);
        assert(may_process(taken, *conn, result));
        match result {
            Ok(_) => told_processed(Ok(())),
            Err(e) => told_processed(Err(RustlsError::from(e))),
        }
    }

    /// Reads plaintext into `buf`, as far as that needs no further ciphertext.
    ///
    /// Plaintext comes out in the order in which it arrived, without loss. A read of nothing into a
    /// buffer that is not empty means that the peer has closed the connection. Nothing that is to
    /// be sent is taken from the connection.
    pub fn read(&mut self, conn: &mut rustls::ClientConnection, buf: &mut [u8]) -> (r: ReadStep)
        ensures
            reads(
                (Reading { conn: *old(conn), pending: old(self)@, buf: old(buf)@ }),
                (Reading { conn: *final(conn), pending: final(self)@, buf: final(buf)@ }),
                r,
            ),
            final(buf)@.len() == old(buf)@.len(),
            received_plaintext(*old(conn)).is_prefix_of(
                handed_out(r, final(buf)@) + received_plaintext(*final(conn)),
            ),
            sendable_tls(*old(conn)).is_prefix_of(sendable_tls(*final(conn))),
            r is ReadSocket ==> final(self)@.len() == 0,
            r == ReadStep::Done(Ok(0)) && old(buf)@.len() > 0 ==> stream_end(*final(conn)) is Closed,
    {
        let len: usize = buf.len();
        if len == 0 {
            proof {
                let held = received_plaintext(*conn);
                assert(held.take(0) + buf@.skip(0) =~= buf@);
                assert(held.skip(0) =~= held);
            }
            return ReadStep::Done(Ok(0));
        }
        let ghost start = Reading { conn: *conn, pending: self@, buf: buf@ };
        loop
            invariant
                len > 0,
                buf@.len() == len,
                buf@ == start.buf,
                start == (Reading { conn: *old(conn), pending: old(self)@, buf: old(buf)@ }),
                received_plaintext(*old(conn)).is_prefix_of(received_plaintext(*conn)),
                sendable_tls(*old(conn)).is_prefix_of(sendable_tls(*conn)),
                forall|after: Reading, step: ReadStep|
                    #[trigger] reads(
                        Reading { conn: *conn, pending: self@, buf: start.buf },
                        after,
                        step,
                    ) ==> reads(start, after, step),
            decreases self@.len(),
        {
            let ghost here = Reading { conn: *conn, pending: self@, buf: buf@ };
            let plaintext = self.try_read_plaintext(conn, buf);
            let ghost there = Reading { conn: *conn, pending: self@, buf: buf@ };
            match plaintext {
                Ok(Some(n)) => {
                    assert(reads(here, there, ReadStep::Done(Ok(n))));
                    assert(handed_out(ReadStep::Done(Ok(n)), buf@) + received_plaintext(*conn)
                        =~= received_plaintext(here.conn));
                    return ReadStep::Done(Ok(n));
                },
                Ok(None) => {},
                Err(e) => {
                    assert(reads(here, there, ReadStep::Done(Err(e))));
                    assert(handed_out(ReadStep::Done(Err(e)), buf@) + received_plaintext(*conn)
                        =~= received_plaintext(here.conn));
                    return ReadStep::Done(Err(e));
                },
            }
            if self.pending_incoming.len() == 0 {
                assert(reads(here, there, ReadStep::ReadSocket));
                assert(handed_out(ReadStep::ReadSocket, buf@) + received_plaintext(*conn)
                    =~= received_plaintext(here.conn));
                return ReadStep::ReadSocket;
            }
            let processed = self.process_pending_incoming(conn);
            let ghost next = Reading { conn: *conn, pending: self@, buf: buf@ };
            assert(processes(here.conn, here.pending, next.conn, next.pending, processed));
            match processed {
                Ok(_) => {
                    assert forall|after: Reading, step: ReadStep| #[trigger]
                        reads(next, after, step) implies reads(start, after, step) by {
                        assert(reads(here, after, step));
                    }
                },
                Err(e) => {
                    assert(reads(here, next, ReadStep::Done(Err(e))));
                    assert(handed_out(ReadStep::Done(Err(e)), buf@) + received_plaintext(*conn)
                        =~= received_plaintext(*conn));
                    return ReadStep::Done(Err(e));
                },
            }
        }
    }

    /// Goes on with a read into `buf`, once ciphertext that arrived is pending (`more`), or the
    /// stream has ended.
    ///
    /// At the end of the stream, the read is over.
    pub fn read_on(
        &mut self,
        conn: &mut rustls::ClientConnection,
        buf: &mut [u8],
        more: bool,
    ) -> (r: ReadStep)
        ensures
            reads_on(
                (Reading { conn: *old(conn), pending: old(self)@, buf: old(buf)@ }),
                more,
                (Reading { conn: *final(conn), pending: final(self)@, buf: final(buf)@ }),
                r,
            ),
            final(buf)@.len() == old(buf)@.len(),
            received_plaintext(*old(conn)).is_prefix_of(
                handed_out(r, final(buf)@) + received_plaintext(*final(conn)),
            ),
            sendable_tls(*old(conn)).is_prefix_of(sendable_tls(*final(conn))),
            !more ==> r is Done,
            r == ReadStep::Done(Ok(0)) && old(buf)@.len() > 0 ==> stream_end(*final(conn)) is Closed,
    {
        let ghost here = Reading { conn: *conn, pending: self@, buf: buf@ };
        let processed = self.process_pending_incoming(conn);
        let ghost next = Reading { conn: *conn, pending: self@, buf: buf@ };
        assert(processes(here.conn, here.pending, next.conn, next.pending, processed));
        match processed {
            Ok(_) => {},
            Err(e) => {
                assert(Seq::<u8>::empty() + received_plaintext(*conn) =~= received_plaintext(
                    *conn,
                ));
                return ReadStep::Done(Err(e));
            },
        }
        if more {
            return self.read(conn, buf);
        }
        let plaintext = self.try_read_plaintext(conn, buf);
        let ghost there = Reading { conn: *conn, pending: self@, buf: buf@ };
        let r = ReadStep::Done(told_at_eof(plaintext));
        proof {
            assert(reads_plaintext(next.conn, next.buf, there.conn, there.buf, plaintext));
            assert(r == ReadStep::Done(read_at_eof(plaintext)));
            assert(handed_out(r, buf@) + received_plaintext(*conn) =~= received_plaintext(
                next.conn,
            ));
        }
        r
    }

    /// Goes on with a read into `buf`, after a read of ciphertext from the socket into `chunk`.
    pub fn resume(
        &mut self,
        conn: &mut rustls::ClientConnection,
        buf: &mut [u8],
        chunk: &[u8],
        result: Result<usize, IoError>,
    ) -> (r: ReadStep)
        requires
            result matches Ok(n) ==> n <= chunk@.len(),
        ensures
            match ciphertext_step(result) {
                CiphertextStep::Got(more) => reads_on(
                    (Reading {
                        conn: *old(conn),
                        pending: old(self)@ + chunk@.take(result->Ok_0 as int),
                        buf: old(buf)@,
                    }),
                    more,
                    (Reading { conn: *final(conn), pending: final(self)@, buf: final(buf)@ }),
                    r,
                ),
                CiphertextStep::Again => {
                    &&& r is ReadSocket
                    &&& final(self)@ == old(self)@
                    &&& *final(conn) == *old(conn)
                    &&& final(buf)@ == old(buf)@
                },
                CiphertextStep::Fail(e) => {
                    &&& r == ReadStep::Done(Err(e))
                    &&& final(self)@ == old(self)@
                    &&& *final(conn) == *old(conn)
                    &&& final(buf)@ == old(buf)@
                },
            },
            final(buf)@.len() == old(buf)@.len(),
            received_plaintext(*old(conn)).is_prefix_of(
                handed_out(r, final(buf)@) + received_plaintext(*final(conn)),
            ),
            sendable_tls(*old(conn)).is_prefix_of(sendable_tls(*final(conn))),
            result matches Ok(n) && n == 0 ==> r is Done,
            r == ReadStep::Done(Ok(0)) && old(buf)@.len() > 0 ==> stream_end(*final(conn)) is Closed,
    {
        let step = self.read_ciphertext(chunk, result);
        assert(Seq::<u8>::empty() + received_plaintext(*conn) =~= received_plaintext(*conn));
        match step {
            CiphertextStep::Again => ReadStep::ReadSocket,
            CiphertextStep::Fail(e) => ReadStep::Done(Err(e)),
            CiphertextStep::Got(more) => self.read_on(conn, buf, more),
        }
    }
}

// ---------------------------------------------------------------------------------------------
// The write half
// ---------------------------------------------------------------------------------------------
/// Write half of a split [`TlsStream`].
///
/// A successful write may still have ciphertext queued; use [`TlsWriteHalf::flush`] to report
/// pending socket errors.
#[derive(Debug)]
pub struct TlsWriteHalf {
    /// Retains TLS ciphertext produced by the shared connection until it is sent.
    tls_output: TlsOutput,
}

/// What the ciphertext belongs to that is being sent.
#[derive(Debug, Clone, Copy, PartialEq, Eq)]
pub enum WritePhase {
    /// It was there before the plaintext of a write is encrypted.
    Earlier,
    /// It is that of a write, of whose plaintext so many bytes were accepted.
    Accepted(usize),
    /// It is sent by a flush.
    Flush,
}

/// What to do next for a write or a flush.
#[derive(Debug)]
pub enum WriteStep {
    /// Write what is pending to the socket, and tell by [`TlsWriteHalf::written`] what came of it.
    Send(WritePhase),
    /// Encrypt the plaintext of the write, by [`TlsWriteHalf::encrypt`].
    Encrypt,
    /// Flush the socket; its result is that of the flush.
    FlushSocket,
    /// Nothing: the write or the flush is over, with this result.
    Done(Result<usize, IoError>),
}

/// What to do when the output has come to `step`. Plaintext accepted by the connection must be
/// reported as written, even where its ciphertext cannot be sent.
pub open spec fn write_step(phase: WritePhase, step: OutputStep) -> WriteStep {
    match step {
        OutputStep::Write => WriteStep::Send(phase),
        OutputStep::Done => match phase {
            WritePhase::Earlier => WriteStep::Encrypt,
            WritePhase::Accepted(n) => WriteStep::Done(Ok(n)),
            WritePhase::Flush => WriteStep::FlushSocket,
        },
        OutputStep::Fail(e) => match phase {
            WritePhase::Accepted(n) => if n > 0 {
                WriteStep::Done(Ok(n))
            } else {
                WriteStep::Done(Err(e))
            },
            _ => WriteStep::Done(Err(e)),
        },
    }
}

/// Whether taking all ciphertext from a connection, and sending it behind what is pending, brings
/// the connection from `before` to `after` and leaves `left` pending, with `step` to do next. A
/// connection that has failed gives its failure, and nothing else happens.
pub open spec fn sends(
    before: rustls::ClientConnection,
    pending: Seq<u8>,
    phase: WritePhase,
    after: rustls::ClientConnection,
    left: Seq<u8>,
    step: WriteStep,
) -> bool {
    if has_failed(before) {
        &&& step matches WriteStep::Done(Err(e)) && is_failure(e)
        &&& left == pending
        &&& after == before
    } else {
        exists|ciphertext: Seq<u8>|
            {
                &&& #[trigger] drains(before, after, ciphertext)
                &&& left == pending + ciphertext
                &&& step == write_step(phase, write_or_done(left.len()))
            }
    }
}

/// Whether offering the plaintext `buf` to a connection, and sending the ciphertext behind what is
/// pending, brings the connection from `before` to `after` and leaves `left` pending, with `step`
/// to do next. A connection that has failed accepts nothing and gives its failure; any other does
/// not fail by accepting.
pub open spec fn encrypts(
    before: rustls::ClientConnection,
    pending: Seq<u8>,
    buf: Seq<u8>,
    after: rustls::ClientConnection,
    left: Seq<u8>,
    step: WriteStep,
) -> bool {
    if has_failed(before) {
        &&& step matches WriteStep::Done(Err(e)) && is_failure(e)
        &&& left == pending
        &&& after == before
    } else {
        exists|accepted: rustls::ClientConnection, n: usize|
            {
                &&& #[trigger] may_accept(before, buf, accepted, n as nat)
                &&& n <= buf.len()
                &&& differ_in_sendable(accepted, before)
                &&& sendable_tls(before).is_prefix_of(sendable_tls(accepted))
                &&& sends(accepted, pending, WritePhase::Accepted(n), after, left, step)
            }
    }
}

impl View for TlsWriteHalf {
    type V = Seq<u8>;

    /// The ciphertext that is still to be sent.
    closed spec fn view(&self) -> Seq<u8> {
        self.tls_output@
    }
}

/// What to do when the output has come to `step`.
pub fn told_output(phase: WritePhase, step: OutputStep) -> (r: WriteStep)
    ensures
        r == write_step(phase, step),
{
    match step {
        OutputStep::Write => WriteStep::Send(phase),
        OutputStep::Done => match phase {
            WritePhase::Earlier => WriteStep::Encrypt,
            WritePhase::Accepted(n) => WriteStep::Done(Ok(n)),
            WritePhase::Flush => WriteStep::FlushSocket,
        },
        OutputStep::Fail(e) => match phase {
            WritePhase::Accepted(n) => if n > 0 {
                WriteStep::Done(Ok(n))
            } else {
                WriteStep::Done(Err(e))
            },
            _ => WriteStep::Done(Err(e)),
        },
    }
}

impl TlsWriteHalf {
    /// Nothing to send.
    pub fn new() -> (r: Self)
        ensures
            r@ == Seq::<u8>::empty(),
    {
        TlsWriteHalf { tls_output: TlsOutput::new() }
    }

    /// The ciphertext that is still to be sent.
    pub fn pending(&self) -> (r: &[u8])
        ensures
            r@ == self@,
    {
        self.tls_output.pending()
    }

    /// Queues ciphertext of the given phase behind what is pending, and sends it all.
    pub fn send(&mut self, phase: WritePhase, ciphertext: &[u8]) -> (r: WriteStep)
        ensures
            final(self)@ == old(self)@ + ciphertext@,
            r == write_step(phase, write_or_done(final(self)@.len())),
    {
        let step = self.tls_output.queue_and_write_ciphertext(ciphertext);
        told_output(phase, step)
    }

    /// Takes note of what came of writing what is pending.
    pub fn written(&mut self, phase: WritePhase, result: Result<usize, IoError>) -> (r: WriteStep)
        requires
            old(self)@.len() > 0,
        ensures
            final(self)@ == old(self)@.skip(
                crate::transport::output::accepted(old(self)@.len(), result) as int,
            ),
            r == write_step(
                phase,
                crate::transport::output::step_after_write(final(self)@.len(), result),
            ),
    {
        let step = self.tls_output.written(result);
        told_output(phase, step)
    }

    /// Starts to write the plaintext `buf`: first, the ciphertext that is there before is sent.
    pub fn write(&mut self, conn: &mut rustls::ClientConnection, buf: &[u8]) -> (r: WriteStep)
        ensures
            if buf@.len() == 0 {
                &&& r == WriteStep::Done(Ok(0))
                &&& final(self)@ == old(self)@
                &&& *final(conn) == *old(conn)
            } else {
                sends(
                    *old(conn),
                    old(self)@,
                    WritePhase::Earlier,
                    *final(conn),
                    final(self)@,
                    r,
                )
            },
    {
        if buf.len() == 0 {
            return WriteStep::Done(Ok(0));
        }
        self.drain_and_send(conn, WritePhase::Earlier)
    }

    /// Encrypts the plaintext `buf` of a write, and sends the ciphertext.
    ///
    /// It fails only where the connection has failed before, and then accepts nothing.
    pub fn encrypt(&mut self, conn: &mut rustls::ClientConnection, buf: &[u8]) -> (r: WriteStep)
        ensures
            encrypts(*old(conn), old(self)@, buf@, *final(conn), final(self)@, r),
    {
        let n: usize = match write_plaintext(conn, buf) {
            Ok(n) => n,
            Err(e) => {
                return WriteStep::Done(Err(IoError::from(e)));
            },
        };
        assert(may_accept(*old(conn), buf@, *conn, n as nat));
        self.drain_and_send(conn, WritePhase::Accepted(n))
    }

    /// Flushes: sends all ciphertext that is there, and then flushes the socket.
    pub fn flush(&mut self, conn: &mut rustls::ClientConnection) -> (r: WriteStep)
        ensures
            sends(*old(conn), old(self)@, WritePhase::Flush, *final(conn), final(self)@, r),
    {
        self.drain_and_send(conn, WritePhase::Flush)
    }

    /// Takes all ciphertext from the connection, and sends it behind what is pending.
    fn drain_and_send(&mut self, conn: &mut rustls::ClientConnection, phase: WritePhase) -> (r:
        WriteStep)
        ensures
            sends(*old(conn), old(self)@, phase, *final(conn), final(self)@, r),
    {
        let mut ciphertext: Vec<u8> = Vec::new();
        match drain_tls(conn, &mut ciphertext) {
            Ok(_) => {
                assert(ciphertext@.skip(0) =~= ciphertext@);
                assert(drains(*old(conn), *conn, ciphertext@));
                self.send(phase, ciphertext.as_slice())
            },
            Err(e) => WriteStep::Done(Err(e)),
        }
    }
}

// ---------------------------------------------------------------------------------------------
// The stream
// ---------------------------------------------------------------------------------------------
/// Blocking TLS stream over a socket.
///
/// Use [`into_split`](Self::into_split) to give the read and write threads independent halves.
/// A successful write may still have ciphertext queued; flush to report pending socket errors.
#[derive(Debug)]
pub struct TlsStream {
    reader: TlsReadHalf,
    writer: TlsWriteHalf,
}

impl View for TlsStream {
    type V = (Seq<u8>, Seq<u8>);

    /// The ciphertext that the connection has not yet taken, and that which is still to be sent.
    closed spec fn view(&self) -> (Seq<u8>, Seq<u8>) {
        (self.reader@, self.writer@)
    }
}

impl TlsStream {
    /// A stream over which nothing went since the handshake.
    pub fn new() -> (r: Self)
        ensures
            r@ == (Seq::<u8>::empty(), Seq::<u8>::empty()),
    {
        TlsStream { reader: TlsReadHalf::new(), writer: TlsWriteHalf::new() }
    }

    /// Splits this stream into independent read and write halves.
    pub fn into_split(self) -> (r: (TlsReadHalf, TlsWriteHalf))
        ensures
            (r.0@, r.1@) == self@,
    {
        (self.reader, self.writer)
    }
}

// ---------------------------------------------------------------------------------------------
// Laws
// ---------------------------------------------------------------------------------------------
/// Plaintext that the connection has accepted is reported as written, whatever comes of sending
/// its ciphertext.
pub proof fn law_accepted_plaintext_is_reported(n: usize, step: OutputStep)
    requires
        n > 0,
        step !is Write,
    ensures
        write_step(WritePhase::Accepted(n), step) == WriteStep::Done(Ok(n)),
{
}

/// A failure to send is reported by a flush, by a write whose earlier ciphertext it hits, and by a
/// write of whose plaintext nothing was accepted.
pub proof fn law_failures_are_reported(phase: WritePhase, e: IoError)
    requires
        phase matches WritePhase::Accepted(n) ==> n == 0,
    ensures
        write_step(phase, OutputStep::Fail(e)) == WriteStep::Done(Err(e)),
{
}

/// A write that ends in an error has accepted nothing: offering plaintext fails only where the
/// connection has failed before, which then changes nothing, and once bytes were accepted no
/// failure to send their ciphertext is the result. A write that succeeds gives the number of bytes
/// that were accepted.
pub proof fn law_failed_write_accepted_nothing(
    before: rustls::ClientConnection,
    pending: Seq<u8>,
    buf: Seq<u8>,
    after: rustls::ClientConnection,
    left: Seq<u8>,
    step: WriteStep,
    output: OutputStep,
)
    requires
        encrypts(before, pending, buf, after, left, step),
    ensures
        step matches WriteStep::Done(Err(_)) ==> has_failed(before) && after == before && left
            == pending,
        step matches WriteStep::Done(Ok(n)) ==> n <= buf.len(),
        step matches WriteStep::Send(phase) ==> phase matches WritePhase::Accepted(n) && n
            <= buf.len() && (match write_step(phase, output) {
            WriteStep::Send(same) => same == phase,
            WriteStep::Done(Ok(m)) => m == n,
            WriteStep::Done(Err(_)) => n == 0,
            _ => false,
        }),
{
}

/// No plaintext is encrypted, and no socket is flushed, before all ciphertext that is there is
/// sent.
pub proof fn law_ciphertext_is_sent_first(phase: WritePhase, pending: nat)
    ensures
        write_step(phase, write_or_done(pending)) is Send <==> pending > 0,
        write_step(phase, write_or_done(pending)) is Encrypt <==> pending == 0 && phase is Earlier,
        write_step(phase, write_or_done(pending)) is FlushSocket <==> pending == 0
            && phase is Flush,
{
}

/// What happens to the ciphertext of a read half.
pub enum IncomingEvent {
    /// Ciphertext arrived.
    Arrived(Seq<u8>),
    /// The connection took so many bytes of what is pending.
    Taken(nat),
}

/// The bytes that the connection took, and those that it did not yet take.
pub struct IncomingState {
    /// The bytes that the connection took.
    pub taken: Seq<u8>,
    /// The bytes that it did not yet take.
    pub pending: Seq<u8>,
}

/// All ciphertext that arrived.
pub open spec fn arrived_bytes(events: Seq<IncomingEvent>) -> Seq<u8>
    decreases events.len(),
{
    if events.len() == 0 {
        Seq::empty()
    } else {
        match events.last() {
            IncomingEvent::Arrived(bytes) => arrived_bytes(events.drop_last()) + bytes,
            IncomingEvent::Taken(_) => arrived_bytes(events.drop_last()),
        }
    }
}

/// The state after `events`, from nothing.
pub open spec fn incoming_after(events: Seq<IncomingEvent>) -> IncomingState
    decreases events.len(),
{
    if events.len() == 0 {
        IncomingState { taken: Seq::empty(), pending: Seq::empty() }
    } else {
        let before = incoming_after(events.drop_last());
        match events.last() {
            IncomingEvent::Arrived(bytes) => IncomingState {
                pending: before.pending + bytes,
                ..before
            },
            IncomingEvent::Taken(n) => IncomingState {
                taken: before.taken + before.pending.take(n as int),
                pending: left_after(before.pending, n),
            },
        }
    }
}

/// As long as the connection takes bytes each time that it is fed some, it is fed what arrived, in
/// order and without loss: what it took, followed by what is pending, is what arrived.
pub proof fn law_incoming_keeps_every_byte(events: Seq<IncomingEvent>)
    requires
        forall|i: int|
            0 <= i < events.len() ==> (#[trigger] events[i] matches IncomingEvent::Taken(n)
                ==> n <= incoming_after(events.take(i)).pending.len() && (n == 0
                ==> incoming_after(events.take(i)).pending.len() == 0)),
    ensures
        incoming_after(events).taken + incoming_after(events).pending == arrived_bytes(events),
    decreases events.len(),
{
    if events.len() > 0 {
        let earlier = events.drop_last();
        assert(events.take(events.len() - 1) =~= earlier);
        assert forall|i: int| 0 <= i < earlier.len() implies (#[trigger] earlier[i] matches
            IncomingEvent::Taken(n) ==> n <= incoming_after(earlier.take(i)).pending.len() && (n
            == 0 ==> incoming_after(earlier.take(i)).pending.len() == 0)) by {
            assert(earlier[i] == events[i]);
            assert(earlier.take(i) =~= events.take(i));
        }
        law_incoming_keeps_every_byte(earlier);
        let before = incoming_after(earlier);
        match events.last() {
            IncomingEvent::Arrived(bytes) => {
                assert(before.taken + (before.pending + bytes) =~= (before.taken + before.pending)
                    + bytes);
            },
            IncomingEvent::Taken(n) => {
                assert(events[events.len() - 1] == events.last());
                assert((before.taken + before.pending.take(n as int)) + left_after(
                    before.pending,
                    n,
                ) =~= before.taken + before.pending);
            },
        }
    }
}

/// A call of a read half.
pub struct ReadCall {
    /// The states before it, with the ciphertext that arrived for it pending.
    pub before: Reading,
    /// The states after it.
    pub after: Reading,
    /// What it came to.
    pub step: ReadStep,
}

impl ReadCall {
    /// Whether [`TlsReadHalf::read`], [`TlsReadHalf::read_on`] or [`TlsReadHalf::resume`] may have
    /// done this: it reads, it goes on with a read, or the socket gave nothing to go on with.
    pub open spec fn happens(self) -> bool {
        ||| reads(self.before, self.after, self.step)
        ||| reads_on(self.before, true, self.after, self.step)
        ||| reads_on(self.before, false, self.after, self.step)
        ||| self.after == self.before && !(self.step matches ReadStep::Done(Ok(_)))
    }
}

/// Whether `calls` may come one after the other on a connection. What is done between two of them,
/// by the write half, does not touch the plaintext that has arrived.
pub open spec fn happen_in_turn(calls: Seq<ReadCall>) -> bool {
    &&& forall|i: int| 0 <= i < calls.len() ==> (#[trigger] calls[i]).happens()
    &&& forall|i: int, j: int|
        0 <= i && j == i + 1 && j < calls.len() ==> received_plaintext(
            (#[trigger] calls[i]).after.conn,
        ) == received_plaintext((#[trigger] calls[j]).before.conn)
}

/// All plaintext that `calls` have handed out.
pub open spec fn handed_out_by(calls: Seq<ReadCall>) -> Seq<u8>
    decreases calls.len(),
{
    if calls.len() == 0 {
        Seq::empty()
    } else {
        handed_out_by(calls.drop_last()) + handed_out(calls.last().step, calls.last().after.buf)
    }
}

/// All plaintext that has arrived by the end of `calls`: what they have handed out, and what was
/// not yet read. Before the first of them, it is `held`.
pub open spec fn arrived_plaintext(held: Seq<u8>, calls: Seq<ReadCall>) -> Seq<u8> {
    if calls.len() == 0 {
        held
    } else {
        handed_out_by(calls) + received_plaintext(calls.last().after.conn)
    }
}

/// A read leaves the order of the plaintext as it is, and takes nothing that is to be sent.
proof fn lemma_reads_in_order(before: Reading, after: Reading, step: ReadStep)
    requires
        reads(before, after, step),
    ensures
        received_plaintext(before.conn).is_prefix_of(
            handed_out(step, after.buf) + received_plaintext(after.conn),
        ),
        sendable_tls(before.conn).is_prefix_of(sendable_tls(after.conn)),
        after.buf.len() == before.buf.len(),
        step matches ReadStep::Done(Ok(n)) ==> n <= before.buf.len(),
    decreases before.pending.len(),
{
    let given = handed_out(step, after.buf);
    if received_plaintext(before.conn).len() > 0 || before.buf.len() == 0 || !(stream_end(
        before.conn,
    ) is Open) {
        assert(given + received_plaintext(after.conn) =~= received_plaintext(before.conn));
    } else if before.pending.len() == 0 {
        assert(given + received_plaintext(after.conn) =~= received_plaintext(before.conn));
    } else {
        let (conn, left, r) = choose|
            conn: rustls::ClientConnection,
            left: Seq<u8>,
            r: Result<(), IoError>,
        |
            {
                &&& #[trigger] processes(before.conn, before.pending, conn, left, r)
                &&& match r {
                    Ok(_) => left.len() < before.pending.len() && reads(
                        Reading { conn, pending: left, buf: before.buf },
                        after,
                        step,
                    ),
                    Err(e) => step == ReadStep::Done(Err(e)) && after == (Reading {
                        conn,
                        pending: left,
                        buf: before.buf,
                    }),
                }
            };
        match r {
            Ok(_) => {
                lemma_reads_in_order(
                    Reading { conn, pending: left, buf: before.buf },
                    after,
                    step,
                );
            },
            Err(_) => {
                assert(given + received_plaintext(after.conn) =~= received_plaintext(after.conn));
            },
        }
    }
}

/// Going on with a read leaves the order of the plaintext as it is, and takes nothing that is to be
/// sent.
proof fn lemma_reads_on_in_order(before: Reading, more: bool, after: Reading, step: ReadStep)
    requires
        reads_on(before, more, after, step),
    ensures
        received_plaintext(before.conn).is_prefix_of(
            handed_out(step, after.buf) + received_plaintext(after.conn),
        ),
        sendable_tls(before.conn).is_prefix_of(sendable_tls(after.conn)),
        after.buf.len() == before.buf.len(),
        step matches ReadStep::Done(Ok(n)) ==> n <= before.buf.len(),
{
    let given = handed_out(step, after.buf);
    let (conn, left, r) = choose|
        conn: rustls::ClientConnection,
        left: Seq<u8>,
        r: Result<(), IoError>,
    |
        {
            &&& #[trigger] processes(before.conn, before.pending, conn, left, r)
            &&& match r {
                Ok(_) => if more {
                    reads(Reading { conn, pending: left, buf: before.buf }, after, step)
                } else {
                    &&& after.pending == left
                    &&& exists|plaintext: Result<Option<usize>, IoError>|
                        {
                            &&& #[trigger] reads_plaintext(
                                conn,
                                before.buf,
                                after.conn,
                                after.buf,
                                plaintext,
                            )
                            &&& step == ReadStep::Done(read_at_eof(plaintext))
                        }
                },
                Err(e) => step == ReadStep::Done(Err(e)) && after == (Reading {
                    conn,
                    pending: left,
                    buf: before.buf,
                }),
            }
        };
    match r {
        Ok(_) => {
            if more {
                lemma_reads_in_order(
                    Reading { conn, pending: left, buf: before.buf },
                    after,
                    step,
                );
            } else {
                assert(given + received_plaintext(after.conn) =~= received_plaintext(conn));
            }
        },
        Err(_) => {
            assert(given + received_plaintext(after.conn) =~= received_plaintext(after.conn));
        },
    }
}

/// A call hands out no more than its buffer holds, nothing into an empty one, and only what has
/// arrived, in order; and it takes nothing that is to be sent.
pub proof fn law_read_is_in_order(call: ReadCall)
    requires
        call.happens(),
    ensures
        received_plaintext(call.before.conn).is_prefix_of(
            handed_out(call.step, call.after.buf) + received_plaintext(call.after.conn),
        ),
        sendable_tls(call.before.conn).is_prefix_of(sendable_tls(call.after.conn)),
        call.step matches ReadStep::Done(Ok(n)) ==> n <= call.before.buf.len(),
        call.before.buf.len() == 0 ==> handed_out(call.step, call.after.buf).len() == 0,
{
    if reads(call.before, call.after, call.step) {
        lemma_reads_in_order(call.before, call.after, call.step);
    } else if reads_on(call.before, true, call.after, call.step) {
        lemma_reads_on_in_order(call.before, true, call.after, call.step);
    } else if reads_on(call.before, false, call.after, call.step) {
        lemma_reads_on_in_order(call.before, false, call.after, call.step);
    } else {
        assert(handed_out(call.step, call.after.buf) + received_plaintext(call.after.conn)
            =~= received_plaintext(call.before.conn));
    }
}

/// Over any number of calls, no plaintext is lost, repeated or moved: what the first `k` of them
/// have handed out, followed by what was then not yet read, only grows at its end. So what all
/// calls have handed out, joined, is a prefix of the plaintext that has arrived.
pub proof fn law_reads_keep_every_byte(held: Seq<u8>, calls: Seq<ReadCall>, k: int)
    requires
        happen_in_turn(calls),
        calls.len() > 0 ==> held == received_plaintext(calls[0].before.conn),
        0 <= k <= calls.len(),
    ensures
        arrived_plaintext(held, calls.take(k)).is_prefix_of(arrived_plaintext(held, calls)),
        handed_out_by(calls.take(k)).is_prefix_of(handed_out_by(calls)),
        handed_out_by(calls).is_prefix_of(arrived_plaintext(held, calls)),
    decreases calls.len(),
{
    if k == calls.len() {
        assert(calls.take(k) =~= calls);
    } else {
        let earlier = calls.drop_last();
        let last = calls.last();
        assert forall|i: int| 0 <= i < earlier.len() implies (#[trigger] earlier[i]).happens() by {
            assert(calls[i].happens());
        }
        assert(happen_in_turn(earlier)) by {
            assert forall|i: int, j: int|
                0 <= i && j == i + 1 && j < earlier.len() implies received_plaintext(
                (#[trigger] earlier[i]).after.conn,
            ) == received_plaintext((#[trigger] earlier[j]).before.conn) by {
                assert(earlier[i] == calls[i] && earlier[j] == calls[j]);
            }
        }
        if earlier.len() > 0 {
            assert(earlier[0] == calls[0]);
        }
        law_reads_keep_every_byte(held, earlier, k);
        assert(earlier.take(k) =~= calls.take(k));
        assert(calls[calls.len() - 1].happens());
        law_read_is_in_order(last);
        let n = calls.len() as int;
        if n > 1 {
            assert(earlier.last() == calls[n - 2]);
            assert(received_plaintext(calls[n - 2].after.conn) == received_plaintext(
                calls[n - 1].before.conn,
            ));
        }
        let given = handed_out(last.step, last.after.buf);
        let now = received_plaintext(last.after.conn);
        assert(handed_out_by(calls) == handed_out_by(earlier) + given);
        assert((handed_out_by(earlier) + given) + now =~= handed_out_by(earlier) + (given + now));
        assert(arrived_plaintext(held, earlier) =~= handed_out_by(earlier) + received_plaintext(
            last.before.conn,
        ));
        assert(arrived_plaintext(held, earlier).is_prefix_of(arrived_plaintext(held, calls)));
    }
}

// ---------------------------------------------------------------------------------------------
// Laws of a whole write
// ---------------------------------------------------------------------------------------------
/// A write or a flush stays in its phase as long as it sends; once all is sent, earlier ciphertext
/// is followed by the plaintext, a write ends with the number of bytes that were accepted, and a
/// flush goes on to the socket.
pub proof fn law_phases_follow_the_output(phase: WritePhase, n: usize)
    ensures
        write_step(phase, OutputStep::Write) == WriteStep::Send(phase),
        write_step(WritePhase::Earlier, OutputStep::Done) is Encrypt,
        write_step(WritePhase::Accepted(n), OutputStep::Done) == WriteStep::Done(Ok(n)),
        write_step(WritePhase::Flush, OutputStep::Done) is FlushSocket,
{
}

/// What is pending, and what is to be done, after writes to the socket with `results`, each of
/// which [`TlsWriteHalf::written`] was told.
pub open spec fn after_writes(
    pending: Seq<u8>,
    step: WriteStep,
    results: Seq<Result<usize, IoError>>,
) -> (Seq<u8>, WriteStep)
    decreases results.len(),
{
    if results.len() == 0 {
        (pending, step)
    } else {
        let (left, then_step) = after_writes(pending, step, results.drop_last());
        match then_step {
            WriteStep::Send(phase) => {
                let rest = left.skip(
                    crate::transport::output::accepted(left.len(), results.last()) as int,
                );
                (
                    rest,
                    write_step(
                        phase,
                        crate::transport::output::step_after_write(rest.len(), results.last()),
                    ),
                )
            },
            _ => (left, then_step),
        }
    }
}

/// Whether a step of a write, of whose plaintext `n` bytes were accepted, tells so: it sends, or is
/// over with that number, or, where the number is 0, with an error.
pub open spec fn tells_accepted(step: WriteStep, n: usize) -> bool {
    match step {
        WriteStep::Send(WritePhase::Accepted(m)) => m == n,
        WriteStep::Done(Ok(m)) => m == n,
        WriteStep::Done(Err(_)) => n == 0,
        _ => false,
    }
}

proof fn lemma_writes_tell_accepted(
    pending: Seq<u8>,
    step: WriteStep,
    results: Seq<Result<usize, IoError>>,
    n: usize,
)
    requires
        tells_accepted(step, n),
    ensures
        tells_accepted(after_writes(pending, step, results).1, n),
    decreases results.len(),
{
    if results.len() > 0 {
        lemma_writes_tell_accepted(pending, step, results.drop_last(), n);
    }
}

/// Over a whole write, from offering the plaintext through any number of writes to the socket, the
/// number that the write tells is the very number of bytes that the connection accepted. It is an
/// error only where none was accepted.
pub proof fn law_write_tells_what_was_accepted(
    before: rustls::ClientConnection,
    pending: Seq<u8>,
    buf: Seq<u8>,
    after: rustls::ClientConnection,
    left: Seq<u8>,
    step: WriteStep,
    results: Seq<Result<usize, IoError>>,
)
    requires
        encrypts(before, pending, buf, after, left, step),
    ensures
        match after_writes(left, step, results).1 {
            WriteStep::Send(WritePhase::Accepted(m)) => m <= buf.len() && exists|
                accepted: rustls::ClientConnection,
            |
                #[trigger] may_accept(before, buf, accepted, m as nat),
            WriteStep::Done(Ok(m)) => m <= buf.len() && exists|accepted: rustls::ClientConnection|
             #[trigger]
                may_accept(before, buf, accepted, m as nat),
            WriteStep::Done(Err(_)) => has_failed(before) || exists|
                accepted: rustls::ClientConnection,
            |
                #[trigger] may_accept(before, buf, accepted, 0),
            _ => false,
        },
{
    if has_failed(before) {
        lemma_over_stays_over(left, step, results);
    } else {
        let (accepted, n) = choose|accepted: rustls::ClientConnection, n: usize|
            {
                &&& #[trigger] may_accept(before, buf, accepted, n as nat)
                &&& n <= buf.len()
                &&& differ_in_sendable(accepted, before)
                &&& sendable_tls(before).is_prefix_of(sendable_tls(accepted))
                &&& sends(accepted, pending, WritePhase::Accepted(n), after, left, step)
            };
        assert(may_accept(before, buf, accepted, n as nat));
        assert(tells_accepted(step, n));
        lemma_writes_tell_accepted(left, step, results, n);
    }
}

/// What is over stays over.
proof fn lemma_over_stays_over(
    pending: Seq<u8>,
    step: WriteStep,
    results: Seq<Result<usize, IoError>>,
)
    requires
        step is Done,
    ensures
        after_writes(pending, step, results) == (pending, step),
    decreases results.len(),
{
    if results.len() > 0 {
        lemma_over_stays_over(pending, step, results.drop_last());
    }
}

/// Whether a step of sending in `phase`, with `pending` bytes left, keeps to the phase: it sends
/// while bytes are left, and goes on only once none is.
pub open spec fn keeps_phase(phase: WritePhase, pending: nat, step: WriteStep) -> bool {
    match step {
        WriteStep::Send(same) => same == phase && pending > 0,
        WriteStep::Encrypt => phase is Earlier && pending == 0,
        WriteStep::FlushSocket => phase is Flush && pending == 0,
        WriteStep::Done(Ok(m)) => phase == WritePhase::Accepted(m),
        WriteStep::Done(Err(_)) => !(phase matches WritePhase::Accepted(n) && n > 0),
    }
}

/// Sending puts what the connection gives out behind what is pending, all of it, and keeps to its
/// phase. Over any number of writes to the socket, the bytes that leave do so in order, from the
/// front; the plaintext of a write is offered, and a socket is flushed, only once all is sent.
pub proof fn law_sending_keeps_order_and_phase(
    before: rustls::ClientConnection,
    pending: Seq<u8>,
    phase: WritePhase,
    after: rustls::ClientConnection,
    left: Seq<u8>,
    step: WriteStep,
    results: Seq<Result<usize, IoError>>,
)
    requires
        !has_failed(before),
        sends(before, pending, phase, after, left, step),
    ensures
        (pending + sendable_tls(before)).is_prefix_of(left),
        sendable_tls(after).len() == 0,
        keeps_phase(phase, left.len(), step),
        ({
            let (rest, then_step) = after_writes(left, step, results);
            keeps_phase(phase, rest.len(), then_step) && rest.len() <= left.len() && rest
                == left.skip(left.len() - rest.len())
        }),
    decreases results.len(),
{
    if results.len() > 0 {
        law_sending_keeps_order_and_phase(
            before,
            pending,
            phase,
            after,
            left,
            step,
            results.drop_last(),
        );
        let (rest, then_step) = after_writes(left, step, results.drop_last());
        let (rest2, _) = after_writes(left, step, results);
        assert(rest2 =~= left.skip(left.len() - rest2.len()));
    } else {
        assert(left =~= left.skip(0));
    }
}

/// A connection that has failed sends nothing and accepts nothing: whatever the phase, its failure
/// is the result, and everything stays as it is.
pub proof fn law_failed_connections_send_nothing(
    before: rustls::ClientConnection,
    pending: Seq<u8>,
    phase: WritePhase,
    buf: Seq<u8>,
    after: rustls::ClientConnection,
    left: Seq<u8>,
    step: WriteStep,
)
    requires
        has_failed(before),
        sends(before, pending, phase, after, left, step) || encrypts(
            before,
            pending,
            buf,
            after,
            left,
            step,
        ),
    ensures
        step matches WriteStep::Done(Err(e)) && e.kind == ErrorKind::InvalidData
            && e.cause is Stream,
        left == pending,
        after == before,
{
}

/// Encrypting plaintext queues the ciphertext that was to be sent behind what is pending, then that
/// of the plaintext, all of it; it goes on with the number of bytes that were accepted of the whole
/// plaintext.
pub proof fn law_encrypting_queues_behind(
    before: rustls::ClientConnection,
    pending: Seq<u8>,
    buf: Seq<u8>,
    after: rustls::ClientConnection,
    left: Seq<u8>,
    step: WriteStep,
)
    requires
        !has_failed(before),
        encrypts(before, pending, buf, after, left, step),
    ensures
        (pending + sendable_tls(before)).is_prefix_of(left),
        sendable_tls(after).len() == 0,
        received_plaintext(after) == received_plaintext(before),
        stream_end(after) == stream_end(before),
        exists|accepted: rustls::ClientConnection, n: usize, ciphertext: Seq<u8>|
            {
                &&& #[trigger] may_accept(before, buf, accepted, n as nat)
                &&& #[trigger] drains(accepted, after, ciphertext)
                &&& n <= buf.len()
                &&& left == pending + ciphertext
                &&& keeps_phase(WritePhase::Accepted(n), left.len(), step)
            },
{
    let (accepted, n) = choose|accepted: rustls::ClientConnection, n: usize|
        {
            &&& #[trigger] may_accept(before, buf, accepted, n as nat)
            &&& n <= buf.len()
            &&& differ_in_sendable(accepted, before)
            &&& sendable_tls(before).is_prefix_of(sendable_tls(accepted))
            &&& sends(accepted, pending, WritePhase::Accepted(n), after, left, step)
        };
    let ciphertext = choose|ciphertext: Seq<u8>|
        {
            &&& #[trigger] drains(accepted, after, ciphertext)
            &&& left == pending + ciphertext
            &&& step == write_step(WritePhase::Accepted(n), write_or_done(left.len()))
        };
    assert(may_accept(before, buf, accepted, n as nat) && drains(accepted, after, ciphertext));
    assert((pending + sendable_tls(before)).is_prefix_of(left)) by {
        assert(sendable_tls(before).is_prefix_of(ciphertext));
        assert((pending + sendable_tls(before)) =~= left.take(
            (pending + sendable_tls(before)).len() as int,
        ));
    }
}

/// Draining takes all that a connection has to send, in order, with what it holds back until a
/// write behind it, and touches nothing else.
pub proof fn law_draining_takes_everything(
    before: rustls::ClientConnection,
    after: rustls::ClientConnection,
    ciphertext: Seq<u8>,
)
    requires
        drains(before, after, ciphertext),
    ensures
        sendable_tls(before).is_prefix_of(ciphertext),
        sendable_tls(after).len() == 0,
        received_plaintext(after) == received_plaintext(before),
        stream_end(after) == stream_end(before),
        has_failed(after) == has_failed(before),
        exists|written: rustls::ClientConnection|
            #[trigger] may_accept(before, Seq::empty(), written, 0) && sendable_tls(written)
                == ciphertext,
{
}

// ---------------------------------------------------------------------------------------------
// Laws of a whole read
// ---------------------------------------------------------------------------------------------
/// A read of the socket means the end of the stream exactly where it gave no bytes; an interrupted
/// one is made again, and any other error is the error of the read.
pub proof fn law_only_no_bytes_mean_the_end(n: usize, e: IoError)
    ensures
        n > 0 ==> ciphertext_step(Ok(n)) == CiphertextStep::Got(true),
        ciphertext_step(Ok(0)) == CiphertextStep::Got(false),
        e.kind == ErrorKind::Interrupted ==> ciphertext_step(Err(e)) is Again,
        e.kind != ErrorKind::Interrupted ==> ciphertext_step(Err(e)) == CiphertextStep::Fail(e),
{
}

/// An attempt to read plaintext needs more ciphertext exactly where it would block; its other
/// results are handed on. An error of working on ciphertext is invalid data, with the TLS error
/// behind it. At the end of the stream, only where more ciphertext is needed does the end come too
/// early.
pub proof fn law_results_are_handed_on(n: usize, e: IoError, tls: RustlsError)
    ensures
        plaintext_of(Ok(n)) == Ok::<Option<usize>, IoError>(Some(n)),
        e.kind == ErrorKind::WouldBlock ==> plaintext_of(Err(e)) == Ok::<Option<usize>, IoError>(
            None,
        ),
        e.kind != ErrorKind::WouldBlock ==> plaintext_of(Err(e)) == Err::<Option<usize>, IoError>(
            e,
        ),
        processed_of(Ok(())) is Ok,
        processed_of(Err(tls)) matches Err(told) && told.kind == ErrorKind::InvalidData && told.cause
            == Cause::Tls(tls),
        read_at_eof(Ok(Some(n))) == Ok::<usize, IoError>(n),
        read_at_eof(Ok(None)) matches Err(told) && told.kind == ErrorKind::UnexpectedEof
            && told.cause is Kind,
        read_at_eof(Err(e)) == Err::<usize, IoError>(e),
{
}

/// A connection that took some of the pending bytes leaves the others, in order; one that takes
/// none takes no more.
pub proof fn law_taken_bytes_leave_the_front(pending: Seq<u8>, n: nat)
    requires
        n <= pending.len(),
    ensures
        n > 0 ==> pending.take(n as int) + left_after(pending, n) == pending,
        left_after(pending, 0).len() == 0,
{
    if n > 0 {
        assert(pending.take(n as int) + left_after(pending, n) =~= pending);
    }
}

/// Whether `e` is a failure to work on ciphertext.
pub open spec fn is_failed_processing(e: IoError) -> bool {
    exists|
        before: rustls::ClientConnection,
        pending: Seq<u8>,
        after: rustls::ClientConnection,
        left: Seq<u8>,
    |
        #[trigger] processes(before, pending, after, left, Err(e))
}

/// Whether `step` is what a read into `buf` bytes has to come to where the connection is then
/// `after`, with `pending` bytes of ciphertext left: it asks for more ciphertext only on an open
/// stream, with nothing left to feed and no plaintext there; it gives as much plaintext as there is
/// and fits; it gives none only for a closed connection or an empty buffer; and it fails only where
/// the stream is cut or the ciphertext could not be worked on.
pub open spec fn is_due(buf: nat, after: Reading, step: ReadStep) -> bool {
    match step {
        ReadStep::ReadSocket => {
            &&& buf > 0
            &&& after.pending.len() == 0
            &&& received_plaintext(after.conn).len() == 0
            &&& stream_end(after.conn) is Open
        },
        ReadStep::Done(Ok(n)) => {
            &&& n <= buf
            &&& n < buf ==> received_plaintext(after.conn).len() == 0
            &&& n == 0 && buf > 0 ==> stream_end(after.conn) is Closed
        },
        ReadStep::Done(Err(e)) => {
            ||| stream_end(after.conn) is Cut && e.kind == ErrorKind::UnexpectedEof
            ||| is_failed_processing(e)
        },
    }
}

/// A read comes to what is due, and leaves the buffer as it was behind the plaintext.
pub proof fn law_read_gives_what_is_due(before: Reading, after: Reading, step: ReadStep)
    requires
        reads(before, after, step),
    ensures
        is_due(before.buf.len(), after, step),
        after.buf.len() == before.buf.len(),
        ({
            let n = handed_out(step, after.buf).len() as int;
            after.buf.skip(n) == before.buf.skip(n)
        }),
    decreases before.pending.len(),
{
    if received_plaintext(before.conn).len() > 0 || before.buf.len() == 0 || !(stream_end(
        before.conn,
    ) is Open) {
        let n = handed_out(step, after.buf).len() as int;
        assert(after.buf.skip(n) =~= before.buf.skip(n));
    } else if before.pending.len() > 0 {
        let (conn, left, r) = choose|
            conn: rustls::ClientConnection,
            left: Seq<u8>,
            r: Result<(), IoError>,
        |
            {
                &&& #[trigger] processes(before.conn, before.pending, conn, left, r)
                &&& match r {
                    Ok(_) => left.len() < before.pending.len() && reads(
                        Reading { conn, pending: left, buf: before.buf },
                        after,
                        step,
                    ),
                    Err(e) => step == ReadStep::Done(Err(e)) && after == (Reading {
                        conn,
                        pending: left,
                        buf: before.buf,
                    }),
                }
            };
        if let Ok(_) = r {
            law_read_gives_what_is_due(
                Reading { conn, pending: left, buf: before.buf },
                after,
                step,
            );
        }
    }
}

/// Where plaintext is there, a read gives as much of it as fits, at once, and feeds nothing.
pub proof fn law_read_gives_plaintext_at_once(before: Reading, after: Reading, step: ReadStep)
    requires
        reads(before, after, step),
        received_plaintext(before.conn).len() > 0,
    ensures
        after.pending == before.pending,
        step matches ReadStep::Done(Ok(n)) && {
            &&& n == received_plaintext(before.conn).len() || n == before.buf.len()
            &&& n <= received_plaintext(before.conn).len()
            &&& n <= before.buf.len()
            &&& after.buf.take(n as int) + received_plaintext(after.conn) == received_plaintext(
                before.conn,
            )
        },
{
    let n = step->Done_0->Ok_0 as int;
    assert(after.buf.take(n) + received_plaintext(after.conn) =~= received_plaintext(before.conn));
}

/// Once `n` bytes of ciphertext have arrived, a read that goes on comes to what is due. So, on a
/// stream that is still open, it asks for more ciphertext or gives plaintext, unless the ciphertext
/// could not be worked on; it does not take the stream to have ended.
pub proof fn law_arrived_bytes_are_read_on(
    n: usize,
    before: Reading,
    more: bool,
    after: Reading,
    step: ReadStep,
)
    requires
        n > 0,
        ciphertext_step(Ok(n)) == CiphertextStep::Got(more),
        reads_on(before, more, after, step),
    ensures
        is_due(before.buf.len(), after, step),
        stream_end(after.conn) is Open ==> match step {
            ReadStep::ReadSocket => true,
            ReadStep::Done(Ok(m)) => m > 0 || before.buf.len() == 0,
            ReadStep::Done(Err(e)) => is_failed_processing(e),
        },
{
    let (conn, left, r) = choose|
        conn: rustls::ClientConnection,
        left: Seq<u8>,
        r: Result<(), IoError>,
    |
        {
            &&& #[trigger] processes(before.conn, before.pending, conn, left, r)
            &&& match r {
                Ok(_) => reads(Reading { conn, pending: left, buf: before.buf }, after, step),
                Err(e) => step == ReadStep::Done(Err(e)) && after == (Reading {
                    conn,
                    pending: left,
                    buf: before.buf,
                }),
            }
        };
    if let Ok(_) = r {
        law_read_gives_what_is_due(Reading { conn, pending: left, buf: before.buf }, after, step);
    }
}

/// Once the stream has ended, a read is over: with the plaintext that there is, with a clean end
/// where the peer has closed the connection, and else with an error.
pub proof fn law_the_end_is_told(before: Reading, more: bool, after: Reading, step: ReadStep)
    requires
        ciphertext_step(Ok(0)) == CiphertextStep::Got(more),
        reads_on(before, more, after, step),
    ensures
        match step {
            ReadStep::ReadSocket => false,
            ReadStep::Done(Ok(n)) => is_due(before.buf.len(), after, step),
            ReadStep::Done(Err(e)) => is_failed_processing(e) || e.kind == ErrorKind::UnexpectedEof
                && received_plaintext(after.conn).len() == 0 && !(stream_end(
                after.conn,
            ) is Closed),
        },
{
}

/// Feeding ciphertext takes what the connection took from the front of it, and leaves all of it
/// where the connection has no room for any; an error is that of the connection.
pub proof fn law_feeding_takes_from_the_front(
    before: rustls::ClientConnection,
    pending: Seq<u8>,
    after: rustls::ClientConnection,
    left: Seq<u8>,
    r: Result<(), IoError>,
)
    requires
        processes(before, pending, after, left, r),
    ensures
        match fed(before, pending).1 {
            Ok(n) => {
                &&& 0 < n <= pending.len() ==> pending.take(n as int) + left == pending
                &&& n == 0 ==> left.len() == 0
                &&& r matches Err(e) ==> e.kind == ErrorKind::InvalidData && e.cause is Tls
                &&& exists|result: Result<(), rustls::Error>| #[trigger]
                    may_process(fed(before, pending).0, after, result) && (result is Ok <==> r
                        is Ok)
            },
            Err(kind) => left == pending && r is Err && r->Err_0.kind == kind,
        },
{
    match fed(before, pending).1 {
        Ok(n) => {
            if 0 < n <= pending.len() {
                law_taken_bytes_leave_the_front(pending, n);
            }
        },
        Err(_) => {},
    }
}

} // verus!
