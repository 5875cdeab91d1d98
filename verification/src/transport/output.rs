//! Ciphertext on its way to a socket.
//!
//! Writing to the socket is done outside: [`TlsOutput`] says what to do next, and is told what came
//! of it.

use vstd::prelude::*;
use vstd::slice::slice_subrange;

use crate::transport::connection::at_most;
use crate::transport::io::{Cause, ErrorKind, IoError};

verus! {

/// TLS ciphertext before it is sent.
#[derive(Debug)]
pub struct TlsOutput {
    /// TLS ciphertext, of which `offset` bytes were already accepted by the socket.
    pending_ciphertext: Vec<u8>,
    /// Number of leading bytes in `pending_ciphertext` already accepted by the socket.
    offset: usize,
}

/// What to do next with the ciphertext of a [`TlsOutput`].
#[derive(Debug)]
pub enum OutputStep {
    /// Write what is pending to the socket, and tell by [`TlsOutput::written`] what came of it.
    Write,
    /// Nothing: all is written.
    Done,
    /// Nothing: writing failed. What is pending stays.
    Fail(IoError),
}

/// How many of `pending` bytes a socket accepted that gave `result` on a write of them.
pub open spec fn accepted(pending: nat, result: Result<usize, IoError>) -> nat {
    match result {
        Ok(n) => at_most(n as nat, pending),
        Err(_) => 0,
    }
}

/// What to do once `pending` bytes are left.
pub open spec fn write_or_done(pending: nat) -> OutputStep {
    if pending > 0 {
        OutputStep::Write
    } else {
        OutputStep::Done
    }
}

/// What to do after a write that gave `result` and left `pending` bytes: an interrupted one is
/// tried again, and one that accepted nothing has failed.
pub open spec fn step_after_write(pending: nat, result: Result<usize, IoError>) -> OutputStep {
    match result {
        Ok(n) => if n == 0 {
            OutputStep::Fail(IoError { kind: ErrorKind::WriteZero, cause: Cause::Kind })
        } else {
            write_or_done(pending)
        },
        Err(e) => if e.kind == ErrorKind::Interrupted {
            OutputStep::Write
        } else {
            OutputStep::Fail(e)
        },
    }
}

impl View for TlsOutput {
    type V = Seq<u8>;

    /// The bytes that are still to be written.
    closed spec fn view(&self) -> Seq<u8> {
        self.pending_ciphertext@.skip(self.offset as int)
    }
}

impl TlsOutput {
    #[verifier::type_invariant]
    spec fn offset_is_within(self) -> bool {
        self.offset <= self.pending_ciphertext@.len()
    }

    /// Nothing to send.
    pub fn new() -> (r: Self)
        ensures
            r@ == Seq::<u8>::empty(),
    {
        let r = TlsOutput { pending_ciphertext: Vec::new(), offset: 0 };
        assert(r@ =~= Seq::<u8>::empty());
        r
    }

    /// The bytes that are still to be written.
    pub fn pending(&self) -> (r: &[u8])
        ensures
            r@ == self@,
    {
        proof {
            use_type_invariant(self);
        }
        let all = self.pending_ciphertext.as_slice();
        slice_subrange(all, self.offset, all.len())
    }

    /// Queues new ciphertext, for all pending ciphertext to be written.
    pub fn queue_and_write_ciphertext(&mut self, ciphertext: &[u8]) -> (r: OutputStep)
        ensures
            final(self)@ == old(self)@ + ciphertext@,
            r == write_or_done(final(self)@.len()),
    {
        proof {
            use_type_invariant(&*self);
        }
        let offset: usize = self.offset;
        let mut pending_ciphertext: Vec<u8> = Vec::new();
        self.offset = 0;
        std::mem::swap(&mut self.pending_ciphertext, &mut pending_ciphertext);
        pending_ciphertext.extend_from_slice(ciphertext);
        self.pending_ciphertext = pending_ciphertext;
        self.offset = offset;
        assert(self@ =~= old(self)@ + ciphertext@);
        self.next()
    }

    /// Takes note of what came of writing what is pending.
    pub fn written(&mut self, result: Result<usize, IoError>) -> (r: OutputStep)
        requires
            old(self)@.len() > 0,
        ensures
            final(self)@ == old(self)@.skip(accepted(old(self)@.len(), result) as int),
            r == step_after_write(final(self)@.len(), result),
    {
        proof {
            use_type_invariant(&*self);
        }
        match result {
            Ok(n) => {
                if n == 0 {
                    assert(self@ =~= old(self)@.skip(0));
                    return OutputStep::Fail(IoError::from(ErrorKind::WriteZero));
                }
                let left: usize = self.pending_ciphertext.len() - self.offset;
                if n < left {
                    self.offset = self.offset + n;
                } else {
                    self.offset = 0;
                    self.pending_ciphertext = Vec::new();
                }
                assert(self@ =~= old(self)@.skip(accepted(old(self)@.len(), result) as int));
                self.next()
            },
            Err(e) => {
                assert(self@ =~= old(self)@.skip(0));
                if e.kind == ErrorKind::Interrupted {
                    OutputStep::Write
                } else {
                    OutputStep::Fail(e)
                }
            },
        }
    }

    /// Writes what is pending. Once that is done, the socket is to be flushed.
    pub fn flush(&mut self) -> (r: OutputStep)
        ensures
            final(self)@ == old(self)@,
            r == write_or_done(final(self)@.len()),
    {
        let nothing: [u8; 0] = [];
        let r = self.queue_and_write_ciphertext(&nothing);
        assert(self@ =~= old(self)@);
        r
    }

    /// Writes, if anything is pending.
    fn next(&self) -> (r: OutputStep)
        ensures
            r == write_or_done(self@.len()),
    {
        proof {
            use_type_invariant(self);
        }
        if self.offset < self.pending_ciphertext.len() {
            OutputStep::Write
        } else {
            OutputStep::Done
        }
    }
}

// ---------------------------------------------------------------------------------------------
// Laws
// ---------------------------------------------------------------------------------------------
/// What happens to a [`TlsOutput`].
pub enum OutputEvent {
    /// Ciphertext was queued.
    Queued(Seq<u8>),
    /// What was pending was written, with this result.
    Written(Result<usize, IoError>),
}

/// The bytes that a socket accepted, and those that are still pending.
pub struct OutputState {
    /// The bytes that the socket accepted.
    pub sent: Seq<u8>,
    /// The bytes that are still to be written.
    pub pending: Seq<u8>,
}

/// All ciphertext that was queued.
pub open spec fn queued_bytes(events: Seq<OutputEvent>) -> Seq<u8>
    decreases events.len(),
{
    if events.len() == 0 {
        Seq::empty()
    } else {
        match events.last() {
            OutputEvent::Queued(bytes) => queued_bytes(events.drop_last()) + bytes,
            OutputEvent::Written(_) => queued_bytes(events.drop_last()),
        }
    }
}

/// The state after `events`, from nothing.
pub open spec fn output_after(events: Seq<OutputEvent>) -> OutputState
    decreases events.len(),
{
    if events.len() == 0 {
        OutputState { sent: Seq::empty(), pending: Seq::empty() }
    } else {
        let before = output_after(events.drop_last());
        match events.last() {
            OutputEvent::Queued(bytes) => OutputState { pending: before.pending + bytes, ..before },
            OutputEvent::Written(result) => {
                let n = accepted(before.pending.len(), result) as int;
                OutputState {
                    sent: before.sent + before.pending.take(n),
                    pending: before.pending.skip(n),
                }
            },
        }
    }
}

/// Whatever the results of the writes, no byte is lost, repeated or moved: what was sent, followed
/// by what is pending, is what was queued.
pub proof fn law_output_keeps_every_byte(events: Seq<OutputEvent>)
    ensures
        output_after(events).sent + output_after(events).pending == queued_bytes(events),
    decreases events.len(),
{
    if events.len() > 0 {
        let before = output_after(events.drop_last());
        law_output_keeps_every_byte(events.drop_last());
        match events.last() {
            OutputEvent::Queued(bytes) => {
                assert(before.sent + (before.pending + bytes) =~= (before.sent + before.pending)
                    + bytes);
            },
            OutputEvent::Written(result) => {
                let n = accepted(before.pending.len(), result) as int;
                assert((before.sent + before.pending.take(n)) + before.pending.skip(n)
                    =~= before.sent + before.pending);
            },
        }
    }
}

/// Once a write is done, all that was queued is sent; as long as it is not, something is pending
/// to write.
pub proof fn law_done_means_all_sent(events: Seq<OutputEvent>)
    ensures
        write_or_done(output_after(events).pending.len()) is Done <==> output_after(events).sent
            == queued_bytes(events),
{
    law_output_keeps_every_byte(events);
    let state = output_after(events);
    if state.pending.len() == 0 {
        assert(state.sent + state.pending =~= state.sent);
    } else {
        assert((state.sent + state.pending).len() > state.sent.len());
    }
}

/// What a socket accepted leaves the queue from its front, and nothing else does: as many bytes as
/// it says, or all of them where it says more, and none where it fails.
pub proof fn law_accepted_bytes_leave_the_queue(pending: Seq<u8>, n: usize, e: IoError)
    ensures
        n <= pending.len() ==> accepted(pending.len(), Ok(n)) == n,
        n >= pending.len() ==> accepted(pending.len(), Ok(n)) == pending.len(),
        accepted(pending.len(), Err(e)) == 0,
{
}

/// A write goes on while bytes are pending and is done once none is; it fails where the socket
/// accepted nothing or failed with anything but an interruption, with the error of the socket.
pub proof fn law_output_steps_follow_the_socket(pending: nat, n: usize, e: IoError)
    ensures
        write_or_done(pending) is Write <==> pending > 0,
        write_or_done(pending) is Done <==> pending == 0,
        n > 0 && pending > 0 ==> step_after_write(pending, Ok(n)) is Write,
        n > 0 && pending == 0 ==> step_after_write(pending, Ok(n)) is Done,
        step_after_write(pending, Ok(0)) matches OutputStep::Fail(zero) && zero.kind
            == ErrorKind::WriteZero && zero.cause is Kind,
        e.kind == ErrorKind::Interrupted ==> step_after_write(pending, Err(e)) is Write,
        e.kind != ErrorKind::Interrupted ==> step_after_write(pending, Err(e)) == OutputStep::Fail(
            e,
        ),
{
}

} // verus!
