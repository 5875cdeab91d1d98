//! Time limits on connecting.
//!
//! The clock is read outside: a function that depends on the time takes it as an argument.

use vstd::prelude::*;

use crate::text::push_text;
use crate::transport::addr::ServerAddr;
use crate::transport::io::{Cause, ErrorKind, IoError};

verus! {

/// A span of time.
#[derive(Debug, Clone, Copy, PartialEq, Eq)]
pub struct Duration {
    /// Its length in nanoseconds.
    pub nanos: u128,
}

/// A point in time.
#[derive(Debug, Clone, Copy, PartialEq, Eq)]
pub struct Instant {
    /// The nanoseconds since a moment that all points have in common.
    pub nanos: u128,
}

/// The nanoseconds from `now` to `deadline`, none where it has passed.
pub open spec fn time_left(deadline: Instant, now: Instant) -> nat {
    if now.nanos < deadline.nanos {
        (deadline.nanos - now.nanos) as nat
    } else {
        0
    }
}

/// The moment at which `timeout` is over, counted from `now`.
pub fn deadline_after(now: Instant, timeout: Option<Duration>) -> (r: Option<Instant>)
    requires
        timeout matches Some(t) ==> now.nanos + t.nanos <= u128::MAX,
    ensures
        match timeout {
            Some(t) => r matches Some(deadline) && deadline.nanos == now.nanos + t.nanos,
            None => r is None,
        },
{
    match timeout {
        Some(t) => Some(Instant { nanos: now.nanos + t.nanos }),
        None => None,
    }
}

/// Remaining time until `deadline`, or `TimedOut` if it has passed.
pub fn remaining_timeout(deadline: Instant, now: Instant) -> (r: Result<Duration, IoError>)
    ensures
        match r {
            Ok(remaining) => time_left(deadline, now) > 0 && remaining.nanos == time_left(
                deadline,
                now,
            ),
            Err(e) => time_left(deadline, now) == 0 && e.says(
                ErrorKind::TimedOut,
                "TLS handshake timed out"@,
            ),
        },
{
    if now.nanos < deadline.nanos {
        Ok(Duration { nanos: deadline.nanos - now.nanos })
    } else {
        let mut message = String::new();
        push_text(&mut message, "TLS handshake timed out");
        assert(message@ =~= "TLS handshake timed out"@);
        Err(IoError::message(ErrorKind::TimedOut, message))
    }
}

/// What is made of an operation on a socket whose timeouts are set for a deadline.
pub open spec fn with_timeout_told<T>(limited: bool, result: Result<T, IoError>) -> Result<
    T,
    IoError,
> {
    match result {
        Err(e) => if limited && e.kind == ErrorKind::WouldBlock {
            Err(IoError { kind: ErrorKind::TimedOut, cause: Cause::Io(Box::new(e)) })
        } else {
            Err(e)
        },
        Ok(value) => Ok(value),
    }
}

/// Make socket timeouts readable as `TimedOut` rather than as a bare `WouldBlock`.
pub fn map_timeout<T>(deadline: Option<Instant>, result: Result<T, IoError>) -> (r: Result<
    T,
    IoError,
>)
    ensures
        r == with_timeout_told(deadline is Some, result),
{
    match result {
        Err(e) => if e.kind == ErrorKind::WouldBlock && deadline.is_some() {
            Err(IoError::wrapping(ErrorKind::TimedOut, e))
        } else {
            Err(e)
        },
        Ok(value) => Ok(value),
    }
}

/// The input and output of a TLS handshake, under a single deadline for the whole of it.
///
/// Timeouts of a socket apply per operation. Before each one they are set to what is left of the
/// deadline, so that the handshake cannot take several times longer than intended.
#[derive(Debug, Clone, Copy, PartialEq, Eq)]
pub struct HandshakeIo {
    /// When the handshake has to be over, if ever.
    pub deadline: Option<Instant>,
}

impl HandshakeIo {
    /// The timeout to set for reads and writes before the next operation, where one is to be set.
    pub fn apply_deadline(&self, now: Instant) -> (r: Result<Option<Duration>, IoError>)
        ensures
            match self.deadline {
                None => r == Ok::<Option<Duration>, IoError>(None),
                Some(deadline) => match r {
                    Ok(timeout) => time_left(deadline, now) > 0 && (timeout matches Some(t)
                        && t.nanos == time_left(deadline, now)),
                    Err(e) => time_left(deadline, now) == 0 && e.says(
                        ErrorKind::TimedOut,
                        "TLS handshake timed out"@,
                    ),
                },
            },
    {
        match self.deadline {
            None => Ok(None),
            Some(deadline) => match remaining_timeout(deadline, now) {
                Ok(remaining) => Ok(Some(remaining)),
                Err(e) => Err(e),
            },
        }
    }

    /// The result of an operation that `apply_deadline` was called for.
    pub fn finish<T>(&self, result: Result<T, IoError>) -> (r: Result<T, IoError>)
        ensures
            r == with_timeout_told(self.deadline is Some, result),
    {
        map_timeout(self.deadline, result)
    }
}

/// The error of a connection that did not come about in time.
pub fn connection_timed_out(addr: &ServerAddr) -> (r: IoError)
    ensures
        r.says(
            ErrorKind::TimedOut,
            "connection to '"@ + crate::transport::addr::server_addr_text(addr@)
                + "' timed out"@,
        ),
{
    let mut message = String::new();
    push_text(&mut message, "connection to '");
    let text = addr.to_string();
    push_text(&mut message, &text);
    push_text(&mut message, "' timed out");
    assert(message@ =~= "connection to '"@ + crate::transport::addr::server_addr_text(addr@)
        + "' timed out"@);
    IoError::message(ErrorKind::TimedOut, message)
}

// ---------------------------------------------------------------------------------------------
// Laws
// ---------------------------------------------------------------------------------------------
/// One deadline covers all operations of a handshake: at any moment after its start, what is left
/// is the timeout without the time that has gone by, and nothing once that has reached the timeout.
pub proof fn law_one_deadline_for_all(start: Instant, timeout: Duration, deadline: Instant, now: Instant)
    requires
        deadline.nanos == start.nanos + timeout.nanos,
        start.nanos <= now.nanos,
    ensures
        time_left(deadline, now) <= timeout.nanos,
        now.nanos - start.nanos < timeout.nanos ==> time_left(deadline, now) + (now.nanos
            - start.nanos) == timeout.nanos,
        now.nanos - start.nanos >= timeout.nanos <==> time_left(deadline, now) == 0,
{
}

/// What is left of a deadline never grows.
pub proof fn law_time_left_shrinks(deadline: Instant, now: Instant, later: Instant)
    requires
        now.nanos <= later.nanos,
    ensures
        time_left(deadline, later) <= time_left(deadline, now),
{
}

/// Under a deadline a `WouldBlock` is told as `TimedOut`, with the error behind it, and nothing else
/// is touched; without one, nothing is.
pub proof fn law_timeouts_are_told<T>(result: Result<T, IoError>)
    ensures
        with_timeout_told(false, result) == result,
        with_timeout_told(true, result) matches Err(e) ==> e.kind != ErrorKind::WouldBlock,
        result matches Err(e) && e.kind == ErrorKind::WouldBlock ==> (with_timeout_told(
            true,
            result,
        ) matches Err(told) && told.kind == ErrorKind::TimedOut && (told.cause matches Cause::Io(
            inner,
        ) && *inner == result->Err_0)),
        !(result matches Err(e) && e.kind == ErrorKind::WouldBlock) ==> with_timeout_told(
            true,
            result,
        ) == result,
        with_timeout_told(true, with_timeout_told(true, result)) == with_timeout_told(true, result),
{
}

} // verus!
