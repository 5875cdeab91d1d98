//! Connecting to one of several addresses within a total timeout.
//!
//! The addresses are tried one after the other. Half of the timeout goes to the first, a quarter
//! to the second and so on, and what is then left to the last. Halving a timeout and connecting
//! are done outside: [`ConnectAttempts`] says what to do next, and is told what came of it.

use vstd::prelude::*;

use crate::text::push_text;
use crate::transport::deadline::Duration;
use crate::transport::io::{ErrorKind, IoError};

verus! {

/// What to do next.
#[derive(Debug, Clone, Copy, PartialEq, Eq)]
pub enum AttemptAction {
    /// Halve this timeout.
    Halve(Duration),
    /// Try to connect to the address of this index within this timeout.
    Connect {
        /// The index of the address.
        index: usize,
        /// The time for the attempt.
        timeout: Duration,
    },
    /// Give up: no address is left.
    GiveUp,
}

/// The attempts to connect to one of several addresses.
#[derive(Debug)]
pub struct ConnectAttempts {
    /// The number of addresses.
    pub count: usize,
    /// The index of the address whose turn it is.
    pub index: usize,
    /// The time for the attempt whose turn it is, before it is halved.
    pub timeout: Duration,
    /// The error of the attempt before, if there was one.
    pub last_err: Option<IoError>,
}

impl ConnectAttempts {
    /// Before any attempt.
    pub open spec fn first(count: usize, timeout: Duration) -> ConnectAttempts {
        ConnectAttempts { count, index: 0, timeout, last_err: None }
    }

    /// What to do when the turn comes to an address: the last one gets all that is left, and every
    /// other one half of it.
    pub open spec fn turn(self) -> AttemptAction {
        if self.index >= self.count {
            AttemptAction::GiveUp
        } else if self.index + 1 < self.count {
            AttemptAction::Halve(self.timeout)
        } else {
            AttemptAction::Connect { index: self.index, timeout: self.timeout }
        }
    }

    /// With the timeout halved.
    pub open spec fn with_half(self, half: Duration) -> ConnectAttempts {
        ConnectAttempts { timeout: half, ..self }
    }

    /// The attempt at the address whose turn it is, within `timeout`.
    pub open spec fn attempt_within(self, timeout: Duration) -> AttemptAction {
        AttemptAction::Connect { index: self.index, timeout }
    }

    /// With the attempt failed.
    pub open spec fn with_failure(self, err: IoError) -> ConnectAttempts {
        ConnectAttempts { index: (self.index + 1) as usize, last_err: Some(err), ..self }
    }

    /// Starts on `count` addresses with a total of `timeout`, and says what to do first.
    pub fn start(count: usize, timeout: Duration) -> (r: (ConnectAttempts, AttemptAction))
        ensures
            r.0 == ConnectAttempts::first(count, timeout),
            r.1 == r.0.turn(),
    {
        let attempts = ConnectAttempts { count, index: 0, timeout, last_err: None };
        let action = attempts.take_turn();
        (attempts, action)
    }

    /// What to do when the turn comes to an address.
    fn take_turn(&self) -> (r: AttemptAction)
        ensures
            r == self.turn(),
    {
        if self.index >= self.count {
            AttemptAction::GiveUp
        } else if self.index < self.count - 1 {
            AttemptAction::Halve(self.timeout)
        } else {
            AttemptAction::Connect { index: self.index, timeout: self.timeout }
        }
    }

    /// The timeout was halved: connect within the half.
    pub fn halved(self, half: Duration) -> (r: (ConnectAttempts, AttemptAction))
        requires
            self.turn() is Halve,
        ensures
            r.0 == self.with_half(half),
            r.1 == self.attempt_within(half),
            r.1 == (AttemptAction::Connect { index: self.index, timeout: half }),
    {
        let index: usize = self.index;
        (
            ConnectAttempts { timeout: half, ..self },
            AttemptAction::Connect { index, timeout: half },
        )
    }

    /// The attempt failed: the turn comes to the next address.
    pub fn failed(self, err: IoError) -> (r: (ConnectAttempts, AttemptAction))
        requires
            self.index < self.count,
        ensures
            r.0 == self.with_failure(err),
            r.1 == r.0.turn(),
    {
        let attempts = ConnectAttempts {
            count: self.count,
            index: self.index + 1,
            timeout: self.timeout,
            last_err: Some(err),
        };
        let action = attempts.take_turn();
        (attempts, action)
    }

    /// The error to give up with: that of the last attempt, or that there was none to make.
    pub fn give_up(self) -> (r: IoError)
        ensures
            match self.last_err {
                Some(err) => r == err,
                None => r.says(ErrorKind::InvalidInput, "could not resolve to any addresses"@),
            },
    {
        match self.last_err {
            Some(err) => err,
            None => {
                let mut message = String::new();
                push_text(&mut message, "could not resolve to any addresses");
                assert(message@ =~= "could not resolve to any addresses"@);
                IoError::message(ErrorKind::InvalidInput, message)
            },
        }
    }
}

// ---------------------------------------------------------------------------------------------
// Laws
// ---------------------------------------------------------------------------------------------
/// `timeout`, halved `n` times by `half`.
pub open spec fn halved_times(half: spec_fn(Duration) -> Duration, timeout: Duration, n: nat) -> Duration
    decreases n,
{
    if n == 0 {
        timeout
    } else {
        half(halved_times(half, timeout, (n - 1) as nat))
    }
}

/// The time for the attempt at address `i` of `count`: each but the last halves what is there.
pub open spec fn attempt_timeout(
    half: spec_fn(Duration) -> Duration,
    timeout: Duration,
    count: nat,
    i: nat,
) -> Duration {
    if i + 1 < count {
        halved_times(half, timeout, i + 1)
    } else {
        halved_times(half, timeout, i)
    }
}

/// The state in which the attempt is made whose turn it is.
pub open spec fn attempting(
    half: spec_fn(Duration) -> Duration,
    attempts: ConnectAttempts,
) -> ConnectAttempts {
    match attempts.turn() {
        AttemptAction::Halve(timeout) => attempts.with_half(half(timeout)),
        _ => attempts,
    }
}

/// The state after attempts that failed with `errs`.
pub open spec fn after_failures(
    half: spec_fn(Duration) -> Duration,
    count: usize,
    timeout: Duration,
    errs: Seq<IoError>,
) -> ConnectAttempts
    decreases errs.len(),
{
    if errs.len() == 0 {
        ConnectAttempts::first(count, timeout)
    } else {
        attempting(half, after_failures(half, count, timeout, errs.drop_last())).with_failure(
            errs.last(),
        )
    }
}

/// The times for the attempts at the first `n` of `count` addresses, taken together.
pub open spec fn total_timeout(
    half: spec_fn(Duration) -> Duration,
    timeout: Duration,
    count: nat,
    n: nat,
) -> nat
    decreases n,
{
    if n == 0 {
        0
    } else {
        total_timeout(half, timeout, count, (n - 1) as nat) + attempt_timeout(
            half,
            timeout,
            count,
            (n - 1) as nat,
        ).nanos as nat
    }
}

/// The addresses are tried in their order, each once, until none is left; the error to give up
/// with is then that of the last attempt.
pub proof fn law_addresses_are_tried_in_order(
    half: spec_fn(Duration) -> Duration,
    count: usize,
    timeout: Duration,
    errs: Seq<IoError>,
)
    requires
        errs.len() <= count,
    ensures
        ({
            let attempts = after_failures(half, count, timeout, errs);
            let tries = attempting(half, attempts);
            &&& attempts.count == count
            &&& attempts.index == errs.len()
            &&& attempts.last_err == (if errs.len() == 0 {
                None
            } else {
                Some(errs.last())
            })
            &&& errs.len() < count ==> attempts.timeout == halved_times(half, timeout, errs.len())
            &&& errs.len() < count ==> tries.index == errs.len() && tries.timeout
                == attempt_timeout(half, timeout, count as nat, errs.len())
            &&& attempts.turn() is GiveUp <==> errs.len() == count
        }),
    decreases errs.len(),
{
    if errs.len() > 0 {
        law_addresses_are_tried_in_order(half, count, timeout, errs.drop_last());
    }
}

/// Where no half is more than half, all attempts together take no longer than the total timeout.
pub proof fn law_attempts_keep_the_total_timeout(
    half: spec_fn(Duration) -> Duration,
    timeout: Duration,
    count: nat,
    n: nat,
)
    requires
        forall|t: Duration| 2 * (#[trigger] half(t)).nanos <= t.nanos,
        n <= count,
    ensures
        total_timeout(half, timeout, count, n) <= timeout.nanos,
        n < count ==> total_timeout(half, timeout, count, n) + halved_times(
            half,
            timeout,
            n,
        ).nanos <= timeout.nanos,
    decreases n,
{
    if n > 0 {
        law_attempts_keep_the_total_timeout(half, timeout, count, (n - 1) as nat);
    }
}

/// The attempt that is made when the turn comes to an address, once its timeout is halved where
/// that is to be done; or giving up.
pub open spec fn attempt_made(
    half: spec_fn(Duration) -> Duration,
    attempts: ConnectAttempts,
) -> AttemptAction {
    match attempts.turn() {
        AttemptAction::Halve(timeout) => attempts.attempt_within(half(timeout)),
        action => action,
    }
}

/// After `k` attempts that failed, the attempt that is made is at the address of index `k`, for the
/// last address as for the others, within its share of the timeout; after as many failures as there
/// are addresses, no attempt is made.
pub proof fn law_every_address_gets_its_attempt(
    half: spec_fn(Duration) -> Duration,
    count: usize,
    timeout: Duration,
    errs: Seq<IoError>,
)
    requires
        errs.len() <= count,
    ensures
        errs.len() < count ==> attempt_made(half, after_failures(half, count, timeout, errs)) == (
        AttemptAction::Connect {
            index: errs.len() as usize,
            timeout: attempt_timeout(half, timeout, count as nat, errs.len()),
        }),
        errs.len() == count ==> attempt_made(half, after_failures(half, count, timeout, errs))
            is GiveUp,
{
    law_addresses_are_tried_in_order(half, count, timeout, errs);
}

/// How two attempts in a row relate: the first gets half of the total where there is a second
/// address; each further one goes to the next address, and gets half of what the one before had,
/// but the last one gets just as much as the one before it. A single address gets all.
pub proof fn law_each_attempt_halves_the_one_before(
    half: spec_fn(Duration) -> Duration,
    count: usize,
    timeout: Duration,
    errs: Seq<IoError>,
)
    requires
        errs.len() < count,
    ensures
        ({
            let made = attempt_made(half, after_failures(half, count, timeout, errs));
            let k = errs.len();
            if k == 0 {
                made == (AttemptAction::Connect {
                    index: 0,
                    timeout: if count == 1 {
                        timeout
                    } else {
                        half(timeout)
                    },
                })
            } else {
                attempt_made(half, after_failures(half, count, timeout, errs.drop_last())) matches
                    AttemptAction::Connect { index, timeout: before } && index == k - 1 && made == (
                AttemptAction::Connect {
                    index: k as usize,
                    timeout: if k + 1 < count {
                        half(before)
                    } else {
                        before
                    },
                })
            }
        }),
{
    law_every_address_gets_its_attempt(half, count, timeout, errs);
    reveal_with_fuel(halved_times, 2);
    if errs.len() > 0 {
        law_every_address_gets_its_attempt(half, count, timeout, errs.drop_last());
    }
}

} // verus!
