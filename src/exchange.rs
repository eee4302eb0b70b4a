use vstd::prelude::*;

use crate::check::AuthError;

verus! {

/// Sends of one exchange, the first included.
pub const MAX_RESPONSE_ATTEMPTS: u32 = 3;

/// What the transport reported for the last send.
#[derive(Clone, Copy, Debug, PartialEq, Eq, Structural)]
pub enum Event {
    /// The packet could not be sent.
    SendFailed,
    /// No reply came: a timeout or an error of the socket.
    ReceiveFailed,
    /// A reply came.
    Replied,
}

/// What to do next in an exchange.
#[derive(Clone, Copy, Debug, PartialEq, Eq, Structural)]
pub enum Action {
    /// Send the packet (again) and wait for the reply.
    Send,
    /// Stop and decode the reply; whatever it decodes to, the exchange is over.
    Deliver,
    /// Give up with this error.
    Fail(AuthError),
}

/// The next send from a state in which `attempts` sends were made, and the count after it;
/// or the end of the exchange once the budget is spent.
pub open spec fn next_spec(attempts: nat) -> (nat, Action) {
    if attempts < MAX_RESPONSE_ATTEMPTS {
        ((attempts + 1) as nat, Action::Send)
    } else {
        (attempts, Action::Fail(AuthError::TransportExhausted))
    }
}

/// The step after `attempts` sends when the last one ended with `ev`: a reply ends the
/// exchange, a failed send or receive leads to the next send.
pub open spec fn step_spec(attempts: nat, ev: Event) -> (nat, Action) {
    match ev {
        Event::Replied => (attempts, Action::Deliver),
        _ => next_spec(attempts),
    }
}

/// How send number `attempts` (counted from one) ends when the transport delivers a reply
/// to it exactly when `delivered[attempts - 1]` holds.
pub open spec fn outcome_of(delivered: Seq<bool>, attempts: nat) -> Event {
    if 1 <= attempts <= delivered.len() && delivered[attempts - 1] {
        Event::Replied
    } else {
        Event::ReceiveFailed
    }
}

/// The sends made and the outcome of an exchange that stands at `action` after `attempts`
/// sends, each step taken by `step_spec`.
pub open spec fn run_from(attempts: nat, action: Action, delivered: Seq<bool>) -> (
    nat,
    Result<(), AuthError>,
)
    decreases MAX_RESPONSE_ATTEMPTS - attempts,
{
    match action {
        Action::Fail(e) => (attempts, Err(e)),
        Action::Deliver => (attempts, Ok(())),
        Action::Send => {
            let (next, then) = step_spec(attempts, outcome_of(delivered, attempts));
            match then {
                Action::Fail(e) => (next, Err(e)),
                Action::Deliver => (next, Ok(())),
                Action::Send => run_from(next, then, delivered),
            }
        },
    }
}

/// A whole exchange, from its first send.
pub open spec fn run_spec(delivered: Seq<bool>) -> (nat, Result<(), AuthError>) {
    run_from(next_spec(0).0, next_spec(0).1, delivered)
}

/// The send-and-receive loop of one exchange. Only a failed transport leads to another send;
/// a reply, whatever it decodes to, ends the exchange.
pub struct RetryingExchange {
    attempts: u32,
}

impl RetryingExchange {
    pub closed spec fn spec_attempts(&self) -> nat {
        self.attempts as nat
    }

    pub open spec fn wf(&self) -> bool {
        self.spec_attempts() <= MAX_RESPONSE_ATTEMPTS
    }

    pub fn new() -> (r: Self)
        ensures
            r.spec_attempts() == 0,
            r.wf(),
    {
        RetryingExchange { attempts: 0 }
    }

    /// The sends made so far.
    pub fn attempts(&self) -> (r: u32)
        ensures
            r == self.spec_attempts(),
    {
        self.attempts
    }

    fn next_action(&mut self) -> (r: Action)
        requires
            old(self).wf(),
        ensures
            final(self).wf(),
            (final(self).spec_attempts(), r) == next_spec(old(self).spec_attempts()),
    {
        if self.attempts < MAX_RESPONSE_ATTEMPTS {
            self.attempts = self.attempts + 1;
            Action::Send
        } else {
            Action::Fail(AuthError::TransportExhausted)
        }
    }

    /// The action before the first send.
    pub fn begin(&mut self) -> (r: Action)
        requires
            old(self).wf(),
        ensures
            final(self).wf(),
            (final(self).spec_attempts(), r) == next_spec(old(self).spec_attempts()),
    {
        self.next_action()
    }

    /// The action after the last send ended with `ev`.
    pub fn on_event(&mut self, ev: Event) -> (r: Action)
        requires
            old(self).wf(),
        ensures
            final(self).wf(),
            (final(self).spec_attempts(), r) == step_spec(old(self).spec_attempts(), ev),
    {
        match ev {
            Event::Replied => Action::Deliver,
            Event::SendFailed | Event::ReceiveFailed => self.next_action(),
        }
    }
}

/// An exchange never sends more than its budget, and succeeds exactly when one of the sends
/// within the budget gets a reply; then it stops at the first such send. When none does, it
/// fails with `TransportExhausted` after the whole budget.
pub proof fn lemma_retry_budget(delivered: Seq<bool>)
    ensures
        run_spec(delivered).0 <= MAX_RESPONSE_ATTEMPTS,
        run_spec(delivered).1 is Ok <==> exists|i: int|
            0 <= i < MAX_RESPONSE_ATTEMPTS && i < delivered.len() && delivered[i],
        forall|i: int|
            0 <= i < MAX_RESPONSE_ATTEMPTS && i < delivered.len() && delivered[i] && (forall|
                j: int,
            | 0 <= j < i ==> !delivered[j]) ==> run_spec(delivered) == (
                (i + 1) as nat,
                Ok::<(), AuthError>(()),
            ),
        (forall|i: int| 0 <= i < MAX_RESPONSE_ATTEMPTS && i < delivered.len() ==> !delivered[i])
            ==> run_spec(delivered) == (
            MAX_RESPONSE_ATTEMPTS as nat,
            Err::<(), AuthError>(AuthError::TransportExhausted),
        ),
{
    reveal_with_fuel(run_from, 4);
}

} // verus!
