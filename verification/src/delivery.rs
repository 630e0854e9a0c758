//! One delivery to the webhook, as a state machine. Whoever drives it does
//! what the state asks for (post the message, or sleep) and reports what
//! came of it; the machine says what is next. A delivery that is told to
//! wait is tried again for as long as the webhook says so.

use vstd::prelude::*;
use crate::error::DeliveryError;
use crate::retry_after::RetryAfter;

verus! {

/// An HTTP status counts as success exactly when it lies in `200..=299`.
pub open spec fn is_success_status(status: u16) -> bool {
    200 <= status <= 299
}

/// What the webhook answered to one POST: the HTTP status, and the value of
/// the `Retry-After` header where the answer has one that reads as a
/// number.
#[derive(Debug, Clone, Copy, PartialEq, Eq)]
pub struct Reply {
    pub status: u16,
    pub retry_after: Option<RetryAfter>,
}

/// What came of one POST.
#[derive(Debug, Clone, Copy, PartialEq, Eq)]
pub enum PostOutcome {
    /// The webhook answered.
    Replied(Reply),
    /// The network failed before an answer came.
    TransportFailed,
}

/// What the driver reports to the machine.
#[derive(Debug, Clone, Copy, PartialEq, Eq)]
pub enum DeliveryEvent {
    /// The message was posted, with this outcome.
    Posted(PostOutcome),
    /// The sleep that was asked for is over.
    Woke,
}

/// Where a delivery stands.
#[derive(Debug, Clone, Copy, PartialEq, Eq)]
pub enum DeliveryState {
    /// The message is to be posted.
    Sending,
    /// The webhook limited the rate: the delivery is to wait this many
    /// milliseconds and then to post again.
    Sleeping(u64),
    /// The webhook took the message. The delivery is over.
    Accepted,
    /// The delivery failed, and is over.
    Failed(DeliveryError),
}

/// What the driver is to do next.
#[derive(Debug, Clone, Copy, PartialEq, Eq)]
pub enum DeliveryAction {
    /// Post the message, in a request of its own, and report `Posted`.
    Post,
    /// Sleep this many milliseconds and report `Woke`.
    Sleep(u64),
    /// Stop: the delivery ended with this result.
    Finish(Result<(), DeliveryError>),
}

/// The milliseconds that a `Retry-After` header asks to wait, where the
/// answer has the header and its value is usable.
pub open spec fn asked_delay(retry_after: Option<RetryAfter>) -> Option<u64> {
    match retry_after {
        Some(value) => value.delay_spec(),
        None => None,
    }
}

/// Where a delivery stands after the webhook's answer: a success status
/// ends it; any other status makes it wait where the answer asks for that
/// with a usable `Retry-After`, and fails it with the status otherwise.
pub open spec fn reply_verdict(reply: Reply) -> DeliveryState {
    if is_success_status(reply.status) {
        DeliveryState::Accepted
    } else {
        match asked_delay(reply.retry_after) {
            Some(millis) => DeliveryState::Sleeping(millis),
            None => DeliveryState::Failed(DeliveryError::ProtocolError(reply.status)),
        }
    }
}

/// Where a delivery stands after one POST.
pub open spec fn after_post(outcome: PostOutcome) -> DeliveryState {
    match outcome {
        PostOutcome::Replied(reply) => reply_verdict(reply),
        PostOutcome::TransportFailed => DeliveryState::Failed(DeliveryError::TransportError),
    }
}

impl DeliveryState {
    /// The delivery is over.
    pub open spec fn is_terminal(self) -> bool {
        self is Accepted || self is Failed
    }

    /// The state after an event. An event that does not answer what the
    /// state asks for changes nothing.
    pub open spec fn next(self, event: DeliveryEvent) -> DeliveryState {
        match (self, event) {
            (DeliveryState::Sending, DeliveryEvent::Posted(outcome)) => after_post(outcome),
            (DeliveryState::Sleeping(_), DeliveryEvent::Woke) => DeliveryState::Sending,
            _ => self,
        }
    }

    /// What the state asks the driver to do.
    pub open spec fn pending(self) -> DeliveryAction {
        match self {
            DeliveryState::Sending => DeliveryAction::Post,
            DeliveryState::Sleeping(millis) => DeliveryAction::Sleep(millis),
            DeliveryState::Accepted => DeliveryAction::Finish(Ok(())),
            DeliveryState::Failed(error) => DeliveryAction::Finish(Err(error)),
        }
    }

    /// The result of the delivery, once it is over.
    pub open spec fn result(self) -> Option<Result<(), DeliveryError>> {
        match self {
            DeliveryState::Accepted => Some(Ok(())),
            DeliveryState::Failed(error) => Some(Err(error)),
            _ => None,
        }
    }

    /// A delivery begins by posting.
    pub fn start() -> (state: Self)
        ensures
            state == DeliveryState::Sending,
    {
        DeliveryState::Sending
    }

    /// What the driver is to do next.
    pub fn action(&self) -> (action: DeliveryAction)
        ensures
            action == self.pending(),
    {
        match self {
            DeliveryState::Sending => DeliveryAction::Post,
            DeliveryState::Sleeping(millis) => DeliveryAction::Sleep(*millis),
            DeliveryState::Accepted => DeliveryAction::Finish(Ok(())),
            DeliveryState::Failed(error) => DeliveryAction::Finish(Err(*error)),
        }
    }

    /// The result of the delivery, once it is over.
    pub fn outcome(&self) -> (outcome: Option<Result<(), DeliveryError>>)
        ensures
            outcome == self.result(),
            outcome is Some <==> self.is_terminal(),
    {
        match self {
            DeliveryState::Accepted => Some(Ok(())),
            DeliveryState::Failed(error) => Some(Err(*error)),
            _ => None,
        }
    }

    /// The state after the driver's report.
    pub fn advance(self, event: DeliveryEvent) -> (next: Self)
        ensures
            next == self.next(event),
    {
        match self {
            DeliveryState::Sending => match event {
                DeliveryEvent::Posted(outcome) => judge(outcome),
                DeliveryEvent::Woke => self,
            },
            DeliveryState::Sleeping(_) => match event {
                DeliveryEvent::Woke => DeliveryState::Sending,
                DeliveryEvent::Posted(_) => self,
            },
            _ => self,
        }
    }
}

/// Where a delivery stands after one POST.
pub fn judge(outcome: PostOutcome) -> (state: DeliveryState)
    ensures
        state == after_post(outcome),
{
    match outcome {
        PostOutcome::TransportFailed => DeliveryState::Failed(DeliveryError::TransportError),
        PostOutcome::Replied(reply) => {
            if 200 <= reply.status && reply.status <= 299 {
                DeliveryState::Accepted
            } else {
                let delay = match reply.retry_after {
                    Some(value) => value.delay_ms(),
                    None => None,
                };
                match delay {
                    Some(millis) => DeliveryState::Sleeping(millis),
                    None => DeliveryState::Failed(DeliveryError::ProtocolError(reply.status)),
                }
            }
        },
    }
}

/// What a delivery did: where it stands, how often it posted, and how long
/// it slept each time it was told to wait.
pub struct TraceView {
    pub state: DeliveryState,
    pub calls: int,
    pub sleeps: Seq<u64>,
}

/// What a delivery did.
#[derive(Debug, Clone, PartialEq, Eq)]
pub struct DeliveryTrace {
    pub state: DeliveryState,
    pub calls: usize,
    pub sleeps: Vec<u64>,
}

impl DeliveryTrace {
    pub open spec fn view(&self) -> TraceView {
        TraceView { state: self.state, calls: self.calls as int, sleeps: self.sleeps@ }
    }
}

/// A delivery that has posted `calls` times and slept `sleeps`, and is to
/// post next, against a webhook that answers as `script` says, one entry for
/// each POST. The delivery goes on until it is over or the script is used
/// up; in that case it is left in `Sending`.
pub open spec fn replay_from(script: Seq<PostOutcome>, calls: int, sleeps: Seq<u64>) -> TraceView
    decreases script.len() - calls,
{
    if calls < 0 || calls >= script.len() {
        TraceView { state: DeliveryState::Sending, calls, sleeps }
    } else {
        match after_post(script[calls]) {
            DeliveryState::Sleeping(millis) => replay_from(script, calls + 1, sleeps.push(millis)),
            state => TraceView { state, calls: calls + 1, sleeps },
        }
    }
}

/// A whole delivery against a webhook that answers as `script` says.
pub open spec fn replay_spec(script: Seq<PostOutcome>) -> TraceView {
    replay_from(script, 0, Seq::empty())
}

/// Runs a delivery against a webhook that answers as `script` says, one
/// entry for each POST: the machine is driven as a real driver drives it,
/// but nothing is posted and nobody sleeps.
pub fn replay(script: &Vec<PostOutcome>) -> (trace: DeliveryTrace)
    ensures
        trace@ == replay_spec(script@),
{
    let mut state = DeliveryState::start();
    let mut calls: usize = 0;
    let mut sleeps: Vec<u64> = Vec::new();
    loop
        invariant_except_break
            calls <= script.len(),
            !state.is_terminal(),
            state is Sending ==> replay_spec(script@) == replay_from(
                script@,
                calls as int,
                sleeps@,
            ),
            state matches DeliveryState::Sleeping(millis) ==> replay_spec(script@) == replay_from(
                script@,
                calls as int,
                sleeps@.push(millis),
            ),
        ensures
            replay_spec(script@) == (TraceView { state, calls: calls as int, sleeps: sleeps@ }),
        decreases script.len() - calls, (if state is Sleeping { 1int } else { 0int }),
    {
        match state.action() {
            DeliveryAction::Post => {
                if calls >= script.len() {
                    break ;
                }
                state = state.advance(DeliveryEvent::Posted(script[calls]));
                calls += 1;
                if state.outcome().is_some() {
                    break ;
                }
            },
            DeliveryAction::Sleep(millis) => {
                sleeps.push(millis);
                state = state.advance(DeliveryEvent::Woke);
            },
            DeliveryAction::Finish(_) => {
                break ;
            },
        }
    }
    DeliveryTrace { state, calls, sleeps }
}

/// Once a delivery is over, no event changes it.
pub proof fn lemma_terminal_state_stays(state: DeliveryState, event: DeliveryEvent)
    requires
        state.is_terminal(),
    ensures
        state.next(event) == state,
        state.pending() is Finish,
{
}

/// A delivery whose first POST is answered with a success status is
/// accepted after that one call, without any sleep.
pub proof fn lemma_success_ends_after_one_call(script: Seq<PostOutcome>, reply: Reply)
    requires
        script.len() >= 1,
        script[0] == PostOutcome::Replied(reply),
        is_success_status(reply.status),
    ensures
        replay_spec(script) == (TraceView {
            state: DeliveryState::Accepted,
            calls: 1,
            sleeps: Seq::empty(),
        }),
{
}

/// A delivery whose first POST is answered with a failure status and a
/// usable `Retry-After` sleeps as long as the header says, rounded up, and
/// posts again; where that second POST is answered with a success status,
/// the delivery is accepted after two calls.
pub proof fn lemma_rate_limited_then_accepted(
    script: Seq<PostOutcome>,
    first: Reply,
    second: Reply,
    millis: u64,
)
    requires
        script.len() >= 2,
        script[0] == PostOutcome::Replied(first),
        script[1] == PostOutcome::Replied(second),
        !is_success_status(first.status),
        asked_delay(first.retry_after) == Some(millis),
        is_success_status(second.status),
    ensures
        replay_spec(script) == (TraceView {
            state: DeliveryState::Accepted,
            calls: 2,
            sleeps: seq![millis],
        }),
{
    reveal_with_fuel(replay_from, 2);
    assert(Seq::<u64>::empty().push(millis) =~= seq![millis]);
}

/// A delivery whose first POST is answered with a failure status and no
/// usable `Retry-After` fails with that status after that one call, without
/// any sleep.
pub proof fn lemma_failure_without_retry_after(script: Seq<PostOutcome>, reply: Reply)
    requires
        script.len() >= 1,
        script[0] == PostOutcome::Replied(reply),
        !is_success_status(reply.status),
        asked_delay(reply.retry_after) is None,
    ensures
        replay_spec(script) == (TraceView {
            state: DeliveryState::Failed(DeliveryError::ProtocolError(reply.status)),
            calls: 1,
            sleeps: Seq::empty(),
        }),
{
}

} // verus!
