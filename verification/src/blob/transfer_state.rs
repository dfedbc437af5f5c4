//! The transfer lifecycle as a state machine that refuses illegal events.
use vstd::prelude::*;

verus! {

/// Where a transfer stands.
#[derive(Debug, Clone, Copy, PartialEq, Eq, Structural)]
pub enum TransferState {
    Offered,
    Accepted,
    InProgress,
    Paused,
    Completed,
    Failed,
    Cancelled,
}

/// What can happen to a transfer.
#[derive(Debug, Clone, Copy, PartialEq, Eq, Structural)]
pub enum TransferEvent {
    Accept,
    Decline,
    Start,
    Pause,
    Resume,
    ChunksComplete,
    Fail,
    Cancel,
}

/// An event that is not valid in the state it arrived in.
#[derive(Debug, Clone, Copy, PartialEq, Eq, Structural)]
pub struct InvalidTransition {
    pub state: TransferState,
    pub event: TransferEvent,
}

/// The transition table: offer, accept, transfer, complete, with pause,
/// cancel and failure from the states where they make sense. `None` for
/// every other pair.
pub open spec fn spec_next(state: TransferState, event: TransferEvent) -> Option<TransferState> {
    match (state, event) {
        (TransferState::Offered, TransferEvent::Accept) => Some(TransferState::Accepted),
        (TransferState::Offered, TransferEvent::Decline) => Some(TransferState::Cancelled),
        (TransferState::Offered, TransferEvent::Cancel) => Some(TransferState::Cancelled),
        (TransferState::Accepted, TransferEvent::Start) => Some(TransferState::InProgress),
        (TransferState::Accepted, TransferEvent::Cancel) => Some(TransferState::Cancelled),
        (TransferState::InProgress, TransferEvent::Pause) => Some(TransferState::Paused),
        (TransferState::InProgress, TransferEvent::ChunksComplete) => Some(TransferState::Completed),
        (TransferState::InProgress, TransferEvent::Fail) => Some(TransferState::Failed),
        (TransferState::InProgress, TransferEvent::Cancel) => Some(TransferState::Cancelled),
        (TransferState::Paused, TransferEvent::Resume) => Some(TransferState::InProgress),
        (TransferState::Paused, TransferEvent::Cancel) => Some(TransferState::Cancelled),
        (TransferState::Paused, TransferEvent::Fail) => Some(TransferState::Failed),
        _ => None,
    }
}

/// Completed, failed and cancelled transfers are over.
pub open spec fn spec_is_terminal(state: TransferState) -> bool {
    state == TransferState::Completed || state == TransferState::Failed || state == TransferState::Cancelled
}

impl TransferState {
    /// The state `event` leads to, or the refused pair.
    pub fn transition(self, event: TransferEvent) -> (r: Result<TransferState, InvalidTransition>)
        ensures
            match spec_next(self, event) {
                Some(next) => r == Ok::<TransferState, InvalidTransition>(next),
                None => r == Err::<TransferState, InvalidTransition>(InvalidTransition { state: self, event }),
            },
    {
        let next = match (self, event) {
            (TransferState::Offered, TransferEvent::Accept) => TransferState::Accepted,
            (TransferState::Offered, TransferEvent::Decline) => TransferState::Cancelled,
            (TransferState::Offered, TransferEvent::Cancel) => TransferState::Cancelled,
            (TransferState::Accepted, TransferEvent::Start) => TransferState::InProgress,
            (TransferState::Accepted, TransferEvent::Cancel) => TransferState::Cancelled,
            (TransferState::InProgress, TransferEvent::Pause) => TransferState::Paused,
            (TransferState::InProgress, TransferEvent::ChunksComplete) => TransferState::Completed,
            (TransferState::InProgress, TransferEvent::Fail) => TransferState::Failed,
            (TransferState::InProgress, TransferEvent::Cancel) => TransferState::Cancelled,
            (TransferState::Paused, TransferEvent::Resume) => TransferState::InProgress,
            (TransferState::Paused, TransferEvent::Cancel) => TransferState::Cancelled,
            (TransferState::Paused, TransferEvent::Fail) => TransferState::Failed,
            _ => {
                return Err(InvalidTransition { state: self, event });
            },
        };
        Ok(next)
    }

    pub fn is_terminal(self) -> (r: bool)
        ensures
            r == spec_is_terminal(self),
    {
        match self {
            TransferState::Completed | TransferState::Failed | TransferState::Cancelled => true,
            _ => false,
        }
    }
}

/// A state is terminal exactly when no event leads out of it.
pub proof fn lemma_terminal_iff_stuck(state: TransferState)
    ensures
        spec_is_terminal(state) <==> forall|e: TransferEvent| spec_next(state, e) is None,
{
    if !spec_is_terminal(state) {
        match state {
            TransferState::Offered => assert(spec_next(state, TransferEvent::Accept) is Some),
            TransferState::Accepted => assert(spec_next(state, TransferEvent::Start) is Some),
            TransferState::InProgress => assert(spec_next(state, TransferEvent::Pause) is Some),
            TransferState::Paused => assert(spec_next(state, TransferEvent::Resume) is Some),
            _ => {},
        }
    }
}

/// Cancellation is possible from every state that is not terminal.
pub proof fn lemma_cancel_from_live_states(state: TransferState)
    requires
        !spec_is_terminal(state),
    ensures
        spec_next(state, TransferEvent::Cancel) == Some(TransferState::Cancelled),
{
}

/// No event leads back to `Offered`: an offer is made once.
pub proof fn lemma_never_back_to_offered(state: TransferState, event: TransferEvent)
    ensures
        spec_next(state, event) != Some(TransferState::Offered),
{
}

/// Where a transfer goes is decided by the event alone: accepting leads to
/// `Accepted`, starting or resuming to `InProgress`, pausing to `Paused`,
/// the last chunk to `Completed`, a failure to `Failed`, and only a
/// cancel or a decline to `Cancelled`.
pub proof fn lemma_event_decides_target(state: TransferState, event: TransferEvent)
    requires
        spec_next(state, event) is Some,
    ensures
        ({
            let t = spec_next(state, event)->Some_0;
            &&& event == TransferEvent::Accept ==> t == TransferState::Accepted
            &&& (event == TransferEvent::Start || event == TransferEvent::Resume) ==> t == TransferState::InProgress
            &&& event == TransferEvent::Pause ==> t == TransferState::Paused
            &&& event == TransferEvent::ChunksComplete ==> t == TransferState::Completed
            &&& event == TransferEvent::Fail ==> t == TransferState::Failed
            &&& (t == TransferState::Cancelled <==> (event == TransferEvent::Cancel || event == TransferEvent::Decline))
            &&& (t == TransferState::Failed <==> event == TransferEvent::Fail)
        }),
{
}

/// Which events each state takes: an offer is accepted or declined, an
/// accepted transfer starts, a running one pauses, completes or fails, a
/// paused one resumes or fails, and every live state can be cancelled.
pub proof fn lemma_events_taken(state: TransferState, event: TransferEvent)
    ensures
        event == TransferEvent::Accept ==> (spec_next(state, event) is Some <==> state == TransferState::Offered),
        event == TransferEvent::Decline ==> (spec_next(state, event) is Some <==> state == TransferState::Offered),
        event == TransferEvent::Start ==> (spec_next(state, event) is Some <==> state == TransferState::Accepted),
        event == TransferEvent::Pause ==> (spec_next(state, event) is Some <==> state == TransferState::InProgress),
        event == TransferEvent::ChunksComplete ==> (spec_next(state, event) is Some <==> state
            == TransferState::InProgress),
        event == TransferEvent::Resume ==> (spec_next(state, event) is Some <==> state == TransferState::Paused),
        event == TransferEvent::Fail ==> (spec_next(state, event) is Some <==> (state == TransferState::InProgress
            || state == TransferState::Paused)),
        event == TransferEvent::Cancel ==> (spec_next(state, event) is Some <==> !spec_is_terminal(state)),
{
}

} // verus!
