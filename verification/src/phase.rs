use vstd::prelude::*;
use crate::chain::{Exchange, Exit, Routing};

verus! {

/// The states that a request moves through.
#[derive(Clone, Copy, Debug, PartialEq, Eq, Structural)]
pub enum Phase {
    /// The request came in.
    Received,
    /// The before-interceptors run.
    BeforeChain,
    /// The mount table routes the request.
    Routed,
    /// A handler, or a static root, answered.
    HandlerExecuted,
    /// Nothing answered: no mount or route matched, or the path was
    /// refused. The not-found or forbidden response stands in.
    NotFound,
    /// The after-interceptors run.
    AfterChain,
    /// The response was handed back. Terminal.
    Sent,
    /// An interceptor failed, and its failure was handed back. Terminal.
    Failed,
}

/// What moves a request from one state to the next.
#[derive(Clone, Copy, Debug, PartialEq, Eq, Structural)]
pub enum Event {
    /// The request entered the chain.
    Accepted,
    /// Every before-interceptor let the request pass.
    BeforePassed,
    /// A before-interceptor failed.
    BeforeFailed,
    /// The request was routed to a handler or a static root, which
    /// answered.
    Matched,
    /// The request was routed nowhere.
    Unmatched,
    /// The response entered the after-chain.
    Answered,
    /// Every after-interceptor handed a response on.
    AfterPassed,
    /// An after-interceptor failed.
    AfterFailed,
}

/// The state that `event` leads to from `phase`, if the event can happen
/// there.
pub open spec fn step(phase: Phase, event: Event) -> Option<Phase> {
    match (phase, event) {
        (Phase::Received, Event::Accepted) => Some(Phase::BeforeChain),
        (Phase::BeforeChain, Event::BeforePassed) => Some(Phase::Routed),
        (Phase::BeforeChain, Event::BeforeFailed) => Some(Phase::Failed),
        (Phase::Routed, Event::Matched) => Some(Phase::HandlerExecuted),
        (Phase::Routed, Event::Unmatched) => Some(Phase::NotFound),
        (Phase::HandlerExecuted, Event::Answered) => Some(Phase::AfterChain),
        (Phase::NotFound, Event::Answered) => Some(Phase::AfterChain),
        (Phase::AfterChain, Event::AfterPassed) => Some(Phase::Sent),
        (Phase::AfterChain, Event::AfterFailed) => Some(Phase::Failed),
        _ => None,
    }
}

/// Whether a request rests in `phase`.
pub open spec fn is_terminal(phase: Phase) -> bool {
    phase == Phase::Sent || phase == Phase::Failed
}

/// The states that a request went through, from how it left the chain and
/// how far it was routed.
pub open spec fn phases_of(exit: Exit, routing: Routing) -> Seq<Phase> {
    if exit == Exit::BeforeFailed {
        seq![Phase::Received, Phase::BeforeChain, Phase::Failed]
    } else {
        let answered = if routing == Routing::Handled || routing == Routing::File {
            Phase::HandlerExecuted
        } else {
            Phase::NotFound
        };
        let last = if exit == Exit::Sent {
            Phase::Sent
        } else {
            Phase::Failed
        };
        seq![Phase::Received, Phase::BeforeChain, Phase::Routed, answered, Phase::AfterChain, last]
    }
}

impl Phase {
    /// Moves from this state on `event`; `None` where the event cannot
    /// happen in this state.
    pub fn advance(self, event: Event) -> (next: Option<Phase>)
        ensures
            next == step(self, event),
    {
        match (self, event) {
            (Phase::Received, Event::Accepted) => Some(Phase::BeforeChain),
            (Phase::BeforeChain, Event::BeforePassed) => Some(Phase::Routed),
            (Phase::BeforeChain, Event::BeforeFailed) => Some(Phase::Failed),
            (Phase::Routed, Event::Matched) => Some(Phase::HandlerExecuted),
            (Phase::Routed, Event::Unmatched) => Some(Phase::NotFound),
            (Phase::HandlerExecuted, Event::Answered) => Some(Phase::AfterChain),
            (Phase::NotFound, Event::Answered) => Some(Phase::AfterChain),
            (Phase::AfterChain, Event::AfterPassed) => Some(Phase::Sent),
            (Phase::AfterChain, Event::AfterFailed) => Some(Phase::Failed),
            _ => None,
        }
    }

    /// Whether a request rests in this state.
    pub fn terminal(self) -> (b: bool)
        ensures
            b == is_terminal(self),
    {
        match self {
            Phase::Sent => true,
            Phase::Failed => true,
            _ => false,
        }
    }
}

impl Exchange {
    /// The states that the request of this exchange went through, in
    /// order.
    pub fn phases(&self) -> (phases: Vec<Phase>)
        ensures
            phases@ == phases_of(self.exit, self.routing),
    {
        let mut phases: Vec<Phase> = Vec::new();
        phases.push(Phase::Received);
        phases.push(Phase::BeforeChain);
        match self.exit {
            Exit::BeforeFailed => {
                phases.push(Phase::Failed);
            },
            _ => {
                phases.push(Phase::Routed);
                match self.routing {
                    Routing::Handled => phases.push(Phase::HandlerExecuted),
                    Routing::File => phases.push(Phase::HandlerExecuted),
                    _ => phases.push(Phase::NotFound),
                }
                phases.push(Phase::AfterChain);
                match self.exit {
                    Exit::Sent => phases.push(Phase::Sent),
                    _ => phases.push(Phase::Failed),
                }
            },
        }
        assert(phases@ =~= phases_of(self.exit, self.routing));
        phases
    }
}

/// The states of a request are a run of the state machine: they start
/// with `Received`, each follows from the one before it by some event,
/// only the last is terminal, and a handler has answered only where the
/// before-chain was passed.
pub proof fn lemma_phases_follow_the_machine(exit: Exit, routing: Routing)
    ensures
        phases_of(exit, routing).first() == Phase::Received,
        is_terminal(phases_of(exit, routing).last()),
        forall|i: int|
            0 <= i < phases_of(exit, routing).len() - 1 ==> !is_terminal(
                #[trigger] phases_of(exit, routing)[i],
            ) && exists|event: Event|
                step(phases_of(exit, routing)[i], event) == Some(phases_of(exit, routing)[i + 1]),
        exit == Exit::BeforeFailed ==> !phases_of(exit, routing).contains(Phase::HandlerExecuted)
            && !phases_of(exit, routing).contains(Phase::Routed),
{
    let phases = phases_of(exit, routing);
    assert forall|i: int| 0 <= i < phases.len() - 1 implies !is_terminal(#[trigger] phases[i])
        && exists|event: Event| step(phases[i], event) == Some(phases[i + 1]) by {
        if exit == Exit::BeforeFailed {
            if i == 0 {
                assert(step(phases[0], Event::Accepted) == Some(phases[1]));
            } else {
                assert(step(phases[1], Event::BeforeFailed) == Some(phases[2]));
            }
        } else {
            if i == 0 {
                assert(step(phases[0], Event::Accepted) == Some(phases[1]));
            } else if i == 1 {
                assert(step(phases[1], Event::BeforePassed) == Some(phases[2]));
            } else if i == 2 {
                if routing == Routing::Handled || routing == Routing::File {
                    assert(step(phases[2], Event::Matched) == Some(phases[3]));
                } else {
                    assert(step(phases[2], Event::Unmatched) == Some(phases[3]));
                }
            } else if i == 3 {
                assert(step(phases[3], Event::Answered) == Some(phases[4]));
            } else {
                if exit == Exit::Sent {
                    assert(step(phases[4], Event::AfterPassed) == Some(phases[5]));
                } else {
                    assert(step(phases[4], Event::AfterFailed) == Some(phases[5]));
                }
            }
        }
    }
}

} // verus!
