//! The request loop, as decisions over inbound events.
//!
//! The host drives the plugin with a stream of requests.  The loop has two
//! states, running and stopped: every request is a self-loop on running
//! except an exit request, which stops the loop for good.  What the loop
//! owes per event is pure and lives here; performing the actions (logging,
//! running a search, writing responses) is the caller's part.

use vstd::prelude::*;

verus! {

/// One decoded item of the host's request stream.
pub enum Event {
    /// The host activates the row with this index.
    Activate(u32),
    /// The host asks to complete the row with this index.
    Complete(u32),
    /// The host searches with this query text.
    Search(String),
    /// The host tells the plugin to leave.
    Exit,
    /// Any other request of the host protocol.
    Other,
    /// An inbound line that did not decode as a request.
    Malformed,
}

/// What the loop does in reaction to one event.
pub enum Action {
    /// Log the activation; rows have no activation behaviour here.
    LogActivate(u32),
    /// Log the completion request; likewise a stub.
    LogComplete(u32),
    /// Log the undecodable line and carry on.
    LogMalformed,
    /// Run a search with this query and emit its responses.
    RunSearch(String),
    /// Do nothing.
    Ignore,
}

/// Whether the loop still reads requests.
#[derive(Clone, Copy, Debug, PartialEq, Eq, Structural)]
pub enum LoopState {
    Running,
    Stopped,
}

/// The reaction a running loop owes to one event.
pub open spec fn action_of(e: Event) -> Action {
    match e {
        Event::Activate(id) => Action::LogActivate(id),
        Event::Complete(id) => Action::LogComplete(id),
        Event::Search(q) => Action::RunSearch(q),
        Event::Exit => Action::Ignore,
        Event::Other => Action::Ignore,
        Event::Malformed => Action::LogMalformed,
    }
}

/// The actions a loop started running performs on a stream of events: one
/// per event, in order, up to and not beyond the first exit request.
pub open spec fn processed(events: Seq<Event>) -> Seq<Action>
    decreases events.len(),
{
    if events.len() == 0 {
        Seq::empty()
    } else if events[0] is Exit {
        Seq::empty()
    } else {
        seq![action_of(events[0])] + processed(events.skip(1))
    }
}

/// One step of the loop: the next state and the owed reaction.  A stopped
/// loop reacts to nothing; a running one stops exactly on an exit request.
pub fn handle_event(state: LoopState, event: Event) -> (r: (LoopState, Action))
    ensures
        state is Stopped ==> r == (LoopState::Stopped, Action::Ignore),
        state is Running ==> r.0 == (if event is Exit {
            LoopState::Stopped
        } else {
            LoopState::Running
        }),
        state is Running ==> r.1 == action_of(event),
{
    match state {
        LoopState::Stopped => (LoopState::Stopped, Action::Ignore),
        LoopState::Running => match event {
            Event::Activate(id) => (LoopState::Running, Action::LogActivate(id)),
            Event::Complete(id) => (LoopState::Running, Action::LogComplete(id)),
            Event::Search(q) => (LoopState::Running, Action::RunSearch(q)),
            Event::Exit => (LoopState::Stopped, Action::Ignore),
            Event::Other => (LoopState::Running, Action::Ignore),
            Event::Malformed => (LoopState::Running, Action::LogMalformed),
        },
    }
}

/// Drives the loop over a whole event stream, one `handle_event` step per
/// event, stopping at the first exit request.
pub fn run_loop(events: Vec<Event>) -> (r: Vec<Action>)
    ensures
        r@ == processed(events@),
{
    let ghost orig = events@;
    let mut rest = events;
    let mut actions: Vec<Action> = Vec::new();
    let mut state = LoopState::Running;
    let mut go = true;
    while go && rest.len() > 0
        invariant
            go ==> state is Running,
            go ==> processed(orig) =~= actions@ + processed(rest@),
            !go ==> processed(orig) =~= actions@,
        decreases rest@.len(),
    {
        let ghost before = rest@;
        let e = rest.remove(0);
        proof {
            assert(rest@ =~= before.skip(1));
        }
        let step = handle_event(state, e);
        state = step.0;
        match step.0 {
            LoopState::Stopped => {
                go = false;
                proof {
                    assert(processed(before) =~= Seq::<Action>::empty());
                }
            },
            LoopState::Running => {
                actions.push(step.1);
                proof {
                    assert(processed(before) =~= seq![action_of(before[0])] + processed(
                        before.skip(1),
                    ));
                }
            },
        }
    }
    proof {
        if go {
            assert(rest@.len() == 0);
            assert(processed(rest@) =~= Seq::<Action>::empty());
        }
        assert(actions@ =~= processed(orig));
    }
    actions
}

/// An exit request seals the stream: whatever follows the first exit, the
/// performed actions are exactly those of the stream up to and including
/// it.
pub proof fn lemma_exit_terminates(events: Seq<Event>, i: int)
    requires
        0 <= i < events.len(),
        events[i] is Exit,
    ensures
        processed(events) == processed(events.take(i + 1)),
    decreases i,
{
    let front = events.take(i + 1);
    assert(front.len() == i + 1);
    assert(front[0] == events[0]);
    if events[0] is Exit {
        assert(processed(events) =~= Seq::<Action>::empty());
        assert(processed(front) =~= Seq::<Action>::empty());
    } else {
        assert(i >= 1);
        assert(events.skip(1)[i - 1] == events[i]);
        lemma_exit_terminates(events.skip(1), i - 1);
        assert(front.skip(1) =~= events.skip(1).take(i));
        assert(processed(front) =~= seq![action_of(front[0])] + processed(front.skip(1)));
        assert(processed(events) =~= seq![action_of(events[0])] + processed(events.skip(1)));
    }
}

} // verus!
