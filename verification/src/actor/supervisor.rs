//! The decisions of the supervisor that runs an actor and restarts it when
//! it is stopped.
use crate::actor::context::HandleRegistry;
use vstd::prelude::*;

verus! {

/// What the supervisor took from the actor's event channel.
#[derive(Debug, Clone, Copy)]
pub enum SupervisorEvent {
    /// The channel closed: every address of the actor is gone.
    Closed,
    /// The actor was asked to stop.
    Stop,
    /// A message handler is to be run.
    Exec,
    /// The stream registered under this key ended.
    RemoveStream(usize),
}

/// What the supervisor does about an event.
#[derive(Debug, Clone, Copy, PartialEq, Eq)]
pub enum SupervisorAction {
    /// Stop the actor for good.
    Shutdown,
    /// Stop the actor and start a fresh one in its place.
    Restart,
    /// Run the handler, then wait for the next event.
    RunHandler,
    /// Wait for the next event.
    Continue,
}

/// The action for each event.
pub open spec fn supervisor_action(event: SupervisorEvent) -> SupervisorAction {
    match event {
        SupervisorEvent::Closed => SupervisorAction::Shutdown,
        SupervisorEvent::Stop => SupervisorAction::Restart,
        SupervisorEvent::Exec => SupervisorAction::RunHandler,
        SupervisorEvent::RemoveStream(_) => SupervisorAction::Continue,
    }
}

/// Runs an actor: builds it, starts it, feeds it its events, and restarts it
/// from scratch whenever it is stopped.
pub struct Supervisor;

impl Supervisor {
    /// Decides what to do about an event; an ended stream is dropped from
    /// the registry of streams.
    pub fn on_event(event: SupervisorEvent, streams: &mut HandleRegistry) -> (action:
        SupervisorAction)
        ensures
            action == supervisor_action(event),
            match event {
                SupervisorEvent::RemoveStream(key) => final(streams)@ == old(streams)@.remove(key),
                _ => final(streams)@ == old(streams)@,
            },
    {
        match event {
            SupervisorEvent::Closed => SupervisorAction::Shutdown,
            SupervisorEvent::Stop => SupervisorAction::Restart,
            SupervisorEvent::Exec => SupervisorAction::RunHandler,
            SupervisorEvent::RemoveStream(key) => {
                streams.forget(key);
                SupervisorAction::Continue
            },
        }
    }

    /// Aborts the streams and timers of a stopped actor, so that the actor
    /// that replaces it starts with none.
    pub fn clean_up(streams: &mut HandleRegistry, intervals: &mut HandleRegistry)
        ensures
            final(streams)@ == Set::<usize>::empty(),
            final(intervals)@ == Set::<usize>::empty(),
    {
        streams.abort_all();
        intervals.abort_all();
    }
}

/// Law: only a closed channel ends supervision, and only a stop request
/// restarts the actor; every other event keeps the actor running.
pub proof fn lemma_supervision_ends_only_when_closed(event: SupervisorEvent)
    ensures
        supervisor_action(event) == SupervisorAction::Shutdown <==> event is Closed,
        supervisor_action(event) == SupervisorAction::Restart <==> event is Stop,
{
}

/* The supervision loop */

/// One thing the supervision loop does to the actor it runs.
#[derive(Debug, Clone, Copy, PartialEq, Eq)]
pub enum LifecycleStep {
    /// Run the handler that the event carries, to completion.
    RunHandler,
    /// Tell the current instance that it stopped.
    CallStopped,
    /// Abort the actor's streams and timers and empty their registries.
    AbortStreamsAndIntervals,
    /// Build a fresh instance in place of the current one, keeping the
    /// context and the channel.
    CreateInstance,
    /// Tell the current instance that it started; an error is ignored.
    CallStarted,
}

/// What the loop does about one event: nothing once supervision ended.
pub open spec fn lifecycle_plan(ended: bool, event: SupervisorEvent) -> Seq<LifecycleStep> {
    if ended {
        Seq::empty()
    } else {
        match event {
            SupervisorEvent::Closed => seq![
                LifecycleStep::CallStopped,
                LifecycleStep::AbortStreamsAndIntervals,
            ],
            SupervisorEvent::Stop => seq![
                LifecycleStep::CallStopped,
                LifecycleStep::AbortStreamsAndIntervals,
                LifecycleStep::CreateInstance,
                LifecycleStep::CallStarted,
            ],
            SupervisorEvent::Exec => seq![LifecycleStep::RunHandler],
            SupervisorEvent::RemoveStream(_) => Seq::empty(),
        }
    }
}

/// Whether supervision ended after an event.
pub open spec fn lifecycle_ended(ended: bool, event: SupervisorEvent) -> bool {
    ended || event is Closed
}

/// Whether supervision ended, and the steps, after events taken in order.
pub open spec fn lifecycle_run(ended: bool, events: Seq<SupervisorEvent>) -> (
    bool,
    Seq<LifecycleStep>,
)
    decreases events.len(),
{
    if events.len() == 0 {
        (ended, Seq::empty())
    } else {
        let rest = lifecycle_run(lifecycle_ended(ended, events[0]), events.drop_first());
        (rest.0, lifecycle_plan(ended, events[0]) + rest.1)
    }
}

/// The plans of the events, one after the other, while supervision runs.
pub open spec fn plans_in_order(events: Seq<SupervisorEvent>) -> Seq<LifecycleStep>
    decreases events.len(),
{
    if events.len() == 0 {
        Seq::empty()
    } else {
        lifecycle_plan(false, events[0]) + plans_in_order(events.drop_first())
    }
}

/// True when no event in the sequence is a closed channel.
pub open spec fn none_closed(events: Seq<SupervisorEvent>) -> bool {
    forall|i: int| 0 <= i < events.len() ==> !(#[trigger] events[i] is Closed)
}

/// Where the supervision loop of an actor stands: running, or ended because
/// the actor's channel closed.
pub struct SupervisorState {
    ended: bool,
}

impl SupervisorState {
    /// A supervision that runs.
    pub fn new() -> (s: SupervisorState)
        ensures
            !s.is_ended(),
    {
        SupervisorState { ended: false }
    }

    /// Whether supervision ended.
    pub closed spec fn is_ended(&self) -> bool {
        self.ended
    }

    /// Whether supervision ended.
    pub fn ended(&self) -> (ended: bool)
        ensures
            ended == self.is_ended(),
    {
        self.ended
    }

    /// Takes one event and gives the steps to carry out for it, in order; an
    /// ended stream is dropped from the registry of streams.
    pub fn on_event(&mut self, event: SupervisorEvent, streams: &mut HandleRegistry) -> (plan: Vec<
        LifecycleStep,
    >)
        ensures
            plan@ == lifecycle_plan(old(self).is_ended(), event),
            final(self).is_ended() == lifecycle_ended(old(self).is_ended(), event),
            match event {
                SupervisorEvent::RemoveStream(key) => !old(self).is_ended() ==> final(streams)@
                    == old(streams)@.remove(key),
                _ => true,
            },
            old(self).is_ended() || !(event is RemoveStream) ==> final(streams)@ == old(streams)@,
    {
        if self.ended {
            return Vec::new();
        }
        let action = Supervisor::on_event(event, streams);
        let mut plan: Vec<LifecycleStep> = Vec::new();
        match action {
            SupervisorAction::Shutdown => {
                plan.push(LifecycleStep::CallStopped);
                plan.push(LifecycleStep::AbortStreamsAndIntervals);
                self.ended = true;
            },
            SupervisorAction::Restart => {
                plan.push(LifecycleStep::CallStopped);
                plan.push(LifecycleStep::AbortStreamsAndIntervals);
                plan.push(LifecycleStep::CreateInstance);
                plan.push(LifecycleStep::CallStarted);
            },
            SupervisorAction::RunHandler => {
                plan.push(LifecycleStep::RunHandler);
            },
            SupervisorAction::Continue => {},
        }
        assert(plan@ =~= lifecycle_plan(false, event));
        plan
    }
}

/// Law: a stop request makes the loop tell the current instance that it
/// stopped, abort its streams and timers, build a fresh instance in the same
/// context and tell it that it started; supervision goes on.
pub proof fn lemma_restart_on_stop()
    ensures
        lifecycle_plan(false, SupervisorEvent::Stop) == seq![
            LifecycleStep::CallStopped,
            LifecycleStep::AbortStreamsAndIntervals,
            LifecycleStep::CreateInstance,
            LifecycleStep::CallStarted,
        ],
        !lifecycle_ended(false, SupervisorEvent::Stop),
{
}

/// Law: while the channel stays open, the loop takes the events one at a
/// time in the order they were sent and carries out each one's plan to the
/// end before the next: each handler runs alone, in its event's place.
pub proof fn lemma_events_in_order(events: Seq<SupervisorEvent>)
    requires
        none_closed(events),
    ensures
        lifecycle_run(false, events) == (false, plans_in_order(events)),
    decreases events.len(),
{
    if events.len() > 0 {
        assert(!(events[0] is Closed));
        assert(none_closed(events.drop_first())) by {
            assert forall|i: int| 0 <= i < events.drop_first().len() implies !(
            #[trigger] events.drop_first()[i] is Closed) by {
                assert(events.drop_first()[i] == events[i + 1]);
            }
        }
        lemma_events_in_order(events.drop_first());
    }
}

proof fn lemma_ended_run(events: Seq<SupervisorEvent>)
    ensures
        lifecycle_run(true, events) == (true, Seq::<LifecycleStep>::empty()),
    decreases events.len(),
{
    if events.len() > 0 {
        lemma_ended_run(events.drop_first());
        assert(Seq::<LifecycleStep>::empty() + Seq::<LifecycleStep>::empty() =~= Seq::<
            LifecycleStep,
        >::empty());
    }
}

/// Law: when the channel closes (every address is gone), the loop first
/// carries out the events queued before, then tells the current instance
/// once more that it stopped and aborts its streams and timers; it builds no
/// new instance and does nothing for any later event.
pub proof fn lemma_shutdown_when_closed(
    before: Seq<SupervisorEvent>,
    after: Seq<SupervisorEvent>,
)
    requires
        none_closed(before),
    ensures
        lifecycle_run(false, before + seq![SupervisorEvent::Closed] + after) == (
            true,
            plans_in_order(before) + seq![
                LifecycleStep::CallStopped,
                LifecycleStep::AbortStreamsAndIntervals,
            ],
        ),
    decreases before.len(),
{
    let events = before + seq![SupervisorEvent::Closed] + after;
    if before.len() == 0 {
        assert(events[0] is Closed);
        assert(events.drop_first() =~= after);
        lemma_ended_run(after);
        assert(lifecycle_plan(false, SupervisorEvent::Closed) + Seq::<LifecycleStep>::empty()
            =~= seq![LifecycleStep::CallStopped, LifecycleStep::AbortStreamsAndIntervals]);
        assert(Seq::<LifecycleStep>::empty() + seq![
            LifecycleStep::CallStopped,
            LifecycleStep::AbortStreamsAndIntervals,
        ] =~= seq![LifecycleStep::CallStopped, LifecycleStep::AbortStreamsAndIntervals]);
    } else {
        assert(events[0] == before[0]);
        assert(!(before[0] is Closed));
        assert(events.drop_first() =~= before.drop_first() + seq![SupervisorEvent::Closed]
            + after);
        assert(none_closed(before.drop_first())) by {
            assert forall|i: int| 0 <= i < before.drop_first().len() implies !(
            #[trigger] before.drop_first()[i] is Closed) by {
                assert(before.drop_first()[i] == before[i + 1]);
            }
        }
        lemma_shutdown_when_closed(before.drop_first(), after);
        let tail = seq![LifecycleStep::CallStopped, LifecycleStep::AbortStreamsAndIntervals];
        assert(lifecycle_plan(false, before[0]) + (plans_in_order(before.drop_first()) + tail)
            =~= (lifecycle_plan(false, before[0]) + plans_in_order(before.drop_first())) + tail);
    }
}

} // verus!
