use actor_framework::actor::context::{HandleRegistry, PumpInput, PumpPhase, PumpStep, StreamPump};
use actor_framework::actor::supervisor::{
    LifecycleStep, Supervisor, SupervisorAction, SupervisorEvent, SupervisorState,
};
use actor_framework::broker::{Broker, Subscribe, Unsubscribe};
use futures::future::AbortHandle;

#[test]
fn registry_gives_fresh_keys_and_forgets() {
    let mut r = HandleRegistry::new();
    let (h1, reg1) = AbortHandle::new_pair();
    let (h2, _reg2) = AbortHandle::new_pair();
    let k1 = r.register(h1);
    let k2 = r.register(h2);
    assert_ne!(k1, k2);
    assert!(r.contains(k1) && r.contains(k2));
    r.forget(k1);
    assert!(!r.contains(k1));
    assert_eq!(r.len(), 1);
    r.forget(k1);
    assert_eq!(r.len(), 1);
    drop(reg1);
}

#[test]
fn abort_all_aborts_every_task() {
    let mut r = HandleRegistry::new();
    let (h1, reg1) = AbortHandle::new_pair();
    let (h2, reg2) = AbortHandle::new_pair();
    r.register(h1);
    r.register(h2);
    assert_eq!(r.abort_all(), 2);
    assert_eq!(r.len(), 0);
    assert!(reg1.handle().is_aborted());
    assert!(reg2.handle().is_aborted());
}

#[test]
fn forgotten_task_is_not_aborted() {
    let mut r = HandleRegistry::new();
    let (h, reg) = AbortHandle::new_pair();
    let k = r.register(h);
    r.forget(k);
    assert_eq!(r.abort_all(), 0);
    assert!(!reg.handle().is_aborted());
}

#[test]
fn supervisor_actions() {
    let mut streams = HandleRegistry::new();
    let (h, _reg) = AbortHandle::new_pair();
    let k = streams.register(h);
    assert_eq!(Supervisor::on_event(SupervisorEvent::Exec, &mut streams), SupervisorAction::RunHandler);
    assert_eq!(Supervisor::on_event(SupervisorEvent::Stop, &mut streams), SupervisorAction::Restart);
    assert_eq!(Supervisor::on_event(SupervisorEvent::Closed, &mut streams), SupervisorAction::Shutdown);
    assert!(streams.contains(k));
    assert_eq!(Supervisor::on_event(SupervisorEvent::RemoveStream(k), &mut streams), SupervisorAction::Continue);
    assert!(!streams.contains(k));
}

#[test]
fn supervisor_clean_up_empties_both_registries() {
    let mut streams = HandleRegistry::new();
    let mut intervals = HandleRegistry::new();
    let (h1, r1) = AbortHandle::new_pair();
    let (h2, r2) = AbortHandle::new_pair();
    streams.register(h1);
    intervals.register(h2);
    Supervisor::clean_up(&mut streams, &mut intervals);
    assert_eq!(streams.len() + intervals.len(), 0);
    assert!(r1.handle().is_aborted() && r2.handle().is_aborted());
}

#[test]
fn pump_forwards_a_whole_stream() {
    let mut p = StreamPump::new(4);
    assert_eq!(p.step(PumpInput::LinkChecked(true)), PumpStep::SendStarted);
    assert_eq!(p.step(PumpInput::ItemArrived), PumpStep::CheckLink);
    assert_eq!(p.step(PumpInput::LinkChecked(true)), PumpStep::SendItem);
    assert_eq!(p.step(PumpInput::Sent(true)), PumpStep::AwaitItem);
    assert_eq!(p.step(PumpInput::StreamEnded), PumpStep::CheckLink);
    assert_eq!(p.step(PumpInput::LinkChecked(true)), PumpStep::SendFinished);
    assert_eq!(p.step(PumpInput::LinkChecked(true)), PumpStep::SendRemove(4));
    assert_eq!(p.current_phase(), PumpPhase::Done);
    assert_eq!(p.step(PumpInput::LinkChecked(true)), PumpStep::Stop);
}

#[test]
fn pump_stops_when_the_actor_is_gone() {
    let mut p = StreamPump::new(0);
    assert_eq!(p.step(PumpInput::LinkChecked(false)), PumpStep::Stop);
    let mut p = StreamPump::new(0);
    p.step(PumpInput::LinkChecked(true));
    p.step(PumpInput::ItemArrived);
    assert_eq!(p.step(PumpInput::LinkChecked(false)), PumpStep::Stop);
    let mut p = StreamPump::new(0);
    p.step(PumpInput::LinkChecked(true));
    p.step(PumpInput::ItemArrived);
    p.step(PumpInput::LinkChecked(true));
    assert_eq!(p.step(PumpInput::Sent(false)), PumpStep::Stop);
}

#[test]
fn pump_checks_again_before_unregistering() {
    let mut p = StreamPump::new(2);
    p.step(PumpInput::LinkChecked(true));
    p.step(PumpInput::StreamEnded);
    assert_eq!(p.step(PumpInput::LinkChecked(false)), PumpStep::CheckLink);
    assert_eq!(p.step(PumpInput::LinkChecked(false)), PumpStep::Stop);
}

#[test]
fn broker_keeps_subscriptions() {
    let mut b: Broker<&str> = Broker::default();
    b.subscribe(Subscribe { id: 1, sender: "one" });
    b.subscribe(Subscribe { id: 2, sender: "two" });
    b.subscribe(Subscribe { id: 1, sender: "uno" });
    let mut ids = b.recipients();
    ids.sort();
    assert_eq!(ids, vec![1, 2]);
    assert_eq!(b.subscriber(1), Some(&"uno"));
    b.unsubscribe(Unsubscribe { id: 1 });
    assert_eq!(b.subscriber(1), None);
    assert_eq!(b.recipients(), vec![2]);
    b.unsubscribe(Unsubscribe { id: 9 });
    assert_eq!(b.recipients(), vec![2]);
}

#[test]
fn supervision_restarts_on_stop_and_runs_handlers_in_turn() {
    let mut state = SupervisorState::new();
    let mut streams = HandleRegistry::new();
    assert_eq!(state.on_event(SupervisorEvent::Exec, &mut streams), vec![LifecycleStep::RunHandler]);
    assert_eq!(
        state.on_event(SupervisorEvent::Stop, &mut streams),
        vec![
            LifecycleStep::CallStopped,
            LifecycleStep::AbortStreamsAndIntervals,
            LifecycleStep::CreateInstance,
            LifecycleStep::CallStarted,
        ]
    );
    assert!(!state.ended());
    assert_eq!(state.on_event(SupervisorEvent::Exec, &mut streams), vec![LifecycleStep::RunHandler]);
}

#[test]
fn supervision_removes_ended_streams() {
    let mut state = SupervisorState::new();
    let mut streams = HandleRegistry::new();
    let (h1, _r1) = AbortHandle::new_pair();
    let (h2, _r2) = AbortHandle::new_pair();
    let k1 = streams.register(h1);
    let k2 = streams.register(h2);
    assert!(state.on_event(SupervisorEvent::RemoveStream(k1), &mut streams).is_empty());
    assert!(!streams.contains(k1));
    assert!(streams.contains(k2));
    assert!(state.on_event(SupervisorEvent::RemoveStream(k1), &mut streams).is_empty());
    assert_eq!(streams.len(), 1);
}

#[test]
fn supervision_ends_when_the_channel_closes() {
    let mut state = SupervisorState::new();
    let mut streams = HandleRegistry::new();
    let (h, _r) = AbortHandle::new_pair();
    let k = streams.register(h);
    assert_eq!(
        state.on_event(SupervisorEvent::Closed, &mut streams),
        vec![LifecycleStep::CallStopped, LifecycleStep::AbortStreamsAndIntervals]
    );
    assert!(state.ended());
    assert!(state.on_event(SupervisorEvent::Stop, &mut streams).is_empty());
    assert!(state.on_event(SupervisorEvent::Exec, &mut streams).is_empty());
    assert!(state.on_event(SupervisorEvent::RemoveStream(k), &mut streams).is_empty());
    assert!(streams.contains(k));
}

#[test]
fn pump_forwards_items_in_order_then_finishes() {
    let mut p = StreamPump::new(7);
    let mut sent = Vec::new();
    sent.push(p.step(PumpInput::LinkChecked(true)));
    for _ in 0..3 {
        assert_eq!(p.step(PumpInput::ItemArrived), PumpStep::CheckLink);
        sent.push(p.step(PumpInput::LinkChecked(true)));
        assert_eq!(p.step(PumpInput::Sent(true)), PumpStep::AwaitItem);
    }
    assert_eq!(p.step(PumpInput::StreamEnded), PumpStep::CheckLink);
    sent.push(p.step(PumpInput::LinkChecked(true)));
    sent.push(p.step(PumpInput::LinkChecked(true)));
    assert_eq!(
        sent,
        vec![
            PumpStep::SendStarted,
            PumpStep::SendItem,
            PumpStep::SendItem,
            PumpStep::SendItem,
            PumpStep::SendFinished,
            PumpStep::SendRemove(7),
        ]
    );
}

#[test]
fn pump_stops_for_good_after_a_failed_send() {
    let mut p = StreamPump::new(1);
    p.step(PumpInput::LinkChecked(true));
    p.step(PumpInput::ItemArrived);
    p.step(PumpInput::LinkChecked(true));
    assert_eq!(p.step(PumpInput::Sent(false)), PumpStep::Stop);
    assert_eq!(p.step(PumpInput::ItemArrived), PumpStep::Stop);
    assert_eq!(p.step(PumpInput::LinkChecked(true)), PumpStep::Stop);
}

#[test]
fn pump_lost_link_before_finish_sends_neither_finished_nor_remove() {
    let mut p = StreamPump::new(3);
    assert_eq!(p.step(PumpInput::LinkChecked(true)), PumpStep::SendStarted);
    assert_eq!(p.step(PumpInput::ItemArrived), PumpStep::CheckLink);
    assert_eq!(p.step(PumpInput::LinkChecked(true)), PumpStep::SendItem);
    assert_eq!(p.step(PumpInput::Sent(true)), PumpStep::AwaitItem);
    assert_eq!(p.step(PumpInput::StreamEnded), PumpStep::CheckLink);
    assert_eq!(p.step(PumpInput::LinkChecked(false)), PumpStep::CheckLink);
    assert_eq!(p.step(PumpInput::LinkChecked(false)), PumpStep::Stop);
    assert_eq!(p.step(PumpInput::LinkChecked(false)), PumpStep::Stop);
}
