use devtools::aggregator::{Aggregator, Command, Watcher};
use devtools::broadcaster::{BroadcastAction, BroadcastEvent, EventBuffer};
use devtools::lifecycle::{on_event, LifecycleAction, LifecycleEvent, Metrics};
use devtools::wire::{Field, FieldValue, LogEvent, Timestamp, Update};
use std::sync::mpsc::{sync_channel, Receiver, SyncSender};

fn event(message: &str) -> LogEvent {
    LogEvent {
        message: message.to_string(),
        parent: None,
        metadata_id: 1,
        fields: vec![Field { name: "k".to_string(), value: FieldValue::U64(3) }],
        at: Some(Timestamp { seconds: 10, nanos: 5 }),
    }
}

fn batch(message: &str) -> Update {
    Update { log_events: vec![event(message)], dropped_events: 0 }
}

fn deliver(agg: &mut Aggregator<SyncSender<Update>>, update: Update) {
    let delivered: Vec<bool> = agg.watchers().iter().map(|w| w.outbound.try_send(update.clone()).is_ok()).collect();
    agg.retain_delivered(&delivered);
}

fn subscribe(agg: &mut Aggregator<SyncSender<Update>>, id: u64, capacity: usize) -> Receiver<Update> {
    let (tx, rx) = sync_channel(capacity);
    assert!(agg.handle(Command::RegisterWatcher(Watcher { id, outbound: tx })).is_none());
    rx
}

#[test]
fn subscription() {
    let mut agg = Aggregator::new();
    let rx = subscribe(&mut agg, 1, 4);
    assert_eq!(agg.watchers().len(), 1);
    let u = agg.handle(Command::TelemetryBatch(batch("hello"))).unwrap();
    deliver(&mut agg, u);
    assert_eq!(rx.try_recv().unwrap(), batch("hello"));
    assert!(rx.try_recv().is_err());
}

#[test]
fn saturated_watcher_is_dropped_alone() {
    let mut agg = Aggregator::new();
    let slow = subscribe(&mut agg, 1, 1);
    let fast = subscribe(&mut agg, 2, 8);
    for m in ["a", "b", "c"] {
        let u = agg.handle(Command::TelemetryBatch(batch(m))).unwrap();
        deliver(&mut agg, u);
    }
    let ids: Vec<u64> = agg.watchers().iter().map(|w| w.id).collect();
    assert_eq!(ids, vec![2]);
    assert_eq!(slow.try_recv().unwrap(), batch("a"));
    for m in ["a", "b", "c"] {
        assert_eq!(fast.try_recv().unwrap(), batch(m));
    }
}

#[test]
fn closed_watcher_is_dropped() {
    let mut agg = Aggregator::new();
    let gone = subscribe(&mut agg, 1, 4);
    drop(gone);
    let _kept = subscribe(&mut agg, 2, 4);
    let u = agg.handle(Command::TelemetryBatch(batch("x"))).unwrap();
    deliver(&mut agg, u);
    let ids: Vec<u64> = agg.watchers().iter().map(|w| w.id).collect();
    assert_eq!(ids, vec![2]);
}

#[test]
fn event_buffer_counts_drops() {
    let mut buf = EventBuffer::new(2);
    buf.push(event("1"));
    buf.push(event("2"));
    buf.push(event("3"));
    assert_eq!(buf.len(), 2);
    let u = buf.flush();
    assert_eq!(u.log_events, vec![event("1"), event("2")]);
    assert_eq!(u.dropped_events, 1);
    assert_eq!(buf.len(), 0);
    let u = buf.flush();
    assert!(u.log_events.is_empty());
    assert_eq!(u.dropped_events, 0);
}

#[test]
fn lifecycle_ready_and_exit() {
    let mut m = Metrics { initialized_at: 5, ready_at: 0 };
    assert_eq!(on_event(true, &mut m, LifecycleEvent::Ready, 42), LifecycleAction::Nothing);
    assert_eq!(m, Metrics { initialized_at: 5, ready_at: 42 });
    assert_eq!(on_event(true, &mut m, LifecycleEvent::Exit, 50), LifecycleAction::Shutdown);
    assert_eq!(on_event(true, &mut m, LifecycleEvent::Resumed, 60), LifecycleAction::Nothing);
    assert_eq!(m.ready_at, 42);
    let mut d = Metrics { initialized_at: 1, ready_at: 0 };
    assert_eq!(on_event(false, &mut d, LifecycleEvent::Ready, 9), LifecycleAction::Nothing);
    assert_eq!(on_event(false, &mut d, LifecycleEvent::Exit, 9), LifecycleAction::Nothing);
    assert_eq!(d.ready_at, 0);
}

#[test]
fn broadcaster_publishes_on_tick_and_flushes_on_shutdown() {
    let mut buf = EventBuffer::new(4);
    assert!(matches!(buf.on_event(BroadcastEvent::Captured(event("1"))), BroadcastAction::Wait));
    match buf.on_event(BroadcastEvent::Tick) {
        BroadcastAction::Publish(u) => assert_eq!(u, Update { log_events: vec![event("1")], dropped_events: 0 }),
        _ => panic!("a tick publishes"),
    }
    assert!(matches!(buf.on_event(BroadcastEvent::Captured(event("2"))), BroadcastAction::Wait));
    match buf.on_event(BroadcastEvent::Shutdown) {
        BroadcastAction::PublishAndStop(u) => assert_eq!(u.log_events, vec![event("2")]),
        _ => panic!("shutdown publishes a last batch"),
    }
    match buf.on_event(BroadcastEvent::SourceClosed) {
        BroadcastAction::PublishAndStop(u) => assert!(u.log_events.is_empty()),
        _ => panic!("a closed source publishes a last batch"),
    }
}
