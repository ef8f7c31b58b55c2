//! What the plugin does on each lifecycle event of the host application.
use vstd::prelude::*;

verus! {

/// Start-up timings of the host application, in milliseconds since the
/// Unix epoch; `ready_at` is 0 until the application is ready.
#[derive(Clone, Copy, Debug, PartialEq, Eq, Structural)]
pub struct Metrics {
    pub initialized_at: u64,
    pub ready_at: u64,
}

/// A lifecycle event of the host application.
#[derive(Clone, Copy, Debug, PartialEq, Eq, Structural)]
pub enum LifecycleEvent {
    Ready,
    ExitRequested,
    Exit,
    WindowEvent,
    Resumed,
    Other,
}

/// What the caller has to do after an event.
#[derive(Clone, Copy, Debug, PartialEq, Eq, Structural)]
pub enum LifecycleAction {
    Nothing,
    /// Signal the broadcaster to publish what it holds and stop.
    Shutdown,
}

/// Handles `event` at time `now`. A disabled plugin does nothing. On
/// `Ready` the ready time is recorded; on `Exit` the broadcaster is shut
/// down; other events change nothing.
pub fn on_event(enabled: bool, metrics: &mut Metrics, event: LifecycleEvent, now: u64) -> (r:
    LifecycleAction)
    ensures
        !enabled ==> *final(metrics) == *old(metrics) && r == LifecycleAction::Nothing,
        enabled && event == LifecycleEvent::Ready ==> *final(metrics) == (Metrics {
            ready_at: now,
            ..*old(metrics)
        }) && r == LifecycleAction::Nothing,
        enabled && event == LifecycleEvent::Exit ==> *final(metrics) == *old(metrics) && r
            == LifecycleAction::Shutdown,
        enabled && event != LifecycleEvent::Ready && event != LifecycleEvent::Exit
            ==> *final(metrics) == *old(metrics) && r == LifecycleAction::Nothing,
{
    if !enabled {
        return LifecycleAction::Nothing;
    }
    match event {
        LifecycleEvent::Ready => {
            metrics.ready_at = now;
            LifecycleAction::Nothing
        },
        LifecycleEvent::Exit => LifecycleAction::Shutdown,
        _ => LifecycleAction::Nothing,
    }
}

} // verus!
