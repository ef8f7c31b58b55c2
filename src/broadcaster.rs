//! The producer side of telemetry: captured log events are buffered up to a
//! fixed capacity and published as one batch at each tick of the publish
//! cadence, and once more on shutdown so that nothing captured is lost.
use crate::wire::{LogEvent, Update};
use vstd::prelude::*;

verus! {

/// Log events captured since the last batch, and how many were dropped
/// because the buffer was full.
pub struct EventBuffer {
    events: Vec<LogEvent>,
    capacity: usize,
    dropped: u64,
}

impl EventBuffer {
    pub closed spec fn events(&self) -> Seq<LogEvent> {
        self.events@
    }

    pub closed spec fn capacity(&self) -> nat {
        self.capacity as nat
    }

    pub closed spec fn dropped(&self) -> u64 {
        self.dropped
    }

    pub closed spec fn wf(&self) -> bool {
        self.events@.len() <= self.capacity
    }

    /// An empty buffer that holds at most `capacity` events.
    pub fn new(capacity: usize) -> (r: Self)
        ensures
            r.wf(),
            r.events() == Seq::<LogEvent>::empty(),
            r.capacity() == capacity,
            r.dropped() == 0,
    {
        EventBuffer { events: Vec::new(), capacity, dropped: 0 }
    }

    /// The number of events waiting for the next batch.
    pub fn len(&self) -> (r: usize)
        ensures
            r == self.events().len(),
    {
        self.events.len()
    }

    /// Captures `event`: it joins the buffer when there is room; otherwise it
    /// is dropped and counted (the count stops at its largest value).
    pub fn push(&mut self, event: LogEvent)
        requires
            old(self).wf(),
        ensures
            final(self).wf(),
            final(self).capacity() == old(self).capacity(),
            old(self).events().len() < old(self).capacity()
                ==> final(self).events() == old(self).events().push(event)
                && final(self).dropped() == old(self).dropped(),
            old(self).events().len() >= old(self).capacity()
                ==> final(self).events() == old(self).events()
                && final(self).dropped() == if old(self).dropped() < u64::MAX {
                (old(self).dropped() + 1) as u64
            } else {
                u64::MAX
            },
    {
        if self.events.len() < self.capacity {
            self.events.push(event);
        } else {
            self.dropped = self.dropped.saturating_add(1);
        }
    }

    /// Publishes what was captured as one batch and starts the next one
    /// empty, with no drop counted.
    pub fn flush(&mut self) -> (r: Update)
        requires
            old(self).wf(),
        ensures
            r.log_events@ == old(self).events(),
            r.dropped_events == old(self).dropped(),
            final(self).wf(),
            final(self).events() == Seq::<LogEvent>::empty(),
            final(self).dropped() == 0,
            final(self).capacity() == old(self).capacity(),
    {
        let mut taken: Vec<LogEvent> = Vec::new();
        std::mem::swap(&mut taken, &mut self.events);
        let dropped = self.dropped;
        self.dropped = 0;
        Update { log_events: taken, dropped_events: dropped }
    }
}

/// `after` is `before` once event `e` was captured: buffered when there is
/// room, else counted as dropped (the count stops at its largest value).
pub open spec fn captured(before: EventBuffer, after: EventBuffer, e: LogEvent) -> bool {
    if before.events().len() < before.capacity() {
        after.events() == before.events().push(e) && after.dropped() == before.dropped()
    } else {
        after.events() == before.events() && after.dropped() == if before.dropped() < u64::MAX {
            (before.dropped() + 1) as u64
        } else {
            u64::MAX
        }
    }
}

/// `u` publishes everything `before` held, and `after` starts empty.
pub open spec fn flushed(before: EventBuffer, after: EventBuffer, u: Update) -> bool {
    u.log_events@ == before.events() && u.dropped_events == before.dropped() && after.events()
        == Seq::<LogEvent>::empty() && after.dropped() == 0
}

/// What reaches the publish loop.
pub enum BroadcastEvent {
    /// The publish cadence ticked.
    Tick,
    /// A log event was captured.
    Captured(LogEvent),
    /// The source of log events closed.
    SourceClosed,
    /// The host asked the broadcaster to stop.
    Shutdown,
}

/// What the publish loop does next.
pub enum BroadcastAction {
    /// Wait for the next event.
    Wait,
    /// Send this batch to the aggregator, then wait.
    Publish(Update),
    /// Send this last batch to the aggregator, then stop.
    PublishAndStop(Update),
}

impl EventBuffer {
    /// Handles one event of the publish loop. A captured event is buffered;
    /// a tick publishes what was captured; when the source closes or on
    /// shutdown, what was captured is published as a last batch, so nothing
    /// captured before is lost.
    pub fn on_event(&mut self, event: BroadcastEvent) -> (r: BroadcastAction)
        requires
            old(self).wf(),
        ensures
            final(self).wf(),
            final(self).capacity() == old(self).capacity(),
            match event {
                BroadcastEvent::Captured(e) => r is Wait && captured(*old(self), *final(self), e),
                BroadcastEvent::Tick => (r matches BroadcastAction::Publish(u) && flushed(
                    *old(self),
                    *final(self),
                    u,
                )),
                _ => (r matches BroadcastAction::PublishAndStop(u) && flushed(
                    *old(self),
                    *final(self),
                    u,
                )),
            },
    {
        match event {
            BroadcastEvent::Captured(e) => {
                self.push(e);
                BroadcastAction::Wait
            },
            BroadcastEvent::Tick => BroadcastAction::Publish(self.flush()),
            _ => BroadcastAction::PublishAndStop(self.flush()),
        }
    }
}

} // verus!
