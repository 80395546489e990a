//! The most recent actions, kept for the control socket.
use crate::logger::LogAction;
use std::collections::VecDeque;
use vstd::prelude::*;

verus! {

/// How many events are kept.
pub const MAX_EVENTS: usize = 100;

/// One action of the daemon.
#[derive(Debug)]
pub struct ActionEvent {
    /// Seconds since the Unix epoch.
    pub timestamp: u64,
    pub action: LogAction,
    pub pid: u32,
    pub name: String,
    pub detail: String,
}

/// What an event says.
pub struct EventView {
    pub timestamp: u64,
    pub action: LogAction,
    pub pid: u32,
    pub name: Seq<char>,
    pub detail: Seq<char>,
}

impl View for ActionEvent {
    type V = EventView;

    open spec fn view(&self) -> EventView {
        EventView {
            timestamp: self.timestamp,
            action: self.action,
            pid: self.pid,
            name: self.name@,
            detail: self.detail@,
        }
    }
}

/// The most recent events, oldest first.
pub struct EventLog {
    pub events: VecDeque<ActionEvent>,
}

impl View for EventLog {
    type V = Seq<EventView>;

    open spec fn view(&self) -> Seq<EventView> {
        self.events@.map_values(|e: ActionEvent| e@)
    }
}

impl EventLog {
    /// No more than the limit is ever kept.
    pub open spec fn wf(&self) -> bool {
        self.events@.len() <= MAX_EVENTS
    }
}

/// An empty log.
pub fn new_log() -> (r: EventLog)
    ensures
        r.wf(),
        r@ == Seq::<EventView>::empty(),
{
    let log = EventLog { events: VecDeque::with_capacity(MAX_EVENTS) };
    assert(log@ =~= Seq::<EventView>::empty());
    log
}

/// The log `s` after `e`: the oldest event leaves a full log.
pub open spec fn pushed(s: Seq<EventView>, e: EventView) -> Seq<EventView> {
    if s.len() >= MAX_EVENTS {
        s.drop_first().push(e)
    } else {
        s.push(e)
    }
}

/// Records an event that happened at `now`.
pub fn push(
    log: &mut EventLog,
    now: u64,
    action: LogAction,
    pid: u32,
    name: &str,
    detail: &str,
)
    requires
        old(log).wf(),
    ensures
        final(log).wf(),
        final(log)@ == pushed(
            old(log)@,
            (EventView { timestamp: now, action, pid, name: name@, detail: detail@ }),
        ),
{
    let event = ActionEvent {
        timestamp: now,
        action,
        pid,
        name: name.to_owned(),
        detail: detail.to_owned(),
    };
    if log.events.len() >= MAX_EVENTS {
        let _ = log.events.pop_front();
    }
    log.events.push_back(event);
    assert(log@ =~= pushed(
        old(log)@,
        EventView { timestamp: now, action, pid, name: name@, detail: detail@ },
    ));
}

/// The log after a sequence of events.
pub open spec fn pushed_all(s: Seq<EventView>, es: Seq<EventView>) -> Seq<EventView>
    decreases es.len(),
{
    if es.len() == 0 {
        s
    } else {
        pushed(pushed_all(s, es.drop_last()), es.last())
    }
}

/// After any number of events, an initially empty log holds the newest of
/// them, up to the limit, in order.
pub proof fn law_newest_events_stay(es: Seq<EventView>)
    ensures
        pushed_all(Seq::empty(), es) == if es.len() <= MAX_EVENTS {
            es
        } else {
            es.skip(es.len() - MAX_EVENTS)
        },
    decreases es.len(),
{
    if es.len() > 0 {
        law_newest_events_stay(es.drop_last());
        let before = pushed_all(Seq::empty(), es.drop_last());
        if es.len() <= MAX_EVENTS {
            assert(before.push(es.last()) =~= es);
        } else if es.len() == MAX_EVENTS + 1 {
            assert(before =~= es.drop_last());
            assert(before.drop_first().push(es.last()) =~= es.skip(1));
        } else {
            assert(before.drop_first().push(es.last()) =~= es.skip(es.len() - MAX_EVENTS));
        }
    }
}

/// A log holds the last hundred events, in the order in which they came.
pub proof fn law_hundred_events(s: Seq<EventView>, e: EventView)
    ensures
        pushed(s, e).last() == e,
        s.len() < 100 ==> pushed(s, e) == s.push(e),
        s.len() == 100 ==> pushed(s, e).len() == 100 && pushed(s, e).drop_last() == s.drop_first(),
        MAX_EVENTS == 100,
{
    if s.len() == 100 {
        assert(pushed(s, e).drop_last() =~= s.drop_first());
    }
}

/// An event is the last one after it was recorded, and the hundred newest stay.
pub proof fn law_recording_an_event(
    before: EventLog,
    after: EventLog,
    now: u64,
    action: LogAction,
    pid: u32,
    name: &str,
    detail: &str,
)
    requires
        exists|m: &mut EventLog| #[trigger]
            call_ensures(push, (m, now, action, pid, name, detail), ()) && *m == before
                && *final(m) == after,
        before@.len() <= 100,
    ensures
        after@.len() > 0,
        after@.last() == (EventView { timestamp: now, action, pid, name: name@, detail: detail@ }),
        before@.len() < 100 ==> after@.drop_last() == before@,
        before@.len() == 100 ==> after@.len() == 100 && after@.drop_last() == before@.drop_first(),
{
    law_hundred_events(
        before@,
        EventView { timestamp: now, action, pid, name: name@, detail: detail@ },
    );
    if before@.len() < 100 {
        assert(after@.drop_last() =~= before@);
    }
}

} // verus!
