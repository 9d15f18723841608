//! Input events, and the actions the engine answers with, as plain values.

use vstd::prelude::*;

verus! {

/// Event type number that marks a key transition.
pub const EV_KEY: u16 = 1;

/// Event value of a key going down.
pub const VALUE_PRESS: i32 = 1;

/// Event value of a key going up.
pub const VALUE_RELEASE: i32 = 0;

/// Direction of a key transition.
#[derive(Clone, Copy, Debug, PartialEq, Eq, Structural)]
pub enum Transition {
    Press,
    Release,
}

/// A key going down or up. `time` is in microseconds since the epoch.
#[derive(Clone, Copy, Debug, PartialEq, Eq, Structural)]
pub struct KeyEvent {
    pub key: u16,
    pub kind: Transition,
    pub time: u64,
}

/// An input event that is no key transition, kept field by field.
#[derive(Clone, Copy, Debug, PartialEq, Eq, Structural)]
pub struct RawEvent {
    pub event_type: u16,
    pub code: u16,
    pub value: i32,
    pub time: u64,
}

/// One event of the input stream.
#[derive(Clone, Copy, Debug, PartialEq, Eq, Structural)]
pub enum Event {
    Key(KeyEvent),
    Other(RawEvent),
}

/// What the caller has to do after the engine has seen a signal.
#[derive(Clone, Copy, Debug, PartialEq, Eq, Structural)]
pub enum Action {
    /// Write the event to the output.
    Emit(Event),
    /// A press cancelled a withheld release: chatter, nothing is written.
    Suppress,
    /// Nothing is written now.
    Nothing,
}

/// Why the engine refused an event.
#[derive(Clone, Copy, Debug, PartialEq, Eq, Structural)]
pub enum DebounceError {
    /// The key lies beyond the press history's capacity.
    KeyIdOutOfRange { key: u16 },
}

/// A signal for the engine: the next input event, or the timer firing at `now`.
#[derive(Clone, Copy, Debug, PartialEq, Eq, Structural)]
pub enum Signal {
    Input(Event),
    Timer { now: u64 },
}

/// The event that an input record of the given fields stands for.
pub open spec fn spec_classify(event_type: u16, code: u16, value: i32, time: u64) -> Event {
    if event_type == EV_KEY && value == VALUE_PRESS {
        Event::Key(KeyEvent { key: code, kind: Transition::Press, time })
    } else if event_type == EV_KEY && value == VALUE_RELEASE {
        Event::Key(KeyEvent { key: code, kind: Transition::Release, time })
    } else {
        Event::Other(RawEvent { event_type, code, value, time })
    }
}

/// Sorts an input record into a press, a release or anything else. Only a
/// key record with value 1 or 0 is a transition; a repeat, or a record of
/// another type, keeps all its fields.
pub fn classify(event_type: u16, code: u16, value: i32, time: u64) -> (ev: Event)
    ensures
        ev == spec_classify(event_type, code, value, time),
{
    if event_type == EV_KEY && value == VALUE_PRESS {
        Event::Key(KeyEvent { key: code, kind: Transition::Press, time })
    } else if event_type == EV_KEY && value == VALUE_RELEASE {
        Event::Key(KeyEvent { key: code, kind: Transition::Release, time })
    } else {
        Event::Other(RawEvent { event_type, code, value, time })
    }
}

impl Event {
    /// The fields of the record to write for this event: type, code, value, time.
    pub open spec fn spec_fields(self) -> (u16, u16, i32, u64) {
        match self {
            Event::Key(k) => (
                EV_KEY,
                k.key,
                match k.kind {
                    Transition::Press => VALUE_PRESS,
                    Transition::Release => VALUE_RELEASE,
                },
                k.time,
            ),
            Event::Other(r) => (r.event_type, r.code, r.value, r.time),
        }
    }

    /// Turns the event back into the fields of an input record.
    pub fn fields(&self) -> (f: (u16, u16, i32, u64))
        ensures
            f == self.spec_fields(),
    {
        match self {
            Event::Key(k) => {
                let value: i32 = match k.kind {
                    Transition::Press => VALUE_PRESS,
                    Transition::Release => VALUE_RELEASE,
                };
                (EV_KEY, k.key, value, k.time)
            },
            Event::Other(r) => (r.event_type, r.code, r.value, r.time),
        }
    }
}

/// A record, sorted and turned back, is the record.
pub proof fn lemma_classify_keeps_fields(event_type: u16, code: u16, value: i32, time: u64)
    ensures
        spec_classify(event_type, code, value, time).spec_fields() == (
            event_type,
            code,
            value,
            time,
        ),
{
}

} // verus!
