//! The debounce decisions: one signal in, one action out.

use vstd::prelude::*;
use crate::backlog::{holds_key, well_formed, with_entry, without_key, Backlog, BacklogEntry};
use crate::event::{Action, DebounceError, Event, KeyEvent, Signal, Transition};
use crate::history::{PressHistory, KEY_CAPACITY};

verus! {

/// Threshold, in milliseconds, of an engine that was given none.
pub const DEFAULT_THRESHOLD_MS: u32 = 30;

/// Microseconds in a millisecond.
pub const MICROS_PER_MILLI: u64 = 1000;

/// When a release withheld after a press at `last` is due: one threshold
/// later, or at the end of time where that lies beyond it.
pub open spec fn release_deadline(last: u64, threshold: u64) -> u64 {
    if last + threshold > u64::MAX {
        u64::MAX
    } else {
        (last + threshold) as u64
    }
}

/// A release at `t` is suspect when the key's last press is less than one
/// threshold before it. A key that was never pressed is never suspect.
pub open spec fn is_suspect(last: Option<u64>, threshold: u64, t: u64) -> bool {
    match last {
        Some(p) => t - p < threshold,
        None => false,
    }
}

/// The answer to a key event, from what is known of that key alone: its last
/// press and whether its release is withheld.
pub open spec fn decide(last: Option<u64>, withheld: bool, threshold: u64, k: KeyEvent) -> Action {
    match k.kind {
        Transition::Press => if withheld {
            Action::Suppress
        } else {
            Action::Emit(Event::Key(k))
        },
        Transition::Release => if is_suspect(last, threshold, k.time) {
            Action::Nothing
        } else {
            Action::Emit(Event::Key(k))
        },
    }
}

/// The threshold in milliseconds that a configuration asks for.
pub open spec fn spec_threshold_or_default(configured: Option<u32>) -> u32 {
    match configured {
        Some(ms) => ms,
        None => DEFAULT_THRESHOLD_MS,
    }
}

/// The configured threshold, or the default where none is configured.
pub fn threshold_or_default(configured: Option<u32>) -> (ms: u32)
    ensures
        ms == spec_threshold_or_default(configured),
{
    match configured {
        Some(ms) => ms,
        None => DEFAULT_THRESHOLD_MS,
    }
}

/// What an engine knows: the threshold in microseconds, each key's last
/// press, and the withheld releases, earliest first.
pub ghost struct EngineState {
    pub threshold: u64,
    pub history: Seq<Option<u64>>,
    pub backlog: Seq<BacklogEntry>,
}

impl EngineState {
    /// The backlog is in due order and holds no key twice.
    pub open spec fn wf(self) -> bool {
        well_formed(self.backlog)
    }

    /// The press history has a place for `key`.
    pub open spec fn covers(self, key: u16) -> bool {
        key < self.history.len()
    }

    /// The state after a key event on a key that the history covers.
    pub open spec fn after_key(self, k: KeyEvent) -> EngineState {
        let last = self.history[k.key as int];
        match k.kind {
            Transition::Press => if holds_key(self.backlog, k.key) {
                EngineState {
                    threshold: self.threshold,
                    history: self.history,
                    backlog: without_key(self.backlog, k.key),
                }
            } else {
                EngineState {
                    threshold: self.threshold,
                    history: self.history.update(k.key as int, Some(k.time)),
                    backlog: self.backlog,
                }
            },
            Transition::Release => if is_suspect(last, self.threshold, k.time) && !holds_key(
                self.backlog,
                k.key,
            ) {
                EngineState {
                    threshold: self.threshold,
                    history: self.history,
                    backlog: with_entry(
                        self.backlog,
                        BacklogEntry {
                            key: k.key,
                            scheduled_release_time: release_deadline(last.unwrap(), self.threshold),
                        },
                    ),
                }
            } else {
                self
            },
        }
    }

    /// The answer to a key event on a key that the history covers.
    pub open spec fn action_on_key(self, k: KeyEvent) -> Action {
        decide(self.history[k.key as int], holds_key(self.backlog, k.key), self.threshold, k)
    }

    /// The state after an input event.
    pub open spec fn after_event(self, ev: Event) -> EngineState {
        match ev {
            Event::Key(k) => if self.covers(k.key) {
                self.after_key(k)
            } else {
                self
            },
            Event::Other(_) => self,
        }
    }

    /// The answer to an input event.
    pub open spec fn result_of_event(self, ev: Event) -> Result<Action, DebounceError> {
        match ev {
            Event::Key(k) => if self.covers(k.key) {
                Ok(self.action_on_key(k))
            } else {
                Err(DebounceError::KeyIdOutOfRange { key: k.key })
            },
            Event::Other(_) => Ok(Action::Emit(ev)),
        }
    }

    /// A withheld release is due at `now`.
    pub open spec fn expiry_due(self, now: u64) -> bool {
        self.backlog.len() > 0 && self.backlog[0].scheduled_release_time <= now
    }

    /// The state after the earliest withheld release was handed on.
    pub open spec fn after_expiry(self) -> EngineState {
        EngineState {
            threshold: self.threshold,
            history: self.history,
            backlog: self.backlog.drop_first(),
        }
    }

    /// The release that is handed on at `now`.
    pub open spec fn expiry_action(self, now: u64) -> Action {
        Action::Emit(
            Event::Key(
                KeyEvent { key: self.backlog[0].key, kind: Transition::Release, time: now },
            ),
        )
    }

    /// The state after the timer fired at `now`.
    pub open spec fn after_timer(self, now: u64) -> EngineState {
        if self.expiry_due(now) {
            self.after_expiry()
        } else {
            self
        }
    }

    /// The answer to the timer firing at `now`.
    pub open spec fn timer_action(self, now: u64) -> Action {
        if self.expiry_due(now) {
            self.expiry_action(now)
        } else {
            Action::Nothing
        }
    }

    /// The state after a signal.
    pub open spec fn after_signal(self, signal: Signal) -> EngineState {
        match signal {
            Signal::Input(ev) => self.after_event(ev),
            Signal::Timer { now } => self.after_timer(now),
        }
    }

    /// The answer to a signal.
    pub open spec fn result_of_signal(self, signal: Signal) -> Result<Action, DebounceError> {
        match signal {
            Signal::Input(ev) => self.result_of_event(ev),
            Signal::Timer { now } => Ok(self.timer_action(now)),
        }
    }

    /// How long from `now` until the timer has to fire: until the earliest
    /// withheld release is due, not at all where it already is, and `None`
    /// where nothing is withheld.
    pub open spec fn wait(self, now: u64) -> Option<u64> {
        if self.backlog.len() == 0 {
            None
        } else if self.backlog[0].scheduled_release_time <= now {
            Some(0)
        } else {
            Some((self.backlog[0].scheduled_release_time - now) as u64)
        }
    }
}

/// The debounce engine: owns the press history and the backlog.
pub struct DebounceEngine {
    threshold: u64,
    history: PressHistory,
    backlog: Backlog,
}

impl View for DebounceEngine {
    type V = EngineState;

    closed spec fn view(&self) -> EngineState {
        EngineState { threshold: self.threshold, history: self.history@, backlog: self.backlog@ }
    }
}

impl DebounceEngine {
    /// The engine's state is well formed.
    pub open spec fn wf(&self) -> bool {
        self@.wf()
    }

    /// An engine with the given threshold in milliseconds, for the keys
    /// `0 .. capacity`: none pressed, nothing withheld.
    pub fn with_capacity(threshold_ms: u32, capacity: usize) -> (e: DebounceEngine)
        ensures
            e.wf(),
            e@.threshold == threshold_ms * MICROS_PER_MILLI,
            e@.history.len() == capacity,
            forall|k: int| 0 <= k < capacity ==> e@.history[k] == None::<u64>,
            e@.backlog == Seq::<BacklogEntry>::empty(),
    {
        let ms: u64 = threshold_ms as u64;
        DebounceEngine {
            threshold: ms * MICROS_PER_MILLI,
            history: PressHistory::new(capacity),
            backlog: Backlog::new(),
        }
    }

    /// An engine with the given threshold in milliseconds and the default
    /// key range.
    pub fn new(threshold_ms: u32) -> (e: DebounceEngine)
        ensures
            e.wf(),
            e@.threshold == threshold_ms * MICROS_PER_MILLI,
            e@.history.len() == KEY_CAPACITY,
            forall|k: int| 0 <= k < KEY_CAPACITY ==> e@.history[k] == None::<u64>,
            e@.backlog == Seq::<BacklogEntry>::empty(),
    {
        DebounceEngine::with_capacity(threshold_ms, KEY_CAPACITY)
    }

    /// The threshold in microseconds.
    pub fn threshold(&self) -> (t: u64)
        ensures
            t == self@.threshold,
    {
        self.threshold
    }

    /// The press history.
    pub fn history(&self) -> (h: &PressHistory)
        ensures
            h@ == self@.history,
    {
        &self.history
    }

    /// The withheld releases.
    pub fn backlog(&self) -> (b: &Backlog)
        ensures
            b@ == self@.backlog,
            self.wf() ==> b.wf(),
    {
        &self.backlog
    }

    /// When a release withheld after a press at `last` is due.
    fn deadline(&self, last: u64) -> (d: u64)
        ensures
            d == release_deadline(last, self@.threshold),
    {
        if last > u64::MAX - self.threshold {
            u64::MAX
        } else {
            last + self.threshold
        }
    }

    /// Takes one input event and says what to write.
    ///
    /// A press while the key's release is withheld cancels that release and
    /// is suppressed itself; any other press is recorded and emitted. A
    /// release less than one threshold after the key's last press is
    /// withheld until one threshold after that press; any other release is
    /// emitted. While a key's release is withheld, a further such release of
    /// that key is absorbed by it: there is never a second entry for a key.
    /// An event that is no key transition is emitted as it is. A key beyond
    /// the history's capacity is an error and changes nothing.
    pub fn handle_event(&mut self, ev: Event) -> (r: Result<Action, DebounceError>)
        requires
            old(self).wf(),
        ensures
            final(self).wf(),
            final(self)@ == old(self)@.after_event(ev),
            r == old(self)@.result_of_event(ev),
    {
        match ev {
            Event::Other(_) => Ok(Action::Emit(ev)),
            Event::Key(k) => {
                if !self.history.covers(k.key) {
                    return Err(DebounceError::KeyIdOutOfRange { key: k.key });
                }
                match k.kind {
                    Transition::Press => {
                        match self.backlog.remove_by_key(k.key) {
                            Some(_) => Ok(Action::Suppress),
                            None => {
                                self.history.record_press(k.key, k.time);
                                Ok(Action::Emit(ev))
                            },
                        }
                    },
                    Transition::Release => {
                        match self.history.lookup(k.key) {
                            Some(p) => {
                                if k.time < p || k.time - p < self.threshold {
                                    if !self.backlog.contains_key(k.key) {
                                        let due = self.deadline(p);
                                        self.backlog.push(
                                            BacklogEntry { key: k.key, scheduled_release_time: due },
                                        );
                                    }
                                    Ok(Action::Nothing)
                                } else {
                                    Ok(Action::Emit(ev))
                                }
                            },
                            None => Ok(Action::Emit(ev)),
                        }
                    },
                }
            },
        }
    }

    /// Hands on the earliest withheld release, stamped `now`.
    pub fn handle_expiry(&mut self, now: u64) -> (a: Action)
        requires
            old(self).wf(),
            old(self)@.expiry_due(now),
        ensures
            final(self).wf(),
            final(self)@ == old(self)@.after_expiry(),
            a == old(self)@.expiry_action(now),
    {
        let e = self.backlog.pop_earliest();
        Action::Emit(Event::Key(KeyEvent { key: e.key, kind: Transition::Release, time: now }))
    }

    /// Whether the earliest withheld release is due at `now`.
    pub fn expiry_due(&self, now: u64) -> (b: bool)
        ensures
            b == self@.expiry_due(now),
    {
        match self.backlog.peek_earliest() {
            Some(e) => e.scheduled_release_time <= now,
            None => false,
        }
    }

    /// The timer fired at `now`: hands on the earliest withheld release if
    /// it is due, and does nothing otherwise.
    pub fn on_timer(&mut self, now: u64) -> (a: Action)
        requires
            old(self).wf(),
        ensures
            final(self).wf(),
            final(self)@ == old(self)@.after_timer(now),
            a == old(self)@.timer_action(now),
    {
        if self.expiry_due(now) {
            self.handle_expiry(now)
        } else {
            Action::Nothing
        }
    }

    /// How many microseconds from `now` the caller may wait for input
    /// before the timer has to fire; `None`: wait for input without limit.
    pub fn next_wait(&self, now: u64) -> (w: Option<u64>)
        ensures
            w == self@.wait(now),
    {
        match self.backlog.peek_earliest() {
            Some(e) => if e.scheduled_release_time <= now {
                Some(0)
            } else {
                Some(e.scheduled_release_time - now)
            },
            None => None,
        }
    }

    /// Takes one signal, an input event or a timer tick, and says what to
    /// write.
    pub fn step(&mut self, signal: Signal) -> (r: Result<Action, DebounceError>)
        requires
            old(self).wf(),
        ensures
            final(self).wf(),
            final(self)@ == old(self)@.after_signal(signal),
            r == old(self)@.result_of_signal(signal),
    {
        match signal {
            Signal::Input(ev) => self.handle_event(ev),
            Signal::Timer { now } => Ok(self.on_timer(now)),
        }
    }
}

} // verus!
