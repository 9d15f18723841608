//! What holds of the engine on every input, proved over its state model.

use vstd::prelude::*;
use crate::backlog::{
    distinct_keys, holds_key, index_of_key, lemma_drop_first, lemma_key_at, lemma_with_entry,
    lemma_without_key, pending, sorted, BacklogEntry,
};
use crate::engine::{release_deadline, EngineState};
use crate::event::{Action, DebounceError, Event, KeyEvent, Signal, Transition};

verus! {

/// The press of `key` at `time`.
pub open spec fn press(key: u16, time: u64) -> Event {
    Event::Key(KeyEvent { key, kind: Transition::Press, time })
}

/// The release of `key` at `time`.
pub open spec fn release(key: u16, time: u64) -> Event {
    Event::Key(KeyEvent { key, kind: Transition::Release, time })
}

/// The engine answers with `action`.
pub open spec fn answer(action: Action) -> Result<Action, DebounceError> {
    Ok(action)
}

/// The event is a transition of `key`.
pub open spec fn concerns(ev: Event, key: u16) -> bool {
    match ev {
        Event::Key(k) => k.key == key,
        Event::Other(_) => false,
    }
}

/// Two states know the same of `key`: its last press and its withheld
/// release.
pub open spec fn agree_on(a: EngineState, b: EngineState, key: u16) -> bool {
    &&& a.threshold == b.threshold
    &&& a.covers(key) == b.covers(key)
    &&& a.covers(key) ==> a.history[key as int] == b.history[key as int]
    &&& pending(a.backlog, key) == pending(b.backlog, key)
}

/// Every signal leaves the backlog in due order and with at most one entry
/// for each key.
pub proof fn lemma_signal_keeps_wf(s: EngineState, signal: Signal)
    requires
        s.wf(),
    ensures
        s.after_signal(signal).wf(),
{
    match signal {
        Signal::Input(Event::Key(k)) => {
            lemma_without_key(s.backlog, k.key);
            if s.covers(k.key) && k.kind == Transition::Release && !holds_key(s.backlog, k.key)
                && s.history[k.key as int] is Some {
                lemma_with_entry(
                    s.backlog,
                    BacklogEntry {
                        key: k.key,
                        scheduled_release_time: release_deadline(
                            s.history[k.key as int].unwrap(),
                            s.threshold,
                        ),
                    },
                );
            }
        },
        Signal::Input(Event::Other(_)) => {},
        Signal::Timer { now } => {
            if s.expiry_due(now) {
                lemma_drop_first(s.backlog);
                lemma_without_key(s.backlog, s.backlog[0].key);
            }
        },
    }
}

/// A press of a key whose release is not withheld is emitted as it came,
/// key and time unchanged, and recorded as the key's last press.
pub proof fn lemma_real_press_is_emitted(s: EngineState, key: u16, time: u64)
    requires
        s.covers(key),
        !holds_key(s.backlog, key),
    ensures
        s.result_of_event(press(key, time)) == answer(Action::Emit(press(key, time))),
        s.after_event(press(key, time)).history == s.history.update(key as int, Some(time)),
        s.after_event(press(key, time)).backlog == s.backlog,
{
}

/// Press, release within the threshold, press again: the first press is
/// emitted, the release is withheld, the second press is suppressed and
/// takes the release with it, so that the backlog is what it was.
pub proof fn lemma_chatter_is_suppressed(s: EngineState, key: u16, t0: u64, t1: u64, t2: u64)
    requires
        s.wf(),
        s.covers(key),
        !holds_key(s.backlog, key),
        t1 - t0 < s.threshold,
    ensures
        ({
            let s1 = s.after_event(press(key, t0));
            let s2 = s1.after_event(release(key, t1));
            let s3 = s2.after_event(press(key, t2));
            &&& s.result_of_event(press(key, t0)) == answer(
                Action::Emit(press(key, t0)),
            )
            &&& s1.result_of_event(release(key, t1)) == answer(Action::Nothing)
            &&& pending(s2.backlog, key) == Some(release_deadline(t0, s.threshold))
            &&& s2.result_of_event(press(key, t2)) == answer(Action::Suppress)
            &&& s3.backlog == s.backlog
            &&& s3.history == s.history.update(key as int, Some(t0))
        }),
{
    let e = BacklogEntry { key, scheduled_release_time: release_deadline(t0, s.threshold) };
    lemma_with_entry(s.backlog, e);
}

/// A release within the threshold of its press is withheld until one
/// threshold after the press. With nothing else withheld, the caller is
/// told to wait exactly that long; a timer that fires earlier writes
/// nothing and changes nothing; a timer that fires then or later emits the
/// release once, stamped with its own time, and leaves nothing withheld.
pub proof fn lemma_withheld_release_is_emitted_when_due(
    s: EngineState,
    key: u16,
    t0: u64,
    t1: u64,
    now: u64,
)
    requires
        s.wf(),
        s.covers(key),
        s.backlog.len() == 0,
        t1 - t0 < s.threshold,
    ensures
        ({
            let due = release_deadline(t0, s.threshold);
            let s2 = s.after_event(press(key, t0)).after_event(release(key, t1));
            &&& s2.backlog == seq![BacklogEntry { key, scheduled_release_time: due }]
            &&& s2.wait(now) == Some(if now < due { (due - now) as u64 } else { 0u64 })
            &&& now < due ==> s2.timer_action(now) == Action::Nothing && s2.after_timer(now) == s2
            &&& now >= due ==> s2.timer_action(now) == Action::Emit(release(key, now))
                && s2.after_timer(now).backlog.len() == 0
                && s2.after_timer(now).timer_action(now) == Action::Nothing
        }),
{
    let due = release_deadline(t0, s.threshold);
    let e = BacklogEntry { key, scheduled_release_time: due };
    lemma_with_entry(s.backlog, e);
    let s2 = s.after_event(press(key, t0)).after_event(release(key, t1));
    assert(s2.backlog[0] == e) by {
        lemma_key_at(s2.backlog, 0);
    }
    assert(s2.backlog =~= seq![e]);
}

/// Whatever else is withheld, a timer that fires before a key's withheld
/// release is due does not emit that release and leaves it withheld.
pub proof fn lemma_timer_spares_what_is_not_due(s: EngineState, key: u16, now: u64)
    requires
        s.wf(),
        pending(s.backlog, key) is Some,
        now < pending(s.backlog, key).unwrap(),
    ensures
        s.timer_action(now) != Action::Emit(release(key, now)),
        pending(s.after_timer(now).backlog, key) == pending(s.backlog, key),
{
    if s.expiry_due(now) {
        lemma_key_at(s.backlog, 0);
        lemma_drop_first(s.backlog);
        lemma_without_key(s.backlog, s.backlog[0].key);
    }
}

/// Once a key's withheld release is due, every timer tick hands on one
/// withheld release, and the key's own as soon as it is the earliest.
pub proof fn lemma_timer_hands_on_what_is_due(s: EngineState, key: u16, now: u64)
    requires
        s.wf(),
        pending(s.backlog, key) is Some,
        now >= pending(s.backlog, key).unwrap(),
    ensures
        s.expiry_due(now),
        s.after_timer(now).backlog.len() == s.backlog.len() - 1,
        s.backlog[0].key == key ==> s.timer_action(now) == Action::Emit(release(key, now))
            && pending(s.after_timer(now).backlog, key) == None::<u64>,
        s.backlog[0].key != key ==> pending(s.after_timer(now).backlog, key) == pending(
            s.backlog,
            key,
        ),
{
    let i = index_of_key(s.backlog, key);
    assert(0 <= i < s.backlog.len() && s.backlog[i].key == key);
    if i > 0 {
        assert(s.backlog[0].scheduled_release_time <= s.backlog[i].scheduled_release_time);
    }
    lemma_drop_first(s.backlog);
    lemma_without_key(s.backlog, s.backlog[0].key);
}

/// Press, then a release one threshold or more later: both are emitted as
/// they came, the release at once, and nothing is withheld for it.
pub proof fn lemma_long_hold_passes_through(s: EngineState, key: u16, t0: u64, t1: u64)
    requires
        s.covers(key),
        !holds_key(s.backlog, key),
        t1 - t0 >= s.threshold,
    ensures
        ({
            let s1 = s.after_event(press(key, t0));
            let s2 = s1.after_event(release(key, t1));
            &&& s.result_of_event(press(key, t0)) == answer(
                Action::Emit(press(key, t0)),
            )
            &&& s1.result_of_event(release(key, t1)) == answer(
                Action::Emit(release(key, t1)),
            )
            &&& s2.backlog == s.backlog
            &&& s2.history == s.history.update(key as int, Some(t0))
        }),
{
}

/// A release of a key that was never pressed is emitted at once.
pub proof fn lemma_unmatched_release_is_emitted(s: EngineState, key: u16, time: u64)
    requires
        s.covers(key),
        s.history[key as int] is None,
    ensures
        s.result_of_event(release(key, time)) == answer(
            Action::Emit(release(key, time)),
        ),
        s.after_event(release(key, time)) == s,
{
}

/// An input event changes nothing of what the engine knows of another key.
pub proof fn lemma_event_spares_other_keys(s: EngineState, ev: Event, key: u16)
    requires
        s.wf(),
        !concerns(ev, key),
    ensures
        agree_on(s.after_event(ev), s, key),
{
    match ev {
        Event::Key(k) => {
            lemma_without_key(s.backlog, k.key);
            if s.covers(k.key) && k.kind == Transition::Release && !holds_key(s.backlog, k.key)
                && s.history[k.key as int] is Some {
                lemma_with_entry(
                    s.backlog,
                    BacklogEntry {
                        key: k.key,
                        scheduled_release_time: release_deadline(
                            s.history[k.key as int].unwrap(),
                            s.threshold,
                        ),
                    },
                );
            }
        },
        Event::Other(_) => {},
    }
}

/// The timer changes nothing of what the engine knows of a key other than
/// the one whose release it hands on.
pub proof fn lemma_timer_spares_other_keys(s: EngineState, now: u64, key: u16)
    requires
        s.wf(),
        s.expiry_due(now) ==> s.backlog[0].key != key,
    ensures
        agree_on(s.after_timer(now), s, key),
{
    if s.expiry_due(now) {
        lemma_drop_first(s.backlog);
        lemma_without_key(s.backlog, s.backlog[0].key);
    }
}

/// The answer to a key's event, and what the engine knows of that key
/// afterwards, follow from what it knew of that key before: two engines
/// that agree on a key answer its event alike and agree on it afterwards,
/// whatever they hold for other keys.
pub proof fn lemma_key_runs_alone(a: EngineState, b: EngineState, ev: Event, key: u16)
    requires
        a.wf(),
        b.wf(),
        concerns(ev, key),
        agree_on(a, b, key),
    ensures
        a.result_of_event(ev) == b.result_of_event(ev),
        agree_on(a.after_event(ev), b.after_event(ev), key),
{
    lemma_without_key(a.backlog, key);
    lemma_without_key(b.backlog, key);
    if a.covers(key) && a.history[key as int] is Some {
        let e = BacklogEntry {
            key,
            scheduled_release_time: release_deadline(a.history[key as int].unwrap(), a.threshold),
        };
        if !holds_key(a.backlog, key) {
            lemma_with_entry(a.backlog, e);
            lemma_with_entry(b.backlog, e);
        }
    }
}

/// The state after the input events `evs`, taken in order.
pub open spec fn run(s: EngineState, evs: Seq<Event>) -> EngineState
    decreases evs.len(),
{
    if evs.len() == 0 {
        s
    } else {
        run(s, evs.drop_last()).after_event(evs.last())
    }
}

/// The answers to the input events `evs`, in order.
pub open spec fn answers(s: EngineState, evs: Seq<Event>) -> Seq<Result<Action, DebounceError>>
    decreases evs.len(),
{
    if evs.len() == 0 {
        Seq::empty()
    } else {
        answers(s, evs.drop_last()).push(run(s, evs.drop_last()).result_of_event(evs.last()))
    }
}

/// Of the answers to `evs`, those to the events of `key`, in order.
pub open spec fn answers_for(s: EngineState, evs: Seq<Event>, key: u16) -> Seq<
    Result<Action, DebounceError>,
>
    decreases evs.len(),
{
    if evs.len() == 0 {
        Seq::empty()
    } else if concerns(evs.last(), key) {
        answers_for(s, evs.drop_last(), key).push(
            run(s, evs.drop_last()).result_of_event(evs.last()),
        )
    } else {
        answers_for(s, evs.drop_last(), key)
    }
}

/// Of `evs`, the events of `key`, in order.
pub open spec fn only(evs: Seq<Event>, key: u16) -> Seq<Event>
    decreases evs.len(),
{
    if evs.len() == 0 {
        Seq::empty()
    } else if concerns(evs.last(), key) {
        only(evs.drop_last(), key).push(evs.last())
    } else {
        only(evs.drop_last(), key)
    }
}

/// Keys do not disturb each other: in any interleaving of input events,
/// the answers to one key's events are the answers that an engine gives
/// which sees that key's events alone, and both engines know the same of
/// the key in the end.
pub proof fn lemma_keys_are_independent(a: EngineState, b: EngineState, evs: Seq<Event>, key: u16)
    requires
        a.wf(),
        b.wf(),
        agree_on(a, b, key),
    ensures
        answers_for(a, evs, key) == answers(b, only(evs, key)),
        agree_on(run(a, evs), run(b, only(evs, key)), key),
        run(a, evs).wf(),
        run(b, only(evs, key)).wf(),
    decreases evs.len(),
{
    if evs.len() > 0 {
        let pre = evs.drop_last();
        let ev = evs.last();
        lemma_keys_are_independent(a, b, pre, key);
        let mid_a = run(a, pre);
        let mid_b = run(b, only(pre, key));
        lemma_signal_keeps_wf(mid_a, Signal::Input(ev));
        if concerns(ev, key) {
            let mine = only(pre, key).push(ev);
            assert(mine.drop_last() =~= only(pre, key));
            assert(mine.last() == ev);
            lemma_signal_keeps_wf(mid_b, Signal::Input(ev));
            lemma_key_runs_alone(mid_a, mid_b, ev, key);
        } else {
            lemma_event_spares_other_keys(mid_a, ev, key);
        }
    }
}

/// The state after the signals `signals`, input events and timer ticks,
/// taken in order.
pub open spec fn run_signals(s: EngineState, signals: Seq<Signal>) -> EngineState
    decreases signals.len(),
{
    if signals.len() == 0 {
        s
    } else {
        run_signals(s, signals.drop_last()).after_signal(signals.last())
    }
}

/// Whatever the engine is fed, its backlog never holds two entries for one
/// key, and its entries stay in the order in which they are due.
pub proof fn lemma_one_entry_per_key_always(s: EngineState, signals: Seq<Signal>)
    requires
        s.wf(),
    ensures
        distinct_keys(run_signals(s, signals).backlog),
        sorted(run_signals(s, signals).backlog),
    decreases signals.len(),
{
    if signals.len() > 0 {
        lemma_one_entry_per_key_always(s, signals.drop_last());
        lemma_signal_keeps_wf(run_signals(s, signals.drop_last()), signals.last());
    }
}

} // verus!
