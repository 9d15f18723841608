use keyboard_chatter_fix::backlog::BacklogEntry;
use keyboard_chatter_fix::engine::{threshold_or_default, DebounceEngine, DEFAULT_THRESHOLD_MS};
use keyboard_chatter_fix::event::{
    Action, DebounceError, Event, KeyEvent, RawEvent, Signal, Transition,
};
use keyboard_chatter_fix::history::KEY_CAPACITY;

const KEY_A: u16 = 30;
const KEY_B: u16 = 48;
const MS: u64 = 1000;

fn press(key: u16, time: u64) -> Event {
    Event::Key(KeyEvent { key, kind: Transition::Press, time })
}

fn release(key: u16, time: u64) -> Event {
    Event::Key(KeyEvent { key, kind: Transition::Release, time })
}

fn emitted(engine: &mut DebounceEngine, input: &[Event]) -> Vec<Event> {
    let mut out = Vec::new();
    for ev in input {
        if let Ok(Action::Emit(e)) = engine.handle_event(*ev) {
            out.push(e);
        }
    }
    out
}

#[test]
fn chatter_burst_emits_only_the_first_press() {
    let mut engine = DebounceEngine::new(30);
    assert_eq!(engine.handle_event(press(KEY_A, 0)), Ok(Action::Emit(press(KEY_A, 0))));
    assert_eq!(engine.handle_event(release(KEY_A, 5 * MS)), Ok(Action::Nothing));
    assert_eq!(engine.backlog().len(), 1);
    assert_eq!(engine.handle_event(press(KEY_A, 12 * MS)), Ok(Action::Suppress));
    assert!(engine.backlog().is_empty());
    assert_eq!(engine.next_wait(12 * MS), None);
    assert_eq!(engine.on_timer(40 * MS), Action::Nothing);
}

#[test]
fn chatter_burst_output_stream_and_suppress_count() {
    let mut engine = DebounceEngine::new(30);
    let input = [press(KEY_A, 0), release(KEY_A, 5 * MS), press(KEY_A, 12 * MS)];
    let mut out = Vec::new();
    let mut suppressed = 0;
    for ev in input {
        match engine.handle_event(ev) {
            Ok(Action::Emit(e)) => out.push(e),
            Ok(Action::Suppress) => suppressed += 1,
            Ok(Action::Nothing) => {}
            Err(e) => panic!("unexpected error {:?}", e),
        }
    }
    assert_eq!(out, vec![press(KEY_A, 0)]);
    assert_eq!(suppressed, 1);
}

#[test]
fn long_hold_emits_press_and_scheduled_release_time_once() {
    let mut engine = DebounceEngine::new(30);
    let out = emitted(&mut engine, &[press(KEY_B, 0), release(KEY_B, 50 * MS)]);
    assert_eq!(out, vec![press(KEY_B, 0), release(KEY_B, 50 * MS)]);
    assert!(engine.backlog().is_empty());
    assert_eq!(engine.next_wait(50 * MS), None);
}

#[test]
fn withheld_release_is_emitted_one_threshold_after_the_press() {
    let mut engine = DebounceEngine::new(30);
    let t0 = 1_000_000;
    assert_eq!(engine.handle_event(press(KEY_A, t0)), Ok(Action::Emit(press(KEY_A, t0))));
    assert_eq!(engine.handle_event(release(KEY_A, t0 + 5 * MS)), Ok(Action::Nothing));
    assert_eq!(
        engine.backlog().peek_earliest(),
        Some(BacklogEntry { key: KEY_A, scheduled_release_time: t0 + 30 * MS })
    );
    assert_eq!(engine.next_wait(t0 + 5 * MS), Some(25 * MS));
    assert!(!engine.expiry_due(t0 + 30 * MS - 1));
    assert_eq!(engine.on_timer(t0 + 30 * MS - 1), Action::Nothing);
    assert_eq!(engine.backlog().len(), 1);
    assert!(engine.expiry_due(t0 + 30 * MS));
    assert_eq!(engine.next_wait(t0 + 30 * MS), Some(0));
    assert_eq!(
        engine.on_timer(t0 + 30 * MS),
        Action::Emit(release(KEY_A, t0 + 30 * MS))
    );
    assert_eq!(engine.on_timer(t0 + 30 * MS), Action::Nothing);
    assert_eq!(engine.next_wait(t0 + 30 * MS), None);
}

#[test]
fn handle_expiry_stamps_the_release_with_now() {
    let mut engine = DebounceEngine::new(30);
    engine.handle_event(press(KEY_A, 100 * MS)).unwrap();
    engine.handle_event(release(KEY_A, 101 * MS)).unwrap();
    assert!(engine.expiry_due(200 * MS));
    assert_eq!(engine.handle_expiry(200 * MS), Action::Emit(release(KEY_A, 200 * MS)));
    assert!(engine.backlog().is_empty());
}

#[test]
fn release_exactly_one_threshold_after_press_is_emitted() {
    let mut engine = DebounceEngine::new(30);
    engine.handle_event(press(KEY_A, 7)).unwrap();
    assert_eq!(
        engine.handle_event(release(KEY_A, 7 + 30 * MS)),
        Ok(Action::Emit(release(KEY_A, 7 + 30 * MS)))
    );
    assert!(engine.backlog().is_empty());
}

#[test]
fn release_just_inside_threshold_is_withheld() {
    let mut engine = DebounceEngine::new(30);
    engine.handle_event(press(KEY_A, 7)).unwrap();
    assert_eq!(engine.handle_event(release(KEY_A, 7 + 30 * MS - 1)), Ok(Action::Nothing));
    assert_eq!(engine.next_wait(7 + 30 * MS - 1), Some(1));
}

#[test]
fn release_without_any_press_is_emitted() {
    let mut engine = DebounceEngine::new(30);
    assert_eq!(engine.handle_event(release(KEY_A, 5)), Ok(Action::Emit(release(KEY_A, 5))));
    assert!(engine.backlog().is_empty());
    assert_eq!(engine.history().lookup(KEY_A), None);
}

#[test]
fn release_stamped_before_its_press_is_withheld() {
    let mut engine = DebounceEngine::new(30);
    engine.handle_event(press(KEY_A, 100 * MS)).unwrap();
    assert_eq!(engine.handle_event(release(KEY_A, 50 * MS)), Ok(Action::Nothing));
    assert_eq!(
        engine.backlog().peek_earliest(),
        Some(BacklogEntry { key: KEY_A, scheduled_release_time: 130 * MS })
    );
}

#[test]
fn key_beyond_capacity_is_an_error_and_changes_nothing() {
    let mut engine = DebounceEngine::with_capacity(30, 10);
    assert_eq!(
        engine.handle_event(press(10, 0)),
        Err(DebounceError::KeyIdOutOfRange { key: 10 })
    );
    assert_eq!(
        engine.handle_event(release(700, 1)),
        Err(DebounceError::KeyIdOutOfRange { key: 700 })
    );
    assert!(engine.backlog().is_empty());
    assert_eq!(engine.handle_event(press(9, 0)), Ok(Action::Emit(press(9, 0))));
}

#[test]
fn default_capacity_covers_keys_below_its_limit() {
    let mut engine = DebounceEngine::new(30);
    assert_eq!(engine.history().capacity(), KEY_CAPACITY);
    assert_eq!(KEY_CAPACITY, 743);
    assert_eq!(engine.handle_event(press(742, 3)), Ok(Action::Emit(press(742, 3))));
    assert_eq!(
        engine.handle_event(press(743, 3)),
        Err(DebounceError::KeyIdOutOfRange { key: 743 })
    );
}

#[test]
fn other_events_pass_through_untouched() {
    let mut engine = DebounceEngine::new(30);
    let ev = Event::Other(RawEvent { event_type: 2, code: 1, value: -4, time: 99 });
    assert_eq!(engine.handle_event(ev), Ok(Action::Emit(ev)));
    let repeat = Event::Other(RawEvent { event_type: 1, code: 60_000, value: 2, time: 99 });
    assert_eq!(engine.handle_event(repeat), Ok(Action::Emit(repeat)));
    assert!(engine.backlog().is_empty());
}

#[test]
fn press_is_recorded_only_when_emitted() {
    let mut engine = DebounceEngine::new(30);
    engine.handle_event(press(KEY_A, 0)).unwrap();
    assert_eq!(engine.history().lookup(KEY_A), Some(0));
    assert_eq!(engine.history().last_press(KEY_A), 0);
    engine.handle_event(release(KEY_A, 5 * MS)).unwrap();
    assert_eq!(engine.handle_event(press(KEY_A, 12 * MS)), Ok(Action::Suppress));
    assert_eq!(engine.history().lookup(KEY_A), Some(0));
    assert_eq!(engine.handle_event(release(KEY_A, 20 * MS)), Ok(Action::Nothing));
    assert_eq!(
        engine.backlog().peek_earliest(),
        Some(BacklogEntry { key: KEY_A, scheduled_release_time: 30 * MS })
    );
    assert_eq!(engine.handle_event(press(KEY_A, 22 * MS)), Ok(Action::Suppress));
    assert_eq!(
        engine.handle_event(release(KEY_A, 31 * MS)),
        Ok(Action::Emit(release(KEY_A, 31 * MS)))
    );
}

#[test]
fn a_key_never_has_two_withheld_releases() {
    let mut engine = DebounceEngine::new(30);
    engine.handle_event(press(KEY_A, 0)).unwrap();
    assert_eq!(engine.handle_event(release(KEY_A, 5 * MS)), Ok(Action::Nothing));
    assert_eq!(engine.handle_event(release(KEY_A, 6 * MS)), Ok(Action::Nothing));
    assert_eq!(engine.backlog().len(), 1);
    assert_eq!(engine.on_timer(30 * MS), Action::Emit(release(KEY_A, 30 * MS)));
    assert_eq!(engine.on_timer(30 * MS), Action::Nothing);
}

#[test]
fn keys_do_not_disturb_each_other() {
    let a = [press(KEY_A, 0), release(KEY_A, 5 * MS), press(KEY_A, 12 * MS)];
    let b = [press(KEY_B, 1 * MS), release(KEY_B, 60 * MS)];
    let mut alone_a = DebounceEngine::new(30);
    let mut alone_b = DebounceEngine::new(30);
    let out_a = emitted(&mut alone_a, &a);
    let out_b = emitted(&mut alone_b, &b);
    assert_eq!(out_a, vec![press(KEY_A, 0)]);
    assert_eq!(out_b, vec![press(KEY_B, 1 * MS), release(KEY_B, 60 * MS)]);

    let mut both = DebounceEngine::new(30);
    let mixed = [a[0], b[0], a[1], a[2], b[1]];
    let out = emitted(&mut both, &mixed);
    let only_a: Vec<Event> =
        out.iter().copied().filter(|e| matches!(e, Event::Key(k) if k.key == KEY_A)).collect();
    let only_b: Vec<Event> =
        out.iter().copied().filter(|e| matches!(e, Event::Key(k) if k.key == KEY_B)).collect();
    assert_eq!(only_a, out_a);
    assert_eq!(only_b, out_b);
}

#[test]
fn a_press_cancels_only_its_own_key() {
    let mut engine = DebounceEngine::new(30);
    engine.handle_event(press(KEY_A, 0)).unwrap();
    engine.handle_event(press(KEY_B, 1 * MS)).unwrap();
    engine.handle_event(release(KEY_A, 5 * MS)).unwrap();
    engine.handle_event(release(KEY_B, 6 * MS)).unwrap();
    assert_eq!(engine.backlog().len(), 2);
    assert_eq!(engine.handle_event(press(KEY_A, 8 * MS)), Ok(Action::Suppress));
    assert_eq!(
        engine.backlog().peek_earliest(),
        Some(BacklogEntry { key: KEY_B, scheduled_release_time: 31 * MS })
    );
    assert!(!engine.backlog().contains_key(KEY_A));
    assert!(engine.backlog().contains_key(KEY_B));
}

#[test]
fn timer_hands_on_the_earliest_release_first() {
    let mut engine = DebounceEngine::new(30);
    engine.handle_event(press(KEY_B, 10 * MS)).unwrap();
    engine.handle_event(press(KEY_A, 0)).unwrap();
    engine.handle_event(release(KEY_B, 11 * MS)).unwrap();
    engine.handle_event(release(KEY_A, 12 * MS)).unwrap();
    assert_eq!(engine.next_wait(12 * MS), Some(18 * MS));
    assert_eq!(engine.on_timer(50 * MS), Action::Emit(release(KEY_A, 50 * MS)));
    assert_eq!(engine.next_wait(50 * MS), Some(0));
    assert_eq!(engine.on_timer(50 * MS), Action::Emit(release(KEY_B, 50 * MS)));
    assert_eq!(engine.next_wait(50 * MS), None);
}

#[test]
fn step_takes_input_and_timer_signals() {
    let mut engine = DebounceEngine::new(30);
    assert_eq!(
        engine.step(Signal::Input(press(KEY_A, 0))),
        Ok(Action::Emit(press(KEY_A, 0)))
    );
    assert_eq!(engine.step(Signal::Input(release(KEY_A, 5 * MS))), Ok(Action::Nothing));
    assert_eq!(engine.step(Signal::Timer { now: 29 * MS }), Ok(Action::Nothing));
    assert_eq!(
        engine.step(Signal::Timer { now: 31 * MS }),
        Ok(Action::Emit(release(KEY_A, 31 * MS)))
    );
    assert_eq!(
        engine.step(Signal::Input(press(60_000, 0))),
        Err(DebounceError::KeyIdOutOfRange { key: 60_000 })
    );
}

#[test]
fn threshold_is_kept_in_microseconds() {
    assert_eq!(DebounceEngine::new(30).threshold(), 30_000);
    assert_eq!(DebounceEngine::new(0).threshold(), 0);
    assert_eq!(DebounceEngine::new(u32::MAX).threshold(), 4_294_967_295_000);
}

#[test]
fn threshold_defaults_to_thirty_milliseconds() {
    assert_eq!(DEFAULT_THRESHOLD_MS, 30);
    assert_eq!(threshold_or_default(None), 30);
    assert_eq!(threshold_or_default(Some(45)), 45);
    assert_eq!(threshold_or_default(Some(0)), 0);
}

#[test]
fn zero_threshold_withholds_nothing() {
    let mut engine = DebounceEngine::new(0);
    let out = emitted(&mut engine, &[press(KEY_A, 10), release(KEY_A, 10)]);
    assert_eq!(out, vec![press(KEY_A, 10), release(KEY_A, 10)]);
}

#[test]
fn deadline_stops_at_the_end_of_time() {
    let mut engine = DebounceEngine::new(30);
    engine.handle_event(press(KEY_A, u64::MAX - 5)).unwrap();
    assert_eq!(engine.handle_event(release(KEY_A, u64::MAX - 1)), Ok(Action::Nothing));
    assert_eq!(
        engine.backlog().peek_earliest(),
        Some(BacklogEntry { key: KEY_A, scheduled_release_time: u64::MAX })
    );
    assert_eq!(engine.next_wait(u64::MAX - 1), Some(1));
}
