use pingme::daemon::{action, poll_window, step, Action, Event, State, Window, POLL_INTERVAL_SECONDS};
use pingme::models::Message;
use pingme::time::{Timestamp, MAX_SECONDS};

const NOW: i64 = 1_700_000_000;

fn moment(secs: i64) -> Timestamp {
    Timestamp::from_parts(secs, 0).unwrap()
}

fn row(id: i32, text: &str, added: i64, notify: Option<i64>) -> Message {
    Message {
        id: Some(id),
        text: text.to_string(),
        added_at: moment(added),
        notify_at: notify.map(moment),
    }
}

fn cycle_to_dispatch(now: i64, rows: Vec<Message>) -> State {
    let state = step(State::initial(), Event::Clock(moment(now)));
    step(state, Event::Rows(rows))
}

#[test]
fn poll_interval_is_five_seconds() {
    assert_eq!(POLL_INTERVAL_SECONDS, 5);
    assert_eq!(action(&State::Sleeping), Action::Sleep(5));
}

#[test]
fn window_starts_now_and_ends_an_interval_later() {
    let now = Timestamp::from_parts(NOW, 123).unwrap();
    let window = poll_window(now);
    assert_eq!(window.from, now);
    assert_eq!(window.to, Timestamp::from_parts(NOW + 5, 123).unwrap());
}

#[test]
fn window_ends_at_the_last_instant_when_an_interval_later_is_beyond_it() {
    let now = moment(MAX_SECONDS - 2);
    let window = poll_window(now);
    assert_eq!(window.from, now);
    assert_eq!(window.to, Timestamp::latest());
    let just_fits = Timestamp::from_parts(MAX_SECONDS - 5, 999_999_999).unwrap();
    assert_eq!(poll_window(just_fits).to, Timestamp::latest());
}

#[test]
fn daemon_starts_idle_and_reads_the_clock() {
    assert_eq!(State::initial(), State::Idle);
    assert_eq!(action(&State::Idle), Action::ReadClock);
}

#[test]
fn clock_reading_fixes_the_window_and_asks_for_the_records() {
    let state = step(State::Idle, Event::Clock(moment(NOW)));
    assert_eq!(
        state,
        State::Scanning(Window { from: moment(NOW), to: moment(NOW + 5) })
    );
    assert_eq!(action(&state), Action::Load);
}

#[test]
fn first_cycle_delivers_the_record_due_in_two_seconds_and_a_later_one_the_other() {
    let soon = row(1, "soon", NOW - 10, Some(NOW + 2));
    let later = row(2, "later", NOW - 5, Some(NOW + 20));
    let rows = vec![soon.clone(), later.clone()];

    let mut state = cycle_to_dispatch(NOW, rows.clone());
    assert_eq!(state, State::Dispatching(vec![soon.clone()]));
    assert_eq!(action(&state), Action::Notify(soon.clone()));
    state = step(state, Event::Delivered);
    assert_eq!(state, State::Sleeping);
    assert_eq!(action(&state), Action::Sleep(5));
    state = step(state, Event::Woke);
    assert_eq!(state, State::Idle);

    for k in 1..3 {
        let quiet = cycle_to_dispatch(NOW + 5 * k, rows.clone());
        assert_eq!(quiet, State::Sleeping);
    }

    let due = cycle_to_dispatch(NOW + 15, rows.clone());
    assert_eq!(due, State::Dispatching(vec![later.clone()]));
    assert_eq!(action(&due), Action::Notify(later));
    assert_eq!(step(due, Event::Delivered), State::Sleeping);

    assert_eq!(cycle_to_dispatch(NOW + 21, rows), State::Sleeping);
}

#[test]
fn window_holds_both_of_its_ends() {
    let at_start = row(1, "start", NOW - 1, Some(NOW));
    let at_end = row(2, "end", NOW - 2, Some(NOW + 5));
    let before = row(3, "before", NOW - 3, Some(NOW - 1));
    let after = row(4, "after", NOW - 4, Some(NOW + 6));
    let never = row(5, "never", NOW - 5, None);
    let state = cycle_to_dispatch(NOW, vec![at_start.clone(), at_end.clone(), before, after, never]);
    assert_eq!(state, State::Dispatching(vec![at_start, at_end]));
}

#[test]
fn due_records_are_delivered_newest_first_each_once() {
    let a = row(1, "a", NOW - 30, Some(NOW + 1));
    let b = row(2, "b", NOW - 10, Some(NOW + 3));
    let c = row(3, "c", NOW - 20, Some(NOW + 2));
    let mut state = cycle_to_dispatch(NOW, vec![a.clone(), b.clone(), c.clone()]);
    let mut shown: Vec<String> = Vec::new();
    loop {
        match action(&state) {
            Action::Notify(message) => {
                shown.push(message.text);
                state = step(state, Event::Delivered);
            }
            other => {
                assert_eq!(other, Action::Sleep(5));
                break;
            }
        }
    }
    assert_eq!(shown, vec!["b", "c", "a"]);
    assert_eq!(state, State::Sleeping);
}

#[test]
fn failed_delivery_ends_the_dispatch_of_the_cycle() {
    let a = row(1, "a", NOW - 30, Some(NOW + 1));
    let b = row(2, "b", NOW - 10, Some(NOW + 3));
    let c = row(3, "c", NOW - 20, Some(NOW + 2));
    let mut state = cycle_to_dispatch(NOW, vec![a, b.clone(), c.clone()]);
    assert_eq!(action(&state), Action::Notify(b));
    state = step(state, Event::Delivered);
    assert_eq!(action(&state), Action::Notify(c));
    state = step(state, Event::DeliveryFailed);
    assert_eq!(state, State::Sleeping);
    assert_eq!(action(&state), Action::Sleep(5));
    assert_eq!(step(state, Event::Woke), State::Idle);
}

#[test]
fn failed_first_delivery_leaves_the_rest_undelivered() {
    let a = row(1, "a", NOW - 30, Some(NOW + 1));
    let b = row(2, "b", NOW - 10, Some(NOW + 3));
    let state = cycle_to_dispatch(NOW, vec![a, b]);
    assert_eq!(step(state, Event::DeliveryFailed), State::Sleeping);
}

#[test]
fn nothing_due_leads_to_sleep() {
    assert_eq!(cycle_to_dispatch(NOW, Vec::new()), State::Sleeping);
    let unscheduled = row(1, "x", NOW, None);
    assert_eq!(cycle_to_dispatch(NOW, vec![unscheduled]), State::Sleeping);
}

#[test]
fn failed_load_ends_the_cycle_without_sleep() {
    let scanning = step(State::Idle, Event::Clock(moment(NOW)));
    let state = step(scanning, Event::LoadFailed);
    assert_eq!(state, State::Idle);
    assert_eq!(action(&state), Action::ReadClock);
}

#[test]
fn rows_that_share_an_identity_count_as_a_failed_load() {
    let a = row(1, "a", NOW, Some(NOW + 1));
    let b = row(1, "b", NOW, Some(NOW + 1));
    assert_eq!(cycle_to_dispatch(NOW, vec![a, b]), State::Idle);
}

#[test]
fn events_that_a_state_does_not_wait_for_change_nothing() {
    assert_eq!(step(State::Idle, Event::Woke), State::Idle);
    assert_eq!(step(State::Idle, Event::Delivered), State::Idle);
    assert_eq!(step(State::Idle, Event::Rows(Vec::new())), State::Idle);
    let window = poll_window(moment(NOW));
    assert_eq!(
        step(State::Scanning(window), Event::Clock(moment(NOW + 1))),
        State::Scanning(window)
    );
    assert_eq!(
        step(State::Scanning(window), Event::Delivered),
        State::Scanning(window)
    );
    assert_eq!(step(State::Sleeping, Event::Clock(moment(NOW))), State::Sleeping);
    assert_eq!(step(State::Sleeping, Event::DeliveryFailed), State::Sleeping);
    let pending = vec![row(1, "a", NOW, Some(NOW + 1))];
    assert_eq!(
        step(State::Dispatching(pending.clone()), Event::Woke),
        State::Dispatching(pending.clone())
    );
    assert_eq!(
        step(State::Dispatching(pending.clone()), Event::LoadFailed),
        State::Dispatching(pending)
    );
}

#[test]
fn dispatch_with_nothing_pending_behaves_as_sleep() {
    let state = State::Dispatching(Vec::new());
    assert_eq!(action(&state), Action::Sleep(5));
    assert_eq!(step(State::Dispatching(Vec::new()), Event::Woke), State::Idle);
    assert_eq!(step(State::Dispatching(Vec::new()), Event::Delivered), State::Sleeping);
}

#[test]
fn record_due_between_a_window_and_a_late_poll_is_never_delivered() {
    let missed = row(1, "missed", NOW - 1, Some(NOW + 6));
    let rows = vec![missed];
    assert_eq!(cycle_to_dispatch(NOW, rows.clone()), State::Sleeping);
    assert_eq!(cycle_to_dispatch(NOW + 7, rows.clone()), State::Sleeping);
    assert_ne!(cycle_to_dispatch(NOW + 5, rows), State::Sleeping);
}

#[test]
fn prompt_polls_deliver_every_record_that_falls_due() {
    let dues: [i64; 7] = [0, 3, 4, 9, 17, 31, 36];
    let rows: Vec<Message> = dues
        .iter()
        .enumerate()
        .map(|(i, due)| row(i as i32 + 1, &format!("r{}", i), NOW - 100 + i as i64, Some(NOW + due)))
        .collect();
    let readings: [i64; 9] = [0, 4, 9, 13, 18, 22, 27, 31, 36];
    let mut shown: Vec<String> = Vec::new();
    for reading in readings {
        let mut state = cycle_to_dispatch(NOW + reading, rows.clone());
        while let Action::Notify(message) = action(&state) {
            shown.push(message.text);
            state = step(state, Event::Delivered);
        }
        assert_eq!(state, State::Sleeping);
    }
    for i in 0..dues.len() {
        assert!(shown.contains(&format!("r{}", i)));
    }
}
