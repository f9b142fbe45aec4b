//! The delivery daemon's decisions. The daemon itself reads the clock, loads
//! the records, shows notifications and sleeps; what it does next, and to
//! which record, is decided here.

use vstd::prelude::*;
use crate::db::{list, listed, loaded, page, selector, Store};
use crate::models::{views, Message, MessageView};
use crate::time::{last_instant, representable, TimeSpan, Timestamp, NANOS_PER_SECOND};

verus! {

/// Seconds between two polls, and the width of the window that a poll scans.
pub const POLL_INTERVAL_SECONDS: i64 = 5;

/// The instants that one poll scans, both ends included.
#[derive(Clone, Copy, Debug, PartialEq, Eq, Structural)]
pub struct Window {
    pub from: Timestamp,
    pub to: Timestamp,
}

/// Where the daemon stands in its cycle.
#[derive(Debug, PartialEq, Eq)]
pub enum State {
    /// Between polls: the clock is read next.
    Idle,
    /// The window is fixed: the records are loaded next.
    Scanning(Window),
    /// The due records that are still to be delivered, in the store's order.
    /// The first of them is delivered next.
    Dispatching(Vec<Message>),
    /// The cycle's work is over: the daemon sleeps next.
    Sleeping,
}

/// What the daemon reports after doing what its state asked for.
#[derive(Debug, PartialEq, Eq)]
pub enum Event {
    /// The clock was read.
    Clock(Timestamp),
    /// The records were loaded.
    Rows(Vec<Message>),
    /// The records could not be loaded.
    LoadFailed,
    /// The notification was shown.
    Delivered,
    /// The notification could not be shown.
    DeliveryFailed,
    /// The sleep is over.
    Woke,
}

/// What the daemon is to do in a state.
#[derive(Debug, PartialEq, Eq)]
pub enum Action {
    /// Read the clock.
    ReadClock,
    /// Load every record.
    Load,
    /// Show this reminder.
    Notify(Message),
    /// Sleep this many seconds.
    Sleep(u64),
}

/// A state as a mathematical value.
pub enum StateView {
    Idle,
    Scanning { from: int, to: int },
    Dispatching(Seq<MessageView>),
    Sleeping,
}

/// An event as a mathematical value.
pub enum EventView {
    Clock(int),
    Rows(Seq<MessageView>),
    LoadFailed,
    Delivered,
    DeliveryFailed,
    Woke,
}

/// An action as a mathematical value.
pub enum ActionView {
    ReadClock,
    Load,
    Notify(MessageView),
    Sleep(int),
}

impl View for State {
    type V = StateView;

    open spec fn view(&self) -> StateView {
        match *self {
            State::Idle => StateView::Idle,
            State::Scanning(window) => StateView::Scanning { from: window.from@, to: window.to@ },
            State::Dispatching(pending) => StateView::Dispatching(views(pending@)),
            State::Sleeping => StateView::Sleeping,
        }
    }
}

impl View for Event {
    type V = EventView;

    open spec fn view(&self) -> EventView {
        match *self {
            Event::Clock(now) => EventView::Clock(now@),
            Event::Rows(rows) => EventView::Rows(views(rows@)),
            Event::LoadFailed => EventView::LoadFailed,
            Event::Delivered => EventView::Delivered,
            Event::DeliveryFailed => EventView::DeliveryFailed,
            Event::Woke => EventView::Woke,
        }
    }
}

impl View for Action {
    type V = ActionView;

    open spec fn view(&self) -> ActionView {
        match *self {
            Action::ReadClock => ActionView::ReadClock,
            Action::Load => ActionView::Load,
            Action::Notify(message) => ActionView::Notify(message@),
            Action::Sleep(seconds) => ActionView::Sleep(seconds as int),
        }
    }
}

/// The end of the window that starts at `now`: a poll interval later, or the
/// last instant there is if that comes first.
pub open spec fn window_end(now: int) -> int {
    if representable(now + POLL_INTERVAL_SECONDS * NANOS_PER_SECOND) {
        now + POLL_INTERVAL_SECONDS * NANOS_PER_SECOND
    } else {
        last_instant()
    }
}

/// The records of `s` that are due in the window: those with a delivery time
/// from `from` to `to`, in the order of `s`, all of them.
pub open spec fn due(s: Seq<MessageView>, from: int, to: int) -> Seq<MessageView> {
    listed(s, None, Some(from), Some(to), None, None)
}

/// What the daemon is to do in `state`.
pub open spec fn awaited(state: StateView) -> ActionView {
    match state {
        StateView::Idle => ActionView::ReadClock,
        StateView::Scanning { .. } => ActionView::Load,
        StateView::Dispatching(pending) => if pending.len() > 0 {
            ActionView::Notify(pending[0])
        } else {
            ActionView::Sleep(POLL_INTERVAL_SECONDS as int)
        },
        StateView::Sleeping => ActionView::Sleep(POLL_INTERVAL_SECONDS as int),
    }
}

/// The state after the scan of the window from `from` to `to` found `rows`.
pub open spec fn scanned(rows: Seq<MessageView>, from: int, to: int) -> StateView {
    match loaded(rows) {
        Some(s) => if due(s, from, to).len() > 0 {
            StateView::Dispatching(due(s, from, to))
        } else {
            StateView::Sleeping
        },
        None => StateView::Idle,
    }
}

/// The state that follows `state` on `event`. An event that the state does
/// not wait for leaves it as it is.
pub open spec fn next_state(state: StateView, event: EventView) -> StateView {
    match state {
        StateView::Idle => match event {
            EventView::Clock(now) => StateView::Scanning { from: now, to: window_end(now) },
            _ => state,
        },
        StateView::Scanning { from, to } => match event {
            EventView::Rows(rows) => scanned(rows, from, to),
            EventView::LoadFailed => StateView::Idle,
            _ => state,
        },
        StateView::Dispatching(pending) => match event {
            EventView::Delivered => if pending.len() > 1 {
                StateView::Dispatching(pending.skip(1))
            } else {
                StateView::Sleeping
            },
            EventView::DeliveryFailed => StateView::Sleeping,
            EventView::Woke => if pending.len() == 0 {
                StateView::Idle
            } else {
                state
            },
            _ => state,
        },
        StateView::Sleeping => match event {
            EventView::Woke => StateView::Idle,
            _ => state,
        },
    }
}

/// The window of the poll that reads `now` from the clock.
pub fn poll_window(now: Timestamp) -> (r: Window)
    ensures
        r.from == now,
        r.to@ == window_end(now@),
{
    let to = match now.checked_add(TimeSpan { seconds: POLL_INTERVAL_SECONDS }) {
        Some(to) => to,
        None => Timestamp::latest(),
    };
    Window { from: now, to }
}

impl State {
    /// The state in which the daemon starts.
    pub fn initial() -> (r: State)
        ensures
            r@ == StateView::Idle,
    {
        State::Idle
    }
}

/// What the daemon is to do in `state`.
pub fn action(state: &State) -> (r: Action)
    ensures
        r@ == awaited(state@),
{
    match state {
        State::Idle => Action::ReadClock,
        State::Scanning(_) => Action::Load,
        State::Dispatching(pending) => {
            if pending.len() > 0 {
                Action::Notify(pending[0].clone())
            } else {
                Action::Sleep(POLL_INTERVAL_SECONDS as u64)
            }
        },
        State::Sleeping => Action::Sleep(POLL_INTERVAL_SECONDS as u64),
    }
}

/// The state that follows `state` once the daemon reports `event`.
pub fn step(state: State, event: Event) -> (r: State)
    ensures
        r@ == next_state(state@, event@),
{
    match state {
        State::Idle => match event {
            Event::Clock(now) => State::Scanning(poll_window(now)),
            _ => State::Idle,
        },
        State::Scanning(window) => match event {
            Event::Rows(rows) => match Store::from_records(rows) {
                Ok(store) => {
                    let pending = list(&store, None, Some(window.from), Some(window.to), None, None);
                    if pending.len() > 0 {
                        State::Dispatching(pending)
                    } else {
                        State::Sleeping
                    }
                },
                Err(_) => State::Idle,
            },
            Event::LoadFailed => State::Idle,
            _ => State::Scanning(window),
        },
        State::Dispatching(pending) => match event {
            Event::Delivered => {
                if pending.len() > 1 {
                    let mut rest = pending;
                    rest.remove(0);
                    assert(views(rest@) =~= views(pending@).skip(1));
                    State::Dispatching(rest)
                } else {
                    State::Sleeping
                }
            },
            Event::DeliveryFailed => State::Sleeping,
            Event::Woke => {
                if pending.len() == 0 {
                    State::Idle
                } else {
                    State::Dispatching(pending)
                }
            },
            _ => State::Dispatching(pending),
        },
        State::Sleeping => match event {
            Event::Woke => State::Idle,
            _ => State::Sleeping,
        },
    }
}

/// Whether the window of the poll that reads `now` holds the instant `t`.
pub open spec fn in_window(now: int, t: int) -> bool {
    now <= t <= window_end(now)
}

/// The state after `k` deliveries in a row succeeded, starting with `pending` to deliver.
pub open spec fn after_deliveries(pending: Seq<MessageView>, k: nat) -> StateView
    decreases k,
{
    if k == 0 {
        StateView::Dispatching(pending)
    } else {
        next_state(after_deliveries(pending, (k - 1) as nat), EventView::Delivered)
    }
}

/// While deliveries succeed, the due records are delivered one by one in
/// their order, each once: after `k` of them the record at `k` is next, and
/// after the last the daemon sleeps.
pub proof fn lemma_each_delivered_once_in_order(pending: Seq<MessageView>, k: nat)
    requires
        0 < pending.len(),
        k <= pending.len(),
    ensures
        k < pending.len() ==> after_deliveries(pending, k) == StateView::Dispatching(
            pending.skip(k as int),
        ),
        k < pending.len() ==> awaited(after_deliveries(pending, k)) == ActionView::Notify(
            pending[k as int],
        ),
        k == pending.len() ==> after_deliveries(pending, k) == StateView::Sleeping,
    decreases k,
{
    if k == 0 {
        assert(pending.skip(0) =~= pending);
    } else {
        lemma_each_delivered_once_in_order(pending, (k - 1) as nat);
        let rest = pending.skip(k - 1);
        assert(rest.skip(1) =~= pending.skip(k as int));
    }
}

/// A delivery that fails ends the cycle's deliveries: whatever is still
/// pending is left, and the daemon sleeps.
pub proof fn lemma_failure_ends_dispatch(pending: Seq<MessageView>, k: nat)
    requires
        k < pending.len(),
    ensures
        next_state(after_deliveries(pending, k), EventView::DeliveryFailed) == StateView::Sleeping,
        awaited(StateView::Sleeping) == ActionView::Sleep(POLL_INTERVAL_SECONDS as int),
{
    lemma_each_delivered_once_in_order(pending, k);
}

/// A scan finds every record of the store whose delivery time lies in the
/// window, and no other.
pub proof fn lemma_due_are_those_in_window(s: Seq<MessageView>, from: int, to: int)
    ensures
        forall|i: int|
            0 <= i < s.len() && (#[trigger] s[i]).notify_at is Some && from <= s[i].notify_at->0
                <= to ==> due(s, from, to).contains(s[i]),
        forall|i: int|
            0 <= i < due(s, from, to).len() ==> {
                let m = #[trigger] due(s, from, to)[i];
                s.contains(m) && m.notify_at is Some && from <= m.notify_at->0 <= to
            },
{
    let keep = selector(None, Some(from), Some(to));
    let kept = s.filter(keep);
    assert(page(kept, None, None) =~= kept);
    assert forall|i: int|
        0 <= i < s.len() && (#[trigger] s[i]).notify_at is Some && from <= s[i].notify_at->0
            <= to implies kept.contains(s[i]) by {
        assert(keep(s[i]));
        s.lemma_filter_contains(keep, i);
    }
    assert forall|i: int| 0 <= i < kept.len() implies {
        let m = #[trigger] kept[i];
        s.contains(m) && m.notify_at is Some && from <= m.notify_at->0 <= to
    } by {
        s.lemma_filter_pred(keep, i);
        assert(keep(kept[i]));
        assert(kept.contains(kept[i]));
        s.lemma_filter_contains_rev(keep, kept[i]);
    }
}

/// A window is as wide as the sleep that follows the cycle is long, unless
/// the last instant cuts it short.
pub proof fn lemma_window_is_as_wide_as_the_sleep(now: int)
    requires
        representable(now + POLL_INTERVAL_SECONDS * NANOS_PER_SECOND),
    ensures
        awaited(StateView::Sleeping) == ActionView::Sleep(POLL_INTERVAL_SECONDS as int),
        window_end(now) - now == POLL_INTERVAL_SECONDS * NANOS_PER_SECOND,
{
}

/// Where the clock is read again no later than the previous window ended,
/// the two windows leave no instant between them unscanned.
pub proof fn lemma_prompt_polls_leave_no_gap(now: int, later: int, t: int)
    requires
        now <= later <= window_end(now),
        now <= t <= window_end(later),
    ensures
        in_window(now, t) || in_window(later, t),
{
}

/// Where the clock is read again after the previous window ended, no instant
/// lies in both windows: no record is delivered by both polls.
pub proof fn lemma_separate_polls_share_no_instant(now: int, later: int, t: int)
    requires
        window_end(now) < later,
    ensures
        !(in_window(now, t) && in_window(later, t)),
{
}

/// Where the clock is read again only after the previous window ended, the
/// instants between the end of that window and the new reading are in
/// neither window: a record due then is never delivered.
pub proof fn lemma_late_poll_skips(now: int, later: int, t: int)
    requires
        window_end(now) < t < later,
    ensures
        !in_window(now, t),
        !in_window(later, t),
{
}

/// Whether the polls of a run are prompt: each clock reading but the first
/// comes no earlier than the one before it, and no later than the window of
/// the one before it ends.
pub open spec fn prompt(readings: Seq<int>) -> bool {
    forall|k: int|
        0 < k < readings.len() ==> readings[k - 1] <= #[trigger] readings[k] <= window_end(
            readings[k - 1],
        )
}

/// The state in which a cycle that reads `now` from the clock and finds
/// `rows` in the table begins its deliveries, or ends without any.
pub open spec fn cycle(rows: Seq<MessageView>, now: int) -> StateView {
    next_state(next_state(StateView::Idle, EventView::Clock(now)), EventView::Rows(rows))
}

/// Whether the cycle at `k` of a run scans the instant at which `m` is due,
/// finds `m` due at place `j`, and hands it to the sink once the `j`
/// deliveries before it have succeeded.
pub open spec fn delivered_in(
    readings: Seq<int>,
    tables: Seq<Seq<MessageView>>,
    m: MessageView,
    k: int,
    j: int,
) -> bool {
    &&& 0 <= k < readings.len()
    &&& k < tables.len()
    &&& m.notify_at is Some
    &&& in_window(readings[k], m.notify_at->0)
    &&& cycle(tables[k], readings[k]) matches StateView::Dispatching(pending)
    &&& 0 <= j < pending.len()
    &&& pending[j] == m
    &&& awaited(after_deliveries(pending, j as nat)) == ActionView::Notify(m)
}

/// The windows of a run of prompt polls hold every instant from the first
/// reading to the end of the last window.
pub proof fn lemma_prompt_run_scans_every_instant(readings: Seq<int>, t: int)
    requires
        readings.len() > 0,
        prompt(readings),
        readings[0] <= t <= window_end(readings.last()),
    ensures
        exists|k: int| 0 <= k < readings.len() && in_window(#[trigger] readings[k], t),
    decreases readings.len(),
{
    let last = readings.len() - 1;
    if readings.len() == 1 || readings[last] <= t {
        assert(in_window(readings[last], t));
    } else {
        let front = readings.drop_last();
        assert forall|k: int| 0 < k < front.len() implies front[k - 1] <= #[trigger] front[k]
            <= window_end(front[k - 1]) by {
            assert(front[k] == readings[k] && front[k - 1] == readings[k - 1]);
        }
        assert(readings[last - 1] <= readings[last] <= window_end(readings[last - 1]));
        assert(front.last() == readings[last - 1]);
        assert(front[0] == readings[0]);
        lemma_prompt_run_scans_every_instant(front, t);
        let k = choose|k: int| 0 <= k < front.len() && in_window(#[trigger] front[k], t);
        assert(in_window(readings[k], t));
    }
}

/// In a run of prompt polls, a record that every poll finds in the table,
/// and that is due between the first reading and the end of the last window,
/// is handed to the sink in one of the cycles, once the deliveries before it
/// in that cycle have succeeded.
pub proof fn lemma_due_record_is_delivered(
    readings: Seq<int>,
    tables: Seq<Seq<MessageView>>,
    m: MessageView,
)
    requires
        readings.len() > 0,
        tables.len() == readings.len(),
        prompt(readings),
        forall|k: int|
            0 <= k < tables.len() ==> loaded(#[trigger] tables[k]) is Some && loaded(
                tables[k],
            )->0.contains(m),
        m.notify_at is Some,
        readings[0] <= m.notify_at->0 <= window_end(readings.last()),
    ensures
        exists|k: int, j: int| delivered_in(readings, tables, m, k, j),
{
    let at = m.notify_at->0;
    lemma_prompt_run_scans_every_instant(readings, at);
    let k = choose|k: int| 0 <= k < readings.len() && in_window(#[trigger] readings[k], at);
    let now = readings[k];
    let s = loaded(tables[k])->0;
    assert(s.contains(m));
    let i = choose|i: int| 0 <= i < s.len() && s[i] == m;
    lemma_due_are_those_in_window(s, now, window_end(now));
    let pending = due(s, now, window_end(now));
    assert(pending.contains(s[i]));
    let j = choose|j: int| 0 <= j < pending.len() && pending[j] == m;
    lemma_each_delivered_once_in_order(pending, j as nat);
    assert(cycle(tables[k], now) == StateView::Dispatching(pending));
    assert(delivered_in(readings, tables, m, k, j));
}

} // verus!
