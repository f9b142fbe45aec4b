//! What each command does to the store.

use vstd::prelude::*;
use crate::cli::Commands;
use crate::db::{
    assigned_id, delete, holds_id, insert, list, listed, placed, well_formed, without,
    PersistenceError, Store,
};
use crate::duration::{parsed, str_to_timedelta, ParseError};
use crate::models::{views, Message, MessageView};
use crate::time::{representable, Timestamp, NANOS_PER_SECOND};

verus! {

/// Why a command did nothing.
#[derive(Clone, Copy, Debug, PartialEq, Eq, Structural)]
pub enum CommandError {
    /// The text of a reminder is empty.
    EmptyText,
    /// The delay of a reminder is no duration.
    NotifyAfter(ParseError),
    /// The delay of a reminder is negative: it would be due before it was added.
    NegativeDelay,
    /// The reach of a listing is no duration.
    Last(ParseError),
    /// The duration leads to an instant that cannot be represented.
    InstantOutOfRange,
    /// The store refused the record.
    Persistence(PersistenceError),
}

/// What a command came to.
#[derive(Debug, PartialEq, Eq)]
pub enum Outcome {
    /// The reminder, as the store now holds it.
    Added(Message),
    /// How many reminders with the identity were removed: one or none.
    Deleted { id: i32, count: usize },
    /// The reminders asked for, newest first.
    Listed(Vec<Message>),
    /// The daemon is to run.
    Daemon,
    /// Nothing was done.
    Failed(CommandError),
}

/// The characters of an optional string.
pub open spec fn characters(s: Option<String>) -> Option<Seq<char>> {
    match s {
        Some(s) => Some(s@),
        None => None,
    }
}

/// The instant `seconds` seconds from `now`, if it can be represented.
pub open spec fn offset_instant(now: int, seconds: int) -> Option<int> {
    if representable(now + seconds * NANOS_PER_SECOND) {
        Some(now + seconds * NANOS_PER_SECOND)
    } else {
        None
    }
}

/// When a reminder added at `now` is to be delivered: never if no delay is
/// given, else the delay after `now`. A delay must be a duration, and not a
/// negative one.
pub open spec fn notify_instant(notify_after: Option<Seq<char>>, now: int) -> Result<
    Option<int>,
    CommandError,
> {
    match notify_after {
        None => Ok(None),
        Some(delay) => match parsed(delay) {
            Err(e) => Err(CommandError::NotifyAfter(e)),
            Ok(seconds) => if seconds < 0 {
                Err(CommandError::NegativeDelay)
            } else {
                match offset_instant(now, seconds) {
                    Some(at) => Ok(Some(at)),
                    None => Err(CommandError::InstantOutOfRange),
                }
            },
        },
    }
}

/// From when on a listing made at `now` shows reminders: from the beginning
/// if no reach is given, else from the reach before `now`.
pub open spec fn listing_start(last: Option<Seq<char>>, now: int) -> Result<
    Option<int>,
    CommandError,
> {
    match last {
        None => Ok(None),
        Some(reach) => match parsed(reach) {
            Err(e) => Err(CommandError::Last(e)),
            Ok(seconds) => match offset_instant(now, -seconds) {
                Some(from) => Ok(Some(from)),
                None => Err(CommandError::InstantOutOfRange),
            },
        },
    }
}

/// The record that `add` makes at `now`, under the identity the store of `s`
/// gives it. The text must not be empty; it is judged first, then the delay,
/// then whether the store has an identity left.
pub open spec fn added(
    s: Seq<MessageView>,
    text: Seq<char>,
    notify_after: Option<Seq<char>>,
    now: int,
) -> Result<MessageView, CommandError> {
    if text.len() == 0 {
        Err(CommandError::EmptyText)
    } else {
        match notify_instant(notify_after, now) {
            Err(e) => Err(e),
            Ok(notify_at) => match assigned_id(s, None) {
                None => Err(CommandError::Persistence(PersistenceError::IdentitiesExhausted)),
                Some(id) => Ok(MessageView { id: Some(id), text, added_at: now, notify_at }),
            },
        }
    }
}

/// Whether adding a reminder at `now` to a store of `before` leaves a store
/// of `after` and returns `r`: the record under its identity, put in its
/// place; or the error, with the store unchanged.
pub open spec fn add_carried_out(
    before: Seq<MessageView>,
    text: Seq<char>,
    notify_after: Option<Seq<char>>,
    now: int,
    after: Seq<MessageView>,
    r: Result<Message, CommandError>,
) -> bool {
    match added(before, text, notify_after, now) {
        Ok(m) => r is Ok && r->Ok_0@ == m && after == placed(before, m),
        Err(e) => r == Err::<Message, CommandError>(e) && after == before,
    }
}

/// Records a reminder with the text `text`, added at `now` and, if
/// `notify_after` is given, to be delivered that long after `now`. Returns
/// the record as the store holds it. An empty text and a negative delay are
/// refused. The store is unchanged on an error.
pub fn handle_add_at(
    store: &mut Store,
    text: String,
    notify_after: Option<String>,
    now: Timestamp,
) -> (r: Result<Message, CommandError>)
    requires
        old(store).wf(),
    ensures
        final(store).wf(),
        add_carried_out(old(store)@, text@, characters(notify_after), now@, final(store)@, r),
{
    if text.as_str().unicode_len() == 0 {
        return Err(CommandError::EmptyText);
    }
    let notify_at: Option<Timestamp> = match &notify_after {
        None => None,
        Some(delay) => match str_to_timedelta(delay.as_str()) {
            Err(e) => {
                return Err(CommandError::NotifyAfter(e));
            },
            Ok(span) => {
                if span.seconds < 0 {
                    return Err(CommandError::NegativeDelay);
                }
                match now.checked_add(span) {
                    Some(at) => Some(at),
                    None => {
                        return Err(CommandError::InstantOutOfRange);
                    },
                }
            },
        },
    };
    let message = Message::new_at(text, notify_at, now);
    let stored = message.clone();
    match insert(store, message) {
        Ok(id) => Ok(
            Message {
                id: Some(id),
                text: stored.text,
                added_at: stored.added_at,
                notify_at: stored.notify_at,
            },
        ),
        Err(e) => Err(CommandError::Persistence(e)),
    }
}

/// Records a reminder as `handle_add_at` does, added at what the system
/// clock reads: the result is that of adding it at some instant that can be
/// represented, which a record that was stored shows as the time it was added.
pub fn handle_add(store: &mut Store, text: String, notify_after: Option<String>) -> (r: Result<
    Message,
    CommandError,
>)
    requires
        old(store).wf(),
    ensures
        final(store).wf(),
        exists|now: int|
            representable(now) && #[trigger] add_carried_out(
                old(store)@,
                text@,
                characters(notify_after),
                now,
                final(store)@,
                r,
            ),
{
    let now = Timestamp::now();
    let ghost before = store@;
    let r = handle_add_at(store, text, notify_after, now);
    assert(representable(now@) && add_carried_out(
        before,
        text@,
        characters(notify_after),
        now@,
        store@,
        r,
    ));
    r
}

/// Removes the reminder with the identity `id`, if there is one, and returns
/// how many reminders it removed. That there is none is no error.
pub fn handle_delete(store: &mut Store, id: i32) -> (r: usize)
    requires
        old(store).wf(),
    ensures
        final(store).wf(),
        final(store)@ == without(old(store)@, id),
        r == old(store)@.len() - final(store)@.len(),
        r == if holds_id(old(store)@, id) { 1usize } else { 0usize },
{
    delete(store, id)
}

/// What a listing made at `now` comes to.
pub open spec fn listing(
    s: Seq<MessageView>,
    last: Option<Seq<char>>,
    limit: Option<i64>,
    offset: Option<i64>,
    now: int,
) -> Result<Seq<MessageView>, CommandError> {
    match listing_start(last, now) {
        Ok(from) => Ok(listed(s, from, None, None, limit, offset)),
        Err(e) => Err(e),
    }
}

/// The reminders to show at `now`: those added within `last` before `now`,
/// or all if `last` is absent; newest first, without the first `offset` and
/// cut to `limit`.
pub fn handle_list_at(
    store: &Store,
    last: Option<String>,
    limit: Option<i64>,
    offset: Option<i64>,
    now: Timestamp,
) -> (r: Result<Vec<Message>, CommandError>)
    requires
        store.wf(),
    ensures
        match r {
            Ok(found) => {
                &&& listing(store@, characters(last), limit, offset, now@) == Ok::<
                    Seq<MessageView>,
                    CommandError,
                >(views(found@))
                &&& well_formed(views(found@))
            },
            Err(e) => listing(store@, characters(last), limit, offset, now@) == Err::<
                Seq<MessageView>,
                CommandError,
            >(e),
        },
{
    let from: Option<Timestamp> = match &last {
        None => None,
        Some(reach) => match str_to_timedelta(reach.as_str()) {
            Err(e) => {
                return Err(CommandError::Last(e));
            },
            Ok(span) => match now.checked_sub(span) {
                Some(from) => Some(from),
                None => {
                    return Err(CommandError::InstantOutOfRange);
                },
            },
        },
    };
    Ok(list(store, from, None, None, limit, offset))
}

/// The reminders to show as `handle_list_at` finds them, at what the system
/// clock reads: the result is that of a listing made at some instant that can
/// be represented.
pub fn handle_list(store: &Store, last: Option<String>, limit: Option<i64>, offset: Option<i64>) -> (r:
    Result<Vec<Message>, CommandError>)
    requires
        store.wf(),
    ensures
        exists|now: int|
            representable(now) && match r {
                Ok(found) => #[trigger] listing(store@, characters(last), limit, offset, now) == Ok::<
                    Seq<MessageView>,
                    CommandError,
                >(views(found@)),
                Err(e) => listing(store@, characters(last), limit, offset, now) == Err::<
                    Seq<MessageView>,
                    CommandError,
                >(e),
            },
        r is Ok ==> well_formed(views(r->Ok_0@)),
{
    let now = Timestamp::now();
    let found = handle_list_at(store, last, limit, offset, now);
    assert(representable(now@) && match found {
        Ok(found) => listing(store@, characters(last), limit, offset, now@) == Ok::<
            Seq<MessageView>,
            CommandError,
        >(views(found@)),
        Err(e) => listing(store@, characters(last), limit, offset, now@) == Err::<
            Seq<MessageView>,
            CommandError,
        >(e),
    });
    found
}

/// Whether carrying out `command` at `now` on a store of `before` leaves a
/// store of `after` and comes to `outcome`.
pub open spec fn carried_out(
    before: Seq<MessageView>,
    command: Commands,
    now: int,
    after: Seq<MessageView>,
    outcome: Outcome,
) -> bool {
    match command {
        Commands::Add(args) => match added(before, args.text@, characters(args.notify_after), now) {
            Ok(m) => outcome matches Outcome::Added(stored) && stored@ == m && after == placed(
                before,
                m,
            ),
            Err(e) => outcome == Outcome::Failed(e) && after == before,
        },
        Commands::Delete(args) => {
            &&& after == without(before, args.id)
            &&& outcome matches Outcome::Deleted { id, count }
            &&& id == args.id
            &&& count == before.len() - after.len()
        },
        Commands::List(args) => after == before && match listing(
            before,
            characters(args.last),
            args.limit,
            args.offset,
            now,
        ) {
            Ok(found) => outcome matches Outcome::Listed(shown) && views(shown@) == found,
            Err(e) => outcome == Outcome::Failed(e),
        },
        Commands::Daemon => after == before && outcome == Outcome::Daemon,
    }
}

/// Carries out `command` on the store at the instant `now`. The daemon is
/// not run here: the outcome says that it is to run.
pub fn execute_at(store: &mut Store, command: Commands, now: Timestamp) -> (r: Outcome)
    requires
        old(store).wf(),
    ensures
        final(store).wf(),
        carried_out(old(store)@, command, now@, final(store)@, r),
{
    match command {
        Commands::Add(args) => match handle_add_at(store, args.text, args.notify_after, now) {
            Ok(stored) => Outcome::Added(stored),
            Err(e) => Outcome::Failed(e),
        },
        Commands::Delete(args) => Outcome::Deleted {
            id: args.id,
            count: handle_delete(store, args.id),
        },
        Commands::List(args) => match handle_list_at(
            store,
            args.last,
            args.limit,
            args.offset,
            now,
        ) {
            Ok(found) => Outcome::Listed(found),
            Err(e) => Outcome::Failed(e),
        },
        Commands::Daemon => Outcome::Daemon,
    }
}

/// Carries out `command` on the store at what the system clock reads: the
/// result is that of carrying it out at some instant that can be represented.
pub fn execute(store: &mut Store, command: Commands) -> (r: Outcome)
    requires
        old(store).wf(),
    ensures
        final(store).wf(),
        exists|now: int|
            representable(now) && #[trigger] carried_out(
                old(store)@,
                command,
                now,
                final(store)@,
                r,
            ),
{
    let now = Timestamp::now();
    let ghost before = store@;
    let outcome = execute_at(store, command, now);
    assert(representable(now@) && carried_out(before, command, now@, store@, outcome));
    outcome
}

/// A reminder that `add` stores has a text that is not empty, was added at
/// the instant of the command and, if it is to be delivered, is delivered no
/// earlier than it was added.
pub proof fn lemma_notify_not_before_added(
    s: Seq<MessageView>,
    text: Seq<char>,
    notify_after: Option<Seq<char>>,
    now: int,
)
    requires
        added(s, text, notify_after, now) is Ok,
    ensures
        added(s, text, notify_after, now)->Ok_0.text.len() > 0,
        added(s, text, notify_after, now)->Ok_0.added_at == now,
        added(s, text, notify_after, now)->Ok_0.notify_at is Some <==> notify_after is Some,
        added(s, text, notify_after, now)->Ok_0.notify_at is Some ==> now <= added(
            s,
            text,
            notify_after,
            now,
        )->Ok_0.notify_at->0,
{
    if notify_after is Some {
        let seconds = parsed(notify_after->0)->Ok_0;
        assert(seconds * NANOS_PER_SECOND >= 0) by (nonlinear_arith)
            requires
                seconds >= 0,
        ;
    }
}

/// A negative delay is refused whatever else is given, but for an empty
/// text, which is refused first.
pub proof fn lemma_negative_delay_is_refused(
    s: Seq<MessageView>,
    text: Seq<char>,
    delay: Seq<char>,
    now: int,
)
    requires
        text.len() > 0,
        parsed(delay) is Ok,
        parsed(delay)->Ok_0 < 0,
    ensures
        added(s, text, Some(delay), now) == Err::<MessageView, CommandError>(
            CommandError::NegativeDelay,
        ),
{
}

} // verus!
