//! The reminder store: records kept newest first, each under an identity of
//! its own, with insertion, deletion by identity and windowed, paged listing.

pub mod utils;

use vstd::prelude::*;
use crate::models::{instant, views, Message, MessageView};
use crate::time::Timestamp;

verus! {

/// Why the store refused a record.
#[derive(Clone, Copy, Debug, PartialEq, Eq, Structural)]
pub enum PersistenceError {
    /// The record came with an identity that another record already has.
    IdentityTaken,
    /// Every identity above those in use is beyond what an identity can hold.
    IdentitiesExhausted,
}

/// No record is followed by one that was added later.
pub open spec fn newest_first(s: Seq<MessageView>) -> bool {
    forall|i: int, j: int| 0 <= i < j < s.len() ==> s[i].added_at >= s[j].added_at
}

/// Every record has an identity, and no two records share one.
pub open spec fn identified(s: Seq<MessageView>) -> bool {
    &&& forall|i: int| 0 <= i < s.len() ==> (#[trigger] s[i]).id is Some
    &&& forall|i: int, j: int| 0 <= i < j < s.len() ==> s[i].id != s[j].id
}

/// What holds of the records of every store.
pub open spec fn well_formed(s: Seq<MessageView>) -> bool {
    newest_first(s) && identified(s)
}

/// Some record of `s` has the identity `id`.
pub open spec fn holds_id(s: Seq<MessageView>, id: i32) -> bool {
    exists|i: int| 0 <= i < s.len() && (#[trigger] s[i]).id == Some(id)
}

/// The least positive number above every identity in `s`.
pub open spec fn fresh_id(s: Seq<MessageView>) -> int
    decreases s.len(),
{
    if s.len() == 0 {
        1
    } else {
        let rest = fresh_id(s.drop_last());
        match s.last().id {
            Some(k) if k + 1 > rest => k + 1,
            _ => rest,
        }
    }
}

/// The identity under which `s` takes a record that asks for `wanted`: the
/// one it asks for if no record has it, a fresh one if it asks for none.
pub open spec fn assigned_id(s: Seq<MessageView>, wanted: Option<i32>) -> Option<i32> {
    match wanted {
        Some(k) => if holds_id(s, k) { None } else { Some(k) },
        None => if fresh_id(s) <= i32::MAX { Some(fresh_id(s) as i32) } else { None },
    }
}

/// The error that answers a record asking for `wanted` when none can be assigned.
pub open spec fn refusal(wanted: Option<i32>) -> PersistenceError {
    if wanted is Some {
        PersistenceError::IdentityTaken
    } else {
        PersistenceError::IdentitiesExhausted
    }
}

/// How many records at the head of `s` were added after the instant `t`.
pub open spec fn slot(s: Seq<MessageView>, t: int) -> int
    decreases s.len(),
{
    if s.len() == 0 || s[0].added_at <= t {
        0
    } else {
        1 + slot(s.skip(1), t)
    }
}

/// The record `m` under the identity `id`.
pub open spec fn with_id(m: MessageView, id: i32) -> MessageView {
    MessageView { id: Some(id), text: m.text, added_at: m.added_at, notify_at: m.notify_at }
}

/// `s` with `m` put behind the records added after it and before all others.
pub open spec fn placed(s: Seq<MessageView>, m: MessageView) -> Seq<MessageView> {
    s.insert(slot(s, m.added_at), m)
}

/// `s` without the records whose identity is `id`.
pub open spec fn without(s: Seq<MessageView>, id: i32) -> Seq<MessageView> {
    s.filter(|m: MessageView| m.id != Some(id))
}

/// Whether `m` passes the filters that are present: added at `added_at_from`
/// or later, to be delivered at `notify_at_from` or later, and at
/// `notify_at_to` or earlier. A record without a delivery time passes neither
/// of the last two.
pub open spec fn selects(
    m: MessageView,
    added_at_from: Option<int>,
    notify_at_from: Option<int>,
    notify_at_to: Option<int>,
) -> bool {
    &&& added_at_from is Some ==> m.added_at >= added_at_from->0
    &&& notify_at_from is Some ==> m.notify_at is Some && m.notify_at->0 >= notify_at_from->0
    &&& notify_at_to is Some ==> m.notify_at is Some && m.notify_at->0 <= notify_at_to->0
}

/// The filters that are present, as a predicate on records.
pub open spec fn selector(
    added_at_from: Option<int>,
    notify_at_from: Option<int>,
    notify_at_to: Option<int>,
) -> spec_fn(MessageView) -> bool {
    |m: MessageView| selects(m, added_at_from, notify_at_from, notify_at_to)
}

/// How many of `n` records an offset passes over: none for an absent or
/// negative offset, and never more than there are.
pub open spec fn skipped(n: nat, offset: Option<i64>) -> int {
    match offset {
        Some(k) if k > 0 => if k <= n { k as int } else { n as int },
        _ => 0,
    }
}

/// The records of `s` after the offset, as many as the limit allows. An
/// absent or negative limit allows all of them.
pub open spec fn page(s: Seq<MessageView>, limit: Option<i64>, offset: Option<i64>) -> Seq<
    MessageView,
> {
    let start = skipped(s.len(), offset);
    let end = match limit {
        Some(k) if k >= 0 && start + k <= s.len() => start + k,
        _ => s.len() as int,
    };
    s.subrange(start, end)
}

/// What a listing of `s` returns: the records that pass the filters, in the
/// order of `s`, paged.
pub open spec fn listed(
    s: Seq<MessageView>,
    added_at_from: Option<int>,
    notify_at_from: Option<int>,
    notify_at_to: Option<int>,
    limit: Option<i64>,
    offset: Option<i64>,
) -> Seq<MessageView> {
    page(s.filter(selector(added_at_from, notify_at_from, notify_at_to)), limit, offset)
}

/// The reminders that are kept, newest first.
pub struct Store {
    records: Vec<Message>,
}

impl View for Store {
    type V = Seq<MessageView>;

    closed spec fn view(&self) -> Seq<MessageView> {
        views(self.records@)
    }
}

impl Store {
    /// The records are newest first and each has an identity of its own.
    pub open spec fn wf(&self) -> bool {
        well_formed(self@)
    }

    /// A store without records.
    pub fn new() -> (r: Store)
        ensures
            r@ == Seq::<MessageView>::empty(),
            r.wf(),
    {
        let r = Store { records: Vec::new() };
        assert(r@ =~= Seq::<MessageView>::empty());
        r
    }

    /// The number of records.
    pub fn len(&self) -> (r: usize)
        ensures
            r == self@.len(),
    {
        self.records.len()
    }
}

/// Every identity in `s` is below `fresh_id(s)`, which is positive.
pub proof fn lemma_fresh_id_is_fresh(s: Seq<MessageView>)
    ensures
        fresh_id(s) >= 1,
        forall|i: int| 0 <= i < s.len() && (#[trigger] s[i]).id is Some ==> s[i].id->0 < fresh_id(s),
        forall|k: i32| fresh_id(s) <= k ==> !holds_id(s, k),
    decreases s.len(),
{
    if s.len() > 0 {
        lemma_fresh_id_is_fresh(s.drop_last());
        assert forall|i: int| 0 <= i < s.len() && (#[trigger] s[i]).id is Some implies s[i].id->0
            < fresh_id(s) by {
            if i < s.len() - 1 {
                assert(s.drop_last()[i] == s[i]);
            }
        }
    }
}

/// Where every record before `i` was added after `t` and the one at `i`, if
/// there is one, was not, `i` is the slot of `t`.
proof fn lemma_slot(s: Seq<MessageView>, t: int, i: int)
    requires
        0 <= i <= s.len(),
        forall|k: int| 0 <= k < i ==> (#[trigger] s[k]).added_at > t,
        i < s.len() ==> s[i].added_at <= t,
    ensures
        slot(s, t) == i,
    decreases s.len(),
{
    if i > 0 {
        assert(s[0].added_at > t);
        let rest = s.skip(1);
        assert forall|k: int| 0 <= k < i - 1 implies (#[trigger] rest[k]).added_at > t by {
            assert(rest[k] == s[k + 1]);
        }
        lemma_slot(rest, t, i - 1);
    }
}

/// Takes `message` into the store, under the identity it asks for or, if it
/// asks for none, under a fresh one, and returns that identity. The record
/// goes behind those added after it and before all others, with its text and
/// its two instants as given. Nothing changes when no identity can be assigned.
pub fn insert(store: &mut Store, message: Message) -> (r: Result<i32, PersistenceError>)
    requires
        old(store).wf(),
    ensures
        final(store).wf(),
        match r {
            Ok(id) => {
                &&& assigned_id(old(store)@, message.id) == Some(id)
                &&& final(store)@ == placed(old(store)@, with_id(message@, id))
                &&& holds_id(final(store)@, id)
            },
            Err(e) => {
                &&& assigned_id(old(store)@, message.id) is None
                &&& e == refusal(message.id)
                &&& final(store)@ == old(store)@
            },
        },
{
    let ghost before = store@;
    let n: usize = store.records.len();
    let id: i32 = match message.id {
        Some(k) => {
            if position_of(store, k).is_some() {
                return Err(PersistenceError::IdentityTaken);
            }
            k
        },
        None => {
            let mut next: i64 = 1;
            let mut i: usize = 0;
            while i < n
                invariant
                    n == store.records.len(),
                    i <= n,
                    next == fresh_id(views(store.records@).take(i as int)),
                    1 <= next <= i32::MAX + 1,
                decreases n - i,
            {
                assert(views(store.records@).take(i + 1).drop_last() =~= views(
                    store.records@,
                ).take(i as int));
                match store.records[i].id {
                    Some(k) => {
                        if k as i64 + 1 > next {
                            next = k as i64 + 1;
                        }
                    },
                    None => {},
                }
                i = i + 1;
            }
            assert(views(store.records@).take(n as int) =~= before);
            if next > i32::MAX as i64 {
                return Err(PersistenceError::IdentitiesExhausted);
            }
            proof {
                lemma_fresh_id_is_fresh(before);
            }
            next as i32
        },
    };
    assert(!holds_id(before, id));
    let mut at: usize = 0;
    while at < n && store.records[at].added_at.gt(&message.added_at)
        invariant
            n == store.records.len(),
            at <= n,
            store@ == before,
            forall|k: int| 0 <= k < at ==> (#[trigger] before[k]).added_at > message.added_at@,
        decreases n - at,
    {
        at = at + 1;
    }
    let record = Message {
        id: Some(id),
        text: message.text,
        added_at: message.added_at,
        notify_at: message.notify_at,
    };
    proof {
        lemma_slot(before, message.added_at@, at as int);
        assert(record@ == with_id(message@, id));
    }
    store.records.insert(at, record);
    proof {
        let after = store@;
        assert(after =~= before.insert(at as int, record@));
        assert(after[at as int].id == Some(id));
        assert forall|i: int, j: int| 0 <= i < j < after.len() implies after[i].added_at
            >= after[j].added_at by {
            if j > at && i < at {
                assert(before[i].added_at > message.added_at@);
                if at < n {
                    assert(before[at as int].added_at >= before[j - 1].added_at || j - 1 == at);
                }
            }
        }
        assert forall|i: int, j: int| 0 <= i < j < after.len() implies after[i].id
            != after[j].id by {
            if i == at {
                assert(before[j - 1].id != Some(id));
            } else if j == at {
                assert(before[i].id != Some(id));
            }
        }
    }
    Ok(id)
}

/// Where the record with the identity `id` stands, if there is one.
fn position_of(store: &Store, id: i32) -> (r: Option<usize>)
    ensures
        match r {
            Some(i) => i < store@.len() && store@[i as int].id == Some(id),
            None => !holds_id(store@, id),
        },
{
    let mut i: usize = 0;
    while i < store.records.len()
        invariant
            i <= store.records.len(),
            forall|k: int| 0 <= k < i ==> (#[trigger] store@[k]).id != Some(id),
        decreases store.records.len() - i,
    {
        if store.records[i].id == Some(id) {
            return Some(i);
        }
        i = i + 1;
    }
    None
}

/// Filtering out an identity that no record has leaves the sequence as it is.
proof fn lemma_without_absent(s: Seq<MessageView>, id: i32)
    requires
        !holds_id(s, id),
    ensures
        without(s, id) == s,
    decreases s.len(),
{
    reveal(Seq::filter);
    if s.len() > 0 {
        let front = s.drop_last();
        assert forall|i: int| 0 <= i < front.len() implies (#[trigger] front[i]).id != Some(
            id,
        ) by {
            assert(s[i] == front[i]);
        }
        lemma_without_absent(front, id);
        assert(s.last() == s[s.len() - 1]);
        assert(front.push(s.last()) =~= s);
    } else {
        assert(s.filter(|m: MessageView| m.id != Some(id)) =~= s);
    }
}

/// In a sequence of records with identities of their own, filtering out the
/// identity of the record at `i` removes that record and no other.
proof fn lemma_without_present(s: Seq<MessageView>, id: i32, i: int)
    requires
        identified(s),
        0 <= i < s.len(),
        s[i].id == Some(id),
    ensures
        without(s, id) == s.remove(i),
    decreases s.len(),
{
    reveal(Seq::filter);
    let front = s.drop_last();
    assert forall|k: int| 0 <= k < front.len() implies front[k] == s[k] by {}
    if i == s.len() - 1 {
        assert(!holds_id(front, id)) by {
            if holds_id(front, id) {
                let k = choose|k: int| 0 <= k < front.len() && (#[trigger] front[k]).id == Some(id);
                assert(s[k].id == s[i].id);
            }
        }
        lemma_without_absent(front, id);
        assert(s.remove(i) =~= front);
    } else {
        assert(identified(front));
        lemma_without_present(front, id, i);
        assert(s.last().id != Some(id)) by {
            assert(s[i].id != s[s.len() - 1].id);
        }
        assert(front.remove(i).push(s.last()) =~= s.remove(i));
    }
}

/// Removes the record with the identity `row_id`, if there is one, and
/// returns how many records it removed: one or none.
pub fn delete(store: &mut Store, row_id: i32) -> (r: usize)
    requires
        old(store).wf(),
    ensures
        final(store).wf(),
        final(store)@ == without(old(store)@, row_id),
        r == old(store)@.len() - final(store)@.len(),
        r == if holds_id(old(store)@, row_id) { 1usize } else { 0usize },
        !holds_id(final(store)@, row_id),
{
    let ghost before = store@;
    match position_of(store, row_id) {
        Some(i) => {
            proof {
                lemma_without_present(before, row_id, i as int);
            }
            store.records.remove(i);
            proof {
                let after = store@;
                assert(after =~= before.remove(i as int));
                assert(!holds_id(after, row_id)) by {
                    if holds_id(after, row_id) {
                        let k = choose|k: int|
                            0 <= k < after.len() && (#[trigger] after[k]).id == Some(row_id);
                        if k < i {
                            assert(before[k].id == before[i as int].id);
                        } else {
                            assert(before[k + 1].id == before[i as int].id);
                        }
                    }
                }
            }
            1
        },
        None => {
            proof {
                lemma_without_absent(before, row_id);
            }
            0
        },
    }
}

/// Whether `message` passes the filters that are present.
fn passes(
    message: &Message,
    added_at_from: &Option<Timestamp>,
    notify_at_from: &Option<Timestamp>,
    notify_at_to: &Option<Timestamp>,
) -> (r: bool)
    ensures
        r == selects(
            message@,
            instant(*added_at_from),
            instant(*notify_at_from),
            instant(*notify_at_to),
        ),
{
    let added_late_enough = match added_at_from {
        Some(from) => message.added_at.ge(from),
        None => true,
    };
    let due_late_enough = match notify_at_from {
        Some(from) => match &message.notify_at {
            Some(at) => at.ge(from),
            None => false,
        },
        None => true,
    };
    let due_early_enough = match notify_at_to {
        Some(to) => match &message.notify_at {
            Some(at) => at.le(to),
            None => false,
        },
        None => true,
    };
    added_late_enough && due_late_enough && due_early_enough
}

/// The records that pass the filters that are present, newest first, without
/// the first `offset` of them and cut to `limit`. The filters are: added at
/// `added_at_from` or later; to be delivered at `notify_at_from` or later; to
/// be delivered at `notify_at_to` or earlier. A record without a delivery time
/// passes neither of the last two. An absent or negative `offset` skips
/// nothing, an absent or negative `limit` cuts nothing.
pub fn list(
    store: &Store,
    added_at_from: Option<Timestamp>,
    notify_at_from: Option<Timestamp>,
    notify_at_to: Option<Timestamp>,
    limit: Option<i64>,
    offset: Option<i64>,
) -> (r: Vec<Message>)
    requires
        store.wf(),
    ensures
        views(r@) == listed(
            store@,
            instant(added_at_from),
            instant(notify_at_from),
            instant(notify_at_to),
            limit,
            offset,
        ),
        well_formed(views(r@)),
        forall|i: int|
            0 <= i < r.len() ==> selects(
                (#[trigger] r[i])@,
                instant(added_at_from),
                instant(notify_at_from),
                instant(notify_at_to),
            ),
        (notify_at_from is Some || notify_at_to is Some) ==> forall|i: int|
            0 <= i < r.len() ==> (#[trigger] r[i]).notify_at is Some,
{
    let ghost all = store@;
    let ghost keep = selector(
        instant(added_at_from),
        instant(notify_at_from),
        instant(notify_at_to),
    );
    let n: usize = store.records.len();
    let mut out: Vec<Message> = Vec::new();
    let mut seen: usize = 0;
    let mut i: usize = 0;
    let ghost mut origin: Seq<int> = Seq::empty();
    proof {
        assert(all.take(0) =~= Seq::<MessageView>::empty());
        reveal(Seq::filter);
        assert(views(out@) =~= page(all.take(0).filter(keep), limit, offset));
    }
    while i < n
        invariant
            n == store.records.len(),
            all == store@,
            keep == selector(
                instant(added_at_from),
                instant(notify_at_from),
                instant(notify_at_to),
            ),
            i <= n,
            seen == all.take(i as int).filter(keep).len(),
            seen <= i,
            views(out@) == page(all.take(i as int).filter(keep), limit, offset),
            origin.len() == out.len(),
            forall|k: int| 0 <= k < out.len() ==> 0 <= #[trigger] origin[k] < i && out[k]@ == all[origin[k]],
            forall|k: int, l: int| 0 <= k < l < out.len() ==> origin[k] < origin[l],
            forall|k: int| 0 <= k < out.len() ==> keep((#[trigger] out[k])@),
        decreases n - i,
    {
        let record = &store.records[i];
        let ghost kept = all.take(i as int).filter(keep);
        proof {
            assert(all.take(i + 1) =~= all.take(i as int).push(all[i as int]));
            all.take(i as int).lemma_filter_push(all[i as int], keep);
            assert(record@ == all[i as int]);
        }
        if passes(record, &added_at_from, &notify_at_from, &notify_at_to) {
            let after_offset = match offset {
                Some(k) => k <= 0 || (seen as u64) >= (k as u64),
                None => true,
            };
            let within_limit = match limit {
                Some(k) => k < 0 || (out.len() as u64) < (k as u64),
                None => true,
            };
            if after_offset && within_limit {
                out.push(record.clone());
                proof {
                    origin = origin.push(i as int);
                    assert(views(out@) =~= page(kept, limit, offset).push(record@));
                    assert(views(out@) =~= page(kept.push(record@), limit, offset));
                }
            } else {
                assert(views(out@) =~= page(kept.push(record@), limit, offset));
            }
            seen = seen + 1;
        }
        i = i + 1;
    }
    proof {
        assert(all.take(n as int) =~= all);
        let found = views(out@);
        assert forall|k: int, l: int| 0 <= k < l < found.len() implies found[k].added_at
            >= found[l].added_at by {
            assert(found[k] == all[origin[k]] && found[l] == all[origin[l]]);
        }
        assert forall|k: int, l: int| 0 <= k < l < found.len() implies found[k].id
            != found[l].id by {
            assert(found[k] == all[origin[k]] && found[l] == all[origin[l]]);
        }
        assert forall|k: int| 0 <= k < found.len() implies (#[trigger] found[k]).id is Some by {
            assert(found[k] == all[origin[k]]);
        }
    }
    out
}

/// What comes of taking the records of `rows` into an empty store one after
/// another, in their order; nothing if one of them is refused.
pub open spec fn loaded(rows: Seq<MessageView>) -> Option<Seq<MessageView>>
    decreases rows.len(),
{
    if rows.len() == 0 {
        Some(Seq::empty())
    } else {
        match loaded(rows.drop_last()) {
            Some(s) => match assigned_id(s, rows.last().id) {
                Some(id) => Some(placed(s, with_id(rows.last(), id))),
                None => None,
            },
            None => None,
        }
    }
}

impl Store {
    /// The store that holds `rows`, taken in one after another in their order.
    /// The first row that cannot be given an identity ends the attempt with
    /// its error.
    pub fn from_records(rows: Vec<Message>) -> (r: Result<Store, PersistenceError>)
        ensures
            match r {
                Ok(store) => store.wf() && loaded(views(rows@)) == Some(store@),
                Err(_) => loaded(views(rows@)) is None,
            },
    {
        let mut store = Store::new();
        let n: usize = rows.len();
        let mut i: usize = 0;
        assert(views(rows@).take(0) =~= Seq::<MessageView>::empty());
        while i < n
            invariant
                n == rows.len(),
                i <= n,
                store.wf(),
                loaded(views(rows@).take(i as int)) == Some(store@),
            decreases n - i,
        {
            let ghost front = views(rows@).take(i + 1);
            assert(front.drop_last() =~= views(rows@).take(i as int));
            assert(front.last() == rows[i as int]@);
            match insert(&mut store, rows[i].clone()) {
                Ok(_) => {},
                Err(e) => {
                    proof {
                        lemma_loaded_prefix(views(rows@), i + 1);
                    }
                    return Err(e);
                },
            }
            i = i + 1;
        }
        assert(views(rows@).take(n as int) =~= views(rows@));
        Ok(store)
    }
}

/// Rows that cannot be loaded up to some point cannot be loaded as a whole.
proof fn lemma_loaded_prefix(rows: Seq<MessageView>, k: int)
    requires
        0 <= k <= rows.len(),
        loaded(rows.take(k)) is None,
    ensures
        loaded(rows) is None,
    decreases rows.len(),
{
    if k < rows.len() {
        assert(rows.drop_last().take(k) =~= rows.take(k));
        lemma_loaded_prefix(rows.drop_last(), k);
    } else {
        assert(rows.take(k) =~= rows);
    }
}

/// A record without a delivery time is never listed when a bound on the
/// delivery time is given: every listed record then has one.
pub proof fn lemma_unscheduled_never_listed(
    s: Seq<MessageView>,
    added_at_from: Option<int>,
    notify_at_from: Option<int>,
    notify_at_to: Option<int>,
    limit: Option<i64>,
    offset: Option<i64>,
    i: int,
)
    requires
        notify_at_from is Some || notify_at_to is Some,
        0 <= i < listed(s, added_at_from, notify_at_from, notify_at_to, limit, offset).len(),
    ensures
        listed(s, added_at_from, notify_at_from, notify_at_to, limit, offset)[i].notify_at is Some,
{
    let keep = selector(added_at_from, notify_at_from, notify_at_to);
    let kept = s.filter(keep);
    let start = skipped(kept.len(), offset);
    s.lemma_filter_pred(keep, start + i);
    assert(keep(kept[start + i]));
}

/// Every listed record passes each filter that is present, and stands in the store.
pub proof fn lemma_listed_are_selected(
    s: Seq<MessageView>,
    added_at_from: Option<int>,
    notify_at_from: Option<int>,
    notify_at_to: Option<int>,
    limit: Option<i64>,
    offset: Option<i64>,
    i: int,
)
    requires
        0 <= i < listed(s, added_at_from, notify_at_from, notify_at_to, limit, offset).len(),
    ensures
        selects(
            listed(s, added_at_from, notify_at_from, notify_at_to, limit, offset)[i],
            added_at_from,
            notify_at_from,
            notify_at_to,
        ),
        s.contains(listed(s, added_at_from, notify_at_from, notify_at_to, limit, offset)[i]),
{
    let keep = selector(added_at_from, notify_at_from, notify_at_to);
    let kept = s.filter(keep);
    let start = skipped(kept.len(), offset);
    s.lemma_filter_pred(keep, start + i);
    assert(keep(kept[start + i]));
    assert(kept.contains(kept[start + i]));
    s.lemma_filter_contains_rev(keep, kept[start + i]);
}

/// Without filters and without paging, a listing is the whole store.
pub proof fn lemma_unfiltered_lists_all(s: Seq<MessageView>)
    ensures
        s.filter(selector(None, None, None)) == s,
        listed(s, None, None, None, None, None) == s,
{
    let keep = selector(None, None, None);
    assert forall|i: int| 0 <= i < s.len() implies keep(#[trigger] s[i]) by {}
    lemma_filter_keeps_all(s, keep);
    assert(page(s, None, None) =~= s);
}

/// The offset is applied before the limit: a page of `limit` records after
/// an offset of `offset` starts at the record at `offset` and ends `limit`
/// records later, or where the records end.
pub proof fn lemma_page_is_skip_then_take(s: Seq<MessageView>, limit: i64, offset: i64)
    requires
        0 <= offset <= s.len(),
        0 <= limit,
    ensures
        page(s, Some(limit), Some(offset)) == s.skip(offset as int).take(
            if limit <= s.len() - offset { limit as int } else { s.len() - offset },
        ),
        page(s, None, Some(offset)) == s.skip(offset as int),
        page(s, Some(limit), None) == s.take(if limit <= s.len() { limit as int } else { s.len() as int }),
{
    assert(page(s, Some(limit), Some(offset)) =~= s.skip(offset as int).take(
        if limit <= s.len() - offset { limit as int } else { s.len() - offset },
    ));
    assert(page(s, None, Some(offset)) =~= s.skip(offset as int));
    assert(page(s, Some(limit), None) =~= s.take(
        if limit <= s.len() { limit as int } else { s.len() as int },
    ));
}

/// How many records of `s` a deletion of `id` removes.
pub open spec fn removed(s: Seq<MessageView>, id: i32) -> int {
    s.len() - without(s, id).len()
}

/// Deleting an identity a second time removes nothing and changes nothing;
/// deleting one that a record has removes exactly that record.
pub proof fn lemma_delete_is_idempotent(s: Seq<MessageView>, id: i32)
    requires
        identified(s),
    ensures
        holds_id(s, id) ==> removed(s, id) == 1,
        !holds_id(s, id) ==> removed(s, id) == 0,
        !holds_id(without(s, id), id),
        removed(without(s, id), id) == 0,
        without(without(s, id), id) == without(s, id),
{
    let once = without(s, id);
    if holds_id(s, id) {
        let i = choose|i: int| 0 <= i < s.len() && (#[trigger] s[i]).id == Some(id);
        lemma_without_present(s, id, i);
        assert(!holds_id(once, id)) by {
            if holds_id(once, id) {
                let k = choose|k: int| 0 <= k < once.len() && (#[trigger] once[k]).id == Some(id);
                if k < i {
                    assert(s[k].id == s[i].id);
                } else {
                    assert(s[k + 1].id == s[i].id);
                }
            }
        }
    } else {
        lemma_without_absent(s, id);
    }
    lemma_without_absent(once, id);
}

/// A filter that every record passes keeps the sequence as it is.
proof fn lemma_filter_keeps_all(s: Seq<MessageView>, keep: spec_fn(MessageView) -> bool)
    requires
        forall|i: int| 0 <= i < s.len() ==> keep(#[trigger] s[i]),
    ensures
        s.filter(keep) == s,
    decreases s.len(),
{
    reveal(Seq::filter);
    if s.len() > 0 {
        let front = s.drop_last();
        assert forall|i: int| 0 <= i < front.len() implies keep(#[trigger] front[i]) by {
            assert(front[i] == s[i]);
        }
        lemma_filter_keeps_all(front, keep);
        assert(keep(s[s.len() - 1]));
        assert(front.push(s.last()) =~= s);
    }
}

/// In a store, the records added at an instant or later stand before all
/// others: listing them gives the head of the store, as long as they are many.
pub proof fn lemma_recent_records_lead(s: Seq<MessageView>, added_at_from: int)
    requires
        newest_first(s),
    ensures
        listed(s, Some(added_at_from), None, None, None, None).len() <= s.len(),
        listed(s, Some(added_at_from), None, None, None, None) == s.take(
            listed(s, Some(added_at_from), None, None, None, None).len() as int,
        ),
        forall|i: int|
            listed(s, Some(added_at_from), None, None, None, None).len() <= i < s.len() ==> (
            #[trigger] s[i]).added_at < added_at_from,
    decreases s.len(),
{
    reveal(Seq::filter);
    let keep = selector(Some(added_at_from), None, None);
    let kept = s.filter(keep);
    assert(page(kept, None, None) =~= kept);
    if s.len() > 0 {
        let front = s.drop_last();
        assert(page(front.filter(keep), None, None) =~= front.filter(keep));
        if keep(s.last()) {
            assert forall|i: int| 0 <= i < s.len() implies keep(#[trigger] s[i]) by {
                if i < s.len() - 1 {
                    assert(s[i].added_at >= s[s.len() - 1].added_at);
                }
            }
            lemma_filter_keeps_all(s, keep);
            assert(s.take(s.len() as int) =~= s);
        } else {
            assert forall|i: int, j: int| 0 <= i < j < front.len() implies front[i].added_at
                >= front[j].added_at by {
                assert(front[i] == s[i] && front[j] == s[j]);
            }
            lemma_recent_records_lead(front, added_at_from);
            let n = front.filter(keep).len();
            assert(front.take(n as int) =~= s.take(n as int));
            assert forall|i: int| n <= i < s.len() implies (#[trigger] s[i]).added_at
                < added_at_from by {
                if i < s.len() - 1 {
                    assert(front[i] == s[i]);
                }
            }
        }
    } else {
        assert(s.take(0) =~= s);
    }
}

} // verus!
