use pingme::db::utils::get_db_path;
use pingme::db::{delete, insert, list, PersistenceError, Store};
use pingme::models::Message;
use pingme::time::Timestamp;

const T: i64 = 1_700_000_000;
const DAY: i64 = 86_400;

fn at(secs: i64) -> Timestamp {
    Timestamp::from_parts(secs, 0).unwrap()
}

fn reminder(text: &str, added: i64, notify: Option<i64>) -> Message {
    Message::new_at(text.to_string(), notify.map(at), at(added))
}

fn texts(found: &[Message]) -> Vec<String> {
    found.iter().map(|m| m.text.clone()).collect()
}

fn all(store: &Store) -> Vec<Message> {
    list(store, None, None, None, None, None)
}

fn three_days() -> Store {
    let mut store = Store::new();
    insert(&mut store, reminder("two days ago", T - 2 * DAY, None)).unwrap();
    insert(&mut store, reminder("yesterday", T - DAY, None)).unwrap();
    insert(&mut store, reminder("now", T, None)).unwrap();
    store
}

#[test]
fn new_store_is_empty() {
    let store = Store::new();
    assert_eq!(store.len(), 0);
    assert!(all(&store).is_empty());
}

#[test]
fn insert_assigns_identities_from_one() {
    let mut store = Store::new();
    assert_eq!(insert(&mut store, reminder("a", T, None)), Ok(1));
    assert_eq!(insert(&mut store, reminder("b", T + 1, None)), Ok(2));
    assert_eq!(insert(&mut store, reminder("c", T - 1, None)), Ok(3));
    assert_eq!(store.len(), 3);
    let found = all(&store);
    assert_eq!(texts(&found), vec!["b", "a", "c"]);
    assert_eq!(found[0].id, Some(2));
    assert_eq!(found[1].id, Some(1));
    assert_eq!(found[2].id, Some(3));
}

#[test]
fn insert_keeps_the_record_as_given() {
    let mut store = Store::new();
    insert(&mut store, reminder("call home", T, Some(T + 600))).unwrap();
    let found = all(&store);
    assert_eq!(found.len(), 1);
    assert_eq!(
        found[0],
        Message {
            id: Some(1),
            text: "call home".to_string(),
            added_at: at(T),
            notify_at: Some(at(T + 600)),
        }
    );
}

#[test]
fn insert_honours_an_identity_that_is_free() {
    let mut store = Store::new();
    let mut wanted = reminder("a", T, None);
    wanted.id = Some(40);
    assert_eq!(insert(&mut store, wanted), Ok(40));
    assert_eq!(insert(&mut store, reminder("b", T, None)), Ok(41));
    let mut low = reminder("c", T, None);
    low.id = Some(-7);
    assert_eq!(insert(&mut store, low), Ok(-7));
    assert_eq!(insert(&mut store, reminder("d", T, None)), Ok(42));
}

#[test]
fn insert_refuses_an_identity_that_is_taken() {
    let mut store = Store::new();
    insert(&mut store, reminder("a", T, None)).unwrap();
    let mut again = reminder("b", T + 5, None);
    again.id = Some(1);
    assert_eq!(insert(&mut store, again), Err(PersistenceError::IdentityTaken));
    assert_eq!(store.len(), 1);
    assert_eq!(texts(&all(&store)), vec!["a"]);
}

#[test]
fn insert_fails_when_identities_run_out() {
    let mut store = Store::new();
    let mut last = reminder("a", T, None);
    last.id = Some(i32::MAX);
    assert_eq!(insert(&mut store, last), Ok(i32::MAX));
    assert_eq!(
        insert(&mut store, reminder("b", T, None)),
        Err(PersistenceError::IdentitiesExhausted)
    );
    assert_eq!(store.len(), 1);
    let mut free = reminder("c", T, None);
    free.id = Some(5);
    assert_eq!(insert(&mut store, free), Ok(5));
}

#[test]
fn only_negative_identities_leave_one_as_the_fresh_one() {
    let mut store = Store::new();
    let mut low = reminder("a", T, None);
    low.id = Some(-5);
    insert(&mut store, low).unwrap();
    assert_eq!(insert(&mut store, reminder("b", T, None)), Ok(1));
}

#[test]
fn records_are_kept_newest_first() {
    let mut store = Store::new();
    let stamps: [i64; 6] = [T + 3, T - 9, T + 8, T, T + 4, T - 1];
    for (i, s) in stamps.iter().enumerate() {
        insert(&mut store, reminder(&format!("r{}", i), *s, None)).unwrap();
    }
    let found = all(&store);
    assert_eq!(texts(&found), vec!["r2", "r4", "r0", "r3", "r5", "r1"]);
    for pair in found.windows(2) {
        assert!(pair[0].added_at.ge(&pair[1].added_at));
    }
}

#[test]
fn of_records_added_at_the_same_instant_the_later_insert_comes_first() {
    let mut store = Store::new();
    insert(&mut store, reminder("first", T, None)).unwrap();
    insert(&mut store, reminder("second", T, None)).unwrap();
    insert(&mut store, reminder("older", T - 1, None)).unwrap();
    insert(&mut store, reminder("third", T, None)).unwrap();
    assert_eq!(texts(&all(&store)), vec!["third", "second", "first", "older"]);
}

#[test]
fn nanoseconds_order_records() {
    let mut store = Store::new();
    let early = Message::new_at("early".to_string(), None, Timestamp::from_parts(T, 1).unwrap());
    let late = Message::new_at("late".to_string(), None, Timestamp::from_parts(T, 2).unwrap());
    insert(&mut store, late).unwrap();
    insert(&mut store, early).unwrap();
    assert_eq!(texts(&all(&store)), vec!["late", "early"]);
}

#[test]
fn list_added_since_yesterday_returns_the_last_two_newest_first() {
    let store = three_days();
    let found = list(&store, Some(at(T - DAY)), None, None, None, None);
    assert_eq!(texts(&found), vec!["now", "yesterday"]);
    assert_eq!(found[0].added_at, at(T));
    assert_eq!(found[1].added_at, at(T - DAY));
}

#[test]
fn list_added_from_is_inclusive() {
    let store = three_days();
    assert_eq!(
        texts(&list(&store, Some(at(T - DAY + 1)), None, None, None, None)),
        vec!["now"]
    );
    assert_eq!(
        texts(&list(&store, Some(at(T)), None, None, None, None)),
        vec!["now"]
    );
    assert!(list(&store, Some(at(T + 1)), None, None, None, None).is_empty());
    assert_eq!(
        texts(&list(&store, Some(at(T - 2 * DAY)), None, None, None, None)),
        vec!["now", "yesterday", "two days ago"]
    );
}

#[test]
fn list_without_filters_returns_everything() {
    let store = three_days();
    assert_eq!(texts(&all(&store)), vec!["now", "yesterday", "two days ago"]);
}

#[test]
fn list_limit_one_offset_one_returns_the_middle_record() {
    let store = three_days();
    let found = list(&store, None, None, None, Some(1), Some(1));
    assert_eq!(texts(&found), vec!["yesterday"]);
}

#[test]
fn list_offset_is_applied_before_limit() {
    let mut store = Store::new();
    for i in 0..6 {
        insert(&mut store, reminder(&format!("r{}", i), T + i, None)).unwrap();
    }
    assert_eq!(
        texts(&list(&store, None, None, None, Some(2), Some(3))),
        vec!["r2", "r1"]
    );
    assert_eq!(
        texts(&list(&store, None, None, None, Some(10), Some(4))),
        vec!["r1", "r0"]
    );
    assert_eq!(
        texts(&list(&store, None, None, None, None, Some(4))),
        vec!["r1", "r0"]
    );
    assert_eq!(
        texts(&list(&store, None, None, None, Some(2), None)),
        vec!["r5", "r4"]
    );
    assert!(list(&store, None, None, None, Some(0), None).is_empty());
    assert!(list(&store, None, None, None, Some(0), Some(2)).is_empty());
    assert!(list(&store, None, None, None, Some(3), Some(6)).is_empty());
    assert!(list(&store, None, None, None, None, Some(7)).is_empty());
    assert!(list(&store, None, None, None, None, Some(i64::MAX)).is_empty());
    assert_eq!(
        list(&store, None, None, None, Some(i64::MAX), Some(0)).len(),
        6
    );
}

#[test]
fn list_negative_limit_and_offset_change_nothing() {
    let store = three_days();
    assert_eq!(list(&store, None, None, None, Some(-1), None).len(), 3);
    assert_eq!(list(&store, None, None, None, None, Some(-1)).len(), 3);
    assert_eq!(
        list(&store, None, None, None, Some(i64::MIN), Some(i64::MIN)).len(),
        3
    );
    assert_eq!(
        texts(&list(&store, None, None, None, Some(-5), Some(1))),
        vec!["yesterday", "two days ago"]
    );
    assert_eq!(
        texts(&list(&store, None, None, None, Some(1), Some(-5))),
        vec!["now"]
    );
}

#[test]
fn list_pages_what_the_filters_keep() {
    let mut store = Store::new();
    for i in 0..8 {
        let notify = if i % 2 == 0 { Some(T + 100 + i) } else { None };
        insert(&mut store, reminder(&format!("r{}", i), T + i, notify)).unwrap();
    }
    let found = list(&store, Some(at(T + 1)), Some(at(T)), None, Some(2), Some(1));
    assert_eq!(texts(&found), vec!["r4", "r2"]);
}

#[test]
fn list_notify_window_is_inclusive_at_both_ends() {
    let mut store = Store::new();
    insert(&mut store, reminder("before", T, Some(T + 9))).unwrap();
    insert(&mut store, reminder("start", T + 1, Some(T + 10))).unwrap();
    insert(&mut store, reminder("inside", T + 2, Some(T + 15))).unwrap();
    insert(&mut store, reminder("end", T + 3, Some(T + 20))).unwrap();
    insert(&mut store, reminder("after", T + 4, Some(T + 21))).unwrap();
    let found = list(&store, None, Some(at(T + 10)), Some(at(T + 20)), None, None);
    assert_eq!(texts(&found), vec!["end", "inside", "start"]);
    let from_only = list(&store, None, Some(at(T + 15)), None, None, None);
    assert_eq!(texts(&from_only), vec!["after", "end", "inside"]);
    let to_only = list(&store, None, None, Some(at(T + 10)), None, None);
    assert_eq!(texts(&to_only), vec!["start", "before"]);
    assert!(list(&store, None, Some(at(T + 20)), Some(at(T + 10)), None, None).is_empty());
}

#[test]
fn list_never_returns_an_unscheduled_record_under_a_notify_filter() {
    let mut store = Store::new();
    insert(&mut store, reminder("unscheduled", T, None)).unwrap();
    insert(&mut store, reminder("scheduled", T + 1, Some(T + 50))).unwrap();
    let earliest = Timestamp::from_parts(pingme::time::MIN_SECONDS, 0).unwrap();
    let from_only = list(&store, None, Some(earliest), None, None, None);
    assert_eq!(texts(&from_only), vec!["scheduled"]);
    let to_only = list(&store, None, None, Some(Timestamp::latest()), None, None);
    assert_eq!(texts(&to_only), vec!["scheduled"]);
    let both = list(&store, None, Some(earliest), Some(Timestamp::latest()), None, None);
    assert_eq!(texts(&both), vec!["scheduled"]);
    assert_eq!(all(&store).len(), 2);
}

#[test]
fn list_filters_are_conjunctive() {
    let mut store = Store::new();
    insert(&mut store, reminder("old due", T - 100, Some(T + 10))).unwrap();
    insert(&mut store, reminder("new due", T, Some(T + 10))).unwrap();
    insert(&mut store, reminder("new late", T, Some(T + 1_000))).unwrap();
    insert(&mut store, reminder("new unscheduled", T, None)).unwrap();
    let found = list(&store, Some(at(T - 1)), Some(at(T)), Some(at(T + 60)), None, None);
    assert_eq!(texts(&found), vec!["new due"]);
}

#[test]
fn list_leaves_the_store_alone() {
    let store = three_days();
    let first = list(&store, Some(at(T)), None, None, Some(1), None);
    let second = all(&store);
    assert_eq!(first.len(), 1);
    assert_eq!(second.len(), 3);
    assert_eq!(store.len(), 3);
}

#[test]
fn delete_removes_the_record_with_the_identity() {
    let mut store = three_days();
    assert_eq!(delete(&mut store, 2), 1);
    assert_eq!(texts(&all(&store)), vec!["now", "two days ago"]);
    assert_eq!(store.len(), 2);
}

#[test]
fn delete_twice_removes_one_then_none() {
    let mut store = three_days();
    assert_eq!(delete(&mut store, 3), 1);
    assert_eq!(delete(&mut store, 3), 0);
    assert_eq!(delete(&mut store, 3), 0);
    assert_eq!(texts(&all(&store)), vec!["yesterday", "two days ago"]);
}

#[test]
fn delete_of_an_unknown_identity_removes_nothing() {
    let mut store = three_days();
    assert_eq!(delete(&mut store, 99), 0);
    assert_eq!(delete(&mut store, 0), 0);
    assert_eq!(delete(&mut store, -1), 0);
    assert_eq!(store.len(), 3);
    let mut empty = Store::new();
    assert_eq!(delete(&mut empty, 1), 0);
}

#[test]
fn identity_of_the_newest_is_given_again_after_its_deletion() {
    let mut store = three_days();
    assert_eq!(delete(&mut store, 3), 1);
    assert_eq!(insert(&mut store, reminder("again", T + 1, None)), Ok(3));
    assert_eq!(delete(&mut store, 1), 1);
    assert_eq!(insert(&mut store, reminder("more", T + 2, None)), Ok(4));
}

#[test]
fn from_records_orders_the_rows() {
    let mut a = reminder("a", T - 5, None);
    a.id = Some(1);
    let mut b = reminder("b", T + 5, Some(T + 9));
    b.id = Some(2);
    let mut c = reminder("c", T, None);
    c.id = Some(3);
    let store = Store::from_records(vec![a, b.clone(), c]).unwrap();
    let found = all(&store);
    assert_eq!(texts(&found), vec!["b", "c", "a"]);
    assert_eq!(found[0], b);
    assert_eq!(Store::from_records(Vec::new()).unwrap().len(), 0);
}

#[test]
fn from_records_gives_identities_to_rows_without_one() {
    let mut a = reminder("a", T, None);
    a.id = Some(7);
    let b = reminder("b", T + 1, None);
    let store = Store::from_records(vec![a, b]).unwrap();
    let found = all(&store);
    assert_eq!(found[0].id, Some(8));
    assert_eq!(found[1].id, Some(7));
}

#[test]
fn from_records_refuses_rows_that_share_an_identity() {
    let mut a = reminder("a", T, None);
    a.id = Some(1);
    let mut b = reminder("b", T + 1, None);
    b.id = Some(1);
    assert_eq!(
        Store::from_records(vec![a, b]).err(),
        Some(PersistenceError::IdentityTaken)
    );
}

#[test]
fn db_path_is_the_named_one_or_the_default() {
    assert_eq!(
        get_db_path("/home/u/pingme/db.sqlite".to_string(), None),
        "/home/u/pingme/db.sqlite"
    );
    assert_eq!(
        get_db_path("/home/u/pingme/db.sqlite".to_string(), Some("/tmp/x.sqlite".to_string())),
        "/tmp/x.sqlite"
    );
    assert_eq!(get_db_path("a".to_string(), Some(String::new())), "");
}
