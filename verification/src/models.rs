//! The reminder record.

use vstd::prelude::*;
use crate::time::{written, Timestamp};

verus! {

/// A reminder: its text, when it was added and, if it is to be delivered,
/// when. The identity is absent until a store has assigned one.
#[derive(Debug, PartialEq, Eq)]
pub struct Message {
    pub id: Option<i32>,
    pub text: String,
    pub added_at: Timestamp,
    pub notify_at: Option<Timestamp>,
}

/// A reminder as a mathematical value, with instants in nanoseconds from the epoch.
pub struct MessageView {
    pub id: Option<i32>,
    pub text: Seq<char>,
    pub added_at: int,
    pub notify_at: Option<int>,
}

/// An optional instant in nanoseconds from the epoch.
pub open spec fn instant(t: Option<Timestamp>) -> Option<int> {
    match t {
        Some(t) => Some(t@),
        None => None,
    }
}

/// The reminders of `records`, each as a mathematical value.
pub open spec fn views(records: Seq<Message>) -> Seq<MessageView> {
    records.map_values(|m: Message| m@)
}

impl View for Message {
    type V = MessageView;

    open spec fn view(&self) -> MessageView {
        MessageView {
            id: self.id,
            text: self.text@,
            added_at: self.added_at@,
            notify_at: instant(self.notify_at),
        }
    }
}

impl Clone for Message {
    fn clone(&self) -> (r: Message)
        ensures
            r == *self,
    {
        Message {
            id: self.id,
            text: self.text.clone(),
            added_at: self.added_at,
            notify_at: self.notify_at,
        }
    }
}

/// One line for a reminder with the text `text`: in square brackets when it
/// was added, then the text, then when it is to be delivered, if ever.
pub open spec fn line_of(added_at: Seq<char>, text: Seq<char>, notify_at: Option<Seq<char>>) -> Seq<
    char,
> {
    seq!['['] + added_at + seq![']', ' '] + text + seq![' '] + match notify_at {
        Some(at) => at,
        None => Seq::empty(),
    }
}

/// The date and time of an optional instant, written out.
pub open spec fn written_at(t: Option<Timestamp>) -> Option<Seq<char>> {
    match t {
        Some(t) => Some(written(t@)),
        None => None,
    }
}

impl Message {
    /// One line for this reminder, with `added_at` and `notify_at` standing
    /// for its two instants.
    pub fn line_with(&self, added_at: &str, notify_at: Option<&str>) -> (r: String)
        ensures
            r@ == line_of(
                added_at@,
                self.text@,
                match notify_at {
                    Some(at) => Some(at@),
                    None => None,
                },
            ),
    {
        proof {
            reveal_strlit("[");
            reveal_strlit("] ");
            reveal_strlit(" ");
        }
        let mut line = String::from_str("[");
        line.append(added_at);
        line.append("] ");
        line.append(self.text.as_str());
        line.append(" ");
        match notify_at {
            Some(at) => {
                line.append(at);
            },
            None => {
                assert(line@ + Seq::<char>::empty() =~= line@);
            },
        }
        assert(line@ =~= line_of(
            added_at@,
            self.text@,
            match notify_at {
                Some(at) => Some(at@),
                None => None,
            },
        ));
        line
    }

    /// One line for this reminder, with its instants as dates and times in UTC.
    pub fn line(&self) -> (r: String)
        ensures
            r@ == line_of(written(self.added_at@), self.text@, written_at(self.notify_at)),
    {
        let added_at = self.added_at.to_text();
        match &self.notify_at {
            Some(at) => {
                let notify_at = at.to_text();
                self.line_with(added_at.as_str(), Some(notify_at.as_str()))
            },
            None => self.line_with(added_at.as_str(), None),
        }
    }

    /// A reminder that no store holds yet, added at the instant `added_at`.
    pub fn new_at(text: String, notify_at: Option<Timestamp>, added_at: Timestamp) -> (r: Message)
        ensures
            r.id is None,
            r.text == text,
            r.added_at == added_at,
            r.notify_at == notify_at,
    {
        Message { id: None, text, added_at, notify_at }
    }

    /// A reminder that no store holds yet, added at what the system clock reads.
    pub fn new(text: String, notify_at: Option<Timestamp>) -> (r: Message)
        ensures
            r.id is None,
            r.text == text,
            r.notify_at == notify_at,
            crate::time::representable(r.added_at@),
    {
        Message::new_at(text, notify_at, Timestamp::now())
    }
}

} // verus!
