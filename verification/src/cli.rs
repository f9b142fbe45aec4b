//! The commands, as values.

use vstd::prelude::*;

verus! {

/// One invocation: the command to run.
#[derive(Debug, PartialEq, Eq)]
pub struct CLIParser {
    pub command: Commands,
}

/// The four commands.
#[derive(Debug, PartialEq, Eq)]
pub enum Commands {
    /// Record a reminder.
    Add(AddArgs),
    /// Remove the reminder with an identity.
    Delete(DeleteArgs),
    /// Show reminders, newest first.
    List(ListArgs),
    /// Deliver reminders as they fall due.
    Daemon,
}

/// What `add` takes: the text and, to have it delivered, how long from now.
#[derive(Debug, PartialEq, Eq)]
pub struct AddArgs {
    pub text: String,
    pub notify_after: Option<String>,
}

/// What `delete` takes: the identity.
#[derive(Clone, Copy, Debug, PartialEq, Eq)]
pub struct DeleteArgs {
    pub id: i32,
}

/// What `list` takes: how far back to look, how many reminders to show at
/// most and how many to pass over first.
#[derive(Debug, PartialEq, Eq)]
pub struct ListArgs {
    pub last: Option<String>,
    pub limit: Option<i64>,
    pub offset: Option<i64>,
}

} // verus!
