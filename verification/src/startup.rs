//! Getting started: which first connects are tried again, what becomes of a
//! start in which nothing connects, and the slots of the connections that
//! did.

use crate::account::ConnectionAccount;
use crate::backoff::{pause_after, Backoff};
use crate::watch::{Connection, ConnectionView, ConnectError, Step};
use vstd::prelude::*;

verus! {

/// After a first connect failed with `error`: the seconds to pause before the
/// target is tried again, or `None` if it is given up. Only a failure of the
/// transport is worth another try, and only while the schedule has attempts
/// left.
pub open spec fn retry_pause_of(backoff: Backoff, error: ConnectError) -> Option<u64> {
    if error == ConnectError::Transport && !backoff.spent() {
        Some(pause_after(backoff.failures() + 1) as u64)
    } else {
        None
    }
}

/// Decides what follows a failed first connect, and counts the failure where
/// the target is tried again.
pub fn retry_pause(backoff: &mut Backoff, error: ConnectError) -> (pause: Option<u64>)
    ensures
        pause == retry_pause_of(*old(backoff), error),
        pause is Some ==> final(backoff).failures() == old(backoff).failures() + 1,
        pause is None ==> final(backoff).failures() == old(backoff).failures(),
{
    if error == ConnectError::Transport {
        backoff.next_pause()
    } else {
        None
    }
}

/// How a start ended.
#[derive(Clone, Copy, Debug, PartialEq, Eq, Structural)]
pub enum Outcome {
    /// No account is configured: there is nothing to do, and nothing wrong.
    NothingToDo,
    /// Accounts are configured, and none of them could be connected.
    NothingWorked,
    /// So many watch targets are connected and to be watched.
    Watching(usize),
}

impl Outcome {
    /// The exit code of a process that stops on this outcome: zero unless
    /// nothing worked.
    pub fn exit_code(&self) -> (code: u8)
        ensures
            code == 0 <==> !(*self is NothingWorked),
    {
        match self {
            Outcome::NothingWorked => 1,
            _ => 0,
        }
    }
}

/// How a start with `configured` accounts ended of whose watch targets
/// `connected` could be connected.
pub fn outcome(configured: usize, connected: usize) -> (outcome: Outcome)
    ensures
        outcome == if configured == 0 {
            Outcome::NothingToDo
        } else if connected == 0 {
            Outcome::NothingWorked
        } else {
            Outcome::Watching(connected)
        },
{
    if configured == 0 {
        Outcome::NothingToDo
    } else if connected == 0 {
        Outcome::NothingWorked
    } else {
        Outcome::Watching(connected)
    }
}

/// The connections for the watch targets that could be connected: the
/// connection of the `i`-th target has slot `i`, so the slots are all the
/// numbers below the number of targets.
pub fn connections(targets: &Vec<ConnectionAccount>) -> (all: Vec<Connection>)
    ensures
        all@.len() == targets@.len(),
        forall|i: int|
            0 <= i < all@.len() ==> (#[trigger] all@[i])@ == (ConnectionView {
                id: i as usize,
                name: targets@[i]@.name,
                command: targets@[i]@.notification_command,
                step: Step::Connecting,
                mark: 0,
                notified: false,
                failures: 0,
            }),
{
    let mut all: Vec<Connection> = Vec::new();
    let mut i: usize = 0;
    while i < targets.len()
        invariant
            i <= targets@.len(),
            all@.len() == i,
            forall|j: int|
                0 <= j < i ==> (#[trigger] all@[j])@ == (ConnectionView {
                    id: j as usize,
                    name: targets@[j]@.name,
                    command: targets@[j]@.notification_command,
                    step: Step::Connecting,
                    mark: 0,
                    notified: false,
                    failures: 0,
                }),
        decreases targets@.len() - i,
    {
        let command = match &targets[i].notification_command {
            Some(line) => Some(line.clone()),
            None => None,
        };
        all.push(Connection::new(i, targets[i].name.clone(), command));
        i += 1;
    }
    all
}

} // verus!
