//! One watch connection: the cycle of searching a folder, announcing what is
//! new, reporting the count and waiting for the next change, and what
//! happens when the session breaks.
//!
//! The connection itself does no input or output. It is told what happened
//! (an [`Event`]) and answers with what is to be done next (an [`Action`]);
//! whoever owns the mail session carries the action out and comes back with
//! the next event.

use crate::backoff::{pause_after, Backoff, MAX_ATTEMPTS};
use crate::highwater::{advanced, unseen, HighWaterMark};
use crate::markup::escaped;
use crate::summary::{
    body_text, newest_first, sort_newest_first, title_text, views, Entry, EntryView, Notice,
};
use crate::text::{decimal, opt_text, push_decimal};
use vstd::prelude::*;
use vstd::string::*;

verus! {

/// Why a connect attempt failed.
#[derive(Clone, Copy, Debug, PartialEq, Eq, Structural)]
pub enum ConnectError {
    /// The server could not be reached, or the transport broke.
    Transport,
    /// The server refused the credentials.
    Authentication,
    /// The server cannot wait for changes. No retry will change that.
    CapabilityUnsupported,
    /// The server answered something that makes no sense here.
    Protocol,
}

/// The states of a watch connection.
#[derive(Clone, Copy, Debug, PartialEq, Eq, Structural)]
pub enum Phase {
    Connecting,
    Polling,
    Waiting,
    Failed,
    Reconnecting,
    Terminated,
}

/// What a watch connection is waiting to hear about.
#[derive(Clone, Copy, Debug, PartialEq, Eq, Structural)]
pub enum Step {
    /// The first connect.
    Connecting,
    /// A search for new messages.
    Searching,
    /// The headers of the messages not announced before; `count` is the size
    /// of the search result they are part of.
    Fetching { count: usize },
    /// The notification and the report of the count.
    Announcing,
    /// A change of the mailbox.
    Waiting,
    /// The logout from a broken session.
    LoggingOut,
    /// A reconnect attempt.
    Retrying,
    /// The pause after a failed reconnect attempt.
    Pausing,
    /// Nothing any more.
    Terminated,
}

impl Step {
    /// The state that the step belongs to.
    pub open spec fn phase(self) -> Phase {
        match self {
            Step::Connecting => Phase::Connecting,
            Step::Searching => Phase::Polling,
            Step::Fetching { .. } => Phase::Polling,
            Step::Announcing => Phase::Polling,
            Step::Waiting => Phase::Waiting,
            Step::LoggingOut => Phase::Failed,
            Step::Retrying => Phase::Reconnecting,
            Step::Pausing => Phase::Reconnecting,
            Step::Terminated => Phase::Terminated,
        }
    }
}

/// What happened.
#[derive(Debug)]
pub enum Event {
    /// The session is open and the folder selected.
    Connected,
    /// The connect attempt failed.
    ConnectFailed(ConnectError),
    /// The search returned these message ids.
    Found(Vec<u32>),
    /// The fetched messages, in the order they were fetched.
    Fetched(Vec<Entry>),
    /// The count was handed over.
    Delivered,
    /// Nobody takes counts any more.
    ReceiverGone,
    /// The mailbox changed, or the wait ended for another harmless reason.
    MailboxChanged,
    /// The session failed in the middle of a search, a fetch or a wait.
    Broken,
    /// The logout is over, however it went.
    LoggedOut,
    /// The pause is over.
    Slept,
}

/// An [`Event`] as plain values.
pub enum EventView {
    Connected,
    ConnectFailed(ConnectError),
    Found(Seq<u32>),
    Fetched(Seq<EntryView>),
    Delivered,
    ReceiverGone,
    MailboxChanged,
    Broken,
    LoggedOut,
    Slept,
}

impl View for Event {
    type V = EventView;

    open spec fn view(&self) -> EventView {
        match self {
            Event::Connected => EventView::Connected,
            Event::ConnectFailed(error) => EventView::ConnectFailed(*error),
            Event::Found(uids) => EventView::Found(uids@),
            Event::Fetched(entries) => EventView::Fetched(views(entries@)),
            Event::Delivered => EventView::Delivered,
            Event::ReceiverGone => EventView::ReceiverGone,
            Event::MailboxChanged => EventView::MailboxChanged,
            Event::Broken => EventView::Broken,
            Event::LoggedOut => EventView::LoggedOut,
            Event::Slept => EventView::Slept,
        }
    }
}

/// A notification to put up.
#[derive(Debug)]
pub struct Announcement {
    /// What it shows.
    pub notice: Notice,
    /// Whether it takes the place of the connection's earlier notification
    /// rather than being its first.
    pub update: bool,
    /// The shell command to run before it is put up, if the account has one.
    pub command: Option<String>,
}

/// An [`Announcement`] as plain values.
pub struct AnnouncementView {
    pub title: Seq<char>,
    pub body: Seq<char>,
    pub markup: Seq<char>,
    pub update: bool,
    pub command: Option<Seq<char>>,
}

impl View for Announcement {
    type V = AnnouncementView;

    open spec fn view(&self) -> AnnouncementView {
        AnnouncementView {
            title: self.notice.title@,
            body: self.notice.body@,
            markup: self.notice.markup@,
            update: self.update,
            command: opt_text(self.command),
        }
    }
}

/// What is to be done next.
#[derive(Debug)]
pub enum Action {
    /// Open a session and select the folder.
    Connect,
    /// Search the folder with this query.
    Search(&'static str),
    /// Fetch this item of the messages with these ids, written as the server
    /// takes them.
    Fetch { uids: String, item: &'static str },
    /// Put up the notification, if there is one, and report that connection
    /// `id` has `count` new messages.
    Announce { announcement: Option<Announcement>, id: usize, count: usize },
    /// Wait until the mailbox changes.
    Wait,
    /// Log out, and never mind whether that works.
    Logout,
    /// Pause for so many seconds.
    Sleep(u64),
    /// Stop: the connection has come to its end.
    Stop,
}

/// An [`Action`] as plain values.
pub enum ActionView {
    Connect,
    Search(Seq<char>),
    Fetch { uids: Seq<char>, item: Seq<char> },
    Announce { announcement: Option<AnnouncementView>, id: usize, count: usize },
    Wait,
    Logout,
    Sleep(u64),
    Stop,
}

impl View for Action {
    type V = ActionView;

    open spec fn view(&self) -> ActionView {
        match self {
            Action::Connect => ActionView::Connect,
            Action::Search(query) => ActionView::Search(query@),
            Action::Fetch { uids, item } => ActionView::Fetch { uids: uids@, item: item@ },
            Action::Announce { announcement, id, count } => ActionView::Announce {
                announcement: match announcement {
                    Some(a) => Some(a@),
                    None => None,
                },
                id: *id,
                count: *count,
            },
            Action::Wait => ActionView::Wait,
            Action::Logout => ActionView::Logout,
            Action::Sleep(seconds) => ActionView::Sleep(*seconds),
            Action::Stop => ActionView::Stop,
        }
    }
}

/// The event did not answer what the connection was waiting for.
#[derive(Clone, Copy, Debug, PartialEq, Eq, Structural)]
pub struct OutOfTurn {
    /// What the connection was, and still is, waiting for.
    pub step: Step,
}

/// The query that finds the new messages of a folder, whatever their id.
pub open spec fn search_query() -> Seq<char> {
    "NEW 1:*"@
}

/// The item of a message that holds its headers.
pub open spec fn header_item() -> Seq<char> {
    "RFC822.HEADER"@
}

/// The search for the new messages of a folder.
pub open spec fn search() -> ActionView {
    ActionView::Search(search_query())
}

/// The ids `uids` as a fetch takes them: in decimal, with commas between.
pub open spec fn uid_list(uids: Seq<u32>) -> Seq<char>
    decreases uids.len(),
{
    if uids.len() == 0 {
        Seq::empty()
    } else if uids.len() == 1 {
        decimal(uids[0] as nat)
    } else {
        uid_list(uids.drop_last()) + ","@ + decimal(uids.last() as nat)
    }
}

/// Writes the ids `uids` as a fetch takes them.
pub fn uid_set(uids: &Vec<u32>) -> (list: String)
    ensures
        list@ == uid_list(uids@),
{
    let mut list = String::new();
    let mut i: usize = 0;
    proof {
        assert(uids@.take(0) =~= Seq::<u32>::empty());
    }
    while i < uids.len()
        invariant
            i <= uids@.len(),
            list@ == uid_list(uids@.take(i as int)),
        decreases uids@.len() - i,
    {
        proof {
            let upto = uids@.take(i + 1);
            assert(upto.drop_last() =~= uids@.take(i as int));
            assert(upto.last() == uids@[i as int]);
        }
        if i > 0 {
            list.append(",");
        }
        push_decimal(&mut list, uids[i] as u64);
        i += 1;
    }
    proof {
        assert(uids@.take(i as int) =~= uids@);
    }
    list
}

/// A watch connection as plain values.
pub struct ConnectionView {
    /// The connection's slot in the aggregate.
    pub id: usize,
    /// The account's name, as titles show it.
    pub name: Seq<char>,
    /// The shell command the account wants run when mail has arrived.
    pub command: Option<Seq<char>>,
    /// What the connection is waiting to hear about.
    pub step: Step,
    /// The largest message id announced so far.
    pub mark: u32,
    /// Whether the connection has put up a notification before.
    pub notified: bool,
    /// The reconnect attempts that failed in the present failure episode.
    pub failures: nat,
}

/// The notification for `count` matching messages of which `entries` were
/// not announced before.
pub open spec fn announcement(state: ConnectionView, count: usize, entries: Seq<EntryView>) -> Option<
    AnnouncementView,
> {
    if entries.len() == 0 {
        None
    } else {
        Some(
            AnnouncementView {
                title: title_text(state.name, count as nat),
                body: body_text(newest_first(entries)),
                markup: escaped(body_text(newest_first(entries))),
                update: state.notified,
                command: state.command,
            },
        )
    }
}

/// What a connection in `state` does when `event` happens: the state it
/// goes to and the action it asks for, or `None` when the event is not one
/// that the state waits for.
pub open spec fn next(state: ConnectionView, event: EventView) -> Option<(ConnectionView, ActionView)> {
    match (state.step, event) {
        (Step::Connecting, EventView::Connected) | (Step::Retrying, EventView::Connected) => Some(
            (ConnectionView { step: Step::Searching, failures: 0, ..state }, search()),
        ),
        (Step::Connecting, EventView::ConnectFailed(error)) => if error
            == ConnectError::CapabilityUnsupported {
            Some((ConnectionView { step: Step::Terminated, ..state }, ActionView::Stop))
        } else {
            Some((ConnectionView { step: Step::LoggingOut, ..state }, ActionView::Logout))
        },
        (Step::Retrying, EventView::ConnectFailed(error)) => if error
            == ConnectError::CapabilityUnsupported {
            Some((ConnectionView { step: Step::Terminated, ..state }, ActionView::Stop))
        } else {
            Some(
                (
                    ConnectionView { step: Step::Pausing, failures: state.failures + 1, ..state },
                    ActionView::Sleep(pause_after(state.failures + 1) as u64),
                ),
            )
        },
        (Step::Pausing, EventView::Slept) => if state.failures >= MAX_ATTEMPTS {
            Some((ConnectionView { step: Step::Terminated, ..state }, ActionView::Stop))
        } else {
            Some((ConnectionView { step: Step::Retrying, ..state }, ActionView::Connect))
        },
        (Step::LoggingOut, EventView::LoggedOut) => Some(
            (ConnectionView { step: Step::Retrying, failures: 0, ..state }, ActionView::Connect),
        ),
        (Step::Searching, EventView::Found(uids)) => {
            let count = uids.len() as usize;
            let raised = ConnectionView { mark: advanced(state.mark, uids), ..state };
            if unseen(uids, state.mark).len() == 0 {
                Some(
                    (
                        ConnectionView { step: Step::Announcing, ..raised },
                        ActionView::Announce { announcement: None, id: state.id, count },
                    ),
                )
            } else {
                Some(
                    (
                        ConnectionView { step: Step::Fetching { count }, ..raised },
                        ActionView::Fetch {
                            uids: uid_list(unseen(uids, state.mark)),
                            item: header_item(),
                        },
                    ),
                )
            }
        },
        (Step::Fetching { count }, EventView::Fetched(entries)) => Some(
            (
                ConnectionView {
                    step: Step::Announcing,
                    notified: state.notified || entries.len() > 0,
                    ..state
                },
                ActionView::Announce {
                    announcement: announcement(state, count, entries),
                    id: state.id,
                    count,
                },
            ),
        ),
        (Step::Announcing, EventView::Delivered) => Some(
            (ConnectionView { step: Step::Waiting, ..state }, ActionView::Wait),
        ),
        (Step::Announcing, EventView::ReceiverGone) => Some(
            (ConnectionView { step: Step::Terminated, ..state }, ActionView::Stop),
        ),
        (Step::Waiting, EventView::MailboxChanged) => Some(
            (ConnectionView { step: Step::Searching, ..state }, search()),
        ),
        (Step::Searching, EventView::Broken) | (Step::Fetching { .. }, EventView::Broken) | (
            Step::Waiting,
            EventView::Broken,
        ) => Some((ConnectionView { step: Step::LoggingOut, ..state }, ActionView::Logout)),
        _ => None,
    }
}

/// One watch connection.
#[derive(Debug)]
pub struct Connection {
    id: usize,
    name: String,
    command: Option<String>,
    step: Step,
    mark: HighWaterMark,
    notified: bool,
    backoff: Backoff,
}

impl View for Connection {
    type V = ConnectionView;

    closed spec fn view(&self) -> ConnectionView {
        ConnectionView {
            id: self.id,
            name: self.name@,
            command: opt_text(self.command),
            step: self.step,
            mark: self.mark.value,
            notified: self.notified,
            failures: self.backoff.failures(),
        }
    }
}

impl Connection {
    #[verifier::type_invariant]
    spec fn inv(self) -> bool {
        self.step is Retrying ==> !self.backoff.spent()
    }

    /// The connection with slot `id` of the account called `name`, before
    /// its first connect: nothing is announced yet. `command` is the shell
    /// command that the account wants run when mail has arrived.
    pub fn new(id: usize, name: String, command: Option<String>) -> (connection: Connection)
        ensures
            connection@ == (ConnectionView {
                id,
                name: name@,
                command: opt_text(command),
                step: Step::Connecting,
                mark: 0,
                notified: false,
                failures: 0,
            }),
    {
        Connection {
            id,
            name,
            command,
            step: Step::Connecting,
            mark: HighWaterMark::new(),
            notified: false,
            backoff: Backoff::new(),
        }
    }

    /// The connection's slot in the aggregate.
    pub fn id(&self) -> (id: usize)
        ensures
            id == self@.id,
    {
        self.id
    }

    /// What the connection is waiting to hear about.
    pub fn step(&self) -> (step: Step)
        ensures
            step == self@.step,
    {
        self.step
    }

    /// The state the connection is in.
    pub fn phase(&self) -> (phase: Phase)
        ensures
            phase == self@.step.phase(),
    {
        match self.step {
            Step::Connecting => Phase::Connecting,
            Step::Searching => Phase::Polling,
            Step::Fetching { .. } => Phase::Polling,
            Step::Announcing => Phase::Polling,
            Step::Waiting => Phase::Waiting,
            Step::LoggingOut => Phase::Failed,
            Step::Retrying => Phase::Reconnecting,
            Step::Pausing => Phase::Reconnecting,
            Step::Terminated => Phase::Terminated,
        }
    }

    /// The largest message id announced so far.
    pub fn high_water_mark(&self) -> (mark: u32)
        ensures
            mark == self@.mark,
    {
        self.mark.value
    }

    /// Whether the connection has put up a notification before.
    pub fn has_notified(&self) -> (notified: bool)
        ensures
            notified == self@.notified,
    {
        self.notified
    }

    /// The reconnect attempts that failed in the present failure episode:
    /// never more than five.
    pub fn failed_attempts(&self) -> (failures: u8)
        ensures
            failures == self@.failures,
            failures <= MAX_ATTEMPTS,
    {
        self.backoff.failed_attempts()
    }

    /// Takes in what happened and says what is to be done next, as [`next`]
    /// has it. An event that the connection is not waiting for is refused and
    /// changes nothing.
    pub fn handle(&mut self, event: Event) -> (action: Result<Action, OutOfTurn>)
        ensures
            match next(old(self)@, event@) {
                Some((state, todo)) => {
                    &&& final(self)@ == state
                    &&& action matches Ok(act)
                    &&& act@ == todo
                },
                None => {
                    &&& final(self)@ == old(self)@
                    &&& action == Err::<Action, OutOfTurn>(OutOfTurn { step: old(self)@.step })
                },
            },
            // What follows from that, for any event: the connection stays within
            // the reconnect schedule, keeps its slot, never lowers its mark, and
            // is deaf once it has terminated.
            in_bounds(final(self)@),
            final(self)@.id == old(self)@.id,
            final(self)@.mark >= old(self)@.mark,
            old(self)@.step is Terminated ==> action is Err,
            // The pauses of a failure episode are 1, 2, 4, 8 and 16 seconds.
            action matches Ok(Action::Sleep(seconds)) ==> {
                ||| final(self)@.failures == 1 && seconds == 1
                ||| final(self)@.failures == 2 && seconds == 2
                ||| final(self)@.failures == 3 && seconds == 4
                ||| final(self)@.failures == 4 && seconds == 8
                ||| final(self)@.failures == 5 && seconds == 16
            },
            // After a search the mark is the largest id seen so far, and a result
            // with nothing above the old mark is counted in full and announced
            // with nothing.
            match event@ {
                EventView::Found(uids) => old(self)@.step is Searching ==> {
                    &&& forall|i: int| 0 <= i < uids.len() ==> uids[i] <= final(self)@.mark
                    &&& final(self)@.mark == old(self)@.mark || uids.contains(final(self)@.mark)
                    &&& (forall|i: int| 0 <= i < uids.len() ==> uids[i] <= old(self)@.mark)
                        ==> final(self)@.mark == old(self)@.mark && (match action {
                        Ok(Action::Announce { announcement: None, id, count }) => id == old(
                            self,
                        )@.id && count == uids.len(),
                        _ => false,
                    })
                },
                _ => true,
            },
    {
        proof {
            use_type_invariant(&*self);
        }
        let failures = self.backoff.failed_attempts();
        let step = self.step;
        proof {
            lemma_step_keeps(self@, event@);
            crate::backoff::lemma_pauses();
            if let EventView::Found(uids) = event@ {
                crate::highwater::lemma_mark_only_rises(self@.mark, uids);
                if forall|i: int| 0 <= i < uids.len() ==> uids[i] <= self@.mark {
                    crate::highwater::lemma_stale_result_sifts_empty(uids, self@.mark);
                }
            }
        }
        match event {
            Event::Connected => match step {
                Step::Connecting | Step::Retrying => {
                    self.step = Step::Searching;
                    self.backoff = Backoff::new();
                    Ok(Action::Search("NEW 1:*"))
                },
                _ => Err(OutOfTurn { step }),
            },
            Event::ConnectFailed(error) => match step {
                Step::Connecting => {
                    if error == ConnectError::CapabilityUnsupported {
                        self.step = Step::Terminated;
                        Ok(Action::Stop)
                    } else {
                        self.step = Step::LoggingOut;
                        Ok(Action::Logout)
                    }
                },
                Step::Retrying => {
                    if error == ConnectError::CapabilityUnsupported {
                        self.step = Step::Terminated;
                        Ok(Action::Stop)
                    } else {
                        let mut backoff = self.backoff;
                        match backoff.next_pause() {
                            Some(seconds) => {
                                self.step = Step::Pausing;
                                self.backoff = backoff;
                                Ok(Action::Sleep(seconds))
                            },
                            None => {
                                // An attempt is only made while the schedule has one left.
                                proof {
                                    assert(false);
                                }
                                Err(OutOfTurn { step })
                            },
                        }
                    }
                },
                _ => Err(OutOfTurn { step }),
            },
            Event::Slept => match step {
                Step::Pausing => {
                    if failures >= MAX_ATTEMPTS {
                        self.step = Step::Terminated;
                        Ok(Action::Stop)
                    } else {
                        self.step = Step::Retrying;
                        Ok(Action::Connect)
                    }
                },
                _ => Err(OutOfTurn { step }),
            },
            Event::LoggedOut => match step {
                Step::LoggingOut => {
                    self.backoff = Backoff::new();
                    self.step = Step::Retrying;
                    Ok(Action::Connect)
                },
                _ => Err(OutOfTurn { step }),
            },
            Event::Found(uids) => match step {
                Step::Searching => {
                    let mut mark = self.mark;
                    let batch = mark.observe(uids.as_slice());
                    self.mark = mark;
                    if batch.fresh.len() == 0 {
                        self.step = Step::Announcing;
                        Ok(
                            Action::Announce {
                                announcement: None,
                                id: self.id,
                                count: batch.num_new,
                            },
                        )
                    } else {
                        self.step = Step::Fetching { count: batch.num_new };
                        Ok(Action::Fetch { uids: uid_set(&batch.fresh), item: "RFC822.HEADER" })
                    }
                },
                _ => Err(OutOfTurn { step }),
            },
            Event::Fetched(entries) => match step {
                Step::Fetching { count } => {
                    let sorted = sort_newest_first(&entries);
                    proof {
                        crate::summary::lemma_newest_first_orders(views(entries@));
                    }
                    let announcement = if sorted.len() == 0 {
                        None
                    } else {
                        let notice = Notice::compose(self.name.as_str(), count, &sorted);
                        let command = match &self.command {
                            Some(line) => Some(line.clone()),
                            None => None,
                        };
                        Some(Announcement { notice, update: self.notified, command })
                    };
                    if sorted.len() > 0 {
                        self.notified = true;
                    }
                    self.step = Step::Announcing;
                    Ok(Action::Announce { announcement, id: self.id, count })
                },
                _ => Err(OutOfTurn { step }),
            },
            Event::Delivered => match step {
                Step::Announcing => {
                    self.step = Step::Waiting;
                    Ok(Action::Wait)
                },
                _ => Err(OutOfTurn { step }),
            },
            Event::ReceiverGone => match step {
                Step::Announcing => {
                    self.step = Step::Terminated;
                    Ok(Action::Stop)
                },
                _ => Err(OutOfTurn { step }),
            },
            Event::MailboxChanged => match step {
                Step::Waiting => {
                    self.step = Step::Searching;
                    Ok(Action::Search("NEW 1:*"))
                },
                _ => Err(OutOfTurn { step }),
            },
            Event::Broken => match step {
                Step::Searching | Step::Fetching { .. } | Step::Waiting => {
                    self.step = Step::LoggingOut;
                    Ok(Action::Logout)
                },
                _ => Err(OutOfTurn { step }),
            },
        }
    }
}

/// The state a connection in `state` is in after `event`; an event out of
/// turn leaves it where it is.
pub open spec fn after(state: ConnectionView, event: EventView) -> ConnectionView {
    match next(state, event) {
        Some((state, _)) => state,
        None => state,
    }
}

/// The state a connection is in after the events `events`, taken in order.
pub open spec fn run(state: ConnectionView, events: Seq<EventView>) -> ConnectionView
    decreases events.len(),
{
    if events.len() == 0 {
        state
    } else {
        after(run(state, events.drop_last()), events.last())
    }
}

/// Whether a connection in `state` can still make a reconnect attempt when it
/// is about to: the states that a connection can be in all are so.
pub open spec fn in_bounds(state: ConnectionView) -> bool {
    &&& state.failures <= MAX_ATTEMPTS
    &&& state.step is Retrying ==> state.failures < MAX_ATTEMPTS
}

/// No event lowers the high-water mark, gives the connection another slot or
/// another name, takes back that it has notified, or leads out of the
/// bounds of the reconnect schedule.
pub proof fn lemma_step_keeps(state: ConnectionView, event: EventView)
    ensures
        after(state, event).mark >= state.mark,
        after(state, event).id == state.id,
        after(state, event).name == state.name,
        state.notified ==> after(state, event).notified,
        in_bounds(state) ==> in_bounds(after(state, event)),
{
    if let EventView::Found(uids) = event {
        crate::highwater::lemma_mark_only_rises(state.mark, uids);
    }
}

/// The high-water mark never falls, whatever happens: over any sequence of
/// searches, failures and reconnects it ends at least where it began. The
/// connection keeps its slot, and stays within the reconnect schedule.
pub proof fn lemma_mark_never_falls(state: ConnectionView, events: Seq<EventView>)
    ensures
        run(state, events).mark >= state.mark,
        run(state, events).id == state.id,
        in_bounds(state) ==> in_bounds(run(state, events)),
    decreases events.len(),
{
    if events.len() > 0 {
        lemma_mark_never_falls(state, events.drop_last());
        lemma_step_keeps(run(state, events.drop_last()), events.last());
    }
}

/// A fetch asks for no message at or below the high-water mark that held
/// when the search came back, and for every message of the search above it.
pub proof fn lemma_fetch_asks_for_unseen_only(state: ConnectionView, uids: Seq<u32>)
    requires
        state.step is Searching,
    ensures
        match next(state, EventView::Found(uids)) {
            Some((_, ActionView::Fetch { uids: list, item })) => {
                &&& list == uid_list(unseen(uids, state.mark))
                &&& unseen(uids, state.mark).len() > 0
                &&& forall|i: int|
                    0 <= i < unseen(uids, state.mark).len() ==> unseen(uids, state.mark)[i]
                        > state.mark
            },
            Some((_, ActionView::Announce { announcement, id, count })) => {
                &&& announcement is None
                &&& unseen(uids, state.mark).len() == 0
            },
            _ => false,
        },
{
    crate::highwater::lemma_unseen_is_above_mark(uids, state.mark);
}

/// A search result with nothing above the high-water mark is reported with
/// its full size and announced with nothing; the mark stays.
pub proof fn lemma_stale_result_is_counted_not_announced(state: ConnectionView, uids: Seq<u32>)
    requires
        state.step is Searching,
        forall|i: int| 0 <= i < uids.len() ==> uids[i] <= state.mark,
    ensures
        next(state, EventView::Found(uids)) == Some(
            (
                ConnectionView { step: Step::Announcing, ..state },
                ActionView::Announce {
                    announcement: None,
                    id: state.id,
                    count: uids.len() as usize,
                },
            ),
        ),
{
    crate::highwater::lemma_stale_result_sifts_empty(uids, state.mark);
}

/// A reconnect attempt that fails for a reason that may pass is followed by
/// a pause of 1, 2, 4, 8 or 16 seconds: twice the pause before it, starting
/// at one second.
pub proof fn lemma_failed_attempt_pauses(state: ConnectionView, error: ConnectError)
    requires
        in_bounds(state),
        state.step is Retrying,
        error != ConnectError::CapabilityUnsupported,
    ensures
        next(state, EventView::ConnectFailed(error)) == Some(
            (
                ConnectionView { step: Step::Pausing, failures: state.failures + 1, ..state },
                ActionView::Sleep(pause_after(state.failures + 1) as u64),
            ),
        ),
        state.failures == 0 ==> pause_after(state.failures + 1) == 1,
        state.failures == 1 ==> pause_after(state.failures + 1) == 2,
        state.failures == 2 ==> pause_after(state.failures + 1) == 4,
        state.failures == 3 ==> pause_after(state.failures + 1) == 8,
        state.failures == 4 ==> pause_after(state.failures + 1) == 16,
{
    crate::backoff::lemma_pauses();
}

/// After the pause that follows the fifth failed attempt the connection
/// stops; after an earlier one it tries again.
pub proof fn lemma_fifth_failure_is_the_last(state: ConnectionView)
    requires
        state.step is Pausing,
    ensures
        next(state, EventView::Slept) == Some(
            if state.failures >= 5 {
                (ConnectionView { step: Step::Terminated, ..state }, ActionView::Stop)
            } else {
                (ConnectionView { step: Step::Retrying, ..state }, ActionView::Connect)
            },
        ),
{
}

/// The events of a failure episode in which every reconnect attempt fails:
/// the logout, then each failure and the pause after it.
pub open spec fn failing_episode(errors: Seq<ConnectError>) -> Seq<EventView>
    decreases errors.len(),
{
    if errors.len() == 0 {
        seq![EventView::LoggedOut]
    } else {
        failing_episode(errors.drop_last()).push(EventView::ConnectFailed(errors.last())).push(
            EventView::Slept,
        )
    }
}

/// While no more than five attempts have failed in an episode, and each for
/// a reason that may pass, the connection has counted them all; it has
/// terminated just when they are five.
pub proof fn lemma_five_failures_terminate(state: ConnectionView, errors: Seq<ConnectError>)
    requires
        state.step is LoggingOut,
        errors.len() <= MAX_ATTEMPTS,
        forall|k: int|
            0 <= k < errors.len() ==> errors[k] != ConnectError::CapabilityUnsupported,
    ensures
        run(state, failing_episode(errors)).failures == errors.len(),
        run(state, failing_episode(errors)).step == if errors.len() == MAX_ATTEMPTS {
            Step::Terminated
        } else {
            Step::Retrying
        },
        run(state, failing_episode(errors)).mark == state.mark,
    decreases errors.len(),
{
    if errors.len() == 0 {
        let events = failing_episode(errors);
        assert(events.drop_last() =~= Seq::<EventView>::empty());
        assert(run(state, events.drop_last()) == state);
    } else {
        let fewer = errors.drop_last();
        lemma_five_failures_terminate(state, fewer);
        let before = failing_episode(fewer);
        let failed = before.push(EventView::ConnectFailed(errors.last()));
        let events = failed.push(EventView::Slept);
        assert(failed.drop_last() =~= before);
        assert(events.drop_last() =~= failed);
        assert(run(state, failed) == after(run(state, before), failed.last()));
        assert(run(state, events) == after(run(state, failed), events.last()));
    }
}

/// A server that cannot wait for changes ends the connection at once,
/// without a retry.
pub proof fn lemma_missing_capability_is_final(state: ConnectionView)
    requires
        state.step is Connecting || state.step is Retrying,
    ensures
        next(state, EventView::ConnectFailed(ConnectError::CapabilityUnsupported)) == Some(
            (ConnectionView { step: Step::Terminated, ..state }, ActionView::Stop),
        ),
{
}

/// A terminated connection stays terminated: it takes no event, and so
/// reports no count ever again.
pub proof fn lemma_terminated_is_final(state: ConnectionView, events: Seq<EventView>)
    requires
        state.step is Terminated,
    ensures
        forall|event: EventView| next(state, event) is None,
        run(state, events) == state,
    decreases events.len(),
{
    if events.len() > 0 {
        lemma_terminated_is_final(state, events.drop_last());
    }
}

} // verus!
