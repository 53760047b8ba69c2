use buzz::aggregate::Aggregator;
use buzz::clock::Instant;
use buzz::summary::Entry;
use buzz::tray_icon::Icon;
use buzz::watch::{uid_set, Action, ConnectError, Connection, Event, OutOfTurn, Phase, Step};

fn entry(secs: i64, subject: &str) -> Entry {
    Entry { date: Instant { secs, nanos: 0 }, subject: subject.to_string() }
}

fn connected(id: usize) -> Connection {
    let mut connection = Connection::new(id, "work".to_string(), None);
    match connection.handle(Event::Connected) {
        Ok(Action::Search(query)) => assert_eq!(query, "NEW 1:*"),
        other => panic!("unexpected {:?}", other),
    }
    connection
}

#[test]
fn new_connection_waits_for_its_first_connect() {
    let connection = Connection::new(4, "work".to_string(), None);
    assert_eq!(connection.id(), 4);
    assert_eq!(connection.step(), Step::Connecting);
    assert_eq!(connection.phase(), Phase::Connecting);
    assert_eq!(connection.high_water_mark(), 0);
    assert!(!connection.has_notified());
    assert_eq!(connection.failed_attempts(), 0);
}

#[test]
fn two_polls_with_the_same_ids() {
    let mut connection = connected(0);

    // first poll: ids 5 and 6 with the mark at 0
    match connection.handle(Event::Found(vec![5, 6])) {
        Ok(Action::Fetch { uids, item }) => {
            assert_eq!(uids, "5,6");
            assert_eq!(item, "RFC822.HEADER");
        }
        other => panic!("unexpected {:?}", other),
    }
    assert_eq!(connection.high_water_mark(), 6);
    assert_eq!(connection.step(), Step::Fetching { count: 2 });
    match connection.handle(Event::Fetched(vec![entry(100, "older"), entry(200, "newer")])) {
        Ok(Action::Announce { announcement: Some(a), id, count }) => {
            assert_eq!(id, 0);
            assert_eq!(count, 2);
            assert_eq!(a.notice.title, "@work has new mail (2)");
            assert_eq!(a.notice.body, "> newer\n> older");
            assert_eq!(a.notice.body.lines().count(), 2);
            assert_eq!(a.notice.markup, "&gt; newer\n&gt; older");
            assert!(!a.update);
            assert_eq!(a.command, None);
        }
        other => panic!("unexpected {:?}", other),
    }
    assert!(connection.has_notified());
    assert!(matches!(connection.handle(Event::Delivered), Ok(Action::Wait)));
    assert_eq!(connection.phase(), Phase::Waiting);

    // second poll, no reconnect: the same ids again
    assert!(matches!(connection.handle(Event::MailboxChanged), Ok(Action::Search("NEW 1:*"))));
    match connection.handle(Event::Found(vec![5, 6])) {
        Ok(Action::Announce { announcement: None, id, count }) => {
            assert_eq!(id, 0);
            assert_eq!(count, 2);
        }
        other => panic!("unexpected {:?}", other),
    }
    assert_eq!(connection.high_water_mark(), 6);
    assert!(matches!(connection.handle(Event::Delivered), Ok(Action::Wait)));
}

#[test]
fn later_batch_updates_the_notification() {
    let mut connection = Connection::new(1, "home".to_string(), Some("beep".to_string()));
    connection.handle(Event::Connected).unwrap();
    connection.handle(Event::Found(vec![1])).unwrap();
    match connection.handle(Event::Fetched(vec![entry(1, "one")])) {
        Ok(Action::Announce { announcement: Some(a), .. }) => {
            assert!(!a.update);
            assert_eq!(a.command, Some("beep".to_string()));
        }
        other => panic!("unexpected {:?}", other),
    }
    connection.handle(Event::Delivered).unwrap();
    connection.handle(Event::MailboxChanged).unwrap();
    match connection.handle(Event::Found(vec![1, 2, 3])) {
        Ok(Action::Fetch { uids, .. }) => assert_eq!(uids, "2,3"),
        other => panic!("unexpected {:?}", other),
    }
    match connection.handle(Event::Fetched(vec![entry(5, "two"), entry(5, "three")])) {
        Ok(Action::Announce { announcement: Some(a), id, count }) => {
            assert!(a.update);
            assert_eq!(a.notice.title, "@home has new mail (3)");
            assert_eq!(a.notice.body, "> two\n> three");
            assert_eq!((id, count), (1, 3));
        }
        other => panic!("unexpected {:?}", other),
    }
}

#[test]
fn batch_without_readable_messages_is_counted_only() {
    let mut connection = connected(2);
    connection.handle(Event::Found(vec![9])).unwrap();
    match connection.handle(Event::Fetched(Vec::new())) {
        Ok(Action::Announce { announcement: None, id, count }) => assert_eq!((id, count), (2, 1)),
        other => panic!("unexpected {:?}", other),
    }
    assert!(!connection.has_notified());
    assert_eq!(connection.high_water_mark(), 9);
}

#[test]
fn five_failed_reconnects_end_the_connection() {
    let mut connection = connected(1);
    connection.handle(Event::Found(vec![3])).unwrap();
    connection.handle(Event::Fetched(vec![entry(1, "x")])).unwrap();
    connection.handle(Event::Delivered).unwrap();
    assert!(matches!(connection.handle(Event::Broken), Ok(Action::Logout)));
    assert_eq!(connection.phase(), Phase::Failed);
    assert!(matches!(connection.handle(Event::LoggedOut), Ok(Action::Connect)));

    let mut pauses = Vec::new();
    let mut attempts = 1;
    loop {
        assert_eq!(connection.phase(), Phase::Reconnecting);
        match connection.handle(Event::ConnectFailed(ConnectError::Transport)) {
            Ok(Action::Sleep(seconds)) => pauses.push(seconds),
            other => panic!("unexpected {:?}", other),
        }
        assert_eq!(connection.failed_attempts(), attempts);
        match connection.handle(Event::Slept) {
            Ok(Action::Connect) => attempts += 1,
            Ok(Action::Stop) => break,
            other => panic!("unexpected {:?}", other),
        }
    }
    assert_eq!(attempts, 5);
    assert_eq!(pauses, vec![1, 2, 4, 8, 16]);
    assert_eq!(connection.phase(), Phase::Terminated);
    assert_eq!(connection.high_water_mark(), 3);

    // a terminated connection takes nothing any more
    for event in [
        Event::Connected,
        Event::Slept,
        Event::Delivered,
        Event::MailboxChanged,
        Event::LoggedOut,
        Event::Broken,
        Event::ReceiverGone,
        Event::Found(vec![1]),
        Event::Fetched(Vec::new()),
        Event::ConnectFailed(ConnectError::Transport),
    ] {
        assert_eq!(
            connection.handle(event).unwrap_err(),
            OutOfTurn { step: Step::Terminated }
        );
    }
}

#[test]
fn terminated_connection_leaves_its_count_frozen() {
    let mut aggregator = Aggregator::new(2);
    let mut failing = connected(0);
    let mut healthy = connected(1);

    for (connection, uids) in [(&mut failing, vec![1, 2]), (&mut healthy, vec![7])] {
        connection.handle(Event::Found(uids)).unwrap();
        match connection.handle(Event::Fetched(vec![entry(1, "m")])) {
            Ok(Action::Announce { id, count, .. }) => {
                aggregator.record(id, count);
            }
            other => panic!("unexpected {:?}", other),
        }
        connection.handle(Event::Delivered).unwrap();
    }
    assert_eq!((aggregator.count_of(0), aggregator.count_of(1)), (2, 1));

    failing.handle(Event::Broken).unwrap();
    failing.handle(Event::LoggedOut).unwrap();
    for _ in 0..5 {
        failing.handle(Event::ConnectFailed(ConnectError::Transport)).unwrap();
        failing.handle(Event::Slept).unwrap();
    }
    assert_eq!(failing.phase(), Phase::Terminated);

    healthy.handle(Event::MailboxChanged).unwrap();
    match healthy.handle(Event::Found(Vec::new())) {
        Ok(Action::Announce { announcement: None, id, count }) => {
            assert_eq!(aggregator.record(id, count), Icon::NewMail);
        }
        other => panic!("unexpected {:?}", other),
    }
    assert_eq!((aggregator.count_of(0), aggregator.count_of(1)), (2, 0));
    assert!(aggregator.has_new());
}

#[test]
fn reconnect_keeps_the_mark_and_starts_a_new_episode() {
    let mut connection = connected(0);
    connection.handle(Event::Found(vec![10, 11])).unwrap();
    assert!(matches!(connection.handle(Event::Broken), Ok(Action::Logout)));
    connection.handle(Event::LoggedOut).unwrap();
    assert!(matches!(
        connection.handle(Event::ConnectFailed(ConnectError::Authentication)),
        Ok(Action::Sleep(1))
    ));
    connection.handle(Event::Slept).unwrap();
    assert!(matches!(
        connection.handle(Event::ConnectFailed(ConnectError::Protocol)),
        Ok(Action::Sleep(2))
    ));
    assert!(matches!(connection.handle(Event::Slept), Ok(Action::Connect)));
    assert!(matches!(connection.handle(Event::Connected), Ok(Action::Search(_))));
    assert_eq!(connection.id(), 0);
    assert_eq!(connection.high_water_mark(), 11);
    match connection.handle(Event::Found(vec![10, 11])) {
        Ok(Action::Announce { announcement: None, count, .. }) => assert_eq!(count, 2),
        other => panic!("unexpected {:?}", other),
    }
    connection.handle(Event::Delivered).unwrap();

    // the next failure episode starts at one second again
    connection.handle(Event::Broken).unwrap();
    connection.handle(Event::LoggedOut).unwrap();
    assert_eq!(connection.failed_attempts(), 0);
    assert!(matches!(
        connection.handle(Event::ConnectFailed(ConnectError::Transport)),
        Ok(Action::Sleep(1))
    ));
}

#[test]
fn missing_capability_is_not_retried() {
    let mut first = Connection::new(0, "a".to_string(), None);
    assert!(matches!(
        first.handle(Event::ConnectFailed(ConnectError::CapabilityUnsupported)),
        Ok(Action::Stop)
    ));
    assert_eq!(first.phase(), Phase::Terminated);

    let mut later = connected(1);
    later.handle(Event::Broken).unwrap();
    later.handle(Event::LoggedOut).unwrap();
    assert!(matches!(
        later.handle(Event::ConnectFailed(ConnectError::CapabilityUnsupported)),
        Ok(Action::Stop)
    ));
    assert_eq!(later.phase(), Phase::Terminated);
}

#[test]
fn failed_first_connect_goes_through_logout_to_reconnecting() {
    let mut connection = Connection::new(0, "a".to_string(), None);
    assert!(matches!(
        connection.handle(Event::ConnectFailed(ConnectError::Transport)),
        Ok(Action::Logout)
    ));
    assert_eq!(connection.phase(), Phase::Failed);
    assert!(matches!(connection.handle(Event::LoggedOut), Ok(Action::Connect)));
    assert_eq!(connection.phase(), Phase::Reconnecting);
}

#[test]
fn gone_receiver_ends_the_connection() {
    let mut connection = connected(0);
    connection.handle(Event::Found(Vec::new())).unwrap();
    assert!(matches!(connection.handle(Event::ReceiverGone), Ok(Action::Stop)));
    assert_eq!(connection.phase(), Phase::Terminated);
}

#[test]
fn event_out_of_turn_changes_nothing() {
    let mut connection = connected(0);
    connection.handle(Event::Found(vec![4])).unwrap();
    let step = connection.step();
    for event in [Event::Delivered, Event::Slept, Event::Found(vec![9]), Event::Connected] {
        assert_eq!(connection.handle(event).unwrap_err(), OutOfTurn { step });
        assert_eq!(connection.step(), step);
        assert_eq!(connection.high_water_mark(), 4);
    }
}

#[test]
fn uid_set_is_decimal_with_commas() {
    assert_eq!(uid_set(&vec![]), "");
    assert_eq!(uid_set(&vec![7]), "7");
    assert_eq!(uid_set(&vec![5, 6]), "5,6");
    assert_eq!(uid_set(&vec![0, 4294967295, 10]), "0,4294967295,10");
}
