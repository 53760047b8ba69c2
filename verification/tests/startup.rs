use buzz::account::ConnectionAccount;
use buzz::backoff::Backoff;
use buzz::startup::{connections, outcome, retry_pause, Outcome};
use buzz::watch::{ConnectError, Step};

fn target(name: &str, command: Option<&str>) -> ConnectionAccount {
    ConnectionAccount {
        name: name.to_string(),
        server: "imap.example.org".to_string(),
        port: 993,
        username: "me".to_string(),
        password: "secret".to_string(),
        notification_command: command.map(str::to_string),
        folder: "INBOX".to_string(),
    }
}

#[test]
fn transport_failures_are_retried_five_times() {
    let mut backoff = Backoff::new();
    let mut pauses = Vec::new();
    while let Some(seconds) = retry_pause(&mut backoff, ConnectError::Transport) {
        pauses.push(seconds);
        assert!(pauses.len() <= 5);
    }
    assert_eq!(pauses, vec![1, 2, 4, 8, 16]);
    assert!(backoff.exhausted());
    assert_eq!(backoff.failed_attempts(), 5);
    assert_eq!(retry_pause(&mut backoff, ConnectError::Transport), None);
    assert_eq!(backoff.failed_attempts(), 5);
}

#[test]
fn other_failures_are_not_retried_at_the_start() {
    for error in [
        ConnectError::Authentication,
        ConnectError::CapabilityUnsupported,
        ConnectError::Protocol,
    ] {
        let mut backoff = Backoff::new();
        assert_eq!(retry_pause(&mut backoff, error), None);
        assert_eq!(backoff.failed_attempts(), 0);
        assert!(!backoff.exhausted());
    }
}

#[test]
fn backoff_pauses_double_from_one_second() {
    let mut backoff = Backoff::new();
    assert_eq!(backoff.next_pause(), Some(1));
    assert_eq!(backoff.next_pause(), Some(2));
    assert_eq!(backoff.next_pause(), Some(4));
    assert_eq!(backoff.next_pause(), Some(8));
    assert!(!backoff.exhausted());
    assert_eq!(backoff.next_pause(), Some(16));
    assert!(backoff.exhausted());
    assert_eq!(backoff.next_pause(), None);
}

#[test]
fn outcome_of_a_start() {
    assert_eq!(outcome(0, 0), Outcome::NothingToDo);
    assert_eq!(outcome(2, 0), Outcome::NothingWorked);
    assert_eq!(outcome(2, 3), Outcome::Watching(3));
    assert_eq!(Outcome::NothingToDo.exit_code(), 0);
    assert_eq!(Outcome::Watching(1).exit_code(), 0);
    assert_ne!(Outcome::NothingWorked.exit_code(), 0);
}

#[test]
fn connections_get_dense_slots() {
    let targets = vec![target("a", None), target("b", Some("beep")), target("a", None)];
    let all = connections(&targets);
    assert_eq!(all.len(), 3);
    for (i, connection) in all.iter().enumerate() {
        assert_eq!(connection.id(), i);
        assert_eq!(connection.step(), Step::Connecting);
        assert_eq!(connection.high_water_mark(), 0);
    }
    assert!(connections(&Vec::new()).is_empty());
}
