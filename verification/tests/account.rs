use buzz::account::{
    password_from_output, supports_idle, AccountError, ConfigAccount, ConnectStep, ConnectionAccount,
    Progress, Secret,
};
use buzz::watch::ConnectError;

fn config() -> ConfigAccount {
    ConfigAccount {
        name: "work".to_string(),
        server: " imap.example.org ".to_string(),
        port: 993,
        username: "me@example.org\n".to_string(),
        password: Some("secret".to_string()),
        notification_command: Some("beep".to_string()),
        folder: None,
        folders: Vec::new(),
        pwcmd: None,
    }
}

fn target() -> ConnectionAccount {
    ConnectionAccount {
        name: "work".to_string(),
        server: "imap.example.org".to_string(),
        port: 993,
        username: "me".to_string(),
        password: "secret".to_string(),
        notification_command: None,
        folder: "Lists".to_string(),
    }
}

#[test]
fn account_without_folders_watches_the_inbox() {
    let accounts = config().into_connection_accounts("secret".to_string());
    assert_eq!(accounts.len(), 1);
    let account = &accounts[0];
    assert_eq!(account.name, "work");
    assert_eq!(account.server, "imap.example.org");
    assert_eq!(account.port, 993);
    assert_eq!(account.username, "me@example.org");
    assert_eq!(account.password, "secret");
    assert_eq!(account.notification_command, Some("beep".to_string()));
    assert_eq!(account.folder, "INBOX");
}

#[test]
fn account_expands_to_one_target_for_each_folder() {
    let mut account = config();
    account.folders = vec!["Lists".to_string(), "Work".to_string()];
    account.folder = Some("INBOX".to_string());
    let accounts = account.into_connection_accounts("pw".to_string());
    let folders: Vec<&str> = accounts.iter().map(|a| a.folder.as_str()).collect();
    assert_eq!(folders, vec!["Lists", "Work", "INBOX"]);
    assert!(accounts.iter().all(|a| a.password == "pw" && a.server == "imap.example.org"));
}

#[test]
fn password_comes_from_one_source_only() {
    let mut account = config();
    assert!(matches!(account.secret(), Ok(Secret::Password(p)) if p == "secret"));
    account.password = None;
    assert_eq!(account.secret().unwrap_err(), AccountError::NeitherGiven);
    account.pwcmd = Some("pass show mail".to_string());
    assert!(matches!(account.secret(), Ok(Secret::Command(c)) if c == "pass show mail"));
    account.password = Some("secret".to_string());
    assert_eq!(account.secret().unwrap_err(), AccountError::BothGiven);
}

#[test]
fn account_errors_name_the_account() {
    assert_eq!(
        AccountError::BothGiven.message("work"),
        "Provide only one of password or pwcmd for account: work"
    );
    assert_eq!(
        AccountError::NeitherGiven.message("home"),
        "Either password or pwcmd must be provided for account: home"
    );
}

#[test]
fn command_output_is_trimmed() {
    assert_eq!(password_from_output("hunter2\n"), "hunter2");
    assert_eq!(password_from_output("  two words \r\n"), "two words");
    assert_eq!(password_from_output(""), "");
}

#[test]
fn session_is_opened_step_by_step() {
    let account = target();
    assert!(matches!(
        account.connect(&Progress::Start),
        ConnectStep::Open { server, port } if server == "imap.example.org" && port == 993
    ));
    assert!(matches!(
        account.connect(&Progress::Opened),
        ConnectStep::Login { username, password } if username == "me" && password == "secret"
    ));
    assert!(matches!(account.connect(&Progress::LoggedIn), ConnectStep::ListCapabilities));
    let capabilities = vec!["IMAP4rev1".to_string(), "IDLE".to_string()];
    assert!(matches!(
        account.connect(&Progress::Listed(capabilities)),
        ConnectStep::Select { folder } if folder == "Lists"
    ));
    assert!(matches!(account.connect(&Progress::Selected), ConnectStep::Done));
}

#[test]
fn server_that_cannot_idle_is_refused() {
    let account = target();
    let capabilities = vec!["IMAP4rev1".to_string(), "idle".to_string(), "IDLE2".to_string()];
    assert!(!supports_idle(&capabilities));
    assert!(matches!(
        account.connect(&Progress::Listed(capabilities)),
        ConnectStep::Refuse(ConnectError::CapabilityUnsupported)
    ));
    assert!(!supports_idle(&Vec::new()));
    assert!(supports_idle(&vec!["IDLE".to_string()]));
}
