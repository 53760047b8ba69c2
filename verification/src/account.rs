//! Accounts: what the configuration says of one, the watch targets it
//! expands to, and the steps that open a session for a target.

use crate::text::{opt_text, texts, trim, trimmed};
use crate::watch::ConnectError;
use vstd::prelude::*;
use vstd::string::*;

verus! {

fn clone_opt(string: &Option<String>) -> (copy: Option<String>)
    ensures
        opt_text(copy) == opt_text(*string),
{
    match string {
        Some(s) => Some(s.clone()),
        None => None,
    }
}

/// An account as the configuration has it.
#[derive(Clone, Debug)]
pub struct ConfigAccount {
    pub name: String,
    pub server: String,
    pub port: u16,
    pub username: String,
    pub password: Option<String>,
    pub notification_command: Option<String>,
    pub folder: Option<String>,
    pub folders: Vec<String>,
    pub pwcmd: Option<String>,
}

/// One watch target: an account and one folder of it, with the password
/// resolved.
#[derive(Clone, Debug)]
pub struct ConnectionAccount {
    pub name: String,
    pub server: String,
    pub port: u16,
    pub username: String,
    pub password: String,
    pub notification_command: Option<String>,
    pub folder: String,
}

/// A [`ConnectionAccount`] as plain values.
pub struct ConnectionAccountView {
    pub name: Seq<char>,
    pub server: Seq<char>,
    pub port: u16,
    pub username: Seq<char>,
    pub password: Seq<char>,
    pub notification_command: Option<Seq<char>>,
    pub folder: Seq<char>,
}

impl View for ConnectionAccount {
    type V = ConnectionAccountView;

    open spec fn view(&self) -> ConnectionAccountView {
        ConnectionAccountView {
            name: self.name@,
            server: self.server@,
            port: self.port,
            username: self.username@,
            password: self.password@,
            notification_command: opt_text(self.notification_command),
            folder: self.folder@,
        }
    }
}

/// Where an account's password comes from.
#[derive(Debug)]
pub enum Secret {
    /// The configuration states it.
    Password(String),
    /// A shell command prints it.
    Command(String),
}

/// What is wrong with an account's configuration.
#[derive(Clone, Copy, Debug, PartialEq, Eq, Structural)]
pub enum AccountError {
    /// Both a password and a password command are given.
    BothGiven,
    /// Neither a password nor a password command is given.
    NeitherGiven,
}

impl AccountError {
    /// What to tell the user about the account called `name`.
    pub open spec fn message_text(self, name: Seq<char>) -> Seq<char> {
        match self {
            AccountError::BothGiven => "Provide only one of password or pwcmd for account: "@
                + name,
            AccountError::NeitherGiven => "Either password or pwcmd must be provided for account: "@
                + name,
        }
    }

    /// What to tell the user about the account called `name`.
    pub fn message(&self, name: &str) -> (text: String)
        ensures
            text@ == self.message_text(name@),
    {
        let mut text = match self {
            AccountError::BothGiven => String::from_str(
                "Provide only one of password or pwcmd for account: ",
            ),
            AccountError::NeitherGiven => String::from_str(
                "Either password or pwcmd must be provided for account: ",
            ),
        };
        text.append(name);
        text
    }
}

/// The folders to watch for an account that names the folders `folders` and
/// perhaps one more, `folder`: all of them, or the inbox if there is none.
pub open spec fn watched_folders(folders: Seq<Seq<char>>, folder: Option<Seq<char>>) -> Seq<
    Seq<char>,
> {
    let named = match folder {
        Some(one) => folders.push(one),
        None => folders,
    };
    if named.len() == 0 {
        seq!["INBOX"@]
    } else {
        named
    }
}

/// The password a password command stands for, given what it printed: the
/// output without the white space around it.
pub fn password_from_output(output: &str) -> (password: String)
    ensures
        password@ == trimmed(output@),
{
    trim(output).to_owned()
}

impl ConfigAccount {
    /// Where the password comes from. An account must give a password or a
    /// command that prints it, and not both.
    pub fn secret(&self) -> (source: Result<Secret, AccountError>)
        ensures
            match (opt_text(self.password), opt_text(self.pwcmd)) {
                (Some(password), None) => source matches Ok(Secret::Password(p)) && p@
                    == password,
                (None, Some(command)) => source matches Ok(Secret::Command(c)) && c@ == command,
                (Some(_), Some(_)) => source == Err::<Secret, AccountError>(
                    AccountError::BothGiven,
                ),
                (None, None) => source == Err::<Secret, AccountError>(AccountError::NeitherGiven),
            },
    {
        match (&self.password, &self.pwcmd) {
            (Some(password), None) => Ok(Secret::Password(password.clone())),
            (None, Some(command)) => Ok(Secret::Command(command.clone())),
            (Some(_), Some(_)) => Err(AccountError::BothGiven),
            (None, None) => Err(AccountError::NeitherGiven),
        }
    }

    /// The watch target for the folder `folder` of this account, with the
    /// password `password`.
    pub open spec fn target(self, password: Seq<char>, folder: Seq<char>) -> ConnectionAccountView {
        ConnectionAccountView {
            name: self.name@,
            server: trimmed(self.server@),
            port: self.port,
            username: trimmed(self.username@),
            password,
            notification_command: opt_text(self.notification_command),
            folder,
        }
    }

    /// The watch targets of this account, one for each folder to watch and
    /// in their order, each with the resolved password `password`.
    pub fn into_connection_accounts(self, password: String) -> (accounts: Vec<ConnectionAccount>)
        ensures
            accounts@.len() == watched_folders(texts(self.folders@), opt_text(self.folder)).len(),
            forall|i: int|
                0 <= i < accounts@.len() ==> (#[trigger] accounts@[i])@ == self.target(
                    password@,
                    watched_folders(texts(self.folders@), opt_text(self.folder))[i],
                ),
    {
        let ghost watched = watched_folders(texts(self.folders@), opt_text(self.folder));
        let mut folders: Vec<String> = self.folders.clone();
        assert(texts(folders@) =~= texts(self.folders@)) by {
            assert(folders@ == self.folders@);
        }
        match &self.folder {
            Some(folder) => {
                folders.push(folder.clone());
            },
            None => {},
        }
        if folders.len() == 0 {
            folders.push(String::from_str("INBOX"));
        }
        assert(texts(folders@) =~= watched);
        let mut accounts: Vec<ConnectionAccount> = Vec::new();
        let mut i: usize = 0;
        while i < folders.len()
            invariant
                i <= folders@.len(),
                texts(folders@) == watched,
                accounts@.len() == i,
                forall|j: int|
                    0 <= j < i ==> (#[trigger] accounts@[j])@ == self.target(password@, watched[j]),
            decreases folders@.len() - i,
        {
            let account = ConnectionAccount {
                name: self.name.clone(),
                server: trim(self.server.as_str()).to_owned(),
                port: self.port,
                username: trim(self.username.as_str()).to_owned(),
                password: password.clone(),
                notification_command: clone_opt(&self.notification_command),
                folder: folders[i].clone(),
            };
            proof {
                assert(texts(folders@)[i as int] == folders@[i as int]@);
            }
            accounts.push(account);
            i += 1;
        }
        accounts
    }
}

/// How far the opening of a session has come.
#[derive(Debug)]
pub enum Progress {
    /// Nothing is done yet.
    Start,
    /// The transport to the server is open.
    Opened,
    /// The server has accepted the credentials.
    LoggedIn,
    /// The server has listed what it is capable of.
    Listed(Vec<String>),
    /// The folder is selected.
    Selected,
}

/// A [`Progress`] as plain values.
pub enum ProgressView {
    Start,
    Opened,
    LoggedIn,
    Listed(Seq<Seq<char>>),
    Selected,
}

impl View for Progress {
    type V = ProgressView;

    open spec fn view(&self) -> ProgressView {
        match self {
            Progress::Start => ProgressView::Start,
            Progress::Opened => ProgressView::Opened,
            Progress::LoggedIn => ProgressView::LoggedIn,
            Progress::Listed(capabilities) => ProgressView::Listed(texts(capabilities@)),
            Progress::Selected => ProgressView::Selected,
        }
    }
}

/// What opening a session takes next.
#[derive(Debug)]
pub enum ConnectStep {
    /// Open the transport to this server and port.
    Open { server: String, port: u16 },
    /// Log in with these credentials.
    Login { username: String, password: String },
    /// Ask the server what it is capable of.
    ListCapabilities,
    /// Select this folder.
    Select { folder: String },
    /// Nothing: the session is ready to be watched.
    Done,
    /// Give up: the server will not do.
    Refuse(ConnectError),
}

/// A [`ConnectStep`] as plain values.
pub enum ConnectStepView {
    Open { server: Seq<char>, port: u16 },
    Login { username: Seq<char>, password: Seq<char> },
    ListCapabilities,
    Select { folder: Seq<char> },
    Done,
    Refuse(ConnectError),
}

impl View for ConnectStep {
    type V = ConnectStepView;

    open spec fn view(&self) -> ConnectStepView {
        match self {
            ConnectStep::Open { server, port } => ConnectStepView::Open {
                server: server@,
                port: *port,
            },
            ConnectStep::Login { username, password } => ConnectStepView::Login {
                username: username@,
                password: password@,
            },
            ConnectStep::ListCapabilities => ConnectStepView::ListCapabilities,
            ConnectStep::Select { folder } => ConnectStepView::Select { folder: folder@ },
            ConnectStep::Done => ConnectStepView::Done,
            ConnectStep::Refuse(error) => ConnectStepView::Refuse(*error),
        }
    }
}

/// Whether a server with the capabilities `capabilities` can wait for
/// changes of a mailbox: whether it names `IDLE` among them.
pub open spec fn can_idle(capabilities: Seq<Seq<char>>) -> bool {
    capabilities.contains("IDLE"@)
}

/// What opening a session for `account` takes once `progress` is made: the
/// transport, the login, the server's capabilities and the folder, in that
/// order, and no folder on a server that cannot wait for changes.
pub open spec fn connect_step(account: ConnectionAccountView, progress: ProgressView)
    -> ConnectStepView {
    match progress {
        ProgressView::Start => ConnectStepView::Open { server: account.server, port: account.port },
        ProgressView::Opened => ConnectStepView::Login {
            username: account.username,
            password: account.password,
        },
        ProgressView::LoggedIn => ConnectStepView::ListCapabilities,
        ProgressView::Listed(capabilities) => if can_idle(capabilities) {
            ConnectStepView::Select { folder: account.folder }
        } else {
            ConnectStepView::Refuse(ConnectError::CapabilityUnsupported)
        },
        ProgressView::Selected => ConnectStepView::Done,
    }
}

/// Whether the server names `IDLE` among its capabilities.
pub fn supports_idle(capabilities: &Vec<String>) -> (yes: bool)
    ensures
        yes == can_idle(texts(capabilities@)),
{
    let idle = String::from_str("IDLE");
    let mut i: usize = 0;
    while i < capabilities.len()
        invariant
            i <= capabilities@.len(),
            idle@ == "IDLE"@,
            forall|j: int| 0 <= j < i ==> texts(capabilities@)[j] != "IDLE"@,
        decreases capabilities@.len() - i,
    {
        if capabilities[i] == idle {
            assert(texts(capabilities@)[i as int] == "IDLE"@);
            return true;
        }
        i += 1;
    }
    false
}

impl ConnectionAccount {
    /// What opening a session for this target takes next, once `progress`
    /// is made.
    pub fn connect(&self, progress: &Progress) -> (step: ConnectStep)
        ensures
            step@ == connect_step(self@, progress@),
    {
        match progress {
            Progress::Start => ConnectStep::Open { server: self.server.clone(), port: self.port },
            Progress::Opened => ConnectStep::Login {
                username: self.username.clone(),
                password: self.password.clone(),
            },
            Progress::LoggedIn => ConnectStep::ListCapabilities,
            Progress::Listed(capabilities) => {
                if supports_idle(capabilities) {
                    ConnectStep::Select { folder: self.folder.clone() }
                } else {
                    ConnectStep::Refuse(ConnectError::CapabilityUnsupported)
                }
            },
            Progress::Selected => ConnectStep::Done,
        }
    }
}

} // verus!
