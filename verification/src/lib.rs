//! Watches mailbox folders for new mail: the bookkeeping of one folder's
//! watch connection and the fan-in of all connections' counts.

pub mod account;
pub mod aggregate;
pub mod backoff;
pub mod clock;
pub mod headers;
pub mod highwater;
pub mod markup;
pub mod startup;
pub mod summary;
pub mod text;
pub mod tray_icon;
pub mod watch;
