//! The states the status indicator can show, and the image shown for each.

use vstd::prelude::*;
use vstd::string::*;

verus! {

/// What the status indicator shows.
#[derive(Clone, Copy, Debug, PartialEq, Eq, Structural)]
pub enum Icon {
    Connected,
    Disconnected,
    UnreadMail,
    NewMail,
}

/// The image file shown for each [`Icon`].
#[derive(Clone, Debug)]
pub struct Icons {
    pub connected: String,
    pub disconnected: String,
    pub unread: String,
    pub new_mail: String,
}

impl Icons {
    /// The path stored for `icon`.
    pub open spec fn path_of(self, icon: Icon) -> Seq<char> {
        match icon {
            Icon::Connected => self.connected@,
            Icon::Disconnected => self.disconnected@,
            Icon::UnreadMail => self.unread@,
            Icon::NewMail => self.new_mail@,
        }
    }

    /// The image file for `icon`.
    pub fn get_icon(&self, icon: Icon) -> (path: &str)
        ensures
            path@ == self.path_of(icon),
    {
        match icon {
            Icon::Connected => self.connected.as_str(),
            Icon::Disconnected => self.disconnected.as_str(),
            Icon::UnreadMail => self.unread.as_str(),
            Icon::NewMail => self.new_mail.as_str(),
        }
    }

    /// The images used when the configuration names none.
    pub fn get_default() -> (icons: Icons)
        ensures
            icons.connected@ == "/usr/share/icons/Faenza/stock/24/stock_connect.png"@,
            icons.disconnected@ == "/usr/share/icons/Faenza/stock/24/stock_disconnect.png"@,
            icons.unread@ == "/usr/share/icons/oxygen/base/32x32/status/mail-unread.png"@,
            icons.new_mail@ == "/usr/share/icons/oxygen/base/32x32/status/mail-unread-new.png"@,
    {
        Icons {
            connected: String::from_str("/usr/share/icons/Faenza/stock/24/stock_connect.png"),
            disconnected: String::from_str("/usr/share/icons/Faenza/stock/24/stock_disconnect.png"),
            unread: String::from_str("/usr/share/icons/oxygen/base/32x32/status/mail-unread.png"),
            new_mail: String::from_str(
                "/usr/share/icons/oxygen/base/32x32/status/mail-unread-new.png",
            ),
        }
    }
}

/// The icon for a total of `total` new messages over all connections: the
/// plain mailbox while nothing is new, the highlighted one otherwise.
pub open spec fn icon_for_total(total: nat) -> Icon {
    if total == 0 {
        Icon::UnreadMail
    } else {
        Icon::NewMail
    }
}

} // verus!
