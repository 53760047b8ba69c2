use buzz::tray_icon::{Icon, Icons};

#[test]
fn default_icons_are_the_stock_ones() {
    let icons = Icons::get_default();
    assert_eq!(icons.connected, "/usr/share/icons/Faenza/stock/24/stock_connect.png");
    assert_eq!(icons.disconnected, "/usr/share/icons/Faenza/stock/24/stock_disconnect.png");
    assert_eq!(icons.unread, "/usr/share/icons/oxygen/base/32x32/status/mail-unread.png");
    assert_eq!(icons.new_mail, "/usr/share/icons/oxygen/base/32x32/status/mail-unread-new.png");
}

#[test]
fn each_icon_has_its_own_path() {
    let icons = Icons {
        connected: String::from("c.png"),
        disconnected: String::from("d.png"),
        unread: String::from("u.png"),
        new_mail: String::from("n.png"),
    };
    assert_eq!(icons.get_icon(Icon::Connected), "c.png");
    assert_eq!(icons.get_icon(Icon::Disconnected), "d.png");
    assert_eq!(icons.get_icon(Icon::UnreadMail), "u.png");
    assert_eq!(icons.get_icon(Icon::NewMail), "n.png");
}
