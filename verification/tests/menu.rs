use gophermap::GopherMenu;
use gophermap::ItemType;

#[test]
fn menu_sequencing() {
    let mut menu = GopherMenu::with_write(String::new());
    menu.info("a");
    menu.write_entry(ItemType::Directory, "b", "/x", "example.com", 70);
    menu.end();
    assert_eq!(menu.target, "ia\tFAKE\tfake.host\t1\r\n1b\t/x\texample.com\t70\r\n.\r\n");
}

#[test]
fn menu_info_line() {
    let mut menu = GopherMenu::with_write(String::new());
    menu.info("hello");
    assert_eq!(menu.target, "ihello\tFAKE\tfake.host\t1\r\n");
}

#[test]
fn menu_error_line() {
    let mut menu = GopherMenu::with_write(String::new());
    menu.error("not found");
    assert_eq!(menu.target, "3not found\tFAKE\tfake.host\t1\r\n");
}

#[test]
fn menu_end_alone() {
    let mut menu = GopherMenu::with_write(String::new());
    menu.end();
    assert_eq!(menu.target, ".\r\n");
}

#[test]
fn menu_appends_to_existing_target() {
    let mut menu = GopherMenu::with_write("ix\tFAKE\tfake.host\t1\r\n".to_owned());
    menu.write_entry(ItemType::File, "y", "/y", "h", 7);
    assert_eq!(menu.target, "ix\tFAKE\tfake.host\t1\r\n0y\t/y\th\t7\r\n");
}
