use gophermap::GopherEntry;
use gophermap::ItemType;

fn get_test_pairs() -> Vec<(String, GopherEntry)> {
    let mut pairs = Vec::new();

    pairs.push((
        "1Floodgap Home\t/home\tgopher.floodgap.com\t70\r\n".to_owned(),
        GopherEntry {
            item_type: ItemType::Directory,
            display_string: "Floodgap Home".to_owned(),
            selector: "/home".to_owned(),
            host: "gopher.floodgap.com".to_owned(),
            port: 70,
        },
    ));

    pairs.push((
        "iWelcome to my page\tFAKE\t(NULL)\t0\r\n".to_owned(),
        GopherEntry {
            item_type: ItemType::Info,
            display_string: "Welcome to my page".to_owned(),
            selector: "FAKE".to_owned(),
            host: "(NULL)".to_owned(),
            port: 0,
        },
    ));

    pairs
}

#[test]
fn test_parse() {
    for (raw, parsed) in get_test_pairs() {
        let entry = GopherEntry::from(&raw).unwrap();
        assert_eq!(entry.item_type, parsed.item_type);
        assert_eq!(entry.display_string, parsed.display_string);
        assert_eq!(entry.selector, parsed.selector);
        assert_eq!(entry.host, parsed.host);
        assert_eq!(entry.port, parsed.port);
    }
}

#[test]
fn test_write() {
    for (raw, parsed) in get_test_pairs() {
        let mut output = String::new();
        parsed.write(&mut output);
        assert_eq!(raw, output);
    }
}

#[test]
fn round_trip_entry() {
    let entry = GopherEntry {
        item_type: ItemType::Search,
        display_string: "find things".to_owned(),
        selector: "/search?q".to_owned(),
        host: "gopher.example.org".to_owned(),
        port: 65535,
    };
    let mut line = String::new();
    entry.write(&mut line);
    assert_eq!(line, "7find things\t/search?q\tgopher.example.org\t65535\r\n");
    let back = GopherEntry::from(&line).unwrap();
    assert_eq!(back.item_type, entry.item_type);
    assert_eq!(back.display_string, entry.display_string);
    assert_eq!(back.selector, entry.selector);
    assert_eq!(back.host, entry.host);
    assert_eq!(back.port, entry.port);
}

#[test]
fn round_trip_empty_display() {
    let entry = GopherEntry {
        item_type: ItemType::File,
        display_string: String::new(),
        selector: "/a".to_owned(),
        host: "h".to_owned(),
        port: 1,
    };
    let mut line = String::new();
    entry.write(&mut line);
    assert_eq!(line, "0\t/a\th\t1\r\n");
    let back = GopherEntry::from(&line).unwrap();
    assert_eq!(back.item_type, ItemType::File);
    assert_eq!(back.display_string, "");
    assert_eq!(back.port, 1);
}

#[test]
fn write_renders_port_without_leading_zeros() {
    let entry = GopherEntry {
        item_type: ItemType::Binary,
        display_string: "d".to_owned(),
        selector: "/s".to_owned(),
        host: "h".to_owned(),
        port: 7070,
    };
    let mut line = String::new();
    entry.write(&mut line);
    assert_eq!(line, "9d\t/s\th\t7070\r\n");
}
