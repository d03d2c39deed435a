use gophermap::GopherEntry;
use gophermap::ItemType;

#[test]
fn bare_line_feed_rejected() {
    assert!(GopherEntry::from("1a\t/x\thost\t70\n").is_none());
}

#[test]
fn missing_terminator_rejected() {
    assert!(GopherEntry::from("1a\t/x\thost\t70").is_none());
    assert!(GopherEntry::from("1a\t/x\thost\t70\r").is_none());
}

#[test]
fn empty_line_rejected() {
    assert!(GopherEntry::from("").is_none());
    assert!(GopherEntry::from("\r\n").is_none());
}

#[test]
fn three_fields_rejected() {
    assert!(GopherEntry::from("1a\t/x\t70\r\n").is_none());
}

#[test]
fn empty_first_field_rejected() {
    assert!(GopherEntry::from("\t/x\thost\t70\r\n").is_none());
}

#[test]
fn unknown_type_passes_through() {
    let entry = GopherEntry::from("Zfoo\t/x\thost\t70\r\n").unwrap();
    assert_eq!(entry.item_type, ItemType::Other('Z'));
    let mut line = String::new();
    entry.write(&mut line);
    assert_eq!(line, "Zfoo\t/x\thost\t70\r\n");
}

#[test]
fn port_upper_bound() {
    let entry = GopherEntry::from("1a\t/x\thost\t65535\r\n").unwrap();
    assert_eq!(entry.port, 65535);
    assert!(GopherEntry::from("1a\t/x\thost\t65536\r\n").is_none());
}

#[test]
fn negative_port_rejected() {
    assert!(GopherEntry::from("1a\t/x\thost\t-1\r\n").is_none());
}

#[test]
fn signed_port_rejected() {
    assert!(GopherEntry::from("1a\t/x\thost\t+1\r\n").is_none());
}

#[test]
fn empty_port_rejected() {
    assert!(GopherEntry::from("1a\t/x\thost\t\r\n").is_none());
}

#[test]
fn non_numeric_port_rejected() {
    assert!(GopherEntry::from("1a\t/x\thost\tseventy\r\n").is_none());
}

#[test]
fn huge_port_rejected() {
    assert!(GopherEntry::from("1a\t/x\thost\t99999999999999999999\r\n").is_none());
}

#[test]
fn leading_zero_port_accepted() {
    let entry = GopherEntry::from("1a\t/x\thost\t070\r\n").unwrap();
    assert_eq!(entry.port, 70);
}

#[test]
fn extra_fields_dropped() {
    let entry = GopherEntry::from("1a\t/x\thost\t70\tignored\tmore\r\n").unwrap();
    assert_eq!(entry.display_string, "a");
    assert_eq!(entry.selector, "/x");
    assert_eq!(entry.host, "host");
    assert_eq!(entry.port, 70);
}

#[test]
fn single_char_first_field_gives_empty_display() {
    let entry = GopherEntry::from("1\t/x\thost\t70\r\n").unwrap();
    assert_eq!(entry.item_type, ItemType::Directory);
    assert_eq!(entry.display_string, "");
}

#[test]
fn item_type_table_round_trip() {
    let table = vec![
        ('0', ItemType::File),
        ('1', ItemType::Directory),
        ('2', ItemType::CsoServer),
        ('3', ItemType::Error),
        ('4', ItemType::BinHex),
        ('5', ItemType::DosBinary),
        ('6', ItemType::Uuencoded),
        ('7', ItemType::Search),
        ('8', ItemType::Telnet),
        ('9', ItemType::Binary),
        ('+', ItemType::RedundantServer),
        ('T', ItemType::Tn3270),
        ('g', ItemType::Gif),
        ('I', ItemType::Image),
        ('i', ItemType::Info),
        ('Z', ItemType::Other('Z')),
        ('~', ItemType::Other('~')),
    ];
    for (c, kind) in table {
        assert_eq!(ItemType::from(c), kind);
        assert_eq!(ItemType::from(c).to_char(), c);
    }
}
