use vstd::prelude::*;

verus! {

/// Item type for a Gopher directory entry: the semantic kind of the linked
/// resource, carried as a single character at the start of the wire line.
#[derive(Debug, PartialEq)]
pub enum ItemType {
    /// Item is a file
    File,
    /// Item is a directory
    Directory,
    /// Item is a CSO phone-book server
    CsoServer,
    /// Error
    Error,
    /// Item is a BinHexed Macintosh file
    BinHex,
    /// Item is a DOS binary archive of some sort
    DosBinary,
    /// Item is a UNIX uuencoded file
    Uuencoded,
    /// Item is an Index-Search server
    Search,
    /// Item points to a text-based telnet session
    Telnet,
    /// Item is a binary file
    Binary,
    /// Item is a redundant server
    RedundantServer,
    /// Item points to a text-based tn3270 session
    Tn3270,
    /// Item is a GIF format graphics file
    Gif,
    /// Item is some sort of image file; the client decides how to display it
    Image,
    /// Informational message
    Info,
    /// Any character outside the fixed table, preserved verbatim
    Other(char),
}

/// The wire character that an item type is written as.
pub open spec fn char_of(t: ItemType) -> char {
    match t {
        ItemType::File => '0',
        ItemType::Directory => '1',
        ItemType::CsoServer => '2',
        ItemType::Error => '3',
        ItemType::BinHex => '4',
        ItemType::DosBinary => '5',
        ItemType::Uuencoded => '6',
        ItemType::Search => '7',
        ItemType::Telnet => '8',
        ItemType::Binary => '9',
        ItemType::RedundantServer => '+',
        ItemType::Tn3270 => 'T',
        ItemType::Gif => 'g',
        ItemType::Image => 'I',
        ItemType::Info => 'i',
        ItemType::Other(c) => c,
    }
}

/// The item type named by a wire character: the fixed lookup table, with any
/// character outside the table preserved in `Other`.
pub open spec fn item_type_of(c: char) -> ItemType {
    if c == '0' {
        ItemType::File
    } else if c == '1' {
        ItemType::Directory
    } else if c == '2' {
        ItemType::CsoServer
    } else if c == '3' {
        ItemType::Error
    } else if c == '4' {
        ItemType::BinHex
    } else if c == '5' {
        ItemType::DosBinary
    } else if c == '6' {
        ItemType::Uuencoded
    } else if c == '7' {
        ItemType::Search
    } else if c == '8' {
        ItemType::Telnet
    } else if c == '9' {
        ItemType::Binary
    } else if c == '+' {
        ItemType::RedundantServer
    } else if c == 'T' {
        ItemType::Tn3270
    } else if c == 'g' {
        ItemType::Gif
    } else if c == 'I' {
        ItemType::Image
    } else if c == 'i' {
        ItemType::Info
    } else {
        ItemType::Other(c)
    }
}

/// An item type that decoding can produce: one whose wire character maps back
/// to it through the table. Every named variant qualifies; an `Other` value
/// qualifies exactly when its character is not in the table.
pub open spec fn canonical(t: ItemType) -> bool {
    item_type_of(char_of(t)) == t
}

impl ItemType {
    /// Parses a char into an Item Type.
    pub fn from(c: char) -> (t: Self)
        ensures
            t == item_type_of(c),
    {
        match c {
            '0' => ItemType::File,
            '1' => ItemType::Directory,
            '2' => ItemType::CsoServer,
            '3' => ItemType::Error,
            '4' => ItemType::BinHex,
            '5' => ItemType::DosBinary,
            '6' => ItemType::Uuencoded,
            '7' => ItemType::Search,
            '8' => ItemType::Telnet,
            '9' => ItemType::Binary,
            '+' => ItemType::RedundantServer,
            'T' => ItemType::Tn3270,
            'g' => ItemType::Gif,
            'I' => ItemType::Image,
            'i' => ItemType::Info,
            _ => ItemType::Other(c),
        }
    }

    /// Turns an Item Type into a char.
    pub fn to_char(&self) -> (c: char)
        ensures
            c == char_of(*self),
    {
        match self {
            ItemType::File => '0',
            ItemType::Directory => '1',
            ItemType::CsoServer => '2',
            ItemType::Error => '3',
            ItemType::BinHex => '4',
            ItemType::DosBinary => '5',
            ItemType::Uuencoded => '6',
            ItemType::Search => '7',
            ItemType::Telnet => '8',
            ItemType::Binary => '9',
            ItemType::RedundantServer => '+',
            ItemType::Tn3270 => 'T',
            ItemType::Gif => 'g',
            ItemType::Image => 'I',
            ItemType::Info => 'i',
            ItemType::Other(c) => *c,
        }
    }
}

/// Law: decoding a wire character and re-encoding it reproduces the character
/// exactly, for every character. Characters in the table map to their named
/// kind and back; any other character rides through `Other` verbatim.
pub proof fn lemma_char_round_trip(c: char)
    ensures
        char_of(item_type_of(c)) == c,
{
}

} // verus!
