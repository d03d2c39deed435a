use vstd::prelude::*;

use crate::entry::EntryView;
use crate::entry::encode_line;
use crate::entry::write_line;
use crate::item_type::ItemType;
use crate::port::push_char;

verus! {

/// The three characters that close a menu: a lone period and the line
/// terminator.
pub open spec fn menu_terminator() -> Seq<char> {
    seq!['.', '\r', '\n']
}

/// The wire line of an informational or error entry. By Gopher convention
/// such lines carry no real destination, so the selector, host and port are
/// fixed placeholders that clients must not connect to.
pub open spec fn notice_line(t: ItemType, text: Seq<char>) -> Seq<char> {
    encode_line(
        EntryView {
            item_type: t,
            display_string: text,
            selector: "FAKE"@,
            host: "fake.host"@,
            port: 1,
        },
    )
}

/// A convenience sequencer for one Gopher directory listing: each call
/// appends one wire line to the target, in exactly the call order, and `end`
/// closes the listing with the terminator line.
pub struct GopherMenu {
    /// The text of the listing written so far.
    pub target: String,
}

impl GopherMenu {
    /// Starts a listing that appends to the given target.
    pub fn with_write(target: String) -> (menu: Self)
        ensures
            menu.target@ == target@,
    {
        GopherMenu { target }
    }

    /// Appends an informational line with placeholder destination fields.
    pub fn info(&mut self, text: &str)
        ensures
            final(self).target@ == old(self).target@ + notice_line(ItemType::Info, text@),
    {
        self.write_entry(ItemType::Info, text, "FAKE", "fake.host", 1);
    }

    /// Appends an error line with placeholder destination fields.
    pub fn error(&mut self, text: &str)
        ensures
            final(self).target@ == old(self).target@ + notice_line(ItemType::Error, text@),
    {
        self.write_entry(ItemType::Error, text, "FAKE", "fake.host", 1);
    }

    /// Appends one directory entry line built from the given fields.
    pub fn write_entry(
        &mut self,
        item_type: ItemType,
        text: &str,
        selector: &str,
        host: &str,
        port: u16,
    )
        ensures
            final(self).target@ == old(self).target@ + encode_line(
                EntryView {
                    item_type: item_type,
                    display_string: text@,
                    selector: selector@,
                    host: host@,
                    port: port,
                },
            ),
    {
        write_line(&mut self.target, &item_type, text, selector, host, port);
    }

    /// Appends the listing terminator: a single period and the line
    /// terminator, signaling end-of-menu to the client. To be called exactly
    /// once, after all entries.
    pub fn end(&mut self)
        ensures
            final(self).target@ == old(self).target@ + menu_terminator(),
    {
        push_char(&mut self.target, '.');
        push_char(&mut self.target, '\r');
        push_char(&mut self.target, '\n');
        proof {
            assert(self.target@ =~= old(self).target@ + menu_terminator());
        }
    }
}

} // verus!
