//! A verified codec for the Gopher directory-listing wire format.
//!
//! The codec parses a received directory line into a structured entry and
//! serializes a structured entry back into the exact wire text a Gopher
//! client expects. It handles no I/O on purpose: it renders into and parses
//! from in-memory text, so that servers and clients can reuse the gophermap
//! logic over whatever transport they own.

mod entry;
mod item_type;
mod menu;
mod port;

pub use entry::EntryView;
pub use entry::GopherEntry;
pub use entry::encode_line;
pub use entry::field_ok;
pub use entry::first_tab;
pub use entry::lemma_round_trip;
pub use entry::lemma_split4_of_joined;
pub use entry::parse_line;
pub use entry::split4;
pub use entry::tab_free;
pub use item_type::ItemType;
pub use item_type::canonical;
pub use item_type::char_of;
pub use item_type::item_type_of;
pub use item_type::lemma_char_round_trip;
pub use menu::GopherMenu;
pub use menu::menu_terminator;
pub use menu::notice_line;
pub use port::all_digits;
pub use port::decimal_of;
pub use port::digits_val;
pub use port::is_digit;
pub use port::lemma_port_round_trip;
pub use port::parse_port;
