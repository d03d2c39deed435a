use vstd::prelude::*;

use crate::item_type::ItemType;
use crate::item_type::canonical;
use crate::item_type::char_of;
use crate::item_type::item_type_of;
use crate::port::decimal_of;
use crate::port::is_digit;
use crate::port::lemma_decimal_of_digits;
use crate::port::lemma_port_round_trip;
use crate::port::parse_port;
use crate::port::parse_port_field;
use crate::port::push_char;
use crate::port::push_decimal;

verus! {

/// The mathematical value of a Gopher entry: its five fields, with the string
/// fields as character sequences.
#[verifier::ext_equal]
pub ghost struct EntryView {
    /// The type of the link
    pub item_type: ItemType,
    /// The human-readable description of the link
    pub display_string: Seq<char>,
    /// The target page (selector) of the link
    pub selector: Seq<char>,
    /// The host for the target of the link
    pub host: Seq<char>,
    /// The port for the target of the link
    pub port: u16,
}

/// A single entry in a Gopher map. This struct can be filled in order to
/// generate Gopher responses. It can also be the result of parsing one.
pub struct GopherEntry {
    /// The type of the link
    pub item_type: ItemType,
    /// The human-readable description of the link. Displayed on the UI.
    pub display_string: String,
    /// The target page (selector) of the link
    pub selector: String,
    /// The host for the target of the link
    pub host: String,
    /// The port for the target of the link
    pub port: u16,
}

impl View for GopherEntry {
    type V = EntryView;

    open spec fn view(&self) -> EntryView {
        EntryView {
            item_type: self.item_type,
            display_string: self.display_string@,
            selector: self.selector@,
            host: self.host@,
            port: self.port,
        }
    }
}

/// The wire line for an entry: the type character, the display string, then
/// the selector, host and decimal port, tab-delimited and closed by the
/// carriage-return line-feed terminator.
pub open spec fn encode_line(e: EntryView) -> Seq<char> {
    seq![char_of(e.item_type)] + e.display_string + seq!['\t'] + e.selector + seq!['\t'] + e.host
        + seq!['\t'] + decimal_of(e.port as int) + seq!['\r', '\n']
}

/// The position of the first tab in a sequence, or its length when it has
/// none.
pub open spec fn first_tab(s: Seq<char>) -> int
    decreases s.len(),
{
    if s.len() == 0 {
        0
    } else if s[0] == '\t' {
        0
    } else {
        1 + first_tab(s.skip(1))
    }
}

/// The four tab-delimited fields of a line body, extracted sequentially: the
/// first three must be closed by a tab; the fourth runs to the next tab or to
/// the end of the body, and anything beyond it is dropped unexamined. `None`
/// when the body holds fewer than four fields.
pub open spec fn split4(s: Seq<char>) -> Option<(Seq<char>, Seq<char>, Seq<char>, Seq<char>)> {
    let t1 = first_tab(s);
    if t1 == s.len() {
        None
    } else {
        let r1 = s.skip(t1 + 1);
        let t2 = first_tab(r1);
        if t2 == r1.len() {
            None
        } else {
            let r2 = r1.skip(t2 + 1);
            let t3 = first_tab(r2);
            if t3 == r2.len() {
                None
            } else {
                let r3 = r2.skip(t3 + 1);
                Some((s.take(t1), r1.take(t2), r2.take(t3), r3.take(first_tab(r3))))
            }
        }
    }
}

/// A decoded line: `None` unless the line ends in exactly the two-character
/// terminator, its body splits into at least four tab-delimited fields, the
/// first field carries a type character, and the fourth parses as a 16-bit
/// port. The first field's first character names the item type, the rest of
/// it is the display string, and the second and third fields are the selector
/// and host verbatim.
pub open spec fn parse_line(line: Seq<char>) -> Option<EntryView> {
    if line.len() < 2 || line[line.len() - 2] != '\r' || line[line.len() - 1] != '\n' {
        None
    } else {
        let body = line.take(line.len() - 2);
        match split4(body) {
            None => None,
            Some((f0, f1, f2, f3)) => {
                if f0.len() == 0 {
                    None
                } else {
                    match parse_port(f3) {
                        None => None,
                        Some(p) => Some(
                            EntryView {
                                item_type: item_type_of(f0[0]),
                                display_string: f0.skip(1),
                                selector: f1,
                                host: f2,
                                port: p,
                            },
                        ),
                    }
                }
            },
        }
    }
}

/// Whether a sequence is free of tabs.
pub open spec fn tab_free(s: Seq<char>) -> bool {
    forall|i: int| 0 <= i < s.len() ==> #[trigger] s[i] != '\t'
}

/// Whether a string field may stand on a wire line: free of the tab that
/// delimits fields and of the two terminator characters.
pub open spec fn field_ok(s: Seq<char>) -> bool {
    forall|i: int| 0 <= i < s.len() ==> #[trigger] s[i] != '\t' && s[i] != '\r' && s[i] != '\n'
}

/// A sequence whose first tab is exactly where the given position says: no
/// tab before it, and a tab (or the end) at it.
pub proof fn lemma_first_tab_is(s: Seq<char>, i: int)
    requires
        0 <= i <= s.len(),
        forall|j: int| 0 <= j < i ==> s[j] != '\t',
        i < s.len() ==> s[i] == '\t',
    ensures
        first_tab(s) == i,
    decreases i,
{
    if i == 0 {
    } else {
        assert(s[0] != '\t');
        let r = s.skip(1);
        assert(forall|j: int| 0 <= j < i - 1 ==> #[trigger] r[j] == s[j + 1]);
        lemma_first_tab_is(r, i - 1);
    }
}

/// Joining a tab-free prefix to anything else with a tab between them puts
/// the first tab exactly at the join.
proof fn lemma_first_tab_at_join(a: Seq<char>, rest: Seq<char>)
    requires
        tab_free(a),
    ensures
        first_tab(a + seq!['\t'] + rest) == a.len(),
        (a + seq!['\t'] + rest).take(a.len() as int) =~= a,
        (a + seq!['\t'] + rest).skip(a.len() as int + 1) =~= rest,
{
    let s = a + seq!['\t'] + rest;
    assert(forall|j: int| 0 <= j < a.len() ==> #[trigger] s[j] == a[j]);
    assert(s[a.len() as int] == '\t');
    lemma_first_tab_is(s, a.len() as int);
}

/// Splitting a body joined from four tab-free fields by tab delimiters
/// recovers exactly those fields.
pub proof fn lemma_split4_of_joined(f0: Seq<char>, f1: Seq<char>, f2: Seq<char>, f3: Seq<char>)
    requires
        tab_free(f0),
        tab_free(f1),
        tab_free(f2),
        tab_free(f3),
    ensures
        split4(f0 + seq!['\t'] + f1 + seq!['\t'] + f2 + seq!['\t'] + f3) == Some(
            (f0, f1, f2, f3),
        ),
{
    let body = f0 + seq!['\t'] + f1 + seq!['\t'] + f2 + seq!['\t'] + f3;
    let rest1 = f1 + seq!['\t'] + f2 + seq!['\t'] + f3;
    let rest2 = f2 + seq!['\t'] + f3;
    assert(body =~= f0 + seq!['\t'] + rest1);
    lemma_first_tab_at_join(f0, rest1);
    assert(first_tab(body) == f0.len());
    assert(body.len() == f0.len() + 1 + rest1.len());
    let r1 = body.skip(f0.len() as int + 1);
    assert(r1 =~= rest1);
    assert(rest1 =~= f1 + seq!['\t'] + rest2);
    lemma_first_tab_at_join(f1, rest2);
    assert(first_tab(r1) == f1.len());
    assert(r1.len() == f1.len() + 1 + rest2.len());
    let r2 = r1.skip(f1.len() as int + 1);
    assert(r2 =~= rest2);
    assert(rest2 =~= f2 + seq!['\t'] + f3);
    lemma_first_tab_at_join(f2, f3);
    assert(first_tab(r2) == f2.len());
    assert(r2.len() == f2.len() + 1 + f3.len());
    let r3 = r2.skip(f2.len() as int + 1);
    assert(r3 =~= f3);
    lemma_first_tab_is(f3, f3.len() as int);
    assert(first_tab(r3) == f3.len());
    assert(body.take(f0.len() as int) =~= f0);
    assert(r1.take(f1.len() as int) =~= f1);
    assert(r2.take(f2.len() as int) =~= f2);
    assert(r3.take(f3.len() as int) =~= f3);
}

/// Law: decoding the encoding of an entry yields the entry back, field by
/// field, for every entry whose string fields are free of tabs and terminator
/// characters and whose item type is one that decoding can produce and whose
/// wire character is not the tab delimiter.
pub proof fn lemma_round_trip(e: EntryView)
    requires
        field_ok(e.display_string),
        field_ok(e.selector),
        field_ok(e.host),
        canonical(e.item_type),
        char_of(e.item_type) != '\t',
    ensures
        parse_line(encode_line(e)) == Some(e),
{
    let tc = char_of(e.item_type);
    let pd = decimal_of(e.port as int);
    lemma_decimal_of_digits(e.port as int);
    lemma_port_round_trip(e.port);
    let f0 = seq![tc] + e.display_string;
    let body = f0 + seq!['\t'] + e.selector + seq!['\t'] + e.host + seq!['\t'] + pd;
    let line = encode_line(e);
    assert(line =~= body + seq!['\r', '\n']);
    assert(line.len() == body.len() + 2);
    assert(line[line.len() - 2] == '\r');
    assert(line[line.len() - 1] == '\n');
    assert(line.take(line.len() - 2) =~= body);
    assert(tab_free(f0)) by {
        assert(forall|i: int| 1 <= i < f0.len() ==> #[trigger] f0[i] == e.display_string[i - 1]);
    }
    assert(tab_free(pd)) by {
        assert(forall|i: int| 0 <= i < pd.len() ==> is_digit(#[trigger] pd[i]));
    }
    lemma_split4_of_joined(f0, e.selector, e.host, pd);
    assert(split4(body) == Some((f0, e.selector, e.host, pd)));
    assert(f0.len() > 0);
    assert(f0[0] == tc);
    assert(f0.skip(1) =~= e.display_string);
    assert(parse_port(pd) == Some(e.port));
    let v = EntryView {
        item_type: item_type_of(tc),
        display_string: f0.skip(1),
        selector: e.selector,
        host: e.host,
        port: e.port,
    };
    assert(parse_line(line) == Some(v));
    assert(v =~= e);
}

/// The position of the first tab in the characters of `s` between `start`
/// and `end`, or `end` when that range has none.
fn find_tab(s: &str, start: usize, end: usize) -> (r: usize)
    requires
        start <= end <= s@.len(),
    ensures
        start <= r <= end,
        forall|j: int| start <= j < r ==> s@[j] != '\t',
        r < end ==> s@[r as int] == '\t',
{
    let mut i: usize = start;
    while i < end
        invariant
            start <= i <= end,
            end <= s@.len(),
            forall|j: int| start <= j < i ==> s@[j] != '\t',
        decreases end - i,
    {
        if s.get_char(i) == '\t' {
            return i;
        }
        i = i + 1;
    }
    end
}

/// Appends the wire line for the given fields to `out`.
pub(crate) fn write_line(
    out: &mut String,
    item_type: &ItemType,
    display_string: &str,
    selector: &str,
    host: &str,
    port: u16,
) -> (view: Ghost<EntryView>)
    ensures
        view@ == (EntryView {
            item_type: *item_type,
            display_string: display_string@,
            selector: selector@,
            host: host@,
            port: port,
        }),
        final(out)@ == old(out)@ + encode_line(view@),
{
    push_char(out, item_type.to_char());
    out.append(display_string);
    push_char(out, '\t');
    out.append(selector);
    push_char(out, '\t');
    out.append(host);
    push_char(out, '\t');
    push_decimal(out, port);
    push_char(out, '\r');
    push_char(out, '\n');
    let ghost view = EntryView {
        item_type: *item_type,
        display_string: display_string@,
        selector: selector@,
        host: host@,
        port: port,
    };
    proof {
        assert(out@ =~= old(out)@ + encode_line(view));
    }
    Ghost(view)
}

impl GopherEntry {
    /// Parse a line into a Gopher directory entry: `Some` exactly on the
    /// lines that `parse_line` accepts, and then with exactly its fields.
    #[verifier::rlimit(60)]
    pub fn from(line: &str) -> (r: Option<Self>)
        ensures
            match r {
                Some(e) => parse_line(line@) == Some(e@),
                None => parse_line(line@) is None,
            },
    {
        let n = line.unicode_len();
        if n < 2 {
            return None;
        }
        if line.get_char(n - 2) != '\r' || line.get_char(n - 1) != '\n' {
            return None;
        }
        let end = n - 2;
        let ghost body = line@.take(end as int);
        assert(body =~= line@.subrange(0, end as int));
        assert(forall|j: int| 0 <= j < end ==> #[trigger] body[j] == line@[j]);
        let t1 = find_tab(line, 0, end);
        proof {
            lemma_first_tab_is(body, t1 as int);
        }
        if t1 == end {
            return None;
        }
        if t1 == 0 {
            return None;
        }
        let ghost r1 = body.skip(t1 + 1);
        assert(r1 =~= line@.subrange(t1 + 1, end as int));
        let t2 = find_tab(line, t1 + 1, end);
        proof {
            lemma_first_tab_is(r1, t2 - (t1 + 1));
        }
        if t2 == end {
            return None;
        }
        let ghost r2 = r1.skip(t2 - t1);
        assert(r2 =~= line@.subrange(t2 + 1, end as int));
        let t3 = find_tab(line, t2 + 1, end);
        proof {
            lemma_first_tab_is(r2, t3 - (t2 + 1));
        }
        if t3 == end {
            return None;
        }
        let ghost r3 = r2.skip(t3 - t2);
        assert(r3 =~= line@.subrange(t3 + 1, end as int));
        let t4 = find_tab(line, t3 + 1, end);
        proof {
            lemma_first_tab_is(r3, t4 - (t3 + 1));
        }
        let ghost fields = split4(body);
        assert(fields == Some(
            (
                line@.subrange(0, t1 as int),
                line@.subrange(t1 + 1, t2 as int),
                line@.subrange(t2 + 1, t3 as int),
                line@.subrange(t3 + 1, t4 as int),
            ),
        )) by {
            assert(body.take(t1 as int) =~= line@.subrange(0, t1 as int));
            assert(r1.take(t2 - (t1 + 1)) =~= line@.subrange(t1 + 1, t2 as int));
            assert(r2.take(t3 - (t2 + 1)) =~= line@.subrange(t2 + 1, t3 as int));
            assert(r3.take(t4 - (t3 + 1)) =~= line@.subrange(t3 + 1, t4 as int));
        }
        let port = match parse_port_field(line, t3 + 1, t4) {
            Some(p) => p,
            None => {
                return None;
            },
        };
        let entry = GopherEntry {
            item_type: ItemType::from(line.get_char(0)),
            display_string: line.substring_char(1, t1).to_owned(),
            selector: line.substring_char(t1 + 1, t2).to_owned(),
            host: line.substring_char(t2 + 1, t3).to_owned(),
            port: port,
        };
        proof {
            let f0 = line@.subrange(0, t1 as int);
            assert(f0[0] == line@[0]);
            assert(f0.skip(1) =~= line@.subrange(1, t1 as int));
            let v = parse_line(line@)->Some_0;
            assert(parse_line(line@) == Some(v));
            assert(v =~= entry@);
        }
        Some(entry)
    }

    /// Serializes a Gopher entry into text appended to `out`: exactly the
    /// wire line for this entry's value.
    pub fn write(&self, out: &mut String)
        ensures
            final(out)@ == old(out)@ + encode_line(self@),
    {
        let Ghost(view) = write_line(
            out,
            &self.item_type,
            self.display_string.as_str(),
            self.selector.as_str(),
            self.host.as_str(),
            self.port,
        );
        proof {
            assert(view =~= self@);
        }
    }
}

} // verus!
