use vstd::prelude::*;

verus! {

/// Whether a character is a decimal digit.
pub open spec fn is_digit(c: char) -> bool {
    c == '0' || c == '1' || c == '2' || c == '3' || c == '4' || c == '5' || c == '6' || c == '7'
        || c == '8' || c == '9'
}

/// The numeric value of a decimal digit character, and an out-of-range
/// marker for every other character.
pub open spec fn digit_val(c: char) -> int {
    if c == '0' {
        0
    } else if c == '1' {
        1
    } else if c == '2' {
        2
    } else if c == '3' {
        3
    } else if c == '4' {
        4
    } else if c == '5' {
        5
    } else if c == '6' {
        6
    } else if c == '7' {
        7
    } else if c == '8' {
        8
    } else if c == '9' {
        9
    } else {
        -1
    }
}

/// The decimal digit character for a value below ten.
pub open spec fn digit_char(d: int) -> char {
    if d == 0 {
        '0'
    } else if d == 1 {
        '1'
    } else if d == 2 {
        '2'
    } else if d == 3 {
        '3'
    } else if d == 4 {
        '4'
    } else if d == 5 {
        '5'
    } else if d == 6 {
        '6'
    } else if d == 7 {
        '7'
    } else if d == 8 {
        '8'
    } else {
        '9'
    }
}

/// Whether every character of a sequence is a decimal digit.
pub open spec fn all_digits(s: Seq<char>) -> bool {
    forall|i: int| 0 <= i < s.len() ==> is_digit(#[trigger] s[i])
}

/// The numeric value of a sequence of decimal digit characters, read most
/// significant first.
pub open spec fn digits_val(s: Seq<char>) -> int
    decreases s.len(),
{
    if s.len() == 0 {
        0
    } else {
        digits_val(s.drop_last()) * 10 + digit_val(s.last())
    }
}

/// The canonical decimal rendering of a non-negative number: its digits with
/// no leading zeros and no sign.
pub open spec fn decimal_of(n: int) -> Seq<char>
    decreases n,
{
    if n < 10 {
        seq![digit_char(n)]
    } else {
        decimal_of(n / 10).push(digit_char(n % 10))
    }
}

/// The port field of a wire line, parsed as an unsigned 16-bit decimal
/// integer: rejected when empty, when any character is not a digit, or when
/// the value is out of range.
pub open spec fn parse_port(s: Seq<char>) -> Option<u16> {
    if s.len() == 0 || !all_digits(s) {
        None
    } else if digits_val(s) > 0xFFFF {
        None
    } else {
        Some(digits_val(s) as u16)
    }
}

/// A digit string names a non-negative value.
pub proof fn lemma_digits_val_nonneg(s: Seq<char>)
    requires
        all_digits(s),
    ensures
        digits_val(s) >= 0,
    decreases s.len(),
{
    if s.len() > 0 {
        assert(all_digits(s.drop_last())) by {
            assert(forall|i: int|
                0 <= i < s.len() - 1 ==> #[trigger] s.drop_last()[i] == s[i]);
        }
        lemma_digits_val_nonneg(s.drop_last());
        assert(is_digit(s.last()));
    }
}

/// The decimal rendering of a non-negative number is a non-empty string of
/// digits.
pub proof fn lemma_decimal_of_digits(n: int)
    requires
        n >= 0,
    ensures
        decimal_of(n).len() >= 1,
        all_digits(decimal_of(n)),
    decreases n,
{
    if n < 10 {
        assert(is_digit(digit_char(n)));
    } else {
        lemma_decimal_of_digits(n / 10);
        let s = decimal_of(n);
        assert(s == decimal_of(n / 10).push(digit_char(n % 10)));
        assert(is_digit(digit_char(n % 10)));
        assert forall|i: int| 0 <= i < s.len() implies is_digit(#[trigger] s[i]) by {
            if i < s.len() - 1 {
                assert(s[i] == decimal_of(n / 10)[i]);
            } else {
                assert(s[i] == digit_char(n % 10));
            }
        }
    }
}

/// Law: reading back the decimal rendering of a non-negative number yields
/// that number.
pub proof fn lemma_decimal_of_val(n: int)
    requires
        n >= 0,
    ensures
        digits_val(decimal_of(n)) == n,
    decreases n,
{
    if n < 10 {
        let s = decimal_of(n);
        assert(s.len() == 1);
        assert(s.last() == digit_char(n));
        assert(s.drop_last() =~= Seq::<char>::empty());
        assert(digits_val(s.drop_last()) == 0);
        assert(digits_val(s) == digit_val(digit_char(n)));
    } else {
        lemma_decimal_of_val(n / 10);
        let p = decimal_of(n / 10);
        let s = p.push(digit_char(n % 10));
        assert(s.drop_last() =~= p);
        assert(s.last() == digit_char(n % 10));
        assert(digits_val(s) == (n / 10) * 10 + (n % 10));
        assert(n == (n / 10) * 10 + (n % 10)) by (nonlinear_arith);
    }
}

/// Law: a port value of a wire line parses back from its own rendering, for
/// every 16-bit value.
pub proof fn lemma_port_round_trip(p: u16)
    ensures
        parse_port(decimal_of(p as int)) == Some(p),
{
    lemma_decimal_of_digits(p as int);
    lemma_decimal_of_val(p as int);
}

/// The decimal digit character for a value below ten, executable form.
fn digit_char_exec(d: u16) -> (c: char)
    requires
        d < 10,
    ensures
        c == digit_char(d as int),
{
    match d {
        0 => '0',
        1 => '1',
        2 => '2',
        3 => '3',
        4 => '4',
        5 => '5',
        6 => '6',
        7 => '7',
        8 => '8',
        _ => '9',
    }
}

/// The numeric value of a decimal digit character, or `None` for any other
/// character.
pub(crate) fn digit_of_char(c: char) -> (r: Option<u16>)
    ensures
        match r {
            Some(d) => is_digit(c) && d == digit_val(c),
            None => !is_digit(c),
        },
{
    match c {
        '0' => Some(0),
        '1' => Some(1),
        '2' => Some(2),
        '3' => Some(3),
        '4' => Some(4),
        '5' => Some(5),
        '6' => Some(6),
        '7' => Some(7),
        '8' => Some(8),
        '9' => Some(9),
        _ => None,
    }
}

/// The running value of a digit scan, saturated just past the largest port
/// so that overflow is detected without tracking the exact value.
pub open spec fn clamp_port(v: int) -> int {
    if v > 0xFFFF {
        0x10000
    } else {
        v
    }
}

/// Parses the characters of `s` between `start` and `end` as a decimal port
/// number, exactly as `parse_port` reads them.
pub(crate) fn parse_port_field(s: &str, start: usize, end: usize) -> (r: Option<u16>)
    requires
        start <= end <= s@.len(),
    ensures
        r == parse_port(s@.subrange(start as int, end as int)),
{
    let ghost f = s@.subrange(start as int, end as int);
    if start == end {
        assert(f.len() == 0);
        return None;
    }
    let mut acc: u32 = 0;
    let mut i: usize = start;
    assert(s@.subrange(start as int, start as int) =~= Seq::<char>::empty());
    while i < end
        invariant
            start <= i <= end,
            end <= s@.len(),
            f == s@.subrange(start as int, end as int),
            forall|j: int| start <= j < i ==> is_digit(#[trigger] s@[j]),
            acc == clamp_port(digits_val(s@.subrange(start as int, i as int))),
        decreases end - i,
    {
        let c = s.get_char(i);
        let ghost pre = s@.subrange(start as int, i as int);
        let ghost cur = s@.subrange(start as int, i as int + 1);
        proof {
            assert(cur.drop_last() =~= pre);
            assert(cur.last() == s@[i as int]);
            assert(all_digits(pre));
            lemma_digits_val_nonneg(pre);
        }
        match digit_of_char(c) {
            None => {
                proof {
                    assert(f[i as int - start as int] == s@[i as int]);
                    assert(!all_digits(f));
                }
                return None;
            },
            Some(d) => {
                let na: u32 = if acc >= 0x10000 {
                    0x10000
                } else {
                    acc * 10 + d as u32
                };
                acc = if na > 0xFFFF {
                    0x10000
                } else {
                    na
                };
                proof {
                    let v = digits_val(pre);
                    assert(digits_val(cur) == v * 10 + digit_val(s@[i as int]));
                    if v > 0xFFFF {
                        assert(digits_val(cur) > 0xFFFF);
                    }
                }
            },
        }
        i = i + 1;
    }
    proof {
        assert(f =~= s@.subrange(start as int, end as int));
        assert(all_digits(f));
        lemma_digits_val_nonneg(f);
    }
    if acc <= 0xFFFF {
        Some(acc as u16)
    } else {
        None
    }
}

/// Relies on std's `String::push`: appends exactly the one character.
/// vstd specifies `String::append` for string slices but gives `push` no
/// contract of its own.
#[verifier::external_body]
pub(crate) fn push_char(s: &mut String, c: char)
    ensures
        final(s)@ == old(s)@ + seq![c],
{
    s.push(c);
}

/// Appends the decimal rendering of a 16-bit number: its digits, most
/// significant first, with no leading zeros and no sign.
pub(crate) fn push_decimal(out: &mut String, n: u16)
    ensures
        final(out)@ == old(out)@ + decimal_of(n as int),
    decreases n,
{
    if n < 10 {
        push_char(out, digit_char_exec(n));
    } else {
        let ghost pre = out@;
        push_decimal(out, n / 10);
        push_char(out, digit_char_exec(n % 10));
        assert(out@ =~= pre + decimal_of(n as int));
    }
}

} // verus!
