use vstd::prelude::*;

verus! {

/// The digit, in upper-case hexadecimal, of a number below sixteen; the
/// highest digit for any other number.
pub open spec fn upper_hex(d: int) -> Seq<char> {
    if d == 0 {
        "0"@
    } else if d == 1 {
        "1"@
    } else if d == 2 {
        "2"@
    } else if d == 3 {
        "3"@
    } else if d == 4 {
        "4"@
    } else if d == 5 {
        "5"@
    } else if d == 6 {
        "6"@
    } else if d == 7 {
        "7"@
    } else if d == 8 {
        "8"@
    } else if d == 9 {
        "9"@
    } else if d == 10 {
        "A"@
    } else if d == 11 {
        "B"@
    } else if d == 12 {
        "C"@
    } else if d == 13 {
        "D"@
    } else if d == 14 {
        "E"@
    } else {
        "F"@
    }
}

/// A 16-bit number as four upper-case hexadecimal digits.
pub open spec fn hex4(n: u16) -> Seq<char> {
    upper_hex(n as int / 4096) + upper_hex(n as int / 256 % 16) + upper_hex(n as int / 16 % 16)
        + upper_hex(n as int % 16)
}

/// The identifier of a field: group and element in hexadecimal, as
/// `(GGGG,EEEE)`.
pub open spec fn tag_text(group: u16, element: u16) -> Seq<char> {
    "("@ + hex4(group) + ","@ + hex4(element) + ")"@
}

/// A number in decimal, without leading zeros.
pub open spec fn decimal(n: nat) -> Seq<char>
    decreases n,
{
    if n < 10 {
        upper_hex(n as int)
    } else {
        decimal(n / 10) + upper_hex(n as int % 10)
    }
}

/// A text cut after `max_len` characters, with an ellipsis in place of what
/// was cut; the text itself where it is no longer than that.
pub open spec fn truncated(s: Seq<char>, max_len: nat) -> Seq<char> {
    if s.len() > max_len {
        s.take(max_len as int) + "..."@
    } else {
        s
    }
}

/// The digit of a number below sixteen.
pub fn hex_digit_text(d: u16) -> (r: &'static str)
    ensures
        r@ == upper_hex(d as int),
{
    match d {
        0 => "0",
        1 => "1",
        2 => "2",
        3 => "3",
        4 => "4",
        5 => "5",
        6 => "6",
        7 => "7",
        8 => "8",
        9 => "9",
        10 => "A",
        11 => "B",
        12 => "C",
        13 => "D",
        14 => "E",
        _ => "F",
    }
}

/// Appends a 16-bit number as four upper-case hexadecimal digits.
pub fn append_hex4(s: &mut String, n: u16)
    ensures
        final(s)@ == old(s)@ + hex4(n),
{
    s.append(hex_digit_text(n / 4096));
    s.append(hex_digit_text(n / 256 % 16));
    s.append(hex_digit_text(n / 16 % 16));
    s.append(hex_digit_text(n % 16));
    assert(s@ =~= old(s)@ + hex4(n));
}

/// Writes the identifier of a field.
pub fn format_tag(group: u16, element: u16) -> (s: String)
    ensures
        s@ == tag_text(group, element),
{
    let mut s = String::from_str("(");
    append_hex4(&mut s, group);
    s.append(",");
    append_hex4(&mut s, element);
    s.append(")");
    s
}

/// Appends a number in decimal.
pub fn append_decimal(s: &mut String, n: usize)
    ensures
        final(s)@ == old(s)@ + decimal(n as nat),
    decreases n,
{
    if n >= 10 {
        append_decimal(s, n / 10);
    }
    s.append(hex_digit_text((n % 10) as u16));
    assert(s@ =~= old(s)@ + decimal(n as nat));
}

/// Cuts a text after `max_len` characters and marks the cut with an
/// ellipsis; copies a text that is no longer than that.
pub fn truncate_value(s: &str, max_len: usize) -> (r: String)
    ensures
        r@ == truncated(s@, max_len as nat),
{
    if s.unicode_len() > max_len {
        let mut r = String::from_str(s.substring_char(0, max_len));
        r.append("...");
        r
    } else {
        String::from_str(s)
    }
}

} // verus!
