//! Numbers written as text.

use vstd::prelude::*;
use vstd::string::StringExecFns;

verus! {

/// The hexadecimal digit for a value below 16.
pub open spec fn hex_char(nibble: u32) -> char {
    if nibble == 0 {
        '0'
    } else if nibble == 1 {
        '1'
    } else if nibble == 2 {
        '2'
    } else if nibble == 3 {
        '3'
    } else if nibble == 4 {
        '4'
    } else if nibble == 5 {
        '5'
    } else if nibble == 6 {
        '6'
    } else if nibble == 7 {
        '7'
    } else if nibble == 8 {
        '8'
    } else if nibble == 9 {
        '9'
    } else if nibble == 10 {
        'a'
    } else if nibble == 11 {
        'b'
    } else if nibble == 12 {
        'c'
    } else if nibble == 13 {
        'd'
    } else if nibble == 14 {
        'e'
    } else {
        'f'
    }
}

/// The text of one hexadecimal digit.
pub fn hex_digit(nibble: u32) -> (text: &'static str)
    requires
        nibble < 16,
    ensures
        text@ == seq![hex_char(nibble)],
{
    proof {
        reveal_strlit("0");
        reveal_strlit("1");
        reveal_strlit("2");
        reveal_strlit("3");
        reveal_strlit("4");
        reveal_strlit("5");
        reveal_strlit("6");
        reveal_strlit("7");
        reveal_strlit("8");
        reveal_strlit("9");
        reveal_strlit("a");
        reveal_strlit("b");
        reveal_strlit("c");
        reveal_strlit("d");
        reveal_strlit("e");
        reveal_strlit("f");
    }
    let text = match nibble {
        0 => "0",
        1 => "1",
        2 => "2",
        3 => "3",
        4 => "4",
        5 => "5",
        6 => "6",
        7 => "7",
        8 => "8",
        9 => "9",
        10 => "a",
        11 => "b",
        12 => "c",
        13 => "d",
        14 => "e",
        _ => "f",
    };
    assert(text@ =~= seq![hex_char(nibble)]);
    text
}

/// A byte written as two hexadecimal digits in lower case.
pub open spec fn hex_byte(value: u8) -> Seq<char> {
    seq![hex_char((value / 16) as u32), hex_char((value % 16) as u32)]
}

/// Writes a byte at the end of a text, as two hexadecimal digits.
pub fn push_hex_byte(output: &mut String, value: u8)
    ensures
        final(output)@ == old(output)@ + hex_byte(value),
{
    output.append(hex_digit((value / 16) as u32));
    output.append(hex_digit((value % 16) as u32));
    assert(output@ =~= old(output)@ + hex_byte(value));
}

/// A number written in decimal digits, without leading zeros.
pub open spec fn decimal_text(n: nat) -> Seq<char>
    decreases n,
{
    if n < 10 {
        seq![hex_char(n as u32)]
    } else {
        decimal_text(n / 10).push(hex_char((n % 10) as u32))
    }
}

/// Writes a number at the end of a text, in decimal digits.
pub fn push_decimal_text(output: &mut String, n: u32)
    ensures
        final(output)@ == old(output)@ + decimal_text(n as nat),
    decreases n,
{
    if n >= 10 {
        push_decimal_text(output, n / 10);
    }
    output.append(hex_digit(n % 10));
    assert(output@ =~= old(output)@ + decimal_text(n as nat));
}

/// A number written in octal digits, without leading zeros.
pub open spec fn octal_text(n: nat) -> Seq<char>
    decreases n,
{
    if n < 8 {
        seq![hex_char(n as u32)]
    } else {
        octal_text(n / 8).push(hex_char((n % 8) as u32))
    }
}

/// Writes a number at the end of a text, in octal digits.
pub fn push_octal_text(output: &mut String, n: u32)
    ensures
        final(output)@ == old(output)@ + octal_text(n as nat),
    decreases n,
{
    if n >= 8 {
        push_octal_text(output, n / 8);
    }
    output.append(hex_digit(n % 8));
    assert(output@ =~= old(output)@ + octal_text(n as nat));
}

} // verus!
