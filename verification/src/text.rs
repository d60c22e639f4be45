//! Text made of numbers and octets.

use vstd::prelude::*;
use vstd::string::StringExecFns;

verus! {

/// The decimal digit of a value below ten.
pub open spec fn decimal_digit(value: int) -> char {
    if value == 0 {
        '0'
    } else if value == 1 {
        '1'
    } else if value == 2 {
        '2'
    } else if value == 3 {
        '3'
    } else if value == 4 {
        '4'
    } else if value == 5 {
        '5'
    } else if value == 6 {
        '6'
    } else if value == 7 {
        '7'
    } else if value == 8 {
        '8'
    } else {
        '9'
    }
}

/// `value` in decimal.
pub open spec fn decimal(value: nat) -> Seq<char>
    decreases value,
{
    if value < 10 {
        seq![decimal_digit(value as int)]
    } else {
        decimal(value / 10).push(decimal_digit((value % 10) as int))
    }
}

/// The upper-case hexadecimal digit of a value below sixteen.
pub open spec fn hex_digit(value: int) -> char {
    if value == 10 {
        'A'
    } else if value == 11 {
        'B'
    } else if value == 12 {
        'C'
    } else if value == 13 {
        'D'
    } else if value == 14 {
        'E'
    } else if value == 15 {
        'F'
    } else {
        decimal_digit(value)
    }
}

/// `octets` in upper-case hexadecimal, two digits each.
pub open spec fn hex(octets: Seq<u8>) -> Seq<char> {
    Seq::new(
        2 * octets.len(),
        |i: int|
            if i % 2 == 0 {
                hex_digit(octets[i / 2] as int / 16)
            } else {
                hex_digit(octets[i / 2] as int % 16)
            },
    )
}

/// The text of one hexadecimal digit.
fn digit(value: u8) -> (text: &'static str)
    requires
        value < 16,
    ensures
        text@ == seq![hex_digit(value as int)],
{
    proof {
        reveal_strlit("0");
        reveal_strlit("1");
        reveal_strlit("2");
        reveal_strlit("3");
        reveal_strlit("4");
        reveal_strlit("5");
        reveal_strlit("6");
        reveal_strlit("7");
        reveal_strlit("8");
        reveal_strlit("9");
        reveal_strlit("A");
        reveal_strlit("B");
        reveal_strlit("C");
        reveal_strlit("D");
        reveal_strlit("E");
        reveal_strlit("F");
    }
    let text: &'static str = match value {
        0 => "0",
        1 => "1",
        2 => "2",
        3 => "3",
        4 => "4",
        5 => "5",
        6 => "6",
        7 => "7",
        8 => "8",
        9 => "9",
        10 => "A",
        11 => "B",
        12 => "C",
        13 => "D",
        14 => "E",
        _ => "F",
    };
    assert(text@ =~= seq![hex_digit(value as int)]);
    text
}

/// Append `value` in decimal.
pub fn push_decimal(text: &mut String, value: u64)
    ensures
        final(text)@ == old(text)@ + decimal(value as nat),
    decreases value,
{
    if value >= 10 {
        push_decimal(text, value / 10);
    }
    text.append(digit((value % 10) as u8));
    assert(text@ =~= old(text)@ + decimal(value as nat));
}

/// Append `octets` in upper-case hexadecimal.
pub fn push_hex(text: &mut String, octets: &[u8])
    ensures
        final(text)@ == old(text)@ + hex(octets@),
{
    assert(text@ =~= old(text)@ + hex(octets@).take(0));
    for i in 0..octets.len()
        invariant
            text@ == old(text)@ + hex(octets@).take(2 * i),
    {
        let octet: u8 = octets[i];
        let ghost before = text@;
        text.append(digit(octet / 16));
        text.append(digit(octet % 16));
        proof {
            assert((2 * i) / 2 == i && (2 * i + 1) / 2 == i);
            assert(text@ =~= before.push(hex_digit(octet as int / 16)).push(hex_digit(octet as int % 16)));
            assert(hex(octets@).take(2 * (i + 1)) =~= hex(octets@).take(2 * i).push(
                hex_digit(octet as int / 16),
            ).push(hex_digit(octet as int % 16)));
            assert(text@ =~= old(text)@ + hex(octets@).take(2 * (i + 1)));
        }
    }
    assert(hex(octets@).take(2 * octets@.len() as int) =~= hex(octets@));
}

} // verus!
