//! Small verified text helpers: decimal rendering of integers and
//! single-character strings, used to build diagnostic messages.

use vstd::prelude::*;

verus! {

/// The decimal digit character for a value in `0..10`.
pub open spec fn digit_char(d: int) -> char {
    if d == 0 {
        '0'
    } else if d == 1 {
        '1'
    } else if d == 2 {
        '2'
    } else if d == 3 {
        '3'
    } else if d == 4 {
        '4'
    } else if d == 5 {
        '5'
    } else if d == 6 {
        '6'
    } else if d == 7 {
        '7'
    } else if d == 8 {
        '8'
    } else {
        '9'
    }
}

/// The decimal rendering of a non-negative integer, most significant digit
/// first, with no leading zeros (`0` renders as `"0"`).
pub open spec fn dec_of_nat(n: nat) -> Seq<char>
    decreases n,
{
    if n < 10 {
        seq![digit_char(n as int)]
    } else {
        dec_of_nat(n / 10) + seq![digit_char((n % 10) as int)]
    }
}

/// The decimal rendering of an integer: a `-` sign for negative values,
/// then the digits.
pub open spec fn dec_of_int(n: int) -> Seq<char> {
    if n < 0 {
        seq!['-'] + dec_of_nat((-n) as nat)
    } else {
        dec_of_nat(n as nat)
    }
}

/// One decimal digit as a string.
fn digit_str(d: u64) -> (s: &'static str)
    requires
        d < 10,
    ensures
        s@ == seq![digit_char(d as int)],
{
    let s: &'static str = match d {
        0u64 => "0",
        1u64 => "1",
        2u64 => "2",
        3u64 => "3",
        4u64 => "4",
        5u64 => "5",
        6u64 => "6",
        7u64 => "7",
        8u64 => "8",
        _ => "9",
    };
    proof {
        reveal_strlit("0");
        reveal_strlit("1");
        reveal_strlit("2");
        reveal_strlit("3");
        reveal_strlit("4");
        reveal_strlit("5");
        reveal_strlit("6");
        reveal_strlit("7");
        reveal_strlit("8");
        reveal_strlit("9");
        assert(s@ =~= seq![digit_char(d as int)]);
    }
    s
}

/// Renders a non-negative integer in decimal.
pub(crate) fn dec_u64(n: u64) -> (s: String)
    ensures
        s@ == dec_of_nat(n as nat),
    decreases n,
{
    if n < 10 {
        let s = String::from_str(digit_str(n));
        proof {
            assert(s@ =~= dec_of_nat(n as nat));
        }
        s
    } else {
        let mut s = dec_u64(n / 10);
        s.append(digit_str(n % 10));
        proof {
            assert(s@ =~= dec_of_nat(n as nat));
        }
        s
    }
}

/// Renders an integer in decimal, with a leading `-` for negative values.
pub(crate) fn dec_i64(n: i64) -> (s: String)
    ensures
        s@ == dec_of_int(n as int),
{
    if n < 0 {
        let mag: u64 = (-(n + 1)) as u64 + 1;
        proof {
            assert(mag == -(n as int));
        }
        let mut s = String::from_str("-");
        proof {
            reveal_strlit("-");
        }
        s.append(dec_u64(mag).as_str());
        proof {
            assert(s@ =~= dec_of_int(n as int));
        }
        s
    } else {
        let s = dec_u64(n as u64);
        proof {
            assert(s@ =~= dec_of_int(n as int));
        }
        s
    }
}

/// Whether a character is printable ASCII (code point 32 through 126).
pub open spec fn is_printable(c: char) -> bool {
    32 <= c as u32 <= 126
}

/// A one-character string for a printable ASCII character; the empty
/// string for anything else.
pub(crate) fn char_str(c: char) -> (s: String)
    ensures
        is_printable(c) ==> s@ == seq![c],
        !is_printable(c) ==> s@ == Seq::<char>::empty(),
{
    let table =
        " !\"#$%&'()*+,-./0123456789:;<=>?@ABCDEFGHIJKLMNOPQRSTUVWXYZ[\\]^_`abcdefghijklmnopqrstuvwxyz{|}~";
    proof {
        reveal_strlit(
            " !\"#$%&'()*+,-./0123456789:;<=>?@ABCDEFGHIJKLMNOPQRSTUVWXYZ[\\]^_`abcdefghijklmnopqrstuvwxyz{|}~",
        );
    }
    let v = c as u32;
    if 32 <= v && v <= 126 {
        let i = (v - 32) as usize;
        let r = table.substring_ascii(i, i + 1);
        proof {
            assert(table@[i as int] == c) by {
                vstd::utf8::char_u32_cast(c, v);
            };
            assert(r@ =~= seq![c]);
        }
        String::from_str(r)
    } else {
        let s = String::new();
        proof {
            assert(s@ =~= Seq::<char>::empty());
        }
        s
    }
}

} // verus!
