//! Hex encoding of byte spans for display collaborators.

use vstd::prelude::*;
use vstd::slice::slice_index_get;
use vstd::string::StringExecFns;

verus! {

/// The uppercase hexadecimal digit of a value below 16.
pub open spec fn hex_digit(n: int) -> char {
    if n == 0 {
        '0'
    } else if n == 1 {
        '1'
    } else if n == 2 {
        '2'
    } else if n == 3 {
        '3'
    } else if n == 4 {
        '4'
    } else if n == 5 {
        '5'
    } else if n == 6 {
        '6'
    } else if n == 7 {
        '7'
    } else if n == 8 {
        '8'
    } else if n == 9 {
        '9'
    } else if n == 10 {
        'A'
    } else if n == 11 {
        'B'
    } else if n == 12 {
        'C'
    } else if n == 13 {
        'D'
    } else if n == 14 {
        'E'
    } else {
        'F'
    }
}

/// The uppercase hexadecimal encoding of a byte sequence: two digits per
/// byte, no separators, no prefix.
pub open spec fn hex_of(bytes: Seq<u8>) -> Seq<char>
    decreases bytes.len(),
{
    if bytes.len() == 0 {
        Seq::empty()
    } else {
        hex_of(bytes.drop_last()) + seq![
            hex_digit(bytes.last() as int / 16),
            hex_digit(bytes.last() as int % 16),
        ]
    }
}

/// One uppercase hexadecimal digit as a string.
fn hex_digit_str(n: u8) -> (r: &'static str)
    requires
        n < 16,
    ensures
        r@ =~= seq![hex_digit(n as int)],
{
    proof {
        reveal_strlit("0");
        reveal_strlit("1");
        reveal_strlit("2");
        reveal_strlit("3");
        reveal_strlit("4");
        reveal_strlit("5");
        reveal_strlit("6");
        reveal_strlit("7");
        reveal_strlit("8");
        reveal_strlit("9");
        reveal_strlit("A");
        reveal_strlit("B");
        reveal_strlit("C");
        reveal_strlit("D");
        reveal_strlit("E");
        reveal_strlit("F");
    }
    match n {
        0 => "0",
        1 => "1",
        2 => "2",
        3 => "3",
        4 => "4",
        5 => "5",
        6 => "6",
        7 => "7",
        8 => "8",
        9 => "9",
        10 => "A",
        11 => "B",
        12 => "C",
        13 => "D",
        14 => "E",
        _ => "F",
    }
}

/// Convert a byte span to its uppercase hexadecimal string representation:
/// two characters per byte, no separators, no prefix.
pub fn to_hex_string(bytes: &[u8]) -> (s: String)
    ensures
        s@ == hex_of(bytes@),
{
    let mut s = String::new();
    let n = bytes.len();
    for k in 0..n
        invariant
            n == bytes@.len(),
            s@ == hex_of(bytes@.take(k as int)),
    {
        let b = *slice_index_get(bytes, k);
        s.append(hex_digit_str(b / 16));
        s.append(hex_digit_str(b % 16));
        proof {
            let t = bytes@.take(k + 1);
            assert(t.drop_last() =~= bytes@.take(k as int));
            assert(t.last() == bytes@[k as int]);
            assert(s@ =~= hex_of(t));
        }
    }
    proof {
        assert(bytes@.take(n as int) =~= bytes@);
    }
    s
}

} // verus!
