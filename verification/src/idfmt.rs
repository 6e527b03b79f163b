//! Canonical textual form of a 128-bit identifier: thirty-two
//! lowercase hex digits in five hyphen-separated groups.

use vstd::prelude::*;

use crate::trusted::push_char;

verus! {

pub open spec fn hex_digit(n: int) -> char {
    if n == 0 {
        '0'
    } else if n == 1 {
        '1'
    } else if n == 2 {
        '2'
    } else if n == 3 {
        '3'
    } else if n == 4 {
        '4'
    } else if n == 5 {
        '5'
    } else if n == 6 {
        '6'
    } else if n == 7 {
        '7'
    } else if n == 8 {
        '8'
    } else if n == 9 {
        '9'
    } else if n == 10 {
        'a'
    } else if n == 11 {
        'b'
    } else if n == 12 {
        'c'
    } else if n == 13 {
        'd'
    } else if n == 14 {
        'e'
    } else {
        'f'
    }
}

/// The `i`-th hex digit of `u`, counting from the most significant.
pub open spec fn uuid_nibble(u: u128, i: int) -> u128 {
    (u >> (((31 - i) * 4) as u128)) & 0xf
}

/// Which hex digit of the value stands at position `p` of the
/// hyphenated form.
pub open spec fn nib_index(p: int) -> int {
    if p < 8 {
        p
    } else if p < 13 {
        p - 1
    } else if p < 18 {
        p - 2
    } else if p < 23 {
        p - 3
    } else {
        p - 4
    }
}

pub open spec fn uuid_char(u: u128, p: int) -> char {
    if p == 8 || p == 13 || p == 18 || p == 23 {
        '-'
    } else {
        hex_digit(uuid_nibble(u, nib_index(p)) as int)
    }
}

/// The canonical hyphenated form of `u`: 36 characters, with hyphens
/// at positions 8, 13, 18 and 23.
pub open spec fn uuid_str_of(u: u128) -> Seq<char> {
    Seq::new(36, |p: int| uuid_char(u, p))
}

fn hex_char(n: u8) -> (c: char)
    requires
        n < 16,
    ensures
        c == hex_digit(n as int),
{
    match n {
        0 => '0',
        1 => '1',
        2 => '2',
        3 => '3',
        4 => '4',
        5 => '5',
        6 => '6',
        7 => '7',
        8 => '8',
        9 => '9',
        10 => 'a',
        11 => 'b',
        12 => 'c',
        13 => 'd',
        14 => 'e',
        _ => 'f',
    }
}

/// Renders `u` in its canonical hyphenated form.
pub fn uuid_to_string(u: u128) -> (r: String)
    ensures
        r@ == uuid_str_of(u),
{
    let mut r = String::new();
    proof {
        assert(r@ =~= Seq::new(0, |q: int| uuid_char(u, q)));
    }
    for p in 0..36usize
        invariant
            r@ == Seq::new(p as nat, |q: int| uuid_char(u, q)),
    {
        if p == 8 || p == 13 || p == 18 || p == 23 {
            push_char(&mut r, '-');
        } else {
            let ni: usize = if p < 8 {
                p
            } else if p < 13 {
                p - 1
            } else if p < 18 {
                p - 2
            } else if p < 23 {
                p - 3
            } else {
                p - 4
            };
            let shift: u128 = ((31 - ni) * 4) as u128;
            let nib: u128 = (u >> shift) & 0xf;
            proof {
                assert((u >> shift) & 0xf < 16) by (bit_vector);
            }
            let d = hex_char(nib as u8);
            push_char(&mut r, d);
        }
        proof {
            assert(Seq::new((p + 1) as nat, |q: int| uuid_char(u, q)) =~= Seq::new(
                p as nat,
                |q: int| uuid_char(u, q),
            ).push(uuid_char(u, p as int)));
        }
    }
    r
}

} // verus!
