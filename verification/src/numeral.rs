//! Decimal numerals as text, for generated names such as tab titles.

use vstd::prelude::*;

verus! {

/// The decimal digit character for a value below ten.
pub open spec fn digit_char(d: int) -> char {
    if d == 0 {
        '0'
    } else if d == 1 {
        '1'
    } else if d == 2 {
        '2'
    } else if d == 3 {
        '3'
    } else if d == 4 {
        '4'
    } else if d == 5 {
        '5'
    } else if d == 6 {
        '6'
    } else if d == 7 {
        '7'
    } else if d == 8 {
        '8'
    } else {
        '9'
    }
}

/// The decimal numeral of `n`, most significant digit first, with no
/// leading zero except for zero itself.
pub open spec fn dec_digits(n: int) -> Seq<char>
    decreases n,
{
    if n < 10 {
        seq![digit_char(n)]
    } else {
        dec_digits(n / 10) + seq![digit_char(n % 10)]
    }
}

/// The digit characters of the least-significant-first digit values `v`,
/// read back most significant first.
spec fn chars_rev(v: Seq<u64>) -> Seq<char> {
    Seq::new(v.len(), |i: int| digit_char(v[v.len() - 1 - i] as int))
}

/// One decimal digit as text.
fn digit_str(d: u64) -> (r: &'static str)
    requires
        d < 10,
    ensures
        r@ == seq![digit_char(d as int)],
{
    proof {
        reveal_strlit("0");
        reveal_strlit("1");
        reveal_strlit("2");
        reveal_strlit("3");
        reveal_strlit("4");
        reveal_strlit("5");
        reveal_strlit("6");
        reveal_strlit("7");
        reveal_strlit("8");
        reveal_strlit("9");
    }
    match d {
        0 => "0",
        1 => "1",
        2 => "2",
        3 => "3",
        4 => "4",
        5 => "5",
        6 => "6",
        7 => "7",
        8 => "8",
        _ => "9",
    }
}

/// Formats `n` in decimal.
pub fn u64_to_dec(n: u64) -> (r: String)
    ensures
        r@ == dec_digits(n as int),
{
    let mut v: Vec<u64> = Vec::new();
    let mut x = n;
    while x > 0
        invariant
            x == 0 ==> (v@.len() > 0 && dec_digits(n as int) == chars_rev(v@)) || (n == 0
                && v@.len() == 0),
            x > 0 ==> dec_digits(n as int) == dec_digits(x as int) + chars_rev(v@),
            forall|k: int| 0 <= k < v@.len() ==> v@[k] < 10,
        decreases x,
    {
        let ghost v0 = v@;
        let d = x % 10;
        v.push(d);
        proof {
            assert(chars_rev(v@) =~= seq![digit_char(d as int)] + chars_rev(v0));
            if x >= 10 {
                assert(dec_digits(x as int) == dec_digits(x as int / 10) + seq![
                    digit_char(x as int % 10),
                ]);
            }
        }
        x = x / 10;
    }
    if v.len() == 0 {
        let r = String::from_str("0");
        proof {
            reveal_strlit("0");
        }
        return r;
    }
    let mut s = String::new();
    let n_digits = v.len();
    let mut i = n_digits;
    while i > 0
        invariant
            i <= n_digits == v@.len(),
            forall|k: int| 0 <= k < v@.len() ==> v@[k] < 10,
            dec_digits(n as int) == chars_rev(v@),
            s@ == chars_rev(v@).take(n_digits - i),
        decreases i,
    {
        i -= 1;
        let ghost s0 = s@;
        s.append(digit_str(v[i]));
        proof {
            assert(chars_rev(v@)[n_digits - 1 - i as int] == digit_char(v@[i as int] as int));
            assert(s@ =~= chars_rev(v@).take(n_digits - i));
        }
    }
    proof {
        assert(s@ =~= dec_digits(n as int));
    }
    s
}

} // verus!
