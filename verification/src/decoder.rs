//! The keystroke decoder: accumulated digit slots are parsed as an unsigned
//! integer in the active base, and a successful parse is converted to the
//! element's little-endian byte run.

use vstd::prelude::*;
use vstd::arithmetic::div_mod::lemma_fundamental_div_mod;
use vstd::arithmetic::mul::lemma_mul_inequality;
use vstd::arithmetic::power::pow;

verus! {

/// The numeric value of an ASCII digit character (`0-9`, `a-z`, `A-Z`),
/// or -1 for any other byte.
pub open spec fn spec_digit(c: u8) -> int {
    if 0x30 <= c <= 0x39 {
        c - 0x30
    } else if 0x61 <= c <= 0x7a {
        c - 0x61 + 10
    } else if 0x41 <= c <= 0x5a {
        c - 0x41 + 10
    } else {
        -1
    }
}

/// Whether `c` is a digit of the given base.
pub open spec fn is_digit(c: u8, base: u32) -> bool {
    0 <= spec_digit(c) < base
}

/// The unsigned value of a digit string in the given base, most significant
/// digit first; `None` as soon as any slot is not a digit of that base
/// (an unfilled or skipped slot makes the whole element undecodable).
pub open spec fn parse_spec(s: Seq<u8>, base: u32) -> Option<int>
    decreases s.len(),
{
    if s.len() == 0 {
        Some(0)
    } else if !is_digit(s.last(), base) {
        None
    } else {
        match parse_spec(s.drop_last(), base) {
            Option::None => None,
            Option::Some(v) => Some(v * base + spec_digit(s.last())),
        }
    }
}

/// The little-endian byte run of width `w` for the value `v`.
pub open spec fn le_bytes_spec(v: u64, w: int) -> Seq<u8> {
    Seq::new(w as nat, |i: int| ((v as int / pow(256, i as nat)) % 256) as u8)
}

/// The numeric ceiling of an element of `display_size` bytes, or `None`
/// when `display_size` is not a supported element width.
pub open spec fn width_max(display_size: u16) -> Option<u64> {
    if display_size == 1 {
        Some(0xFFu64)
    } else if display_size == 2 {
        Some(0xFFFFu64)
    } else if display_size == 4 {
        Some(0xFFFF_FFFFu64)
    } else if display_size == 8 {
        Some(0xFFFF_FFFF_FFFF_FFFFu64)
    } else {
        None
    }
}

/// The byte run one full decode attempt yields: the first `size` digit
/// slots, parsed in `base`, encoded little-endian over `display_size`
/// bytes; `None` when there is no slot at all, a slot is not yet a digit,
/// the value does not fit the element, or the width is unsupported.
pub open spec fn decode_spec(input: Seq<u8>, size: u16, display_size: u16, base: u32) -> Option<
    Seq<u8>,
> {
    if size == 0 {
        None
    } else {
        decode_digits(input, size, display_size, base)
    }
}

/// The decode of at least one digit slot.
pub open spec fn decode_digits(input: Seq<u8>, size: u16, display_size: u16, base: u32) -> Option<
    Seq<u8>,
> {
    match width_max(display_size) {
        Option::None => None,
        Option::Some(max) => match parse_spec(input.take(size as int), base) {
            Option::None => None,
            Option::Some(v) => if v <= max {
                Some(le_bytes_spec(v as u64, display_size as int))
            } else {
                None
            },
        },
    }
}

/// A parsed digit string is nonnegative.
proof fn lemma_parse_nonneg(s: Seq<u8>, base: u32)
    requires
        base >= 2,
        parse_spec(s, base) is Some,
    ensures
        parse_spec(s, base)->Some_0 >= 0,
    decreases s.len(),
{
    if s.len() > 0 {
        lemma_parse_nonneg(s.drop_last(), base);
        let v = parse_spec(s.drop_last(), base)->Some_0;
        lemma_mul_inequality(0, v, base as int);
    }
}

/// One byte that is not a digit of the base makes the whole string
/// unparseable.
proof fn lemma_parse_invalid(s: Seq<u8>, base: u32, k: int)
    requires
        0 <= k < s.len(),
        !is_digit(s[k], base),
    ensures
        parse_spec(s, base) is None,
    decreases s.len(),
{
    if k < s.len() - 1 {
        assert(s.drop_last()[k] == s[k]);
        lemma_parse_invalid(s.drop_last(), base, k);
    }
}

/// Every prefix of a parseable digit string parses, to no more than the
/// whole string's value.
proof fn lemma_parse_prefix(s: Seq<u8>, base: u32, i: int)
    requires
        base >= 2,
        0 <= i <= s.len(),
        parse_spec(s, base) is Some,
    ensures
        parse_spec(s.take(i), base) is Some,
        parse_spec(s.take(i), base)->Some_0 <= parse_spec(s, base)->Some_0,
    decreases s.len() - i,
{
    if i == s.len() {
        assert(s.take(i) =~= s);
    } else {
        lemma_parse_prefix(s, base, i + 1);
        let t = s.take(i + 1);
        assert(t.drop_last() =~= s.take(i));
        assert(t.last() == s[i]);
        if !is_digit(s[i], base) {
            lemma_parse_invalid(s, base, i);
        }
        let v = parse_spec(s.take(i), base)->Some_0;
        lemma_parse_nonneg(s.take(i), base);
        lemma_mul_inequality(1, base as int, v);
        assert(v * base >= v * 1) by (nonlinear_arith)
            requires
                v >= 0,
                base >= 1,
        ;
    }
}

/// Parses the first `s.len()` digit slots as an unsigned integer of the
/// given base, refusing any value above `max`: the behaviour of an
/// unsigned radix parse at the width whose ceiling is `max`.
pub fn parse_uint(digits: &Vec<u8>, base: u32, max: u64) -> (r: Option<u64>)
    requires
        2 <= base <= 36,
    ensures
        match r {
            Option::Some(v) => parse_spec(digits@, base) == Some(v as int) && v <= max,
            Option::None => parse_spec(digits@, base) is None || parse_spec(
                digits@,
                base,
            )->Some_0 > max,
        },
{
    let n = digits.len();
    let mut acc: u64 = 0;
    let mut i: usize = 0;
    while i < n
        invariant
            2 <= base <= 36,
            n == digits@.len(),
            0 <= i <= n,
            parse_spec(digits@.take(i as int), base) == Some(acc as int),
            acc <= max,
        decreases n - i,
    {
        let c = digits[i];
        let dv: u32 = if 0x30 <= c && c <= 0x39 {
            (c - 0x30) as u32
        } else if 0x61 <= c && c <= 0x7a {
            (c - 0x61) as u32 + 10
        } else if 0x41 <= c && c <= 0x5a {
            (c - 0x41) as u32 + 10
        } else {
            base
        };
        proof {
            assert(digits@.take(i + 1).drop_last() =~= digits@.take(i as int));
            assert(digits@.take(i + 1).last() == digits@[i as int]);
        }
        if dv >= base {
            proof {
                lemma_parse_invalid(digits@, base, i as int);
            }
            return None;
        }
        let d = dv as u64;
        if d > max || acc > (max - d) / (base as u64) {
            proof {
                let b = base as int;
                let q = (max - d) / b;
                lemma_fundamental_div_mod(max - d, b);
                if d <= max {
                    vstd::arithmetic::div_mod::lemma_mod_division_less_than_divisor(
                        max - d,
                        b,
                    );
                    lemma_mul_inequality(q + 1, acc as int, b);
                    assert((q + 1) * b == q * b + b) by (nonlinear_arith);
                }
                assert(acc * b + d > max || d > max);
                assert(parse_spec(digits@.take(i + 1), base) == Some(acc * base + spec_digit(
                    digits@[i as int],
                )));
                if parse_spec(digits@, base) is Some {
                    lemma_parse_prefix(digits@, base, i + 1);
                }
            }
            return None;
        }
        proof {
            let b = base as int;
            let q = (max - d) / b;
            lemma_fundamental_div_mod(max - d, b);
            vstd::arithmetic::div_mod::lemma_mod_division_less_than_divisor(max - d, b);
            lemma_mul_inequality(acc as int, q, b);
            assert(acc * b + d <= max);
        }
        acc = acc * (base as u64) + d;
        i += 1;
    }
    proof {
        assert(digits@.take(n as int) =~= digits@);
    }
    Some(acc)
}

/// Encodes `v` as a little-endian run of `width` bytes (the trailing bytes
/// of a wider value are simply truncated away, as the callers never pass
/// one).
pub fn to_le_bytes(v: u64, width: usize) -> (r: Vec<u8>)
    ensures
        r@ == le_bytes_spec(v, width as int),
{
    let mut r: Vec<u8> = Vec::with_capacity(width);
    let mut x = v;
    let mut i: usize = 0;
    proof {
        vstd::arithmetic::power::lemma_pow0(256);
    }
    while i < width
        invariant
            0 <= i <= width,
            r@.len() == i,
            x == v as int / pow(256, i as nat),
            forall|k: int|
                0 <= k < i ==> r@[k] == ((v as int / pow(256, k as nat)) % 256) as u8,
        decreases width - i,
    {
        r.push((x % 256) as u8);
        proof {
            let p = pow(256, i as nat);
            assert(pow(256, (i + 1) as nat) == 256 * p) by {
                vstd::arithmetic::power::lemma_pow_adds(256, 1, i as nat);
                vstd::arithmetic::power::lemma_pow1(256);
            }
            assert(p > 0) by {
                vstd::arithmetic::power::lemma_pow_positive(256, i as nat);
            }
            vstd::arithmetic::div_mod::lemma_div_denominator(v as int, p, 256);
        }
        x = x / 256;
        i += 1;
    }
    proof {
        assert(r@ =~= le_bytes_spec(v, width as int));
    }
    r
}

/// Attempts one full decode of the first `size` digit slots: parses them in
/// `base`, and on success replaces `vv` with the element's little-endian
/// byte run. An empty digit window never decodes. Returns whether a run was
/// produced; on failure `vv` is left unchanged and the caller simply
/// retries on the next keystroke.
pub fn do_flush_input(
    input: [u8; 64],
    size: u16,
    display_size: u16,
    base: u32,
    vv: &mut Vec<u8>,
) -> (r: bool)
    requires
        size <= 64,
        2 <= base <= 36,
    ensures
        match decode_spec(input@, size, display_size, base) {
            Option::Some(run) => r && final(vv)@ == run,
            Option::None => !r && final(vv)@ == old(vv)@,
        },
        r ==> final(vv)@.len() == display_size,
{
    if size == 0 {
        return false;
    }
    let max: u64 = match display_size {
        1 => 0xFF,
        2 => 0xFFFF,
        4 => 0xFFFF_FFFF,
        8 => 0xFFFF_FFFF_FFFF_FFFF,
        _ => {
            return false;
        },
    };
    let mut digits: Vec<u8> = Vec::with_capacity(size as usize);
    let mut i: usize = 0;
    while i < size as usize
        invariant
            size <= 64,
            0 <= i <= size,
            digits@.len() == i,
            forall|k: int| 0 <= k < i ==> digits@[k] == input@[k],
        decreases size as usize - i,
    {
        digits.push(input[i]);
        i += 1;
    }
    proof {
        assert(digits@ =~= input@.take(size as int));
    }
    match parse_uint(&digits, base, max) {
        Option::Some(v) => {
            *vv = to_le_bytes(v, display_size as usize);
            true
        },
        Option::None => false,
    }
}

} // verus!
