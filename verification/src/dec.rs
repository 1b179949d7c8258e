//! Decimal digits on the wire.
//!
//! Numbers, text lengths and list counts travel as ASCII decimal digits:
//! fixed ten-digit fields inside encoded values, and minimal digit runs in
//! path segments and query values.

use vstd::prelude::*;

verus! {

/// ASCII digit test.
pub open spec fn is_digit(b: u8) -> bool {
    48 <= b <= 57
}

/// Every byte of `s` is an ASCII digit.
pub open spec fn all_digits(s: Seq<u8>) -> bool {
    forall|i: int| 0 <= i < s.len() ==> is_digit(#[trigger] s[i])
}

/// The number a digit run denotes, most significant digit first.
pub open spec fn dec_value(s: Seq<u8>) -> nat
    decreases s.len(),
{
    if s.len() == 0 {
        0
    } else {
        dec_value(s.drop_last()) * 10 + (s.last() - 48) as nat
    }
}

/// Ten to the `w`.
pub open spec fn pow10(w: nat) -> nat
    decreases w,
{
    if w == 0 {
        1
    } else {
        10 * pow10((w - 1) as nat)
    }
}

/// `n` written as exactly `w` digits, zero padded, truncated to `w` digits.
pub open spec fn dec_fixed(n: nat, w: nat) -> Seq<u8>
    decreases w,
{
    if w == 0 {
        Seq::empty()
    } else {
        dec_fixed(n / 10, (w - 1) as nat).push((48 + n % 10) as u8)
    }
}

/// Shape of a fixed-width digit field.
pub proof fn lemma_dec_fixed_shape(n: nat, w: nat)
    ensures
        dec_fixed(n, w).len() == w,
        all_digits(dec_fixed(n, w)),
    decreases w,
{
    if w > 0 {
        lemma_dec_fixed_shape(n / 10, (w - 1) as nat);
        assert(all_digits(dec_fixed(n, w))) by {
            let s = dec_fixed(n / 10, (w - 1) as nat);
            assert(forall|i: int|
                0 <= i < s.len() ==> #[trigger] s.push((48 + n % 10) as u8)[i] == s[i]);
        }
    }
}

/// A fixed-width field reads back as the number it was written from.
pub proof fn lemma_dec_fixed_value(n: nat, w: nat)
    requires
        n < pow10(w),
    ensures
        dec_value(dec_fixed(n, w)) == n,
    decreases w,
{
    if w == 0 {
    } else {
        lemma_dec_fixed_value(n / 10, (w - 1) as nat);
        let s = dec_fixed(n / 10, (w - 1) as nat);
        assert(dec_fixed(n, w).drop_last() =~= s);
        assert(dec_fixed(n, w).last() == (48 + n % 10) as u8);
    }
}

/// `n` written as its minimal digit run, without leading zeros.
pub open spec fn dec_min(n: nat) -> Seq<u8>
    decreases n,
{
    if n < 10 {
        seq![(48 + n) as u8]
    } else {
        dec_min(n / 10).push((48 + n % 10) as u8)
    }
}

/// Shape and value of a minimal digit run.
pub proof fn lemma_dec_min(n: nat)
    ensures
        dec_min(n).len() >= 1,
        all_digits(dec_min(n)),
        dec_value(dec_min(n)) == n,
    decreases n,
{
    if n < 10 {
        assert(dec_min(n) =~= seq![(48 + n) as u8]);
        assert(dec_value(dec_min(n).drop_last()) == 0);
    } else {
        lemma_dec_min(n / 10);
        let s = dec_min(n / 10);
        assert(forall|i: int|
            0 <= i < s.len() ==> #[trigger] s.push((48 + n % 10) as u8)[i] == s[i]);
        assert(dec_min(n).drop_last() =~= s);
    }
}

/// A minimal digit run for `n < pow10(w)` has at most `w` digits.
pub proof fn lemma_dec_min_len(n: nat, w: nat)
    requires
        n < pow10(w),
        w >= 1,
    ensures
        dec_min(n).len() <= w,
    decreases w,
{
    if n < 10 {
    } else {
        assert(pow10(w) == 10 * pow10((w - 1) as nat));
        lemma_dec_min_len(n / 10, (w - 1) as nat);
    }
}

/// Ten-digit field starting at `i`: `Some` exactly when ten digits are
/// there and they denote a number that fits in `u32`.
pub open spec fn spec_dec10_at(s: Seq<u8>, i: int) -> Option<u32> {
    if 0 <= i && i + 10 <= s.len() && all_digits(s.subrange(i, i + 10)) && dec_value(
        s.subrange(i, i + 10),
    ) <= u32::MAX {
        Some(dec_value(s.subrange(i, i + 10)) as u32)
    } else {
        None
    }
}

/// Reads a ten-digit field at position `i`.
pub fn read_dec10(s: &Vec<u8>, i: usize) -> (r: Option<u32>)
    ensures
        r == spec_dec10_at(s@, i as int),
{
    if s.len() < 10 || i > s.len() - 10 {
        return None;
    }
    let ghost run = s@.subrange(i as int, i as int + 10);
    let mut acc: u64 = 0;
    let mut j: usize = 0;
    while j < 10
        invariant
            0 <= j <= 10,
            i + 10 <= s.len(),
            run == s@.subrange(i as int, i as int + 10),
            all_digits(s@.subrange(i as int, i as int + j)),
            acc == dec_value(s@.subrange(i as int, i as int + j)),
            acc < pow10(j as nat),
        decreases 10 - j,
    {
        let b = s[i + j];
        proof {
            assert(run[j as int] == s@[i as int + j]);
        }
        if b < 48 || b > 57 {
            proof {
                assert(!is_digit(run[j as int]));
            }
            return None;
        }
        proof {
            let pre = s@.subrange(i as int, i as int + j);
            let nxt = s@.subrange(i as int, i as int + j + 1);
            assert(nxt.drop_last() =~= pre);
            assert(nxt.last() == b);
            assert(pow10((j + 1) as nat) == 10 * pow10(j as nat));
            assert(pow10(10) == 10000000000) by {
                reveal_with_fuel(pow10, 11);
            }
            assert(pow10(j as nat) <= pow10(10)) by {
                lemma_pow10_le(j as nat, 10);
            }
        }
        acc = acc * 10 + ((b - 48) as u64);
        j = j + 1;
    }
    proof {
        assert(s@.subrange(i as int, i as int + 10) == run);
    }
    if acc > 0xffff_ffff {
        None
    } else {
        Some(acc as u32)
    }
}

/// `pow10` is monotone.
pub proof fn lemma_pow10_le(a: nat, b: nat)
    requires
        a <= b,
    ensures
        pow10(a) <= pow10(b),
    decreases b,
{
    if a < b {
        lemma_pow10_le(a, (b - 1) as nat);
        assert(pow10(b) == 10 * pow10((b - 1) as nat));
        assert(pow10((b - 1) as nat) >= 1) by {
            lemma_pow10_pos((b - 1) as nat);
        }
    }
}

/// `pow10` is positive.
pub proof fn lemma_pow10_pos(w: nat)
    ensures
        pow10(w) >= 1,
    decreases w,
{
    if w > 0 {
        lemma_pow10_pos((w - 1) as nat);
    }
}

/// Writes `n` as exactly `w` digits.
pub fn write_dec_fixed(n: u32, w: usize) -> (r: Vec<u8>)
    ensures
        r@ == dec_fixed(n as nat, w as nat),
    decreases w,
{
    if w == 0 {
        let r: Vec<u8> = Vec::new();
        proof {
            assert(r@ =~= dec_fixed(n as nat, 0));
        }
        r
    } else {
        let mut r = write_dec_fixed(n / 10, w - 1);
        r.push(48 + (n % 10) as u8);
        r
    }
}

/// A whole digit run as a `u32`: `Some` exactly when `t` is one to ten
/// digits denoting a number that fits in `u32`.
pub open spec fn spec_parse_uint(t: Seq<u8>) -> Option<u32> {
    if 1 <= t.len() <= 10 && all_digits(t) && dec_value(t) <= u32::MAX {
        Some(dec_value(t) as u32)
    } else {
        None
    }
}

/// Parses a whole buffer of digits.
pub fn parse_uint(t: &Vec<u8>) -> (r: Option<u32>)
    ensures
        r == spec_parse_uint(t@),
{
    if t.len() < 1 || t.len() > 10 {
        return None;
    }
    let mut acc: u64 = 0;
    let mut j: usize = 0;
    while j < t.len()
        invariant
            0 <= j <= t.len() <= 10,
            all_digits(t@.subrange(0, j as int)),
            acc == dec_value(t@.subrange(0, j as int)),
            acc < pow10(j as nat),
        decreases t.len() - j,
    {
        let b = t[j];
        if b < 48 || b > 57 {
            proof {
                assert(!is_digit(t@[j as int]));
            }
            return None;
        }
        proof {
            let pre = t@.subrange(0, j as int);
            let nxt = t@.subrange(0, j as int + 1);
            assert(nxt.drop_last() =~= pre);
            assert(nxt.last() == b);
            assert(pow10((j + 1) as nat) == 10 * pow10(j as nat));
            assert(pow10(10) == 10000000000) by {
                reveal_with_fuel(pow10, 11);
            }
            lemma_pow10_le((j + 1) as nat, 10);
        }
        acc = acc * 10 + ((b - 48) as u64);
        j = j + 1;
    }
    proof {
        assert(t@.subrange(0, t@.len() as int) =~= t@);
    }
    if acc > 0xffff_ffff {
        None
    } else {
        Some(acc as u32)
    }
}

/// Writes `n` as its minimal digit run.
pub fn write_uint(n: u32) -> (r: Vec<u8>)
    ensures
        r@ == dec_min(n as nat),
    decreases n,
{
    if n < 10 {
        let mut r: Vec<u8> = Vec::new();
        r.push(48 + n as u8);
        proof {
            assert(r@ =~= dec_min(n as nat));
        }
        r
    } else {
        let mut r = write_uint(n / 10);
        r.push(48 + (n % 10) as u8);
        r
    }
}

} // verus!
