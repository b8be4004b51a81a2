//! Decimal text for integers, as it appears on the wire.

use vstd::prelude::*;

verus! {

/// The ASCII code of the digit `d`.
pub open spec fn digit_byte(d: nat) -> u8
    recommends
        d < 10,
{
    (48 + d) as u8
}

/// The decimal digits of `n`, most significant first, without leading
/// zeros; zero is the single digit `0`.
pub open spec fn digits_of(n: nat) -> Seq<u8>
    decreases n,
{
    if n < 10 {
        seq![digit_byte(n)]
    } else {
        digits_of(n / 10).push(digit_byte(n % 10))
    }
}

/// The decimal text of a signed integer: a minus sign before the digits of
/// a negative number, no sign otherwise.
pub open spec fn signed_digits_of(n: int) -> Seq<u8> {
    if n < 0 {
        seq![45u8] + digits_of((-n) as nat)
    } else {
        digits_of(n as nat)
    }
}

/// The last `width` decimal digits of `n`, most significant first, with
/// zeros in front where `n` has fewer.
pub open spec fn fixed_digits(n: nat, width: nat) -> Seq<u8>
    decreases width,
{
    if width == 0 {
        Seq::empty()
    } else {
        fixed_digits(n / 10, (width - 1) as nat).push(digit_byte(n % 10))
    }
}

/// Ten to the power `k`.
pub open spec fn pow10(k: nat) -> nat
    decreases k,
{
    if k == 0 {
        1
    } else {
        10 * pow10((k - 1) as nat)
    }
}

/// Whether every byte of `s` is an ASCII digit.
pub open spec fn all_digits(s: Seq<u8>) -> bool {
    forall|i: int| 0 <= i < s.len() ==> 48 <= #[trigger] s[i] <= 57
}

/// The number that a sequence of ASCII digits writes; the empty sequence
/// writes zero.
pub open spec fn digits_value(s: Seq<u8>) -> nat
    decreases s.len(),
{
    if s.len() == 0 {
        0
    } else {
        (digits_value(s.drop_last()) * 10 + (s.last() - 48)) as nat
    }
}

/// The natural number that `s` writes in decimal: an optional plus sign,
/// then one digit or more. Anything else writes no number.
pub open spec fn parse_nat(s: Seq<u8>) -> Option<nat> {
    if s.len() > 0 && s[0] == 43 {
        if s.len() > 1 && all_digits(s.skip(1)) {
            Some(digits_value(s.skip(1)))
        } else {
            None
        }
    } else if s.len() > 0 && all_digits(s) {
        Some(digits_value(s))
    } else {
        None
    }
}

/// The integer that `s` writes in decimal: an optional sign, then one
/// digit or more. Anything else writes no integer.
pub open spec fn parse_int(s: Seq<u8>) -> Option<int> {
    if s.len() > 0 && s[0] == 45 {
        if s.len() > 1 && all_digits(s.skip(1)) {
            Some(-(digits_value(s.skip(1)) as int))
        } else {
            None
        }
    } else {
        match parse_nat(s) {
            Some(v) => Some(v as int),
            None => None,
        }
    }
}

/// `parse_int` kept to the range of `i64`.
pub open spec fn parse_i64_spec(s: Seq<u8>) -> Option<i64> {
    match parse_int(s) {
        Some(v) => if i64::MIN <= v <= i64::MAX {
            Some(v as i64)
        } else {
            None
        },
        None => None,
    }
}

/// `parse_nat` kept to the range of `u64`; a minus sign is never accepted.
pub open spec fn parse_u64_spec(s: Seq<u8>) -> Option<u64> {
    match parse_nat(s) {
        Some(v) => if v <= u64::MAX {
            Some(v as u64)
        } else {
            None
        },
        None => None,
    }
}

/// The decimal text of a number is made of digits, at least one.
pub proof fn lemma_digits_of_are_digits(n: nat)
    ensures
        digits_of(n).len() >= 1,
        all_digits(digits_of(n)),
    decreases n,
{
    if n >= 10 {
        lemma_digits_of_are_digits(n / 10);
    }
}

/// Writing a number and reading the digits back gives the number.
pub proof fn lemma_digits_value_of_digits(n: nat)
    ensures
        digits_value(digits_of(n)) == n,
    decreases n,
{
    if n < 10 {
        let s = digits_of(n);
        assert(s.drop_last().len() == 0);
        assert(digits_value(s.drop_last()) == 0);
    } else {
        lemma_digits_value_of_digits(n / 10);
        let s = digits_of(n);
        assert(s.drop_last() =~= digits_of(n / 10));
    }
}

/// The value of a digit string is at least the value of each of its
/// prefixes.
pub proof fn lemma_digits_value_prefix(s: Seq<u8>, k: int)
    requires
        0 <= k <= s.len(),
        all_digits(s),
    ensures
        digits_value(s.take(k)) <= digits_value(s),
    decreases s.len() - k,
{
    if k == s.len() {
        assert(s.take(k) =~= s);
    } else {
        lemma_digits_value_prefix(s, k + 1);
        let t = s.take(k + 1);
        assert(t.drop_last() =~= s.take(k));
        assert(48 <= s[k] <= 57);
        assert(t.last() == s[k]);
    }
}

/// The decimal text of `n`.
pub fn u64_to_decimal(n: u64) -> (out: Vec<u8>)
    ensures
        out@ == digits_of(n as nat),
{
    let mut rev: Vec<u8> = Vec::new();
    let mut m: u64 = n;
    while m >= 10
        invariant
            digits_of(n as nat) == digits_of(m as nat) + rev@.reverse(),
        decreases m,
    {
        let d: u8 = (m % 10) as u8;
        let ghost old_rev = rev@;
        let ghost old_m = m;
        rev.push(48 + d);
        m = m / 10;
        proof {
            assert(rev@.reverse() =~= seq![digit_byte((old_m % 10) as nat)] + old_rev.reverse());
            assert(digits_of(old_m as nat) + old_rev.reverse() =~= digits_of(m as nat)
                + rev@.reverse());
        }
    }
    let ghost before = rev@;
    rev.push(48 + (m as u8));
    proof {
        assert(rev@.reverse() =~= seq![digit_byte(m as nat)] + before.reverse());
    }
    let mut out: Vec<u8> = Vec::new();
    let mut i: usize = rev.len();
    while i > 0
        invariant
            i <= rev.len(),
            out@ == rev@.reverse().take(rev.len() - i),
        decreases i,
    {
        i = i - 1;
        let ghost prev = out@;
        out.push(rev[i]);
        proof {
            assert(out@ =~= rev@.reverse().take(rev.len() - i));
        }
    }
    proof {
        assert(rev@.reverse().take(rev.len() as int) =~= rev@.reverse());
    }
    out
}

/// The decimal text of `n`, with a minus sign when it is negative.
pub fn i64_to_decimal(n: i64) -> (out: Vec<u8>)
    ensures
        out@ == signed_digits_of(n as int),
{
    if n >= 0 {
        u64_to_decimal(n as u64)
    } else {
        let magnitude: u64 = if n == i64::MIN {
            9223372036854775808u64
        } else {
            (-n) as u64
        };
        let mut digits = u64_to_decimal(magnitude);
        let mut out: Vec<u8> = Vec::new();
        out.push(45u8);
        out.append(&mut digits);
        out
    }
}

/// Reads the digits of `s` from `start` on as a number of at most `limit`.
/// `None` where that part is empty, holds a byte that is no digit, or
/// writes a number above `limit`.
fn parse_magnitude(s: &[u8], start: usize, limit: u64) -> (r: Option<u64>)
    requires
        start <= s.len(),
    ensures
        r == (if start < s.len() && all_digits(s@.skip(start as int)) && digits_value(
            s@.skip(start as int),
        ) <= limit {
            Some(digits_value(s@.skip(start as int)) as u64)
        } else {
            None
        }),
{
    if start == s.len() {
        return None;
    }
    let ghost tail = s@.skip(start as int);
    let mut acc: u64 = 0;
    let mut i: usize = start;
    while i < s.len()
        invariant
            start <= i <= s.len(),
            tail == s@.skip(start as int),
            all_digits(tail.take(i - start)),
            acc == digits_value(tail.take(i - start)),
            acc <= limit,
        decreases s.len() - i,
    {
        let c: u8 = s[i];
        if c < 48 || c > 57 {
            proof {
                assert(tail[i - start] == c);
            }
            return None;
        }
        let d: u64 = (c - 48) as u64;
        proof {
            let t = tail.take(i - start + 1);
            assert(t.drop_last() =~= tail.take(i - start));
            assert(t.last() == c);
            assert(digits_value(t) == acc * 10 + d);
            assert forall|j: int| 0 <= j < t.len() implies 48 <= #[trigger] t[j] <= 57 by {
                if j < i - start {
                    assert(tail.take(i - start)[j] == t[j]);
                }
            }
        }
        if d > limit || acc > (limit - d) / 10 {
            proof {
                if all_digits(tail) {
                    lemma_digits_value_prefix(tail, i - start + 1);
                }
            }
            return None;
        }
        acc = acc * 10 + d;
        i = i + 1;
    }
    proof {
        assert(tail.take(i - start) =~= tail);
    }
    Some(acc)
}

/// Reads an unsigned decimal number: an optional plus sign, then digits.
pub fn parse_u64(s: &[u8]) -> (r: Option<u64>)
    ensures
        r == parse_u64_spec(s@),
{
    if s.len() == 0 {
        return None;
    }
    let start: usize = if s[0] == 43 {
        1
    } else {
        0
    };
    proof {
        assert(s@.skip(0) =~= s@);
        if s[0] == 43 && s.len() > 1 {
            assert(s@.skip(1).len() > 0);
        }
    }
    parse_magnitude(s, start, u64::MAX)
}

/// Reads a signed decimal number: an optional sign, then digits.
pub fn parse_i64(s: &[u8]) -> (r: Option<i64>)
    ensures
        r == parse_i64_spec(s@),
{
    if s.len() == 0 {
        return None;
    }
    proof {
        assert(s@.skip(0) =~= s@);
        if all_digits(s@) {
            assert(48 <= s@[0] <= 57);
        }
    }
    if s[0] == 45 {
        match parse_magnitude(s, 1, 9223372036854775808u64) {
            Some(m) => {
                if m == 9223372036854775808u64 {
                    Some(i64::MIN)
                } else {
                    Some(-(m as i64))
                }
            },
            None => None,
        }
    } else {
        let start: usize = if s[0] == 43 {
            1
        } else {
            0
        };
        match parse_magnitude(s, start, 9223372036854775807u64) {
            Some(m) => Some(m as i64),
            None => None,
        }
    }
}

/// A number written by `u64_to_decimal` is read back by `parse_u64`.
pub proof fn lemma_parse_u64_of_digits(n: u64)
    ensures
        parse_u64_spec(digits_of(n as nat)) == Some(n),
{
    lemma_digits_of_are_digits(n as nat);
    lemma_digits_value_of_digits(n as nat);
}

/// A number written by `i64_to_decimal` is read back by `parse_i64`.
pub proof fn lemma_parse_i64_of_digits(n: i64)
    ensures
        parse_i64_spec(signed_digits_of(n as int)) == Some(n),
{
    if n < 0 {
        let m = (-(n as int)) as nat;
        lemma_digits_of_are_digits(m);
        lemma_digits_value_of_digits(m);
        let s = signed_digits_of(n as int);
        assert(s.skip(1) =~= digits_of(m));
    } else {
        lemma_digits_of_are_digits(n as nat);
        lemma_digits_value_of_digits(n as nat);
    }
}

/// A text of `width` digits holds `n` whole when `n` is below ten to the
/// power `width`.
pub proof fn lemma_fixed_digits_value(n: nat, width: nat)
    requires
        n < pow10(width),
    ensures
        fixed_digits(n, width).len() == width,
        all_digits(fixed_digits(n, width)),
        digits_value(fixed_digits(n, width)) == n,
    decreases width,
{
    if width > 0 {
        lemma_fixed_digits_value(n / 10, (width - 1) as nat);
        let s = fixed_digits(n, width);
        assert(s.drop_last() =~= fixed_digits(n / 10, (width - 1) as nat));
        assert forall|j: int| 0 <= j < s.len() implies 48 <= #[trigger] s[j] <= 57 by {
            if j < s.len() - 1 {
                assert(s[j] == s.drop_last()[j]);
            }
        }
    }
}

/// Texts of one width are ordered as the numbers that they hold.
pub proof fn lemma_fixed_digits_order(a: nat, b: nat, width: nat)
    requires
        a < pow10(width),
        b < pow10(width),
        a < b,
    ensures
        exists|k: int|
            0 <= k < width && fixed_digits(a, width).take(k) == fixed_digits(b, width).take(k)
                && #[trigger] fixed_digits(a, width)[k] < fixed_digits(b, width)[k],
    decreases width,
{
    let sa = fixed_digits(a, width);
    let sb = fixed_digits(b, width);
    lemma_fixed_digits_value(a, width);
    lemma_fixed_digits_value(b, width);
    assert(width > 0);
    let w1 = (width - 1) as nat;
    assert(sa.drop_last() =~= fixed_digits(a / 10, w1));
    assert(sb.drop_last() =~= fixed_digits(b / 10, w1));
    if a / 10 < b / 10 {
        lemma_fixed_digits_order(a / 10, b / 10, w1);
        let k = choose|k: int|
            0 <= k < w1 && fixed_digits(a / 10, w1).take(k) == fixed_digits(b / 10, w1).take(k)
                && #[trigger] fixed_digits(a / 10, w1)[k] < fixed_digits(b / 10, w1)[k];
        assert(sa.take(k) =~= fixed_digits(a / 10, w1).take(k));
        assert(sb.take(k) =~= fixed_digits(b / 10, w1).take(k));
        assert(sa[k] == fixed_digits(a / 10, w1)[k]);
        assert(sb[k] == fixed_digits(b / 10, w1)[k]);
        assert(sa[k] < sb[k]);
    } else {
        assert(a / 10 == b / 10);
        let k = width - 1;
        assert(sa.take(k) =~= sa.drop_last());
        assert(sb.take(k) =~= sb.drop_last());
        assert(sa[k] == digit_byte(a % 10));
        assert(sb[k] == digit_byte(b % 10));
        assert(sa[k] < sb[k]);
    }
}

/// The decimal text of `n` in exactly `width` digits.
pub fn u64_to_fixed_decimal(n: u64, width: usize) -> (out: Vec<u8>)
    ensures
        out@ == fixed_digits(n as nat, width as nat),
{
    let mut rev: Vec<u8> = Vec::new();
    let mut m: u64 = n;
    let mut i: usize = 0;
    while i < width
        invariant
            i <= width,
            rev.len() == i,
            fixed_digits(n as nat, width as nat) == fixed_digits(m as nat, (width - i) as nat)
                + rev@.reverse(),
        decreases width - i,
    {
        let d: u8 = (m % 10) as u8;
        let ghost old_rev = rev@;
        let ghost old_m = m;
        rev.push(48 + d);
        m = m / 10;
        i = i + 1;
        proof {
            assert(rev@.reverse() =~= seq![digit_byte((old_m % 10) as nat)] + old_rev.reverse());
            assert(fixed_digits(old_m as nat, (width - i + 1) as nat) + old_rev.reverse()
                =~= fixed_digits(m as nat, (width - i) as nat) + rev@.reverse());
        }
    }
    let mut out: Vec<u8> = Vec::new();
    let mut j: usize = rev.len();
    while j > 0
        invariant
            j <= rev.len(),
            out@ == rev@.reverse().take(rev.len() - j),
        decreases j,
    {
        j = j - 1;
        out.push(rev[j]);
        proof {
            assert(out@ =~= rev@.reverse().take(rev.len() - j));
        }
    }
    proof {
        assert(rev@.reverse().take(rev.len() as int) =~= rev@.reverse());
        assert(fixed_digits(m as nat, 0) + rev@.reverse() =~= rev@.reverse());
    }
    out
}

/// Ten to the powers nineteen and twenty, which bound the numbers of
/// sixty-four bits.
pub proof fn lemma_pow10_bounds()
    ensures
        pow10(19) == 10_000_000_000_000_000_000,
        pow10(20) == 100_000_000_000_000_000_000,
{
    reveal_with_fuel(pow10, 21);
}

/// A number below ten to the power `k` has at most `k` digits, for `k`
/// of at least one.
pub proof fn lemma_digits_len(n: nat, k: nat)
    requires
        k >= 1,
        n < pow10(k),
    ensures
        1 <= digits_of(n).len() <= k,
    decreases n,
{
    if n >= 10 {
        assert(k >= 2) by {
            if k == 1 {
                assert(pow10(1) == 10) by {
                    reveal_with_fuel(pow10, 2);
                }
            }
        }
        assert(n / 10 < pow10((k - 1) as nat));
        lemma_digits_len(n / 10, (k - 1) as nat);
    }
}

/// A signed number of a magnitude below ten to the power `k - 1` is
/// written in at most `k` bytes.
pub proof fn lemma_signed_digits_len(n: int, k: nat)
    requires
        k >= 2,
        -pow10((k - 1) as nat) < n < pow10((k - 1) as nat),
    ensures
        1 <= signed_digits_of(n).len() <= k,
{
    if n < 0 {
        lemma_digits_len((-n) as nat, (k - 1) as nat);
    } else {
        lemma_digits_len(n as nat, (k - 1) as nat);
    }
}

} // verus!
