//! Decimal text of integers, as it stands in frame headers and integer frames.

use vstd::prelude::*;

verus! {

/// Whether `b` is an ASCII decimal digit.
pub open spec fn is_digit(b: u8) -> bool {
    48 <= b <= 57
}

/// Whether every byte of `s` is an ASCII decimal digit.
pub open spec fn all_digits(s: Seq<u8>) -> bool {
    forall|i: int| 0 <= i < s.len() ==> is_digit(#[trigger] s[i])
}

/// The ASCII digit that stands for `d`, for `d` below ten.
pub open spec fn digit_byte(d: nat) -> u8 {
    (48 + d) as u8
}

/// The decimal digits of `n`, most significant first, with no leading zero
/// (and the single digit `0` for zero).
pub open spec fn digits(n: nat) -> Seq<u8>
    decreases n,
{
    if n < 10 {
        seq![digit_byte(n)]
    } else {
        digits(n / 10).push(digit_byte(n % 10))
    }
}

/// The number that a run of decimal digits denotes; zero for the empty run.
pub open spec fn digits_value(s: Seq<u8>) -> nat
    decreases s.len(),
{
    if s.len() == 0 {
        0
    } else {
        digits_value(s.drop_last()) * 10 + (s.last() - 48) as nat
    }
}

/// The text of a signed integer: a sign, always written, then its digits.
pub open spec fn signed_text(v: int) -> Seq<u8> {
    if v < 0 {
        seq![45u8] + digits((-v) as nat)
    } else {
        seq![43u8] + digits(v as nat)
    }
}

/// The integer that `s` denotes: an optional `+` or `-`, then one digit or
/// more. Anything else denotes nothing.
pub open spec fn parse_int(s: Seq<u8>) -> Option<int> {
    if s.len() > 0 && (s[0] == 43 || s[0] == 45) {
        let body = s.skip(1);
        if body.len() > 0 && all_digits(body) {
            if s[0] == 45 {
                Some(-(digits_value(body) as int))
            } else {
                Some(digits_value(body) as int)
            }
        } else {
            None
        }
    } else if s.len() > 0 && all_digits(s) {
        Some(digits_value(s) as int)
    } else {
        None
    }
}

/// The 64-bit signed integer that `s` denotes, if it denotes one in range.
pub open spec fn parse_i64(s: Seq<u8>) -> Option<i64> {
    match parse_int(s) {
        Some(v) => if i64::MIN <= v <= i64::MAX {
            Some(v as i64)
        } else {
            None
        },
        None => None,
    }
}

/// The digits of a number are digits, at least one of them, and denote it.
pub proof fn lemma_digits_value(n: nat)
    ensures
        digits(n).len() >= 1,
        all_digits(digits(n)),
        digits_value(digits(n)) == n,
    decreases n,
{
    if n < 10 {
        assert(digits(n).drop_last() =~= Seq::<u8>::empty());
        assert(digits_value(digits(n).drop_last()) == 0);
    } else {
        lemma_digits_value(n / 10);
        let rest = digits(n / 10);
        let all = digits(n);
        assert(all == rest.push(digit_byte(n % 10)));
        assert(all.drop_last() =~= rest);
        assert(all.last() == digit_byte(n % 10));
    }
}

/// The first digit of a number's text is neither sign.
pub proof fn lemma_digits_first(n: nat)
    ensures
        is_digit(digits(n)[0]),
    decreases n,
{
    lemma_digits_value(n);
}

/// Reading back the digits of a number gives the number.
pub proof fn lemma_parse_digits(n: nat)
    ensures
        parse_int(digits(n)) == Some(n as int),
{
    lemma_digits_value(n);
    lemma_digits_first(n);
}

/// Reading back the text of a signed integer gives the integer.
pub proof fn lemma_parse_signed_text(v: int)
    ensures
        parse_int(signed_text(v)) == Some(v),
{
    let n: nat = if v < 0 { (-v) as nat } else { v as nat };
    lemma_digits_value(n);
    let s = signed_text(v);
    assert(s.skip(1) =~= digits(n));
}

/// A prefix of a run of digits denotes no more than the whole run.
pub proof fn lemma_digits_value_prefix(s: Seq<u8>, k: int)
    requires
        all_digits(s),
        0 <= k <= s.len(),
    ensures
        digits_value(s.take(k)) <= digits_value(s),
    decreases s.len() - k,
{
    if k == s.len() {
        assert(s.take(k) =~= s);
    } else {
        lemma_digits_value_prefix(s, k + 1);
        let longer = s.take(k + 1);
        assert(longer.drop_last() =~= s.take(k));
        assert(is_digit(s[k]));
        assert(longer.last() == s[k]);
    }
}

/// Ten to the power `k`.
pub open spec fn pow10(k: nat) -> nat
    decreases k,
{
    if k == 0 {
        1
    } else {
        10 * pow10((k - 1) as nat)
    }
}

/// A number below ten to the `k` has at most `k` digits.
pub proof fn lemma_digits_len_bound(n: nat, k: nat)
    requires
        k >= 1,
        n < pow10(k),
    ensures
        digits(n).len() <= k,
    decreases k,
{
    if n >= 10 {
        assert(pow10(1) == 10) by {
            reveal_with_fuel(pow10, 2);
        }
        assert(k >= 2);
        lemma_digits_len_bound(n / 10, (k - 1) as nat);
    }
}

/// A 64-bit number has at most twenty digits.
pub proof fn lemma_digits_len_u64(n: u64)
    ensures
        1 <= digits(n as nat).len() <= 20,
{
    assert(pow10(20) == 100000000000000000000nat) by {
        reveal_with_fuel(pow10, 21);
    }
    lemma_digits_len_bound(n as nat, 20);
    lemma_digits_value(n as nat);
}

/// Appends the digits of `n` to `buf`.
pub fn push_digits(n: u64, buf: &mut Vec<u8>)
    ensures
        final(buf)@ == old(buf)@ + digits(n as nat),
    decreases n,
{
    if n >= 10 {
        push_digits(n / 10, buf);
    }
    let d: u8 = (n % 10) as u8;
    buf.push(48 + d);
    proof {
        if n >= 10 {
            assert(final(buf)@ =~= old(buf)@ + digits(n as nat));
        } else {
            assert(final(buf)@ =~= old(buf)@ + digits(n as nat));
        }
    }
}

/// The number of digits of `n`.
pub fn digits_len(n: u64) -> (len: usize)
    ensures
        len == digits(n as nat).len(),
        1 <= len <= 20,
{
    let mut len: usize = 1;
    let mut rest: u64 = n;
    proof {
        lemma_digits_len_u64(n);
    }
    while rest >= 10
        invariant
            1 <= len,
            digits(n as nat).len() == digits(rest as nat).len() + len - 1,
            digits(n as nat).len() <= 20,
        decreases rest,
    {
        proof {
            lemma_digits_value(rest as nat / 10);
        }
        rest = rest / 10;
        len = len + 1;
    }
    len
}

/// The text of `v` with its sign, appended to `buf`.
pub fn push_signed(v: i64, buf: &mut Vec<u8>)
    ensures
        final(buf)@ == old(buf)@ + signed_text(v as int),
{
    if v < 0 {
        buf.push(45u8);
        let magnitude: u64 = if v == i64::MIN {
            9223372036854775808u64
        } else {
            (-v) as u64
        };
        push_digits(magnitude, buf);
        assert(final(buf)@ =~= old(buf)@ + signed_text(v as int));
    } else {
        buf.push(43u8);
        push_digits(v as u64, buf);
        assert(final(buf)@ =~= old(buf)@ + signed_text(v as int));
    }
}

/// The length of the text of `v` with its sign.
pub fn signed_len(v: i64) -> (len: usize)
    ensures
        len == signed_text(v as int).len(),
        2 <= len <= 21,
{
    let magnitude: u64 = if v < 0 {
        if v == i64::MIN {
            9223372036854775808u64
        } else {
            (-v) as u64
        }
    } else {
        v as u64
    };
    1 + digits_len(magnitude)
}

/// Reads a signed decimal integer from the whole of `text`.
#[verifier::loop_isolation(false)]
pub fn read_i64(text: &[u8]) -> (r: Option<i64>)
    ensures
        r == parse_i64(text@),
{
    let n = text.len();
    if n == 0 {
        return None;
    }
    let negative = text[0] == 45u8;
    let start: usize = if text[0] == 43u8 || text[0] == 45u8 {
        1
    } else {
        0
    };
    if start == n {
        return None;
    }
    let limit: u64 = if negative {
        9223372036854775808u64
    } else {
        9223372036854775807u64
    };
    let ghost body = text@.skip(start as int);
    let mut acc: u64 = 0;
    let mut i: usize = start;
    assert(body.take(0) =~= Seq::<u8>::empty());
    while i < n
        invariant
            start <= i <= n,
            n == text@.len(),
            body == text@.skip(start as int),
            all_digits(body.take(i - start)),
            acc == digits_value(body.take(i - start)),
            acc <= limit,
        decreases n - i,
    {
        let b = text[i];
        let ghost seen = body.take(i - start + 1);
        proof {
            assert(seen.drop_last() =~= body.take(i - start));
            assert(seen.last() == b);
            assert(body[i - start] == b);
        }
        if b < 48u8 || b > 57u8 {
            assert(!all_digits(body));
            return None;
        }
        let d: u64 = (b - 48u8) as u64;
        if acc > (limit - d) / 10 {
            proof {
                assert(digits_value(seen) > limit);
                assert forall|j: int| 0 <= j < seen.len() implies is_digit(#[trigger] seen[j]) by {
                    if j < seen.len() - 1 {
                        assert(seen[j] == body.take(i - start)[j]);
                    }
                }
                if all_digits(body) {
                    lemma_digits_value_prefix(body, i - start + 1);
                    assert(digits_value(body) > limit);
                }
                if start == 0 {
                    assert(body =~= text@);
                }
            }
            return None;
        }
        acc = acc * 10 + d;
        i = i + 1;
        proof {
            assert forall|j: int| 0 <= j < seen.len() implies is_digit(#[trigger] seen[j]) by {
                if j < seen.len() - 1 {
                    assert(seen[j] == body.take(i - 1 - start)[j]);
                }
            }
        }
    }
    proof {
        assert(body.take(n - start) =~= body);
        if start == 0 {
            assert(body =~= text@);
        }
    }
    if negative {
        if acc == 9223372036854775808u64 {
            Some(i64::MIN)
        } else {
            Some(-(acc as i64))
        }
    } else {
        Some(acc as i64)
    }
}

} // verus!
