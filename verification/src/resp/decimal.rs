//! Decimal numbers as they stand on the wire: what a run of bytes means as an
//! integer, and the bytes that an integer is written as.

use vstd::prelude::*;

verus! {

/// The byte `-`.
pub const MINUS: u8 = 45;

/// The byte `+`.
pub const PLUS: u8 = 43;

/// `b` is one of the ASCII digits `0` to `9`.
pub open spec fn is_digit(b: u8) -> bool {
    48 <= b <= 57
}

/// Every byte of `s` is a digit.
pub open spec fn all_digits(s: Seq<u8>) -> bool {
    forall|i: int| 0 <= i < s.len() ==> is_digit(#[trigger] s[i])
}

/// The number that a run of digits stands for, most significant digit first.
pub open spec fn digits_value(s: Seq<u8>) -> nat
    decreases s.len(),
{
    if s.len() == 0 {
        0
    } else {
        digits_value(s.drop_last()) * 10 + (s.last() - 48) as nat
    }
}

/// The integer that `s` stands for: an optional sign and at least one digit.
/// `None` where `s` has another shape.
pub open spec fn decimal_value(s: Seq<u8>) -> Option<int> {
    if s.len() == 0 {
        None
    } else if s[0] == MINUS || s[0] == PLUS {
        if s.len() > 1 && all_digits(s.skip(1)) {
            if s[0] == MINUS {
                Some(-(digits_value(s.skip(1)) as int))
            } else {
                Some(digits_value(s.skip(1)) as int)
            }
        } else {
            None
        }
    } else if all_digits(s) {
        Some(digits_value(s) as int)
    } else {
        None
    }
}

/// The 64-bit signed integer that `s` stands for, `None` where it stands for
/// none or for one out of range.
pub open spec fn i64_value(s: Seq<u8>) -> Option<i64> {
    match decimal_value(s) {
        Some(n) => if i64::MIN <= n <= i64::MAX {
            Some(n as i64)
        } else {
            None
        },
        None => None,
    }
}

/// The digits of `n`, without leading zeros.
pub open spec fn digits(n: nat) -> Seq<u8>
    decreases n,
{
    if n < 10 {
        seq![(48 + n) as u8]
    } else {
        digits(n / 10).push((48 + n % 10) as u8)
    }
}

/// The canonical text of `n`: a minus sign where it is negative, then its
/// digits.
pub open spec fn decimal(n: int) -> Seq<u8> {
    if n < 0 {
        seq![MINUS] + digits((-n) as nat)
    } else {
        digits(n as nat)
    }
}

/// A run of digits only grows in value when digits are appended.
pub proof fn lemma_digits_value_prefix(s: Seq<u8>, k: int)
    requires
        0 <= k <= s.len(),
    ensures
        digits_value(s.take(k)) <= digits_value(s),
    decreases s.len(),
{
    if k < s.len() {
        lemma_digits_value_prefix(s.drop_last(), k);
        assert(s.drop_last().take(k) =~= s.take(k));
    } else {
        assert(s.take(k) =~= s);
    }
}

/// What `digits` writes is read back by `digits_value`.
pub proof fn lemma_digits_round_trip(n: nat)
    ensures
        digits(n).len() > 0,
        all_digits(digits(n)),
        digits_value(digits(n)) == n,
        digits(n)[0] != MINUS,
        digits(n)[0] != PLUS,
    decreases n,
{
    if n < 10 {
        let s = digits(n);
        assert(s.drop_last() =~= Seq::<u8>::empty());
        assert(digits_value(s.drop_last()) == 0);
    } else {
        lemma_digits_round_trip(n / 10);
        let s = digits(n);
        assert(s.drop_last() =~= digits(n / 10));
        assert(s[0] == digits(n / 10)[0]);
    }
}

/// What `decimal` writes is read back by `decimal_value`.
pub proof fn lemma_decimal_round_trip(n: int)
    ensures
        decimal_value(decimal(n)) == Some(n),
        decimal(n).len() > 0,
{
    if n < 0 {
        lemma_digits_round_trip((-n) as nat);
        assert(decimal(n).skip(1) =~= digits((-n) as nat));
    } else {
        lemma_digits_round_trip(n as nat);
    }
}

/// The canonical text of a number holds nothing but a sign and digits.
pub proof fn lemma_decimal_bytes(n: int, i: int)
    requires
        0 <= i < decimal(n).len(),
    ensures
        is_digit(decimal(n)[i]) || decimal(n)[i] == MINUS,
{
    if n < 0 {
        lemma_digits_round_trip((-n) as nat);
        if i > 0 {
            assert(decimal(n)[i] == digits((-n) as nat)[i - 1]);
        }
    } else {
        lemma_digits_round_trip(n as nat);
    }
}

/// Reads `text` as a 64-bit signed decimal number.
pub fn parse_i64(text: &[u8]) -> (r: Option<i64>)
    ensures
        r == i64_value(text@),
{
    let n = text.len();
    if n == 0 {
        return None;
    }
    let negative = text[0] == MINUS;
    let start: usize = if text[0] == MINUS || text[0] == PLUS { 1 } else { 0 };
    if start == n {
        return None;
    }
    let ghost body = text@.skip(start as int);
    let limit: u64 = if negative { 0x8000_0000_0000_0000 } else { 0x7fff_ffff_ffff_ffff };
    let mut acc: u64 = 0;
    let mut i: usize = start;
    let mut overflow = false;
    while i < n
        invariant
            start <= i <= n,
            n == text@.len(),
            body == text@.skip(start as int),
            all_digits(body.take(i - start)),
            !overflow ==> acc == digits_value(body.take(i - start)),
            !overflow ==> acc <= limit,
            overflow ==> digits_value(body.take(i - start)) > limit,
            limit == if negative { 0x8000_0000_0000_0000u64 } else { 0x7fff_ffff_ffff_ffffu64 },
            negative == (text@[0] == MINUS),
            start == if text@[0] == MINUS || text@[0] == PLUS { 1usize } else { 0usize },
        decreases n - i,
    {
        let b = text[i];
        if b < 48 || b > 57 {
            proof {
                assert(!is_digit(body[i - start]));
                if start == 0 {
                    assert(body =~= text@);
                }
            }
            return None;
        }
        let d: u64 = (b - 48) as u64;
        proof {
            let next = body.take(i - start + 1);
            assert(next.drop_last() =~= body.take(i - start));
            assert(next.last() == b);
            assert forall|j: int| 0 <= j < next.len() implies is_digit(#[trigger] next[j]) by {
                if j < i - start {
                    assert(body.take(i - start)[j] == next[j]);
                }
            }
        }
        if !overflow {
            if acc > (limit - d) / 10 {
                overflow = true;
                assert(acc * 10 + d > limit);
            } else {
                acc = acc * 10 + d;
            }
        } else {
            proof {
                lemma_digits_value_prefix(body.take(i - start + 1), i - start);
                assert(body.take(i - start + 1).take(i - start) =~= body.take(i - start));
            }
        }
        i = i + 1;
    }
    proof {
        assert(body.take(n - start) =~= body);
        if start == 0 {
            assert(body =~= text@);
        }
        if overflow {
            lemma_digits_value_prefix(body, n - start);
        }
    }
    if overflow {
        None
    } else if negative {
        if acc == 0x8000_0000_0000_0000 {
            Some(i64::MIN)
        } else {
            Some(-(acc as i64))
        }
    } else {
        Some(acc as i64)
    }
}

/// The 64-bit unsigned integer that `s` stands for: `None` where it stands
/// for none, has a minus sign or is out of range.
pub open spec fn u64_value(s: Seq<u8>) -> Option<u64> {
    match decimal_value(s) {
        Some(n) => if s[0] != MINUS && n <= u64::MAX {
            Some(n as u64)
        } else {
            None
        },
        None => None,
    }
}

/// Reads `text` as a 64-bit unsigned decimal number.
pub fn parse_u64(text: &[u8]) -> (r: Option<u64>)
    ensures
        r == u64_value(text@),
{
    let n = text.len();
    if n == 0 || text[0] == MINUS {
        return None;
    }
    let start: usize = if text[0] == PLUS { 1 } else { 0 };
    if start == n {
        return None;
    }
    let ghost body = text@.skip(start as int);
    let mut acc: u64 = 0;
    let mut i: usize = start;
    let mut overflow = false;
    while i < n
        invariant
            start <= i <= n,
            n == text@.len(),
            body == text@.skip(start as int),
            all_digits(body.take(i - start)),
            !overflow ==> acc == digits_value(body.take(i - start)),
            overflow ==> digits_value(body.take(i - start)) > u64::MAX,
            text@[0] != MINUS,
            start == if text@[0] == PLUS { 1usize } else { 0usize },
        decreases n - i,
    {
        let b = text[i];
        if b < 48 || b > 57 {
            proof {
                assert(!is_digit(body[i - start]));
                if start == 0 {
                    assert(body =~= text@);
                }
            }
            return None;
        }
        let d: u64 = (b - 48) as u64;
        proof {
            let next = body.take(i - start + 1);
            assert(next.drop_last() =~= body.take(i - start));
            assert(next.last() == b);
            assert forall|j: int| 0 <= j < next.len() implies is_digit(#[trigger] next[j]) by {
                if j < i - start {
                    assert(body.take(i - start)[j] == next[j]);
                }
            }
        }
        if !overflow {
            if acc > (u64::MAX - d) / 10 {
                overflow = true;
                assert(acc * 10 + d > u64::MAX);
            } else {
                acc = acc * 10 + d;
            }
        } else {
            proof {
                lemma_digits_value_prefix(body.take(i - start + 1), i - start);
                assert(body.take(i - start + 1).take(i - start) =~= body.take(i - start));
            }
        }
        i = i + 1;
    }
    proof {
        assert(body.take(n - start) =~= body);
        if start == 0 {
            assert(body =~= text@);
        }
    }
    if overflow {
        None
    } else {
        Some(acc)
    }
}

/// Appends the digits of `n` to `out`.
pub fn push_digits(out: &mut Vec<u8>, n: u64)
    ensures
        final(out)@ == old(out)@ + digits(n as nat),
    decreases n,
{
    if n >= 10 {
        push_digits(out, n / 10);
    }
    out.push(48 + (n % 10) as u8);
    proof {
        if n >= 10 {
            assert(out@ =~= old(out)@ + digits(n as nat));
        } else {
            assert(out@ =~= old(out)@ + digits(n as nat));
        }
    }
}

/// Appends the canonical text of `n` to `out`.
pub fn push_decimal(out: &mut Vec<u8>, n: i64)
    ensures
        final(out)@ == old(out)@ + decimal(n as int),
{
    if n < 0 {
        out.push(MINUS);
        let magnitude: u64 = (-(n + 1)) as u64 + 1;
        push_digits(out, magnitude);
        assert(out@ =~= old(out)@ + decimal(n as int));
    } else {
        push_digits(out, n as u64);
    }
}

/// Appends the canonical text of a length or a count to `out`.
pub fn push_length(out: &mut Vec<u8>, n: usize)
    ensures
        final(out)@ == old(out)@ + decimal(n as int),
{
    push_digits(out, n as u64);
}

} // verus!
