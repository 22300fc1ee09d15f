//! Decimal numbers as the protocol writes and reads them.
use crate::ascii::{MINUS, NINE, PLUS, ZERO};
use vstd::prelude::*;

verus! {

/// Whether `b` is one of the ASCII characters `0` to `9`.
pub open spec fn is_digit(b: u8) -> bool {
    ZERO <= b <= NINE
}

/// Whether `s` holds digits only (the empty sequence does).
pub open spec fn all_digits(s: Seq<u8>) -> bool {
    forall|i: int| 0 <= i < s.len() ==> is_digit(#[trigger] s[i])
}

/// The number that a sequence of digits denotes in base ten.
pub open spec fn digits_value(s: Seq<u8>) -> nat
    decreases s.len(),
{
    if s.len() == 0 {
        0
    } else {
        digits_value(s.drop_last()) * 10 + (s.last() - ZERO) as nat
    }
}

/// The digits of `n` in base ten, without leading zeros; `0` for zero.
pub open spec fn decimal(n: nat) -> Seq<u8>
    decreases n,
{
    if n < 10 {
        seq![(ZERO + n) as u8]
    } else {
        decimal(n / 10).push((ZERO + n % 10) as u8)
    }
}

/// The digits of `n` in base ten, with a leading `-` where `n` is negative.
pub open spec fn signed_decimal(n: int) -> Seq<u8> {
    if n < 0 {
        seq![MINUS] + decimal((-n) as nat)
    } else {
        decimal(n as nat)
    }
}

/// The number that `s` denotes, if `s` is one or more digits.
pub open spec fn unsigned_of_digits(s: Seq<u8>) -> Option<nat> {
    if s.len() > 0 && all_digits(s) {
        Some(digits_value(s))
    } else {
        None
    }
}

/// The unsigned 64-bit number that `s` denotes: one or more digits, after a
/// `+` or nothing, with a value that fits.
pub open spec fn u64_of(s: Seq<u8>) -> Option<u64> {
    let digits = if s.len() > 0 && s[0] == PLUS {
        s.skip(1)
    } else {
        s
    };
    match unsigned_of_digits(digits) {
        Some(v) => if v <= u64::MAX {
            Some(v as u64)
        } else {
            None
        },
        None => None,
    }
}

/// The signed 64-bit number that `s` denotes: one or more digits, after a
/// `+`, a `-` or nothing, with a value that fits.
pub open spec fn i64_of(s: Seq<u8>) -> Option<i64> {
    let signed = s.len() > 0 && (s[0] == PLUS || s[0] == MINUS);
    let digits = if signed {
        s.skip(1)
    } else {
        s
    };
    match unsigned_of_digits(digits) {
        Some(v) => {
            let n: int = if signed && s[0] == MINUS {
                -(v as int)
            } else {
                v as int
            };
            if i64::MIN <= n <= i64::MAX {
                Some(n as i64)
            } else {
                None
            }
        },
        None => None,
    }
}

/// A longer run of digits denotes no smaller a number.
proof fn lemma_digits_value_grows(s: Seq<u8>, n: int)
    requires
        0 <= n <= s.len(),
    ensures
        digits_value(s.take(n)) <= digits_value(s),
    decreases s.len(),
{
    if n < s.len() {
        assert(s.drop_last().take(n) =~= s.take(n));
        lemma_digits_value_grows(s.drop_last(), n);
    } else {
        assert(s.take(n) =~= s);
    }
}

/// The decimal digits of a number denote that number.
pub proof fn law_decimal_denotes(n: nat)
    ensures
        unsigned_of_digits(decimal(n)) == Some(n),
    decreases n,
{
    if n >= 10 {
        law_decimal_denotes(n / 10);
        let s = decimal(n);
        assert(s.drop_last() =~= decimal(n / 10));
    } else {
        let s = decimal(n);
        assert(digits_value(s.drop_last()) == 0);
    }
}

/// A number that is written in decimal is read back, where it fits.
pub proof fn law_u64_round_trip(n: nat)
    ensures
        u64_of(decimal(n)) == if n <= u64::MAX {
            Some(n as u64)
        } else {
            None
        },
{
    law_decimal_denotes(n);
}

/// A signed number that is written in decimal is read back.
pub proof fn law_i64_round_trip(n: i64)
    ensures
        i64_of(signed_decimal(n as int)) == Some(n),
{
    if n < 0 {
        let m = (-(n as int)) as nat;
        law_decimal_denotes(m);
        assert(signed_decimal(n as int).skip(1) =~= decimal(m));
    } else {
        law_decimal_denotes(n as nat);
    }
}

/// Writes `n` in base ten at the end of `out`.
pub fn push_decimal(out: &mut Vec<u8>, n: u128)
    ensures
        final(out)@ == old(out)@ + decimal(n as nat),
    decreases n,
{
    if n >= 10 {
        push_decimal(out, n / 10);
    }
    let digit: u8 = (n % 10) as u8;
    out.push(ZERO + digit);
}

/// Writes `n` in base ten at the end of `out`, with a leading `-` where it is
/// negative.
pub fn push_signed_decimal(out: &mut Vec<u8>, n: i64)
    ensures
        final(out)@ == old(out)@ + signed_decimal(n as int),
{
    if n < 0 {
        out.push(MINUS);
        push_decimal(out, (-(n as i128)) as u128);
    } else {
        push_decimal(out, n as u128);
    }
}

/// The number that the bytes of `s` from `from` on denote, if they are one or
/// more digits and it fits.
fn digits_from(s: &[u8], from: usize) -> (r: Option<u64>)
    requires
        from <= s@.len(),
    ensures
        r == match unsigned_of_digits(s@.skip(from as int)) {
            Some(v) => if v <= u64::MAX {
                Some(v as u64)
            } else {
                None
            },
            None => None,
        },
{
    let ghost digits = s@.skip(from as int);
    if from == s.len() {
        return None;
    }
    let mut value: u64 = 0;
    let mut i: usize = from;
    while i < s.len()
        invariant
            from <= i <= s@.len(),
            digits == s@.skip(from as int),
            all_digits(digits.take(i - from)),
            value == digits_value(digits.take(i - from)),
        decreases s@.len() - i,
    {
        let b = s[i];
        let ghost next = digits.take(i - from + 1);
        proof {
            assert(next.drop_last() =~= digits.take(i - from));
            lemma_digits_value_grows(digits, i - from + 1);
        }
        if b < ZERO || b > NINE {
            return None;
        }
        let digit: u64 = (b - ZERO) as u64;
        if value > (u64::MAX - digit) / 10 {
            return None;
        }
        value = value * 10 + digit;
        i = i + 1;
    }
    assert(digits.take(digits.len() as int) =~= digits);
    Some(value)
}

/// Reads an unsigned number.
pub fn read_u64(s: &[u8]) -> (r: Option<u64>)
    ensures
        r == u64_of(s@),
{
    assert(s@.skip(0) =~= s@);
    if s.len() > 0 && s[0] == PLUS {
        digits_from(s, 1)
    } else {
        digits_from(s, 0)
    }
}

/// Reads a signed number.
pub fn read_i64(s: &[u8]) -> (r: Option<i64>)
    ensures
        r == i64_of(s@),
{
    assert(s@.skip(0) =~= s@);
    let signed = s.len() > 0 && (s[0] == PLUS || s[0] == MINUS);
    let negative = signed && s[0] == MINUS;
    let from: usize = if signed {
        1
    } else {
        0
    };
    match digits_from(s, from) {
        Some(v) => if negative {
            if v <= 0x8000_0000_0000_0000 {
                Some((-(v as i128)) as i64)
            } else {
                None
            }
        } else if v <= 0x7fff_ffff_ffff_ffff {
            Some(v as i64)
        } else {
            None
        },
        None => None,
    }
}

} // verus!
