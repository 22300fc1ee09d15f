//! What numbers on the wire mean: which number a line of bytes denotes, told by
//! the weight of each digit.
use crate::number::{
    all_digits, decimal, digits_value, i64_of, law_decimal_denotes, signed_decimal, u64_of,
};
use vstd::arithmetic::power::{lemma_pow0, lemma_pow1, lemma_pow_adds, pow};
use vstd::prelude::*;

verus! {

/// Whether every byte is one of the characters `0` to `9`, and there is one.
pub open spec fn digits(line: Seq<u8>) -> bool {
    line.len() > 0 && forall|i: int| 0 <= i < line.len() ==> 48 <= #[trigger] line[i] <= 57
}

/// The sum of the digits, each times the power of ten of its place.
pub open spec fn weight(line: Seq<u8>) -> int
    decreases line.len(),
{
    if line.len() == 0 {
        0
    } else {
        (line[0] - 48) * pow(10, (line.len() - 1) as nat) + weight(line.drop_first())
    }
}

/// Whether a line denotes a number without a sign, or with the sign `+`.
pub open spec fn denotes_unsigned(line: Seq<u8>, n: int) -> bool {
    ||| digits(line) && n == weight(line)
    ||| line.len() > 0 && line[0] == 43 && digits(line.drop_first()) && n == weight(
        line.drop_first(),
    )
}

/// Whether a line denotes a number, with a sign or without.
pub open spec fn denotes(line: Seq<u8>, n: int) -> bool {
    ||| denotes_unsigned(line, n)
    ||| line.len() > 0 && line[0] == 45 && digits(line.drop_first()) && n == -weight(
        line.drop_first(),
    )
}

/// A digit behind others makes them count ten times as much.
proof fn lemma_weight_push(line: Seq<u8>, b: u8)
    ensures
        weight(line.push(b)) == weight(line) * 10 + (b - 48),
    decreases line.len(),
{
    let longer = line.push(b);
    if line.len() == 0 {
        lemma_pow0(10);
        assert(longer.drop_first() =~= Seq::<u8>::empty());
        assert(weight(longer) == (b - 48) * 1 + weight(longer.drop_first()));
    } else {
        assert(longer.drop_first() =~= line.drop_first().push(b));
        lemma_weight_push(line.drop_first(), b);
        lemma_pow1(10);
        let k = (line.len() - 1) as nat;
        lemma_pow_adds(10, k, 1);
        assert(pow(10, line.len()) == pow(10, k) * 10);
        let (d, p) = ((line[0] - 48) as int, pow(10, k));
        assert(d * (p * 10) == (d * p) * 10) by (nonlinear_arith);
        assert(longer[0] == line[0]);
        assert(weight(longer) == d * pow(10, line.len()) + weight(longer.drop_first()));
    }
}

proof fn lemma_weight_is_value(line: Seq<u8>)
    requires
        all_digits(line),
    ensures
        weight(line) == digits_value(line),
    decreases line.len(),
{
    if line.len() > 0 {
        lemma_weight_is_value(line.drop_last());
        lemma_weight_push(line.drop_last(), line.last());
        assert(line.drop_last().push(line.last()) =~= line);
    }
}

/// A line is read as an unsigned number exactly where it denotes that number.
pub proof fn law_unsigned_numbers_are_read(line: Seq<u8>, n: u64)
    ensures
        u64_of(line) == Some(n) <==> denotes_unsigned(line, n as int),
{
    if digits(line) {
        lemma_weight_is_value(line);
    }
    if line.len() > 0 {
        assert(line.skip(1) =~= line.drop_first());
        if digits(line.drop_first()) {
            lemma_weight_is_value(line.drop_first());
        }
    }
}

/// A line is read as a signed number exactly where it denotes that number.
pub proof fn law_signed_numbers_are_read(line: Seq<u8>, n: i64)
    ensures
        i64_of(line) == Some(n) <==> denotes(line, n as int),
{
    if digits(line) {
        lemma_weight_is_value(line);
    }
    if line.len() > 0 {
        assert(line.skip(1) =~= line.drop_first());
        if digits(line.drop_first()) {
            lemma_weight_is_value(line.drop_first());
        }
    }
}

/// A number is written in digits that denote it, without a zero in front of
/// others, and with a sign, which is `-`, exactly where it is negative.
pub proof fn law_numbers_are_written_in_digits(n: int)
    ensures
        n >= 0 ==> digits(signed_decimal(n)) && weight(signed_decimal(n)) == n,
        n >= 0 ==> signed_decimal(n) == decimal(n as nat),
        n >= 10 ==> signed_decimal(n)[0] != 48,
        0 <= n < 10 ==> signed_decimal(n).len() == 1,
        n < 0 ==> signed_decimal(n) == seq![45u8] + signed_decimal(-n),
        denotes(signed_decimal(n), n),
{
    let m = if n < 0 {
        (-n) as nat
    } else {
        n as nat
    };
    law_decimal_denotes(m);
    lemma_weight_is_value(decimal(m));
    lemma_no_zero_in_front(m);
    if n < 0 {
        assert(signed_decimal(n).drop_first() =~= decimal(m));
    }
}

proof fn lemma_no_zero_in_front(n: nat)
    ensures
        n > 0 ==> decimal(n)[0] != 48,
        decimal(n).len() > 0,
    decreases n,
{
    if n >= 10 {
        lemma_no_zero_in_front(n / 10);
    }
}

} // verus!
