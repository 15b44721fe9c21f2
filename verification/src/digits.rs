//! Positional numerals: a number as digits of a fixed radix, most significant
//! first, and the number that digits stand for.

use vstd::prelude::*;

verus! {

/// `radix` multiplied by itself `k` times.
pub open spec fn power(radix: nat, k: nat) -> nat
    decreases k,
{
    if k == 0 {
        1
    } else {
        radix * power(radix, (k - 1) as nat)
    }
}

/// The number that `digits` stand for.
pub open spec fn value(digits: Seq<u8>, radix: nat) -> nat
    decreases digits.len(),
{
    if digits.len() == 0 {
        0
    } else {
        value(digits.drop_last(), radix) * radix + digits.last() as nat
    }
}

/// Whether every digit is below the radix.
pub open spec fn digits_below(digits: Seq<u8>, radix: nat) -> bool {
    forall|i: int| 0 <= i < digits.len() ==> (#[trigger] digits[i]) < radix
}

/// The last `k` digits of `n`.
pub open spec fn digits_of(n: nat, k: nat, radix: nat) -> Seq<u8>
    decreases k,
{
    if k == 0 {
        Seq::empty()
    } else {
        digits_of(n / radix, (k - 1) as nat, radix).push((n % radix) as u8)
    }
}

/// `k` digits stand for a number below the `k`th power of the radix.
pub proof fn lemma_value_bound(digits: Seq<u8>, radix: nat)
    requires
        digits_below(digits, radix),
    ensures
        value(digits, radix) < power(radix, digits.len()),
    decreases digits.len(),
{
    if digits.len() > 0 {
        let front = digits.drop_last();
        assert forall|i: int| 0 <= i < front.len() implies (#[trigger] front[i]) < radix by {
            assert(front[i] == digits[i]);
        }
        lemma_value_bound(front, radix);
        let v = value(front, radix);
        let p = power(radix, front.len());
        let d = digits[digits.len() - 1] as nat;
        assert(v * radix + d < radix * p) by (nonlinear_arith)
            requires
                v + 1 <= p,
                d < radix,
        ;
    }
}

/// Writing a number in enough digits and reading it back gives the number.
pub proof fn lemma_value_of_digits(n: nat, k: nat, radix: nat)
    requires
        0 < radix <= 256,
        n < power(radix, k),
    ensures
        value(digits_of(n, k, radix), radix) == n,
        digits_of(n, k, radix).len() == k,
        digits_below(digits_of(n, k, radix), radix),
    decreases k,
{
    if k > 0 {
        let p = power(radix, (k - 1) as nat);
        let q = n / radix;
        let r = n % radix;
        assert(q < p && n == q * radix + r && r < radix) by (nonlinear_arith)
            requires
                n < radix * p,
                radix > 0,
                q == n / radix,
                r == n % radix,
        ;
        lemma_value_of_digits(q, (k - 1) as nat, radix);
        let front = digits_of(q, (k - 1) as nat, radix);
        assert(front.push(r as u8).drop_last() =~= front);
        assert(digits_of(n, k, radix) == front.push(r as u8));
    }
}

/// Reading digits as a number and writing it in as many digits gives the
/// digits back.
pub proof fn lemma_digits_of_value(digits: Seq<u8>, radix: nat)
    requires
        0 < radix,
        digits_below(digits, radix),
    ensures
        digits_of(value(digits, radix), digits.len(), radix) == digits,
    decreases digits.len(),
{
    if digits.len() > 0 {
        let front = digits.drop_last();
        assert forall|i: int| 0 <= i < front.len() implies (#[trigger] front[i]) < radix by {
            assert(front[i] == digits[i]);
        }
        lemma_digits_of_value(front, radix);
        let v = value(front, radix);
        let d = digits[digits.len() - 1] as nat;
        let n = v * radix + d;
        assert(n / radix == v && n % radix == d) by (nonlinear_arith)
            requires
                d < radix,
                n == v * radix + d,
        ;
        assert(value(digits, radix) == n);
        assert(front.push(d as u8) =~= digits);
    } else {
        assert(digits =~= Seq::<u8>::empty());
    }
}

/// The last `k` digits of `n`, most significant first.
pub fn written_in(n: u128, k: usize, radix: u128) -> (digits: Vec<u8>)
    requires
        0 < radix <= 256,
    ensures
        digits@ == digits_of(n as nat, k as nat, radix as nat),
    decreases k,
{
    if k == 0 {
        let digits: Vec<u8> = Vec::new();
        assert(digits@ =~= Seq::<u8>::empty());
        digits
    } else {
        let mut digits = written_in(n / radix, k - 1, radix);
        digits.push((n % radix) as u8);
        digits
    }
}

/// The number that `digits` stand for.
pub fn read_as(digits: &[u8], radix: u128) -> (n: u128)
    requires
        digits_below(digits@, radix as nat),
        power(radix as nat, digits@.len()) <= u128::MAX,
    ensures
        n == value(digits@, radix as nat),
{
    let mut n: u128 = 0;
    for i in 0..digits.len()
        invariant
            digits_below(digits@, radix as nat),
            power(radix as nat, digits@.len()) <= u128::MAX,
            n == value(digits@.take(i as int), radix as nat),
    {
        proof {
            let next = digits@.take(i + 1);
            assert(next.drop_last() =~= digits@.take(i as int));
            assert forall|j: int| 0 <= j < next.len() implies (#[trigger] next[j]) < radix by {
                assert(next[j] == digits@[j]);
            }
            lemma_value_bound(next, radix as nat);
            lemma_power_grows(radix as nat, (i + 1) as nat, digits@.len());
            assert(digits@[i as int] < radix);
            assert(value(next, radix as nat) == n * radix + digits@[i as int]);
            assert(0 <= n * radix) by (nonlinear_arith);
        }
        n = n * radix + digits[i] as u128;
    }
    assert(digits@.take(digits@.len() as int) =~= digits@);
    n
}

proof fn lemma_power_grows(radix: nat, i: nat, k: nat)
    requires
        0 < radix,
        i <= k,
    ensures
        power(radix, i) <= power(radix, k),
    decreases k,
{
    if i < k {
        lemma_power_grows(radix, i, (k - 1) as nat);
        let p = power(radix, (k - 1) as nat);
        assert(p <= radix * p) by (nonlinear_arith)
            requires
                radix > 0,
        ;
    }
}

/// A digit put behind others multiplies their number by the radix and adds itself;
/// no digits stand for zero.
pub proof fn law_value_is_positional(digits: Seq<u8>, d: u8, radix: nat)
    ensures
        value(Seq::<u8>::empty(), radix) == 0,
        value(digits.push(d), radix) == value(digits, radix) * radix + d,
{
    assert(digits.push(d).drop_last() =~= digits);
}

/// Digits are written so that, read back, they stand for the number: as many as
/// were asked for, each below the radix.
pub proof fn law_written_digits_stand_for_the_number(n: nat, k: nat, radix: nat)
    requires
        0 < radix <= 256,
        n < power(radix, k),
    ensures
        digits_of(n, k, radix).len() == k,
        forall|i: int| 0 <= i < k ==> (#[trigger] digits_of(n, k, radix)[i]) < radix,
        value(digits_of(n, k, radix), radix) == n,
{
    lemma_value_of_digits(n, k, radix);
}

/// A power is the radix times the power before it.
pub proof fn law_powers_multiply(radix: nat, k: nat)
    ensures
        power(radix, 0) == 1,
        power(radix, k + 1) == radix * power(radix, k),
{
}

} // verus!
