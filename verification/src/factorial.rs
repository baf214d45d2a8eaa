//! Factorial on a 64-bit accumulator.

use vstd::arithmetic::div_mod::{lemma_mul_mod_noop_left, lemma_small_mod};
use vstd::arithmetic::mul::lemma_mul_is_commutative;
use vstd::prelude::*;

verus! {

/// The number of values a 64-bit accumulator can hold.
pub open spec fn word_size() -> nat {
    0x1_0000_0000_0000_0000
}

/// The product of the integers from 1 to `n`; the empty product, for `n == 0`, is 1.
pub open spec fn product_up_to(n: nat) -> nat
    decreases n,
{
    if n == 0 {
        1
    } else {
        n * product_up_to((n - 1) as nat)
    }
}

/// Once a product is a multiple of `m`, every longer product is one too.
pub proof fn lemma_product_stays_multiple(i: nat, n: nat, m: nat)
    requires
        m > 0,
        i <= n,
        product_up_to(i) % m == 0,
    ensures
        product_up_to(n) % m == 0,
    decreases n - i,
{
    if i < n {
        let p = product_up_to(i);
        assert(product_up_to(i + 1) == (i + 1) * p);
        lemma_mul_mod_noop_left(p as int, (i + 1) as int, m as int);
        lemma_mul_is_commutative(p as int, (i + 1) as int);
        assert((0int * (i + 1) as int) % (m as int) == 0) by {
            lemma_small_mod(0, m);
        }
        lemma_product_stays_multiple(i + 1, n, m);
    }
}

/// Up to 20 the product fits the accumulator, so that `factorial` returns it exactly.
pub proof fn lemma_product_fits(n: nat)
    requires
        n <= 20,
    ensures
        product_up_to(n) < word_size(),
        product_up_to(n) % word_size() == product_up_to(n),
        n == 20 ==> product_up_to(n) == 2432902008176640000,
    decreases 20 - n,
{
    reveal_with_fuel(product_up_to, 21);
    assert(product_up_to(20) == 2432902008176640000);
    if n < 20 {
        lemma_product_grows(n, 20);
    }
    lemma_small_mod(product_up_to(n), word_size());
}

/// Products never shrink as the bound grows.
pub proof fn lemma_product_grows(i: nat, n: nat)
    requires
        i <= n,
    ensures
        1 <= product_up_to(i) <= product_up_to(n),
    decreases n,
{
    if n == 0 {
    } else if i == n {
        lemma_product_grows(0, (n - 1) as nat);
        assert(product_up_to(n) >= 1) by (nonlinear_arith)
            requires
                product_up_to(n) == n * product_up_to((n - 1) as nat),
                n >= 1,
                product_up_to((n - 1) as nat) >= 1,
        ;
    } else {
        lemma_product_grows(i, (n - 1) as nat);
        assert(product_up_to(n) >= product_up_to((n - 1) as nat)) by (nonlinear_arith)
            requires
                product_up_to(n) == n * product_up_to((n - 1) as nat),
                n >= 1,
        ;
    }
}

/// Computes `n!` on a 64-bit accumulator whose multiplications wrap around:
/// the result is the product of `1..=n` modulo 2^64.
///
/// The loop stops as soon as the accumulator holds 0, because it would hold 0
/// ever after.
pub fn factorial(n: u64) -> (r: u64)
    ensures
        r as nat == product_up_to(n as nat) % word_size(),
        n <= 20 ==> r as nat == product_up_to(n as nat),
{
    let mut acc: u64 = 1;
    let mut i: u64 = 0;
    proof {
        lemma_small_mod(1, word_size());
    }
    while i < n && acc != 0
        invariant
            i <= n,
            acc as nat == product_up_to(i as nat) % word_size(),
        decreases n - i,
    {
        i = i + 1;
        proof {
            let p = product_up_to((i - 1) as nat);
            lemma_mul_mod_noop_left(p as int, i as int, word_size() as int);
            lemma_mul_is_commutative(p as int, i as int);
        }
        acc = acc.wrapping_mul(i);
    }
    proof {
        if i < n {
            lemma_product_stays_multiple(i as nat, n as nat, word_size());
        }
        if n <= 20 {
            lemma_product_fits(n as nat);
        }
    }
    acc
}

} // verus!
