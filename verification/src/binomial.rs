//! Binomial coefficients, with the closed-form facts the rest of the crate
//! needs: how many five-card hands a deck yields, and bounds that keep the
//! counting arithmetic inside machine integers.

use vstd::prelude::*;
use vstd::arithmetic::power2::pow2;
use vstd::arithmetic::power2::{lemma2_to64, lemma2_to64_rest};

verus! {

/// The number of k-element subsets of an n-element set, by Pascal's rule.
pub open spec fn binom(n: nat, k: nat) -> nat
    decreases n + k,
{
    if k == 0 {
        1
    } else if n == 0 {
        0
    } else {
        binom((n - 1) as nat, (k - 1) as nat) + binom((n - 1) as nat, k)
    }
}

/// The factorial.
pub open spec fn fact(k: nat) -> nat
    decreases k,
{
    if k == 0 {
        1
    } else {
        k * fact((k - 1) as nat)
    }
}

/// The falling factorial: k descending factors starting at n.
pub open spec fn falling(n: nat, k: nat) -> nat
    decreases k,
{
    if k == 0 {
        1
    } else if n == 0 {
        0
    } else {
        n * falling((n - 1) as nat, (k - 1) as nat)
    }
}

/// Choosing more elements than the set has is impossible.
pub proof fn lemma_binom_zero(n: nat, k: nat)
    requires
        k > n,
    ensures
        binom(n, k) == 0,
    decreases n,
{
    if n > 0 {
        lemma_binom_zero((n - 1) as nat, (k - 1) as nat);
        lemma_binom_zero((n - 1) as nat, k);
    }
}

/// A descending product of k factors runs out once it crosses zero.
proof fn lemma_falling_zero(n: nat, k: nat)
    requires
        k > n,
    ensures
        falling(n, k) == 0,
    decreases k,
{
    if n > 0 {
        lemma_falling_zero((n - 1) as nat, (k - 1) as nat);
        assert(n * falling((n - 1) as nat, (k - 1) as nat) == 0) by (nonlinear_arith)
            requires
                falling((n - 1) as nat, (k - 1) as nat) == 0,
        ;
    }
}

/// Peeling the last factor off a falling factorial.
proof fn lemma_falling_step(n: nat, k: nat)
    requires
        1 <= k <= n,
    ensures
        falling(n, k) == falling(n, (k - 1) as nat) * (n - k + 1),
    decreases k,
{
    if k == 1 {
        assert(falling(n, 1) == n * falling((n - 1) as nat, 0));
        assert(falling(n, 0) * (n - 1 + 1) == 1 * n);
    } else {
        let n1 = (n - 1) as nat;
        let k1 = (k - 1) as nat;
        let a = falling(n1, (k - 2) as nat);
        lemma_falling_step(n1, k1);
        assert(falling(n1, k1) == a * (n - k + 1));
        assert(falling(n, k) == n * falling(n1, k1));
        assert(falling(n, k1) == n * a);
        assert(n * (a * (n - k + 1)) == (n * a) * (n - k + 1)) by (nonlinear_arith);
        assert(falling(n, k) == (n * a) * (n - k + 1));
    }
}

/// The binomial coefficient times the factorial of k is the falling
/// factorial: Pascal's rule agrees with the closed product form.
proof fn lemma_fact_binom(n: nat, k: nat)
    ensures
        fact(k) * binom(n, k) == falling(n, k),
    decreases n + k,
{
    if k == 0 {
        assert(fact(0) == 1);
        assert(binom(n, 0) == 1);
        assert(1 * 1 == 1) by (nonlinear_arith);
        assert(fact(0) * binom(n, 0) == 1);
    } else if n == 0 {
        assert(binom(0, k) == 0);
        assert(falling(0, k) == 0);
        assert(fact(k) * 0 == 0) by (nonlinear_arith);
    } else {
        let n1 = (n - 1) as nat;
        let k1 = (k - 1) as nat;
        lemma_fact_binom(n1, k1);
        lemma_fact_binom(n1, k);
        assert(fact(k) == k * fact(k1));
        // fact(k) * binom(n, k) == fact(k) * binom(n1, k1) + fact(k) * binom(n1, k)
        assert(fact(k) * binom(n, k) == fact(k) * (binom(n1, k1) + binom(n1, k)));
        assert(fact(k) * (binom(n1, k1) + binom(n1, k)) == fact(k) * binom(n1, k1) + fact(k)
            * binom(n1, k)) by (nonlinear_arith);
        assert(fact(k) * binom(n1, k1) == (k * fact(k1)) * binom(n1, k1));
        assert((k * fact(k1)) * binom(n1, k1) == k * (fact(k1) * binom(n1, k1)))
            by (nonlinear_arith);
        assert(fact(k) * binom(n, k) == k * falling(n1, k1) + falling(n1, k));
        if k > n1 {
            // The second product is empty of choices: k exceeds n - 1.
            lemma_falling_zero(n1, k);
            if k1 > n1 {
                lemma_falling_zero(n1, k1);
                lemma_falling_zero(n, k);
                assert(k * falling(n1, k1) == 0) by (nonlinear_arith)
                    requires
                        falling(n1, k1) == 0,
                ;
            } else {
                // Here k == n, and falling(n, n) picks every factor down to one.
                assert(k == n);
                assert(falling(n, k) == n * falling(n1, k1));
            }
        } else {
            lemma_falling_step(n1, k);
            assert(falling(n1, k) == falling(n1, k1) * (n1 - k + 1));
            assert(k * falling(n1, k1) + falling(n1, k1) * (n1 - k + 1) == n * falling(n1, k1))
                by (nonlinear_arith)
                requires
                    n >= 1,
                    k >= 1,
                    n1 == n - 1,
                    k1 == k - 1,
                    n1 - k + 1 >= 0,
            ;
            assert(falling(n, k) == n * falling(n1, k1));
        }
    }
}

/// The number of five-card hands a 52-card deck yields.
pub proof fn lemma_binom_52_5()
    ensures
        binom(52, 5) == 2598960,
{
    lemma_fact_binom(52, 5);
    assert(fact(0) == 1);
    assert(fact(1) == 1);
    assert(fact(2) == 2);
    assert(fact(3) == 6);
    assert(fact(4) == 24);
    assert(fact(5) == 120);
    assert(falling(47, 0) == 1);
    assert(falling(48, 1) == 48);
    assert(falling(49, 2) == 49 * 48);
    assert(falling(50, 3) == 50 * (49 * 48));
    assert(falling(51, 4) == 51 * (50 * (49 * 48)));
    assert(falling(52, 5) == 52 * (51 * (50 * (49 * 48))));
    assert(120 * binom(52, 5) == 311875200);
}

/// Every binomial coefficient is bounded by two to the n: a subset either
/// keeps or drops each element.
pub proof fn lemma_binom_le_pow2(n: nat, k: nat)
    ensures
        binom(n, k) <= pow2(n),
    decreases n + k,
{
    vstd::arithmetic::power2::lemma_pow2_pos(n);
    if k == 0 {
    } else if n == 0 {
    } else {
        let n1 = (n - 1) as nat;
        lemma_binom_le_pow2(n1, (k - 1) as nat);
        lemma_binom_le_pow2(n1, k);
        vstd::arithmetic::power2::lemma_pow2_unfold(n);
        assert(pow2(n) == 2 * pow2(n1));
    }
}

/// The binomial coefficient, computed by Pascal's rule.
pub fn binomial(n: u64, k: u64) -> (r: u64)
    requires
        n <= 52,
    ensures
        r == binom(n as nat, k as nat),
{
    proof {
        lemma2_to64();
    }
    if k > n {
        proof {
            lemma_binom_zero(n as nat, k as nat);
        }
        return 0;
    }
    let mut row: Vec<u64> = Vec::new();
    row.push(1);
    let mut j: u64 = 1;
    while j <= k
        invariant
            1 <= j <= k + 1,
            k <= 52,
            row@.len() == j,
            forall|m: int| 0 <= m < row@.len() ==> row@[m] == binom(0, m as nat),
        decreases k + 1 - j,
    {
        row.push(0);
        proof {
            lemma_binom_zero(0, j as nat);
        }
        j = j + 1;
    }
    let mut i: u64 = 0;
    while i < n
        invariant
            i <= n <= 52,
            row@.len() == k + 1,
            k <= 52,
            forall|m: int| 0 <= m < row@.len() ==> row@[m] == binom(i as nat, m as nat),
        decreases n - i,
    {
        let mut next: Vec<u64> = Vec::new();
        next.push(1);
        let mut j: usize = 1;
        while j < row.len()
            invariant
                1 <= j <= row@.len(),
                row@.len() == k + 1,
                k <= 52,
                i < n <= 52,
                forall|m: int| 0 <= m < row@.len() ==> row@[m] == binom(i as nat, m as nat),
                next@.len() == j,
                forall|m: int| 0 <= m < next@.len() ==> next@[m] == binom((i + 1) as nat, m as nat),
            decreases row@.len() - j,
        {
            proof {
                lemma_binom_le_pow2((i + 1) as nat, j as nat);
                vstd::arithmetic::power2::lemma_pow2_strictly_increases((i + 1) as nat, 53);
                lemma2_to64_rest();
            }
            next.push(row[j - 1] + row[j]);
            j = j + 1;
        }
        row = next;
        i = i + 1;
    }
    row[k as usize]
}


/// Choosing no more elements than the set has can always be done at least
/// one way.
pub proof fn lemma_binom_pos(n: nat, k: nat)
    requires
        k <= n,
    ensures
        binom(n, k) >= 1,
    decreases n,
{
    if k == 0 {
    } else {
        lemma_binom_pos((n - 1) as nat, (k - 1) as nat);
    }
}

} // verus!
