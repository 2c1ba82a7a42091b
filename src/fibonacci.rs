use vstd::prelude::*;
use std::collections::HashMap;
use vstd::arithmetic::power2::{pow2, lemma2_to64, lemma2_to64_rest, lemma_pow2_unfold, lemma_pow2_strictly_increases};

verus! {

broadcast use vstd::std_specs::hash::group_hash_axioms;

/// The Fibonacci numbers: F(0) = 0, F(1) = 1, F(n) = F(n - 1) + F(n - 2).
pub open spec fn fib_spec(n: nat) -> nat
    decreases n,
{
    if n < 2 {
        n
    } else {
        fib_spec((n - 1) as nat) + fib_spec((n - 2) as nat)
    }
}

/// F(0), ..., F(n): the first `n + 1` Fibonacci numbers.
pub open spec fn fib_seq(n: nat) -> Seq<nat> {
    Seq::new(n + 1, |i: int| fib_spec(i as nat))
}

/// F(n) can be computed in a `u64` without overflow.
pub open spec fn fib_fits(n: nat) -> bool {
    fib_spec(n) <= u64::MAX
}

/// The Fibonacci numbers never decrease.
pub proof fn lemma_fib_monotone(i: nat, j: nat)
    requires
        i <= j,
    ensures
        fib_spec(i) <= fib_spec(j),
    decreases j - i,
{
    if i < j {
        lemma_fib_monotone(i, (j - 1) as nat);
        if j >= 2 {
            assert(fib_spec(j) == fib_spec((j - 1) as nat) + fib_spec((j - 2) as nat));
        }
    }
}

/// F(n) never exceeds 2 to the power n.
pub proof fn lemma_fib_pow2_upper(n: nat)
    ensures
        fib_spec(n) <= pow2(n),
    decreases n,
{
    lemma2_to64();
    if n >= 2 {
        lemma_fib_pow2_upper((n - 1) as nat);
        lemma_fib_pow2_upper((n - 2) as nat);
        lemma_pow2_unfold(n);
        lemma_pow2_unfold((n - 1) as nat);
    }
}

/// From index 1 on, F(n) is at least 2 to the power (n - 1) / 2.
pub proof fn lemma_fib_pow2_lower(n: nat)
    requires
        n >= 1,
    ensures
        fib_spec(n) >= pow2(((n - 1) as nat) / 2),
    decreases n,
{
    lemma2_to64();
    if n >= 4 {
        lemma_fib_pow2_lower((n - 2) as nat);
        lemma_fib_monotone((n - 2) as nat, (n - 1) as nat);
        assert(((n - 1) as nat) / 2 == (((n - 3) as nat) / 2) + 1);
        lemma_pow2_unfold(((n - 1) as nat) / 2);
    } else if n >= 2 {
        assert(fib_spec(0) == 0);
        assert(fib_spec(1) == 1);
        assert(fib_spec(2) == 1);
        assert(fib_spec(n) == fib_spec((n - 1) as nat) + fib_spec((n - 2) as nat));
    }
}

/// An index whose Fibonacci number fits in a `u64` is at most 128.
pub proof fn lemma_fib_fits_index(n: nat)
    requires
        fib_fits(n),
    ensures
        n <= 128,
{
    if n > 128 {
        lemma_fib_pow2_lower(n);
        lemma2_to64();
        lemma2_to64_rest();
        if ((n - 1) as nat) / 2 > 64 {
            lemma_pow2_strictly_increases(64, ((n - 1) as nat) / 2);
        }
    }
}

/// Every index up to 63 has a Fibonacci number that fits in a `u64`.
pub proof fn lemma_fib_fits_small(n: nat)
    requires
        n <= 63,
    ensures
        fib_fits(n),
{
    lemma_fib_pow2_upper(n);
    lemma2_to64();
    lemma2_to64_rest();
    if n < 64 {
        lemma_pow2_strictly_increases(n, 64);
    }
}

/// Returns F(n), computed by the defining recursion (exponential time).
pub fn fib(n: u32) -> (r: u64)
    requires
        fib_fits(n as nat),
    ensures
        r == fib_spec(n as nat),
    decreases n,
{
    if n < 2 {
        n as u64
    } else {
        proof {
            lemma_fib_monotone((n - 1) as nat, n as nat);
            lemma_fib_monotone((n - 2) as nat, n as nat);
        }
        fib(n - 1) + fib(n - 2)
    }
}

/// Returns F(0), ..., F(n), each computed by `fib`.
pub fn generate_sequence(n: u32) -> (r: Vec<u64>)
    requires
        fib_fits(n as nat),
    ensures
        r@.len() == n + 1,
        forall|i: int| 0 <= i <= n ==> r@[i] == fib_spec(i as nat),
        r@.map_values(|v: u64| v as nat) == fib_seq(n as nat),
{
    let mut sequence: Vec<u64> = Vec::new();
    let mut i: u32 = 0;
    while i <= n
        invariant
            i <= n + 1,
            fib_fits(n as nat),
            sequence@.len() == i,
            forall|k: int| 0 <= k < i ==> sequence@[k] == fib_spec(k as nat),
        decreases n + 1 - i,
    {
        proof {
            lemma_fib_monotone(i as nat, n as nat);
            lemma_fib_fits_index(n as nat);
        }
        sequence.push(fib(i));
        i = i + 1;
    }
    assert(sequence@.map_values(|v: u64| v as nat) =~= fib_seq(n as nat));
    sequence
}

/// Computes F(n) with a cache of the values already known.
fn fib_memo_helper(n: u32, memo: &mut HashMap<u32, u64>) -> (r: u64)
    requires
        fib_fits(n as nat),
        forall|k: u32| #[trigger] old(memo)@.contains_key(k) ==> old(memo)@[k] == fib_spec(k as nat),
    ensures
        r == fib_spec(n as nat),
        forall|k: u32| #[trigger] final(memo)@.contains_key(k) ==> final(memo)@[k] == fib_spec(k as nat),
    decreases n,
{
    match memo.get(&n) {
        Some(v) => {
            return *v;
        },
        None => {},
    }
    let result: u64 = if n < 2 {
        n as u64
    } else {
        proof {
            lemma_fib_monotone((n - 1) as nat, n as nat);
            lemma_fib_monotone((n - 2) as nat, n as nat);
        }
        let a = fib_memo_helper(n - 1, memo);
        let b = fib_memo_helper(n - 2, memo);
        a + b
    };
    memo.insert(n, result);
    result
}

/// Returns F(n), computed by recursion with a cache scoped to this call.
pub fn fib_memoized(n: u32) -> (r: u64)
    requires
        fib_fits(n as nat),
    ensures
        r == fib_spec(n as nat),
{
    let mut memo: HashMap<u32, u64> = HashMap::new();
    fib_memo_helper(n, &mut memo)
}

/// Returns F(0), ..., F(n), each term the sum of the two before it.
pub fn generate_sequence_iterative(n: u32) -> (r: Vec<u64>)
    requires
        fib_fits(n as nat),
    ensures
        r@.len() == n + 1,
        forall|i: int| 0 <= i <= n ==> r@[i] == fib_spec(i as nat),
        r@.map_values(|v: u64| v as nat) == fib_seq(n as nat),
{
    if n == 0 {
        let first: Vec<u64> = vec![0];
        assert(first@.map_values(|v: u64| v as nat) =~= fib_seq(0));
        return first;
    }
    let mut sequence: Vec<u64> = Vec::new();
    sequence.push(0);
    sequence.push(1);
    let mut i: u32 = 2;
    while i <= n
        invariant
            2 <= i <= n + 1,
            fib_fits(n as nat),
            sequence@.len() == i,
            forall|k: int| 0 <= k < i ==> sequence@[k] == fib_spec(k as nat),
        decreases n + 1 - i,
    {
        proof {
            lemma_fib_monotone(i as nat, n as nat);
            lemma_fib_fits_index(n as nat);
        }
        let next = sequence[(i - 1) as usize] + sequence[(i - 2) as usize];
        sequence.push(next);
        i = i + 1;
    }
    assert(sequence@.map_values(|v: u64| v as nat) =~= fib_seq(n as nat));
    sequence
}

/// `x` is a Fibonacci number.
pub open spec fn is_fib_spec(x: nat) -> bool {
    exists|k: nat| #[trigger] fib_spec(k) == x
}

/// From index 1 on, the next Fibonacci number is at most twice the current one.
proof fn lemma_fib_next_at_most_double(k: nat)
    requires
        k >= 1,
    ensures
        fib_spec(k + 1) <= 2 * fib_spec(k),
{
    lemma_fib_monotone((k - 1) as nat, k);
    assert(fib_spec(k + 1) == fib_spec(k) + fib_spec((k - 1) as nat));
}

/// Returns whether `num` occurs among the Fibonacci numbers.
pub fn is_fibonacci_number(num: u64) -> (r: bool)
    ensures
        r == is_fib_spec(num as nat),
{
    let mut a: u128 = 0;
    let mut b: u128 = 1;
    let ghost mut k: nat = 0;
    assert(fib_spec(1) == 1);
    while a < num as u128
        invariant
            a == fib_spec(k),
            b == fib_spec(k + 1),
            1 <= b <= 2 * a + 1,
            forall|j: nat| j < k ==> #[trigger] fib_spec(j) < num,
        decreases 5 * num + 5 - (a + b),
    {
        proof {
            if k >= 1 {
                lemma_fib_next_at_most_double(k);
            }
            lemma_fib_next_at_most_double(k + 1);
            assert(fib_spec(k + 2) == fib_spec(k + 1) + fib_spec(k));
        }
        let c = a + b;
        a = b;
        b = c;
        proof {
            k = k + 1;
        }
    }
    proof {
        if a != num as u128 {
            assert forall|j: nat| #[trigger] fib_spec(j) != num as nat by {
                if j >= k {
                    lemma_fib_monotone(k, j);
                }
            }
        }
    }
    a == num as u128
}

/// Cassini's identity: F(n + 1) * F(n - 1) - F(n)^2 is -1 for odd n and 1 for
/// even n. So the neighbouring ratios F(n + 1) / F(n) and F(n) / F(n - 1) differ
/// by exactly 1 / (F(n) * F(n - 1)), which shrinks as n grows: the ratios close
/// in on one limit, the golden ratio.
pub proof fn lemma_cassini(n: nat)
    requires
        n >= 1,
    ensures
        fib_spec(n + 1) * fib_spec((n - 1) as nat) - fib_spec(n) * fib_spec(n) == (if n % 2 == 0 {
            1int
        } else {
            -1int
        }),
    decreases n,
{
    if n == 1 {
        assert(fib_spec(0) == 0);
        assert(fib_spec(1) == 1);
        assert(fib_spec(2) == 1);
        assert(fib_spec(2) * fib_spec(0) - fib_spec(1) * fib_spec(1) == -1);
    } else {
        let m = (n - 1) as nat;
        lemma_cassini(m);
        let a = fib_spec((m - 1) as nat) as int;
        let b = fib_spec(m) as int;
        let c = fib_spec(m + 1) as int;
        let d = fib_spec(n + 1) as int;
        assert(m + 1 == n);
        assert((n % 2 == 0) == (m % 2 != 0));
        assert(c * a - b * b == (if m % 2 == 0 {
            1int
        } else {
            -1int
        }));
        assert(c == b + a);
        assert(d == c + b);
        assert(d * b - c * c == -(c * a - b * b)) by (nonlinear_arith)
            requires
                c == b + a,
                d == c + b,
        ;
        assert(d * b - c * c == (if n % 2 == 0 {
            1int
        } else {
            -1int
        }));
        assert(b == fib_spec((n - 1) as nat));
        assert(c == fib_spec(n));
    }
}

} // verus!
