//! Length planning for the mixed-radix FFT: which sizes are 2/3/5-smooth, the next fast size,
//! and the radix factorisation (4 first, then 2, 3 and 5) that drives the butterflies.
use vstd::prelude::*;

verus! {

/// Largest mixed-radix length that fits the stack scratch buffer (`2 * n` floats).
pub const MIXED_RADIX_MAX: usize = 512;

/// `n` with every factor `p` divided out (`n` itself when `n == 0`).
pub open spec fn remove_factor(n: nat, p: nat) -> nat
    decreases n,
{
    if p >= 2 && n > 0 && n % p == 0 {
        proof {
            vstd::arithmetic::div_mod::lemma_div_is_strictly_smaller(n as int, p as int);
        }
        remove_factor(n / p, p)
    } else {
        n
    }
}

/// `n >= 2` factors completely into 2, 3 and 5.
pub open spec fn is_235_smooth(n: nat) -> bool {
    n >= 2 && remove_factor(remove_factor(remove_factor(n, 2), 3), 5) == 1
}

/// `n` is a power of two (`1` included).
pub open spec fn is_power_of_two(n: nat) -> bool {
    n >= 1 && remove_factor(n, 2) == 1
}

/// Divide every factor `p` out of `n`.
fn strip_factor(n: usize, p: usize) -> (r: usize)
    requires
        p >= 2,
    ensures
        r == remove_factor(n as nat, p as nat),
{
    let mut m = n;
    while m > 0 && m % p == 0
        invariant
            p >= 2,
            remove_factor(m as nat, p as nat) == remove_factor(n as nat, p as nat),
        decreases m,
    {
        proof {
            vstd::arithmetic::div_mod::lemma_div_is_strictly_smaller(m as int, p as int);
        }
        m = m / p;
    }
    m
}

/// True when `n` factors completely into 2, 3, and 5.
pub fn fft_is_235_smooth(n: usize) -> (r: bool)
    ensures
        r == is_235_smooth(n as nat),
{
    if n < 2 {
        return false;
    }
    let m = strip_factor(n, 2);
    let m = strip_factor(m, 3);
    let m = strip_factor(m, 5);
    m == 1
}

/// Smallest 2/3/4/5-smooth length `>= n` (and `>= 2`).
pub fn next_fast_fft_size(n: usize) -> (r: usize)
    requires
        exists|m: int| n <= m <= usize::MAX && #[trigger] is_235_smooth(m as nat),
    ensures
        r >= n,
        r >= 2,
        is_235_smooth(r as nat),
        forall|m: int| n <= m < r ==> !#[trigger] is_235_smooth(m as nat),
{
    let ghost w = choose|m: int| n <= m <= usize::MAX && #[trigger] is_235_smooth(m as nat);
    let mut k: usize = if n < 2 { 2 } else { n };
    assert(forall|m: int| n <= m < k ==> !#[trigger] is_235_smooth(m as nat));
    while !fft_is_235_smooth(k)
        invariant
            n <= w <= usize::MAX,
            is_235_smooth(w as nat),
            k >= 2,
            k >= n,
            k <= w,
            forall|m: int| n <= m < k ==> !#[trigger] is_235_smooth(m as nat),
        decreases w - k,
    {
        k = k + 1;
    }
    k
}

/// Lengths the complex FFT will transform: powers of two from 2, and 2/3/5-smooth lengths up
/// to [`MIXED_RADIX_MAX`].
pub fn cfft_f32_len_ok(n: usize) -> (r: bool)
    ensures
        r == (n >= 2 && (is_power_of_two(n as nat) || (n <= MIXED_RADIX_MAX && is_235_smooth(
            n as nat,
        )))),
{
    if n < 2 {
        return false;
    }
    if strip_factor(n, 2) == 1 {
        return true;
    }
    n <= MIXED_RADIX_MAX && fft_is_235_smooth(n)
}

// ─────────────────────────────────────────────────────────────────────────────
// Radix factorisation
// ─────────────────────────────────────────────────────────────────────────────
/// The first radix of 4, 2, 3, 5 (in that order) that divides `n`, or 0 when none does.
pub open spec fn kf_radix(n: nat) -> nat {
    if n % 4 == 0 {
        4
    } else if n % 2 == 0 {
        2
    } else if n % 3 == 0 {
        3
    } else if n % 5 == 0 {
        5
    } else {
        0
    }
}

/// Dividing out a radix makes `n` smaller.
pub proof fn lemma_radix_shrinks(n: nat)
    requires
        n > 1,
        kf_radix(n) != 0,
    ensures
        n / kf_radix(n) < n,
{
    vstd::arithmetic::div_mod::lemma_div_is_strictly_smaller(n as int, kf_radix(n) as int);
}

/// The radices taken off `n` one at a time, stopping at 1 or where no radix divides.
pub open spec fn kf_radices(n: nat) -> Seq<nat>
    decreases n,
{
    if n <= 1 || kf_radix(n) == 0 {
        seq![]
    } else {
        proof {
            lemma_radix_shrinks(n);
        }
        seq![kf_radix(n)] + kf_radices(n / kf_radix(n))
    }
}

/// What is left of `n` after each radix of [`kf_radices`] is divided out.
pub open spec fn kf_remainders(n: nat) -> Seq<nat>
    decreases n,
{
    if n <= 1 || kf_radix(n) == 0 {
        seq![]
    } else {
        proof {
            lemma_radix_shrinks(n);
        }
        seq![n / kf_radix(n)] + kf_remainders(n / kf_radix(n))
    }
}

/// The radices divide `n` down to 1 (every prime factor is 2, 3 or 5; 0 and 1 included).
pub open spec fn kf_complete(n: nat) -> bool
    decreases n,
{
    if n <= 1 {
        true
    } else if kf_radix(n) == 0 {
        false
    } else {
        proof {
            lemma_radix_shrinks(n);
        }
        kf_complete(n / kf_radix(n))
    }
}

/// The position of the trial radix `p` in the search order 4, 2, 3, 5, 7, 9, ...
spec fn radix_rank(p: nat) -> nat {
    if p == 4 {
        0
    } else if p == 2 {
        1
    } else if p == 3 {
        2
    } else if p == 5 {
        3
    } else {
        p
    }
}

/// No radix that comes before `p` in the search order divides `n`.
spec fn radices_before_excluded(n: nat, p: nat) -> bool {
    &&& (radix_rank(p) > 0 ==> n % 4 != 0)
    &&& (radix_rank(p) > 1 ==> n % 2 != 0)
    &&& (radix_rank(p) > 2 ==> n % 3 != 0)
    &&& (radix_rank(p) > 3 ==> n % 5 != 0)
}

/// Measure of the trial-radix search.
spec fn search_measure(n: nat, p: nat) -> nat {
    if p == 4 {
        n + 3
    } else if p == 2 {
        n + 2
    } else if p > n {
        n + 1
    } else {
        (n - p + 1) as nat
    }
}

proof fn lemma_sqrt_compare(p: usize, n: usize)
    requires
        p > 0,
    ensures
        (p > n / p) == (p * p > n),
{
    let q = n / p;
    let r = n % p;
    vstd::arithmetic::div_mod::lemma_fundamental_div_mod(n as int, p as int);
    assert(n == p * q + r);
    assert(0 <= r < p);
    if p > q {
        assert(p * p >= p * (q + 1)) by (nonlinear_arith)
            requires
                p > q,
                p > 0,
        ;
        assert(p * (q + 1) == p * q + p) by (nonlinear_arith);
    } else {
        assert(p * p <= p * q) by (nonlinear_arith)
            requires
                p <= q,
                p > 0,
        ;
    }
}

proof fn lemma_div_shrinks(n: nat, p: nat)
    requires
        n > 1,
        p >= 2,
    ensures
        n / p < n,
{
    vstd::arithmetic::div_mod::lemma_div_is_strictly_smaller(n as int, p as int);
}

proof fn lemma_excluded_after_divide(n: nat, p: nat, q: nat)
    requires
        radices_before_excluded(n, p),
        q >= 1,
        n % q == 0,
    ensures
        radices_before_excluded(n / q, p),
{
    let m = n / q;
    vstd::arithmetic::div_mod::lemma_fundamental_div_mod(n as int, q as int);
    assert(n == q * m);
    if m % 4 == 0 {
        vstd::arithmetic::div_mod::lemma_mod_mod(n as int, 4, q as int);
        vstd::arithmetic::div_mod::lemma_mul_mod_noop_right(q as int, m as int, 4);
        assert((q * m) % 4 == (q * (m % 4)) % 4);
    }
    if m % 2 == 0 {
        vstd::arithmetic::div_mod::lemma_mul_mod_noop_right(q as int, m as int, 2);
    }
    if m % 3 == 0 {
        vstd::arithmetic::div_mod::lemma_mul_mod_noop_right(q as int, m as int, 3);
    }
    if m % 5 == 0 {
        vstd::arithmetic::div_mod::lemma_mul_mod_noop_right(q as int, m as int, 5);
    }
}

/// The number of `usize` slots needed to hold the radix factorisation of `n`.
pub open spec fn kf_slots(n: nat) -> nat {
    2 * kf_radices(n).len()
}

/// Factor `n` into radices for the mixed-radix FFT: 4 while it divides, then 2, 3 and 5.
///
/// Step `j` writes the radix to `fac[2j]` and what remains of `n` to `fac[2j + 1]`. Returns
/// the number of slots written, or `None` when a prime factor above 5 remains or `fac` is too
/// short (the steps that did fit are written either way).
pub fn kf_factor(n: usize, fac: &mut [usize]) -> (r: Option<usize>)
    ensures
        final(fac)@.len() == old(fac)@.len(),
        forall|k: int|
            0 <= k < old(fac)@.len() ==> #[trigger] final(fac)@[k] == (if k / 2 < kf_radices(
                n as nat,
            ).len() && 2 * (k / 2) + 1 < old(fac)@.len() {
                if k % 2 == 0 {
                    kf_radices(n as nat)[k / 2] as int
                } else {
                    kf_remainders(n as nat)[k / 2] as int
                }
            } else {
                old(fac)@[k] as int
            }),
        r == (if kf_complete(n as nat) && kf_slots(n as nat) <= old(fac)@.len() {
            Some(kf_slots(n as nat) as usize)
        } else {
            None::<usize>
        }),
{
    let ghost n0 = n as nat;
    let ghost fac0 = fac@;
    let ghost len = fac@.len();
    let ghost mut done_r: Seq<nat> = seq![];
    let ghost mut done_m: Seq<nat> = seq![];
    let mut m = n;
    let mut i: usize = 0;
    let mut p: usize = 4;
    while m > 1
        invariant
            fac@.len() == len,
            len == fac0.len(),
            fac0 == old(fac)@,
            n0 == n,
            i == 2 * done_r.len(),
            done_r.len() == done_m.len(),
            i <= len,
            kf_radices(n0) == done_r + kf_radices(m as nat),
            kf_remainders(n0) == done_m + kf_remainders(m as nat),
            kf_complete(n0) == kf_complete(m as nat),
            p == 2 || p == 3 || p == 4 || p == 5,
            radices_before_excluded(m as nat, p as nat),
            forall|k: int|
                0 <= k < len ==> #[trigger] fac@[k] == (if k / 2 < done_r.len() {
                    if k % 2 == 0 {
                        done_r[k / 2] as int
                    } else {
                        done_m[k / 2] as int
                    }
                } else {
                    fac0[k] as int
                }),
        ensures
            m <= 1,
            kf_radices(n0) == done_r,
            kf_remainders(n0) == done_m,
            kf_complete(n0),
            i == 2 * done_r.len(),
            i <= len,
            fac@.len() == len,
            forall|k: int|
                0 <= k < len ==> #[trigger] fac@[k] == (if k / 2 < done_r.len() {
                    if k % 2 == 0 {
                        done_r[k / 2] as int
                    } else {
                        done_m[k / 2] as int
                    }
                } else {
                    fac0[k] as int
                }),
        decreases m,
    {
        while m % p != 0
            invariant
                m > 1,
                p >= 2,
                p <= 5 || p == m || p * p <= m,
                p % 2 == 1 || p == 2 || p == 4,
                radices_before_excluded(m as nat, p as nat),
            decreases search_measure(m as nat, p as nat),
        {
            let q: usize = if p == 4 {
                2
            } else if p == 2 {
                3
            } else {
                proof {
                    if p > 5 {
                        if p == m {
                            vstd::arithmetic::div_mod::lemma_mod_self_0(m as int);
                        }
                        assert(p * p <= m);
                        assert(p <= m / p) by {
                            lemma_sqrt_compare(p, m);
                        }
                        vstd::arithmetic::div_mod::lemma_div_is_ordered_by_denominator(
                            m as int,
                            2,
                            p as int,
                        );
                    }
                }
                p + 2
            };
            proof {
                lemma_sqrt_compare(q, m);
            }
            let ghost old_p = p;
            if q > m / q {
                p = m;
                proof {
                    assert(q * q > m);
                    if old_p == 4 {
                        assert(m < 4);
                    } else if old_p == 2 {
                        assert(m < 9);
                    } else if old_p == 3 {
                        assert(q == 5);
                        assert(q * q == 25) by (nonlinear_arith)
                            requires
                                q == 5,
                        ;
                        assert(m < 25);
                    }
                    assert(radices_before_excluded(m as nat, p as nat));
                }
            } else {
                p = q;
            }
        }
        let ghost m_old = m;
        proof {
            assert(radix_rank(p as nat) <= 3 ==> p == kf_radix(m as nat));
            if radix_rank(p as nat) > 3 {
                assert(kf_radix(m as nat) == 0);
            }
        }
        if p > 5 {
            proof {
                assert(!kf_complete(m as nat));
                assert(kf_radices(m as nat) =~= seq![]);
                assert(done_r + kf_radices(m as nat) =~= done_r);
            }
            return None;
        }
        m = m / p;
        proof {
            lemma_div_shrinks(m_old as nat, p as nat);
            lemma_excluded_after_divide(m_old as nat, p as nat, p as nat);
        }
        if fac.len() - i <= 1 {
            proof {
                assert(kf_radices(m_old as nat) == seq![p as nat] + kf_radices(m as nat));
                assert(kf_radices(n0).len() > done_r.len());
            }
            return None;
        }
        fac[i] = p;
        fac[i + 1] = m;
        proof {
            assert(kf_radices(m_old as nat) == seq![p as nat] + kf_radices(m as nat));
            assert(kf_remainders(m_old as nat) == seq![m as nat] + kf_remainders(m as nat));
            assert(done_r + kf_radices(m_old as nat) =~= done_r.push(p as nat) + kf_radices(
                m as nat,
            ));
            assert(done_m + kf_remainders(m_old as nat) =~= done_m.push(m as nat)
                + kf_remainders(m as nat));
            done_r = done_r.push(p as nat);
            done_m = done_m.push(m as nat);
        }
        i = i + 2;
    }
    proof {
        assert(kf_radices(n0).len() == done_r.len());
    }
    Some(i)
}


// ─────────────────────────────────────────────────────────────────────────────
// Factorisation law
// ─────────────────────────────────────────────────────────────────────────────
/// What is left of `n` once every factor 2, 3 and 5 is divided out.
pub open spec fn smooth_core(n: nat) -> nat {
    remove_factor(remove_factor(remove_factor(n, 2), 3), 5)
}

/// The product of a sequence of radices.
pub open spec fn radix_product(s: Seq<nat>) -> nat
    decreases s.len(),
{
    if s.len() == 0 {
        1
    } else {
        s[0] * radix_product(s.drop_first())
    }
}

proof fn lemma_remove_factor_positive(n: nat, p: nat)
    requires
        n > 0,
        p >= 2,
    ensures
        remove_factor(n, p) > 0,
    decreases n,
{
    if n % p == 0 {
        vstd::arithmetic::div_mod::lemma_div_is_strictly_smaller(n as int, p as int);
        vstd::arithmetic::div_mod::lemma_fundamental_div_mod(n as int, p as int);
        lemma_remove_factor_positive(n / p, p);
    }
}

/// Two distinct primes of 2, 3, 5: dividing by one keeps or loses divisibility by the other
/// exactly as `n` does, and the two divisions commute.
proof fn lemma_coprime_division(n: nat, p: nat, q: nat)
    requires
        n > 0,
        p == 2 || p == 3 || p == 5,
        q == 2 || q == 3 || q == 5,
        p != q,
        n % q == 0,
    ensures
        (n / q) % p == 0 <==> n % p == 0,
        n % p == 0 ==> (n / p) % q == 0 && (n / q) / p == (n / p) / q,
        n / q > 0,
{
    let m = n / q;
    vstd::arithmetic::div_mod::lemma_fundamental_div_mod(n as int, q as int);
    assert(n == q * m);
    if p == 2 && q == 3 {
        assert(n == 3 * m);
    } else if p == 2 && q == 5 {
        assert(n == 5 * m);
    } else if p == 3 && q == 2 {
        assert(n == 2 * m);
    } else if p == 3 && q == 5 {
        assert(n == 5 * m);
    } else if p == 5 && q == 2 {
        assert(n == 2 * m);
    } else {
        assert(n == 3 * m);
    }
}

/// Removing the factors `p` commutes with dividing by another prime `q` of 2, 3, 5.
proof fn lemma_remove_factor_coprime(n: nat, p: nat, q: nat)
    requires
        n > 0,
        p == 2 || p == 3 || p == 5,
        q == 2 || q == 3 || q == 5,
        p != q,
        n % q == 0,
    ensures
        remove_factor(n, p) % q == 0,
        remove_factor(n / q, p) == remove_factor(n, p) / q,
    decreases n,
{
    lemma_coprime_division(n, p, q);
    if n % p == 0 {
        let m = n / p;
        vstd::arithmetic::div_mod::lemma_div_is_strictly_smaller(n as int, p as int);
        vstd::arithmetic::div_mod::lemma_fundamental_div_mod(n as int, p as int);
        assert(m > 0);
        lemma_remove_factor_coprime(m, p, q);
        assert((n / q) / p == m / q);
    }
}

/// Dividing `n` by a radix leaves its smooth core unchanged.
proof fn lemma_core_divide(n: nat, q: nat)
    requires
        n > 0,
        q == 2 || q == 3 || q == 5,
        n % q == 0,
    ensures
        smooth_core(n / q) == smooth_core(n),
{
    if q == 3 {
        let a = remove_factor(n, 2);
        lemma_remove_factor_coprime(n, 2, 3);
        lemma_remove_factor_positive(n, 2);
        assert(remove_factor(a, 3) == remove_factor(a / 3, 3));
    } else if q == 5 {
        let a = remove_factor(n, 2);
        lemma_remove_factor_coprime(n, 2, 5);
        lemma_remove_factor_positive(n, 2);
        let b = remove_factor(a, 3);
        lemma_remove_factor_coprime(a, 3, 5);
        lemma_remove_factor_positive(a, 3);
        assert(remove_factor(b, 5) == remove_factor(b / 5, 5));
    }
}

/// Dividing `n` by its radix leaves the smooth core unchanged.
proof fn lemma_core_divide_radix(n: nat)
    requires
        n > 1,
        kf_radix(n) != 0,
    ensures
        smooth_core(n / kf_radix(n)) == smooth_core(n),
{
    let p = kf_radix(n);
    if p == 4 {
        let h = n / 2;
        assert(n == 2 * h);
        lemma_core_divide(n, 2);
        lemma_core_divide(h, 2);
        assert(h / 2 == n / 4);
    } else {
        lemma_core_divide(n, p);
    }
}

#[verifier::spinoff_prover]
proof fn lemma_kf_complete_is_core_one(n: nat)
    requires
        n >= 1,
    ensures
        kf_complete(n) == (smooth_core(n) == 1),
        kf_complete(n) ==> radix_product(kf_radices(n)) == n,
    decreases n,
{
    if n == 1 {
        assert(kf_radices(n) =~= seq![]);
    } else if kf_radix(n) == 0 {
        assert(smooth_core(n) == n);
    } else {
        let p = kf_radix(n);
        let m = n / p;
        lemma_radix_shrinks(n);
        assert(n == p * m) by {
            vstd::arithmetic::div_mod::lemma_fundamental_div_mod(n as int, p as int);
        }
        lemma_core_divide_radix(n);
        lemma_kf_complete_is_core_one(m);
        let s = kf_radices(n);
        assert(s[0] == p);
        assert(s.drop_first() =~= kf_radices(m));
    }
}

/// A length of at least 2 is factored completely into radices of 4, 2, 3 and 5 exactly when it
/// is 2/3/5-smooth, and the radices then multiply back to the length.
pub proof fn lemma_radices_cover_smooth_lengths(n: nat)
    requires
        n >= 2,
    ensures
        kf_complete(n) == is_235_smooth(n),
        kf_complete(n) ==> radix_product(kf_radices(n)) == n,
{
    lemma_kf_complete_is_core_one(n);
}

} // verus!
