//! Elementary number theory: congruences, coprimality, primes and primality
//! certificates. Everything here is ghost code.
use vstd::arithmetic::div_mod::*;
use vstd::arithmetic::mul::*;
use vstd::arithmetic::power::*;
use vstd::prelude::*;
use vstd::set_lib::*;

verus! {

/// `d` divides `n`.
pub open spec fn divides(d: int, n: int) -> bool {
    n % d == 0
}

/// `n` is a prime number.
pub open spec fn is_prime(n: int) -> bool {
    n > 1 && forall|d: int| 1 < d < n ==> !divides(d, n)
}

/// `b` is the multiplicative inverse of `a` among the residues of `m`.
pub open spec fn is_inverse(a: int, b: int, m: int) -> bool {
    0 <= b < m && (a * b) % m == 1
}

/// The multiplicative inverse of `a` modulo `m`, where there is one.
pub open spec fn inverse_of(a: int, m: int) -> int {
    choose|b: int| is_inverse(a, b, m)
}

// ---------------------------------------------------------------------------
// Congruences
// ---------------------------------------------------------------------------

/// Congruent numbers differ by a multiple of the modulus.
pub proof fn cong_quotient(a: int, b: int, m: int) -> (k: int)
    requires
        m > 0,
        a % m == b % m,
    ensures
        a == b + m * k,
{
    lemma_fundamental_div_mod(a, m);
    lemma_fundamental_div_mod(b, m);
    let k = a / m - b / m;
    lemma_mul_is_distributive_sub(m, a / m, b / m);
    k
}

/// Numbers that differ by a multiple of the modulus are congruent.
pub proof fn cong_intro(a: int, b: int, k: int, m: int)
    requires
        m > 0,
        a == b + m * k,
    ensures
        a % m == b % m,
{
    lemma_mod_multiples_vanish(k, b, m);
}

pub proof fn cong_add(a: int, b: int, c: int, d: int, m: int)
    requires
        m > 0,
        a % m == b % m,
        c % m == d % m,
    ensures
        (a + c) % m == (b + d) % m,
{
    lemma_add_mod_noop(a, c, m);
    lemma_add_mod_noop(b, d, m);
}

pub proof fn cong_sub(a: int, b: int, c: int, d: int, m: int)
    requires
        m > 0,
        a % m == b % m,
        c % m == d % m,
    ensures
        (a - c) % m == (b - d) % m,
{
    lemma_sub_mod_noop(a, c, m);
    lemma_sub_mod_noop(b, d, m);
}

pub proof fn cong_mul(a: int, b: int, c: int, d: int, m: int)
    requires
        m > 0,
        a % m == b % m,
        c % m == d % m,
    ensures
        (a * c) % m == (b * d) % m,
{
    lemma_mul_mod_noop(a, c, m);
    lemma_mul_mod_noop(b, d, m);
}

pub proof fn cong_pow(a: int, b: int, e: nat, m: int)
    requires
        m > 0,
        a % m == b % m,
    ensures
        pow(a, e) % m == pow(b, e) % m,
{
    lemma_pow_mod_noop(a, e, m);
    lemma_pow_mod_noop(b, e, m);
}

/// Reducing does not change the residue class.
pub proof fn mod_idem(a: int, m: int)
    requires
        m > 0,
    ensures
        (a % m) % m == a % m,
        0 <= a % m < m,
{
    lemma_mod_twice(a, m);
    lemma_mod_bound(a, m);
}

/// Residues are their own remainders.
pub proof fn mod_small(a: int, m: int)
    requires
        0 <= a < m,
    ensures
        a % m == a,
{
    lemma_small_mod(a as nat, m as nat);
}

/// A congruence passes to every divisor of the modulus.
pub proof fn cong_descends(a: int, b: int, n: int, q: int)
    requires
        n > 0,
        q > 0,
        divides(q, n),
        a % n == b % n,
    ensures
        a % q == b % q,
{
    let k = cong_quotient(a, b, n);
    lemma_fundamental_div_mod(n, q);
    let s = n / q;
    assert(n * k == q * (s * k)) by (nonlinear_arith)
        requires
            n == q * s,
    ;
    cong_intro(a, b, s * k, q);
}

// ---------------------------------------------------------------------------
// Coprimality and primes
// ---------------------------------------------------------------------------

/// A common divisor of `a` and `b` written as a combination of the two.
pub proof fn bezout(a: int, b: int) -> (r: (int, int, int))
    requires
        a >= 0,
        b >= 0,
        a + b > 0,
    ensures
        r.0 > 0,
        r.0 == a * r.1 + b * r.2,
        divides(r.0, a),
        divides(r.0, b),
    decreases b,
{
    if b == 0 {
        lemma_mod_self_0(a);
        (a, 1, 0)
    } else {
        lemma_fundamental_div_mod(a, b);
        lemma_mod_bound(a, b);
        let (g, x, y) = bezout(b, a % b);
        let t = a / b;
        let rest = a % b;
        lemma_fundamental_div_mod(b, g);
        lemma_fundamental_div_mod(rest, g);
        let u = b / g;
        let v = rest / g;
        assert(a == g * (u * t + v)) by (nonlinear_arith)
            requires
                a == b * t + rest,
                b == g * u,
                rest == g * v,
        ;
        lemma_mod_multiples_basic(u * t + v, g);
        lemma_mul_is_commutative(g, u * t + v);
        assert(g == a * y + b * (x - t * y)) by (nonlinear_arith)
            requires
                g == b * x + rest * y,
                a == b * t + rest,
        ;
        (g, y, x - t * y)
    }
}

/// A number that a prime does not divide has an inverse modulo the prime.
pub proof fn prime_has_inverse(a: int, p: int) -> (b: int)
    requires
        is_prime(p),
        a % p != 0,
    ensures
        is_inverse(a, b, p),
        is_inverse(a, inverse_of(a, p), p),
{
    lemma_mod_bound(a, p);
    let res = a % p;
    let (g, x, y) = bezout(res, p);
    lemma_fundamental_div_mod(res, g);
    lemma_fundamental_div_mod(p, g);
    if g > 1 {
        if g < p {
            assert(!divides(g, p));
        }
        if g >= p {
            let s = res / g;
            assert(s >= 1) by (nonlinear_arith)
                requires
                    g * s == res,
                    g > 0,
                    res > 0,
            ;
            assert(g * s >= g) by (nonlinear_arith)
                requires
                    s >= 1,
                    g > 0,
            ;
        }
        assert(false);
    }
    let b = x % p;
    mod_idem(x, p);
    mod_idem(a, p);
    cong_mul(a, res, b, x, p);
    cong_intro(1, res * x, y, p);
    mod_small(1, p);
    b
}

/// A prime that divides a product divides one of the factors.
pub proof fn euclid(a: int, b: int, p: int)
    requires
        is_prime(p),
        (a * b) % p == 0,
    ensures
        a % p == 0 || b % p == 0,
{
    if a % p != 0 {
        let i = prime_has_inverse(a, p);
        mod_small(0, p);
        mod_small(1, p);
        cong_mul(a * b, 0, i, i, p);
        cong_mul(a * i, 1, b, b, p);
        assert((a * i) * b == (a * b) * i) by (nonlinear_arith);
    }
}

/// Inverses are unique.
pub proof fn inverse_unique(a: int, b: int, c: int, m: int)
    requires
        m > 1,
        is_inverse(a, b, m),
        is_inverse(a, c, m),
    ensures
        b == c,
{
    mod_small(1, m);
    cong_mul(a * b, 1, c, c, m);
    cong_mul(a * c, 1, b, b, m);
    assert((a * b) * c == (a * c) * b) by (nonlinear_arith);
    mod_small(b, m);
    mod_small(c, m);
}

/// A factor that is not a multiple of the prime modulus cancels.
pub proof fn cancel(a: int, b: int, c: int, p: int)
    requires
        is_prime(p),
        c % p != 0,
        (a * c) % p == (b * c) % p,
    ensures
        a % p == b % p,
{
    lemma_mod_equivalence(a * c, b * c, p);
    assert(a * c - b * c == (a - b) * c) by (nonlinear_arith);
    euclid(a - b, c, p);
    lemma_mod_equivalence(a, b, p);
}

// ---------------------------------------------------------------------------
// Primality certificates
// ---------------------------------------------------------------------------

/// Trial division up to the square root.
pub proof fn prime_by_trial(n: int, b: int)
    requires
        n > 1,
        b > 0,
        b * b > n,
        forall|d: int| 2 <= d < b ==> !divides(d, n),
    ensures
        is_prime(n),
{
    assert forall|d: int| 1 < d < n implies !divides(d, n) by {
        if divides(d, n) {
            lemma_fundamental_div_mod(n, d);
            let s = n / d;
            assert(1 < s) by (nonlinear_arith)
                requires
                    d * s == n,
                    1 < d < n,
            ;
            lemma_mod_multiples_basic(d, s);
            assert(divides(s, n));
            if d >= b && s >= b {
                assert(d * s >= b * b) by (nonlinear_arith)
                    requires
                        d >= b,
                        s >= b,
                        b > 0,
                ;
            }
        }
    }
}

/// An element of prime order `p` has exponents of one only at multiples of `p`.
proof fn order_divides(u: int, i: int, p: int, k: nat, q: int)
    requires
        q > 1,
        is_prime(p),
        pow(u, p as nat) % q == 1,
        ((u - 1) * i) % q == 1,
        pow(u, k) % q == 1,
    ensures
        divides(p, k as int),
{
    if !divides(p, k as int) {
        let s = prime_has_inverse(k as int, p);
        lemma_fundamental_div_mod(k * s, p);
        let t = (k * s) / p;
        lemma_mul_nonnegative(k as int, s);
        lemma_div_pos_is_pos(k * s, p);
        mod_small(1, q);
        mod_small(0, q);
        lemma_pow_multiplies(u, k, s as nat);
        cong_pow(pow(u, k), 1, s as nat, q);
        lemma1_pow(s as nat);
        lemma_pow_multiplies(u, p as nat, t as nat);
        cong_pow(pow(u, p as nat), 1, t as nat, q);
        lemma1_pow(t as nat);
        lemma_mul_nonnegative(p, t);
        lemma_pow_adds(u, (p * t) as nat, 1);
        lemma_pow1(u);
        cong_mul(pow(u, (p * t) as nat), 1, u, u, q);
        assert(u % q == 1int % q);
        cong_sub(u, 1, 1, 1, q);
        cong_mul(u - 1, 0, i, i, q);
    }
}

/// Distinct powers modulo `q` are at most `q` many.
proof fn powers_fit(c: int, n: int, q: int)
    requires
        q > 1,
        n > 0,
        pow(c, n as nat) % q == 1,
        forall|k: int| 0 < k < n ==> #[trigger] pow(c, k as nat) % q != 1,
    ensures
        n <= q,
{
    let s = Seq::new(n as nat, |i: int| pow(c, i as nat) % q);
    assert forall|i: int, j: int| 0 <= i < j < n implies s[i] != s[j] by {
        if s[i] == s[j] {
            let e = (n - i) as nat;
            cong_mul(pow(c, i as nat), pow(c, j as nat), pow(c, e), pow(c, e), q);
            lemma_pow_adds(c, i as nat, e);
            lemma_pow_adds(c, j as nat, e);
            lemma_pow_adds(c, n as nat, (j - i) as nat);
            mod_small(1, q);
            cong_mul(
                pow(c, n as nat),
                1,
                pow(c, (j - i) as nat),
                pow(c, (j - i) as nat),
                q,
            );
            assert(pow(c, (j - i) as nat) % q == 1);
        }
    }
    assert(s.no_duplicates());
    s.unique_seq_to_set();
    lemma_int_range(0, q);
    assert forall|x: int| #[trigger] s.to_set().contains(x) implies set_int_range(0, q).contains(
        x,
    ) by {
        let i = choose|i: int| 0 <= i < s.len() && s[i] == x;
        lemma_mod_bound(pow(c, i as nat), q);
    }
    lemma_len_subset(s.to_set(), set_int_range(0, q));
}

/// Every divisor of `n` other than one is at least `b`, and `b` is beyond the
/// square root: `n` is prime.
proof fn prime_by_large_divisors(n: int, b: int)
    requires
        n > 1,
        b > 0,
        b * b > n,
        forall|q: int| 1 < q && #[trigger] divides(q, n) ==> q >= b,
    ensures
        is_prime(n),
{
    assert forall|d: int| 1 < d < n implies !divides(d, n) by {
        if divides(d, n) {
            lemma_fundamental_div_mod(n, d);
            let s = n / d;
            assert(1 < s) by (nonlinear_arith)
                requires
                    d * s == n,
                    1 < d < n,
            ;
            lemma_mod_multiples_basic(d, s);
            assert(divides(s, n));
            assert(d * s >= b * b) by (nonlinear_arith)
                requires
                    d >= b,
                    s >= b,
                    b > 0,
            ;
        }
    }
}

/// What the certificates know modulo `n` holds modulo a divisor as well.
proof fn certificate_descends(u: int, i: int, p: int, n: int, q: int)
    requires
        1 < q,
        n > 1,
        divides(q, n),
        p > 0,
        pow(u, p as nat) % n == 1,
        ((u - 1) * i) % n == 1,
    ensures
        pow(u, p as nat) % q == 1,
        ((u - 1) * i) % q == 1,
{
    mod_small(1, n);
    mod_small(1, q);
    cong_descends(pow(u, p as nat), 1, n, q);
    cong_descends((u - 1) * i, 1, n, q);
}

/// Pocklington's criterion with one prime beyond the square root: an element
/// `u` of order `p`, with `i` the inverse of `u - 1`, makes `n` prime.
pub proof fn prime_by_order(n: int, p: int, u: int, i: int)
    requires
        n > 1,
        is_prime(p),
        p * p > n,
        pow(u, p as nat) % n == 1,
        ((u - 1) * i) % n == 1,
    ensures
        is_prime(n),
{
    assert forall|q: int| 1 < q && #[trigger] divides(q, n) implies q >= p by {
        certificate_descends(u, i, p, n, q);
        assert forall|k: int| 0 < k < p implies #[trigger] pow(u, k as nat) % q != 1 by {
            if pow(u, k as nat) % q == 1 {
                order_divides(u, i, p, k as nat, q);
                mod_small(k, p);
            }
        }
        powers_fit(u, p, q);
    }
    prime_by_large_divisors(n, p);
}

/// Pocklington's criterion with two primes whose product is beyond the square
/// root: elements `u` and `w` of orders `p` and `r`, with `i` and `j` the
/// inverses of `u - 1` and `w - 1`, make `n` prime.
pub proof fn prime_by_two_orders(n: int, p: int, r: int, u: int, i: int, w: int, j: int)
    requires
        n > 1,
        is_prime(p),
        is_prime(r),
        p != r,
        (p * r) * (p * r) > n,
        pow(u, p as nat) % n == 1,
        ((u - 1) * i) % n == 1,
        pow(w, r as nat) % n == 1,
        ((w - 1) * j) % n == 1,
    ensures
        is_prime(n),
{
    let c = u * w;
    let b = p * r;
    assert(b > 0) by (nonlinear_arith)
        requires
            b == p * r,
            p > 0,
            r > 0,
    ;
    assert forall|q: int| 1 < q && #[trigger] divides(q, n) implies q >= b by {
        certificate_descends(u, i, p, n, q);
        certificate_descends(w, j, r, n, q);
        mod_small(1, q);
        // the product has the product of the orders for an exponent
        lemma_mul_is_commutative(p, r);
        lemma_pow_distributes(u, w, b as nat);
        lemma_pow_multiplies(u, p as nat, r as nat);
        lemma_pow_multiplies(w, r as nat, p as nat);
        cong_pow(pow(u, p as nat), 1, r as nat, q);
        cong_pow(pow(w, r as nat), 1, p as nat, q);
        lemma1_pow(r as nat);
        lemma1_pow(p as nat);
        cong_mul(pow(u, b as nat), 1, pow(w, b as nat), 1, q);
        assert forall|k: int| 0 < k < b implies #[trigger] pow(c, k as nat) % q != 1 by {
            if pow(c, k as nat) % q == 1 {
                factor_order(u, i, p, w, r, k as nat, q);
                lemma_mul_is_commutative(u, w);
                factor_order(w, j, r, u, p, k as nat, q);
                coprime_divisors(p, r, k);
                mod_small(k, b);
            }
        }
        powers_fit(c, b, q);
    }
    prime_by_large_divisors(n, b);
}

/// If `(u * w)` to the `k` is one and `w` has order `r`, then the order `p` of
/// `u` divides `k`.
proof fn factor_order(u: int, i: int, p: int, w: int, r: int, k: nat, q: int)
    requires
        q > 1,
        is_prime(p),
        is_prime(r),
        p != r,
        pow(u, p as nat) % q == 1,
        ((u - 1) * i) % q == 1,
        pow(w, r as nat) % q == 1,
        pow(u * w, k) % q == 1,
    ensures
        divides(p, k as int),
{
    mod_small(1, q);
    let e = (k * r) as nat;
    lemma_mul_nonnegative(k as int, r);
    lemma_pow_multiplies(u * w, k, r as nat);
    cong_pow(pow(u * w, k), 1, r as nat, q);
    lemma1_pow(r as nat);
    lemma_pow_distributes(u, w, e);
    lemma_mul_is_commutative(k as int, r);
    lemma_pow_multiplies(w, r as nat, k);
    cong_pow(pow(w, r as nat), 1, k, q);
    lemma1_pow(k);
    cong_mul(pow(u, e), pow(u, e), pow(w, e), 1, q);
    assert(pow(u, e) % q == 1);
    order_divides(u, i, p, e, q);
    euclid(k as int, r, p);
    if divides(p, r) {
        distinct_primes(p, r);
    }
}

/// Distinct primes do not divide each other.
proof fn distinct_primes(p: int, r: int)
    requires
        is_prime(p),
        is_prime(r),
        divides(p, r),
    ensures
        p == r,
{
    if p > r {
        mod_small(r, p);
    } else if p < r {
        assert(!divides(p, r));
    }
}

/// Two distinct primes that divide a number divide it jointly.
proof fn coprime_divisors(p: int, r: int, k: int)
    requires
        is_prime(p),
        is_prime(r),
        p != r,
        divides(p, k),
        divides(r, k),
    ensures
        divides(p * r, k),
{
    lemma_fundamental_div_mod(k, p);
    let a = k / p;
    euclid(p, a, r);
    if divides(r, p) {
        distinct_primes(r, p);
    }
    lemma_fundamental_div_mod(a, r);
    let b = a / r;
    assert(k == b * (p * r)) by (nonlinear_arith)
        requires
            k == p * a,
            a == r * b,
    ;
    assert(p * r > 0) by (nonlinear_arith)
        requires
            p > 0,
            r > 0,
    ;
    lemma_mod_multiples_basic(b, p * r);
}

} // verus!
