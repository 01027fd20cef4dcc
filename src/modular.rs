use vstd::arithmetic::div_mod::{
    lemma_add_mod_noop, lemma_mod_bound, lemma_mod_multiples_vanish, lemma_mul_mod_noop_left,
    lemma_mul_mod_noop_right,
};
use vstd::prelude::*;

verus! {

/// The order of the Ristretto group and of its scalar field, `2^252 + 2774...8493`.
pub open spec fn group_order() -> int {
    (21267647932558653966460912964485513216 * 18446744073709551616 * 18446744073709551616
        + 27742317777372353535851937790883648493) as int
}

/// Two integers that differ by a multiple of the group order leave the same remainder.
pub proof fn lemma_congruent(a: int, b: int, q: int)
    requires
        a == b + group_order() * q,
    ensures
        a % group_order() == b % group_order(),
{
    lemma_mod_multiples_vanish(q, b, group_order());
}

/// Reducing before an addition does not change the result modulo the group order.
pub proof fn lemma_sum_mod(a: int, b: int)
    ensures
        ((a % group_order()) + (b % group_order())) % group_order() == (a + b) % group_order(),
{
    lemma_add_mod_noop(a, b, group_order());
}

/// Adding `p` times the negation of `c` subtracts `p c`.
pub proof fn lemma_negated_term(x: int, p: int, c: int)
    ensures
        (x + p * ((0 - c) % group_order())) % group_order() == (x - p * c) % group_order(),
{
    let l = group_order();
    vstd::arithmetic::div_mod::lemma_mul_mod_noop_right(p, 0 - c, l);
    lemma_add_mod_noop(x, p * ((0 - c) % l), l);
    lemma_add_mod_noop(x, p * (0 - c), l);
    assert(p * (0 - c) == 0 - p * c) by (nonlinear_arith);
}

/// Reducing a factor does not change a product modulo the group order.
pub proof fn lemma_product_mod(a: int, b: int)
    ensures
        ((a % group_order()) * (b % group_order())) % group_order() == (a * b) % group_order(),
{
    lemma_mul_mod_noop_left(a, b % group_order(), group_order());
    lemma_mul_mod_noop_right(a, b, group_order());
}

/// A remainder modulo the group order lies in `[0, L)`.
pub proof fn lemma_reduced(a: int)
    ensures
        0 <= a % group_order() < group_order(),
{
    lemma_mod_bound(a, group_order());
}

/// A value already in `[0, L)` is its own remainder.
pub proof fn lemma_small(a: int)
    requires
        0 <= a < group_order(),
    ensures
        a % group_order() == a,
{
    vstd::arithmetic::div_mod::lemma_small_mod(a as nat, group_order() as nat);
}

proof fn identity_rebuilt_nonce(
    m: int,
    h0: int,
    h1: int,
    r: int,
    k: int,
    r_t: int,
    k_t: int,
    c: int,
    r_z: int,
    k_z: int,
    kr: int,
    q1: int,
    q2: int,
    q3: int,
)
    requires
        r_t + r * c == m * q1 + r_z,
        k_t + k * c == m * q2 + k_z,
        h0 * r + h1 * k == m * q3 + kr,
    ensures
        h0 * r_z + h1 * k_z - kr * c == (h0 * r_t + h1 * k_t) + m * (q3 * c - h0 * q1 - h1 * q2),
{
    assert(h0 * r_z == h0 * (r_t + r * c - m * q1)) by (nonlinear_arith)
        requires
            r_z == r_t + r * c - m * q1,
    ;
    assert(h1 * k_z == h1 * (k_t + k * c - m * q2)) by (nonlinear_arith)
        requires
            k_z == k_t + k * c - m * q2,
    ;
    assert(kr * c == (h0 * r + h1 * k - m * q3) * c) by (nonlinear_arith)
        requires
            kr == h0 * r + h1 * k - m * q3,
    ;
    assert(h0 * (r_t + r * c - m * q1) == h0 * r_t + h0 * (r * c) - h0 * (m * q1))
        by (nonlinear_arith);
    assert(h1 * (k_t + k * c - m * q2) == h1 * k_t + h1 * (k * c) - h1 * (m * q2))
        by (nonlinear_arith);
    assert((h0 * r + h1 * k - m * q3) * c == (h0 * r) * c + (h1 * k) * c - (m * q3) * c)
        by (nonlinear_arith);
    assert(h0 * (r * c) == (h0 * r) * c) by (nonlinear_arith);
    assert(h1 * (k * c) == (h1 * k) * c) by (nonlinear_arith);
    assert(h0 * (m * q1) == m * (h0 * q1)) by (nonlinear_arith);
    assert(h1 * (m * q2) == m * (h1 * q2)) by (nonlinear_arith);
    assert((m * q3) * c == m * (q3 * c)) by (nonlinear_arith);
    assert(m * (q3 * c) - m * (h0 * q1) - m * (h1 * q2) == m * (q3 * c - h0 * q1 - h1 * q2))
        by (nonlinear_arith);
}

proof fn identity_certificate_nonce(
    m: int,
    a: int,
    s: int,
    x_a: int,
    c: int,
    alpha: int,
    z: int,
    qa: int,
    qz: int,
)
    requires
        a * s == m * qa + x_a,
        c * s + alpha == m * qz + z,
    ensures
        a * z - x_a * c == a * alpha + m * (c * qa - a * qz),
{
    assert(a * z == a * (c * s + alpha - m * qz)) by (nonlinear_arith)
        requires
            z == c * s + alpha - m * qz,
    ;
    assert(x_a * c == (a * s - m * qa) * c) by (nonlinear_arith)
        requires
            x_a == a * s - m * qa,
    ;
    assert(a * (c * s + alpha - m * qz) - (a * s - m * qa) * c == a * alpha + m * (c * qa - a
        * qz)) by (nonlinear_arith);
}

proof fn identity_key_nonce(m: int, s: int, c: int, alpha: int, z: int, x_g: int, qz: int, qs: int)
    requires
        c * s + alpha == m * qz + z,
        s == m * qs + x_g,
    ensures
        z - x_g * c == alpha + m * (c * qs - qz),
{
    assert(x_g * c == (s - m * qs) * c) by (nonlinear_arith)
        requires
            x_g == s - m * qs,
    ;
    assert((c * s + alpha - m * qz) - (s - m * qs) * c == alpha + m * (c * qs - qz))
        by (nonlinear_arith);
}

proof fn identity_certificate(
    m: int,
    x_a: int,
    inv: int,
    s: int,
    a: int,
    s_m: int,
    q1: int,
    q2: int,
    q3: int,
)
    requires
        x_a * inv == m * q1 + a,
        inv * s_m == m * q2 + 1,
        s == m * q3 + s_m,
    ensures
        a * s == x_a + m * (x_a * q2 + x_a * inv * q3 - q1 * s),
{
    assert(a * s == (x_a * inv - m * q1) * s) by (nonlinear_arith)
        requires
            a == x_a * inv - m * q1,
    ;
    assert(x_a * inv * s == x_a * (inv * s_m) + x_a * inv * m * q3) by (nonlinear_arith)
        requires
            s == m * q3 + s_m,
    ;
    assert(x_a * (inv * s_m) == x_a * (m * q2 + 1)) by (nonlinear_arith)
        requires
            inv * s_m == m * q2 + 1,
    ;
    assert((x_a * inv - m * q1) * s == x_a * inv * s - m * q1 * s) by (nonlinear_arith);
    assert(x_a * (m * q2 + 1) == x_a * (m * q2) + x_a) by (nonlinear_arith);
    assert(x_a * (m * q2) == m * (x_a * q2)) by (nonlinear_arith);
    assert(x_a * inv * m * q3 == m * (x_a * inv * q3)) by (nonlinear_arith);
    assert(m * q1 * s == m * (q1 * s)) by (nonlinear_arith);
    assert(m * (x_a * q2) + m * (x_a * inv * q3) - m * (q1 * s) == m * (x_a * q2 + x_a * inv * q3
        - q1 * s)) by (nonlinear_arith);
}

/// The nonce commitment that a verifier rebuilds from honest responses
/// `r_z = r_t + r c`, `k_z = k_t + k c` and the commitment `kr = h0 r + h1 k` is
/// `h0 r_t + h1 k_t`.
pub proof fn lemma_rebuilt_nonce(h0: int, h1: int, r: int, k: int, r_t: int, k_t: int, c: int)
    ensures
        (h0 * ((r_t + r * c) % group_order()) + h1 * ((k_t + k * c) % group_order()) - ((h0 * r
            + h1 * k) % group_order()) * c) % group_order() == (h0 * r_t + h1 * k_t)
            % group_order(),
{
    let l = group_order();
    let r_z = (r_t + r * c) % l;
    let k_z = (k_t + k * c) % l;
    let kr = (h0 * r + h1 * k) % l;
    let q1 = (r_t + r * c) / l;
    let q2 = (k_t + k * c) / l;
    let q3 = (h0 * r + h1 * k) / l;
    vstd::arithmetic::div_mod::lemma_fundamental_div_mod(r_t + r * c, l);
    vstd::arithmetic::div_mod::lemma_fundamental_div_mod(k_t + k * c, l);
    vstd::arithmetic::div_mod::lemma_fundamental_div_mod(h0 * r + h1 * k, l);
    identity_rebuilt_nonce(l, h0, h1, r, k, r_t, k_t, c, r_z, k_z, kr, q1, q2, q3);
    lemma_congruent(h0 * r_z + h1 * k_z - kr * c, h0 * r_t + h1 * k_t, q3 * c - h0 * q1 - h1 * q2);
}

/// For `a (e + x) = x_a` and `z = c (e + x) + alpha`, the element `a z - x_a c`
/// that a verifier rebuilds is `a alpha`.
pub proof fn lemma_rebuilt_certificate_nonce(a: int, s: int, x_a: int, c: int, alpha: int)
    requires
        (a * s) % group_order() == x_a,
    ensures
        (a * ((c * s + alpha) % group_order()) - x_a * c) % group_order() == (a * alpha)
            % group_order(),
{
    let l = group_order();
    let z = (c * s + alpha) % l;
    let qa = (a * s) / l;
    let qz = (c * s + alpha) / l;
    vstd::arithmetic::div_mod::lemma_fundamental_div_mod(a * s, l);
    vstd::arithmetic::div_mod::lemma_fundamental_div_mod(c * s + alpha, l);
    identity_certificate_nonce(l, a, s, x_a, c, alpha, z, qa, qz);
    lemma_congruent(a * z - x_a * c, a * alpha, c * qa - a * qz);
}

/// For `x_g = e + x` and `z = c (e + x) + alpha`, the element `z - x_g c` that a
/// verifier rebuilds is `alpha`.
pub proof fn lemma_rebuilt_key_nonce(s: int, c: int, alpha: int)
    requires
        0 <= alpha < group_order(),
    ensures
        ((c * s + alpha) % group_order() - (s % group_order()) * c) % group_order() == alpha,
{
    let l = group_order();
    let z = (c * s + alpha) % l;
    let x_g = s % l;
    let qz = (c * s + alpha) / l;
    let qs = s / l;
    vstd::arithmetic::div_mod::lemma_fundamental_div_mod(c * s + alpha, l);
    vstd::arithmetic::div_mod::lemma_fundamental_div_mod(s, l);
    identity_key_nonce(l, s, c, alpha, z, x_g, qz, qs);
    lemma_congruent(z - x_g * c, alpha, c * qs - qz);
    lemma_small(alpha);
}

/// Scaling `x_a` by the inverse of `s` gives an `a` with `a s = x_a`.
pub proof fn lemma_certificate(x_a: int, inv: int, s: int)
    requires
        0 <= x_a < group_order(),
        (inv * (s % group_order())) % group_order() == 1,
    ensures
        (((x_a * inv) % group_order()) * s) % group_order() == x_a,
{
    let l = group_order();
    let a = (x_a * inv) % l;
    let q1 = (x_a * inv) / l;
    let q2 = (inv * (s % l)) / l;
    let q3 = s / l;
    vstd::arithmetic::div_mod::lemma_fundamental_div_mod(x_a * inv, l);
    vstd::arithmetic::div_mod::lemma_fundamental_div_mod(inv * (s % l), l);
    vstd::arithmetic::div_mod::lemma_fundamental_div_mod(s, l);
    identity_certificate(l, x_a, inv, s, a, s % l, q1, q2, q3);
    lemma_congruent(a * s, x_a, x_a * q2 + x_a * inv * q3 - q1 * s);
    lemma_small(x_a);
}

} // verus!
