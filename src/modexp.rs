use vstd::arithmetic::div_mod::*;
use vstd::arithmetic::mul::*;
use vstd::arithmetic::power::*;
use vstd::prelude::*;

verus! {

/// `base^exp mod modulus` as a mathematical integer.
pub open spec fn pow_mod(base: u64, exp: u64, modulus: u64) -> int
    recommends
        modulus > 0,
{
    pow(base as int, exp as nat) % (modulus as int)
}

/// One step of square-and-multiply: splitting off the lowest bit of the
/// exponent and squaring the base keeps `acc * b^e` unchanged modulo `m`.
proof fn lemma_square_multiply_step(acc: int, b: int, e: nat, m: int)
    requires
        m > 0,
    ensures
        e % 2 == 1 ==> (acc * pow(b, e)) % m == (((acc * b) % m) * pow((b * b) % m, e / 2)) % m,
        e % 2 == 0 ==> (acc * pow(b, e)) % m == (acc * pow((b * b) % m, e / 2)) % m,
{
    let q: nat = e / 2;
    let r: nat = e % 2;
    assert(e == r + 2 * q);
    lemma_pow_adds(b, r, 2 * q);
    lemma_pow_multiplies(b, 2, q);
    lemma_square_is_pow2(b);
    assert(pow(b, 2 * q) == pow(b * b, q));
    lemma_pow_mod_noop(b * b, q, m);
    let big = pow(b * b, q);
    let small = pow((b * b) % m, q);
    if r == 1 {
        lemma_pow1(b);
        assert(pow(b, e) == b * big);
        lemma_mul_is_associative(acc, b, big);
        lemma_mul_mod_noop_left(acc * b, big, m);
        lemma_mul_mod_noop_right((acc * b) % m, big, m);
        lemma_mul_mod_noop_right((acc * b) % m, small, m);
    } else {
        lemma_pow0(b);
        assert(pow(b, e) == big);
        lemma_mul_mod_noop_right(acc, big, m);
        lemma_mul_mod_noop_right(acc, small, m);
    }
}

/// Computes `base^exp mod modulus` by square-and-multiply over 128-bit
/// intermediates; a modulus of one gives zero.
pub fn mod_exp(base: u64, exp: u64, modulus: u64) -> (r: u64)
    requires
        modulus > 0,
    ensures
        r as int == pow_mod(base, exp, modulus),
{
    if modulus == 1 {
        proof {
            lemma_fundamental_div_mod(pow(base as int, exp as nat), 1);
        }
        return 0;
    }
    let m: u128 = modulus as u128;
    let mut result: u128 = 1;
    let mut b: u128 = (base as u128) % m;
    let mut e: u64 = exp;
    proof {
        lemma_pow_mod_noop(base as int, exp as nat, m as int);
        lemma_mul_basics(pow(b as int, e as nat));
    }
    while e > 0
        invariant
            m == modulus as u128,
            m > 1,
            result < m,
            b < m,
            (result * pow(b as int, e as nat)) % (m as int) == pow(base as int, exp as nat) % (
            m as int),
        decreases e,
    {
        proof {
            lemma_square_multiply_step(result as int, b as int, e as nat, m as int);
            lemma_mul_upper_bound(result as int, m as int - 1, b as int, m as int - 1);
            lemma_mul_upper_bound(b as int, m as int - 1, b as int, m as int - 1);
            assert((m as int - 1) * (m as int - 1) < 0x1_0000_0000_0000_0000_0000_0000_0000_0000) by (nonlinear_arith)
                requires m < 0x1_0000_0000_0000_0000;
        }
        if e & 1 == 1 {
            assert((e & 1 == 1) == (e % 2 == 1)) by (bit_vector);
            result = (result * b) % m;
        } else {
            assert((e & 1 == 1) == (e % 2 == 1)) by (bit_vector);
        }
        assert(e >> 1 == e / 2) by (bit_vector);
        e = e >> 1;
        b = (b * b) % m;
    }
    proof {
        lemma_pow0(b as int);
        lemma_small_mod(result as nat, m as nat);
    }
    result as u64
}

/// Square-and-multiply with 64-bit values widened to 128 bits for each
/// product; the accumulator starts at `1 mod m`, so a modulus of one gives
/// zero.
pub fn exp_mod(b: u64, e: u64, m: u64) -> (r: u64)
    requires
        m > 0,
    ensures
        r as int == pow_mod(b, e, m),
{
    let mut res: u64 = 1 % m;
    let mut base: u64 = b % m;
    let mut exp: u64 = e;
    proof {
        lemma_pow_mod_noop(b as int, e as nat, m as int);
        lemma_mul_mod_noop_left(1, pow(base as int, exp as nat), m as int);
        lemma_mul_basics(pow(base as int, exp as nat));
    }
    loop
        invariant
            m > 0,
            base < m,
            res < m,
            (res * pow(base as int, exp as nat)) % (m as int) == pow(b as int, e as nat) % (m as int),
        ensures
            exp == 0,
            res < m,
            (res * pow(base as int, exp as nat)) % (m as int) == pow(b as int, e as nat) % (m as int),
        decreases exp,
    {
        if exp == 0 {
            break;
        }
        proof {
            lemma_square_multiply_step(res as int, base as int, exp as nat, m as int);
        }
        assert((exp & 1 == 1) == (exp % 2 == 1)) by (bit_vector);
        if exp & 1 == 1 {
            proof {
                lemma_mul_upper_bound(res as int, 0xffff_ffff_ffff_ffff, base as int, 0xffff_ffff_ffff_ffff);
            }
            res = ((res as u128 * base as u128) % m as u128) as u64;
        }
        assert(exp >> 1 == exp / 2) by (bit_vector);
        exp = exp >> 1;
        proof {
            lemma_mul_upper_bound(base as int, 0xffff_ffff_ffff_ffff, base as int, 0xffff_ffff_ffff_ffff);
        }
        base = ((base as u128 * base as u128) % m as u128) as u64;
    }
    proof {
        lemma_pow0(base as int);
        lemma_small_mod(res as nat, m as nat);
    }
    res
}

/// Raising any base to the power zero gives one for every modulus above one.
pub proof fn lemma_zero_exponent(g: u64, m: u64)
    requires
        m > 1,
    ensures
        pow_mod(g, 0, m) == 1,
{
    lemma_pow0(g as int);
    lemma_small_mod(1, m as nat);
}

/// Diffie-Hellman agreement: raising the peer's public value to one's own
/// private exponent gives the same value on both sides, for every pair of
/// private exponents.
pub proof fn lemma_dh_agreement(p: u64, g: u64, a: u64, b: u64)
    requires
        p > 0,
    ensures
        0 <= pow_mod(g, a, p) < p,
        0 <= pow_mod(g, b, p) < p,
        pow_mod(pow_mod(g, b, p) as u64, a, p) == pow_mod(pow_mod(g, a, p) as u64, b, p),
{
    let ga = pow(g as int, a as nat);
    let gb = pow(g as int, b as nat);
    lemma_mod_bound(ga, p as int);
    lemma_mod_bound(gb, p as int);
    lemma_pow_mod_noop(gb, a as nat, p as int);
    lemma_pow_mod_noop(ga, b as nat, p as int);
    lemma_pow_multiplies(g as int, b as nat, a as nat);
    lemma_pow_multiplies(g as int, a as nat, b as nat);
    lemma_mul_is_commutative(a as int, b as int);
}

} // verus!
