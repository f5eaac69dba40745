use vstd::arithmetic::div_mod::{lemma_mul_mod_noop_left, lemma_mul_mod_noop_right, lemma_small_mod};
use vstd::arithmetic::mul::lemma_mul_is_associative;
use vstd::arithmetic::power::{
    lemma_pow0, lemma_pow1, lemma_pow_adds, lemma_pow_mod_noop, lemma_pow_multiplies,
    lemma_square_is_pow2, pow,
};
use vstd::prelude::*;

verus! {

/// The fixed modulus both peers agree on.
pub const P: u64 = 0xD87FA3E291B4C7F3;

/// The fixed generator both peers agree on.
pub const G: u64 = 2;

/// `base` to the power `exp`, reduced modulo `modulus`.
pub open spec fn mod_pow(base: int, exp: nat, modulus: int) -> int {
    pow(base, exp) % modulus
}

/// One square-and-multiply step keeps `result * b^e (mod m)` unchanged.
proof fn lemma_square_multiply_step(result: int, b: int, e: nat, m: int)
    requires
        m > 0,
    ensures
        ((if e % 2 == 1 { (result * b) % m } else { result }) * pow((b * b) % m, e / 2)) % m
            == (result * pow(b, e)) % m,
{
    let q: nat = e / 2;
    let r: nat = e % 2;
    let y = pow(b, 2 * q);
    lemma_square_is_pow2(b);
    lemma_pow_multiplies(b, 2, q);
    lemma_pow_mod_noop(b * b, q, m);
    lemma_pow_adds(b, 2 * q, r);
    assert(e == 2 * q + r);
    let rn = if r == 1 { (result * b) % m } else { result };
    // rn * pow((b*b) % m, q) agrees with rn * y modulo m
    lemma_mul_mod_noop_right(rn, pow((b * b) % m, q), m);
    lemma_mul_mod_noop_right(rn, y, m);
    if r == 1 {
        lemma_pow1(b);
        lemma_mul_mod_noop_left(result * b, y, m);
        lemma_mul_is_associative(result, b, y);
        assert(pow(b, e) == y * b);
        assert(b * y == y * b) by (nonlinear_arith);
    } else {
        lemma_pow0(b);
        assert(pow(b, e) == y);
    }
}

/// Computes `base^exp mod modulus` by binary exponentiation. Products of two
/// reduced operands are formed in 128 bits, so nothing wraps.
pub fn modexp(base: u64, exp: u64, modulus: u64) -> (r: u64)
    requires
        modulus > 0,
    ensures
        r as int == mod_pow(base as int, exp as nat, modulus as int),
{
    let mut result: u64 = 1 % modulus;
    let mut b: u64 = base % modulus;
    let mut e: u64 = exp;
    proof {
        lemma_pow_mod_noop(base as int, exp as nat, modulus as int);
        lemma_mul_mod_noop_left(1, pow(b as int, exp as nat), modulus as int);
    }
    while e > 0
        invariant
            modulus > 0,
            b < modulus,
            result < modulus,
            (result as int * pow(b as int, e as nat)) % (modulus as int) == mod_pow(
                base as int,
                exp as nat,
                modulus as int,
            ),
        decreases e,
    {
        proof {
            lemma_square_multiply_step(result as int, b as int, e as nat, modulus as int);
        }
        assert(e & 1 == e % 2) by (bit_vector);
        assert(e >> 1 == e / 2) by (bit_vector);
        if e & 1 == 1 {
            assert((result as u128) * (b as u128) < 0x1_0000_0000_0000_0000_0000_0000_0000_0000)
                by (nonlinear_arith)
                requires
                    result < modulus,
                    b < modulus,
                    modulus <= 0xFFFF_FFFF_FFFF_FFFF,
            ;
            result = ((result as u128 * b as u128) % modulus as u128) as u64;
        }
        assert((b as u128) * (b as u128) < 0x1_0000_0000_0000_0000_0000_0000_0000_0000)
            by (nonlinear_arith)
            requires
                b < modulus,
                modulus <= 0xFFFF_FFFF_FFFF_FFFF,
        ;
        b = ((b as u128 * b as u128) % modulus as u128) as u64;
        e = e >> 1;
    }
    proof {
        lemma_pow0(b as int);
        assert(result as int * pow(b as int, e as nat) == result as int);
        lemma_small_mod(result as nat, modulus as nat);
    }
    result
}

/// Diffie-Hellman agreement: for any two private exponents `a` and `b`, raising
/// the public value of `a` to `b` gives the same secret as raising the public
/// value of `b` to `a`.
pub proof fn lemma_shared_secret_agrees(a: u64, b: u64)
    ensures
        mod_pow(mod_pow(G as int, a as nat, P as int), b as nat, P as int) == mod_pow(
            mod_pow(G as int, b as nat, P as int),
            a as nat,
            P as int,
        ),
{
    lemma_pow_mod_noop(pow(G as int, a as nat), b as nat, P as int);
    lemma_pow_mod_noop(pow(G as int, b as nat), a as nat, P as int);
    lemma_pow_multiplies(G as int, a as nat, b as nat);
    lemma_pow_multiplies(G as int, b as nat, a as nat);
    assert((a as nat) * (b as nat) == (b as nat) * (a as nat)) by (nonlinear_arith);
}

/// Relies on rand::random (the thread-local generator's `gen`): a `u64` drawn
/// over its full range. Nothing is known of the value drawn.
#[verifier::external_body]
fn draw_u64() -> (r: u64) {
    rand::random::<u64>()
}

/// The keypair that belongs to a given private exponent: `(private, G^private mod P)`.
pub fn keypair_from_private(private: u64) -> (r: (u64, u64))
    ensures
        r.0 == private,
        r.1 as int == mod_pow(G as int, private as nat, P as int),
{
    (private, modexp(G, private, P))
}

/// Draws a fresh private exponent from a non-cryptographic random source and
/// returns `(private, public)`, where `public = G^private mod P`.
pub fn generate_keypair() -> (r: (u64, u64))
    ensures
        r.1 as int == mod_pow(G as int, r.0 as nat, P as int),
{
    let private = draw_u64();
    keypair_from_private(private)
}

/// The secret this peer derives from the peer's public value and its own
/// private exponent: `peer_public^own_private mod P`.
pub fn shared_secret(peer_public: u64, own_private: u64) -> (r: u64)
    ensures
        r as int == mod_pow(peer_public as int, own_private as nat, P as int),
{
    modexp(peer_public, own_private, P)
}

} // verus!
