//! The BN254 scalar field.
//!
//! A field element is carried as its canonical little-endian 32-byte
//! serialization, and its mathematical value (a natural number below the
//! modulus) is the view used by every contract.  The arithmetic itself is
//! done by `halo2curves`' `Fr`, and the Poseidon sponge by `light_poseidon`;
//! those calls stand behind the trusted functions at the end of this file.

use vstd::prelude::*;

use halo2curves::bn256::Fr;
use halo2curves::ff::{Field, PrimeField};
use light_poseidon::PoseidonBytesHasher;

verus! {

/// The BN254 scalar field modulus.
pub open spec fn p_mod() -> nat {
    21888242871839275222246405745257275088548364400416034343698204186575808495617nat
}

/// Value of a little-endian byte string.
pub open spec fn le_val(s: Seq<u8>) -> nat
    decreases s.len(),
{
    if s.len() == 0 {
        0
    } else {
        s[0] as nat + 256 * le_val(s.drop_first())
    }
}

/// A BN254 scalar, held as its canonical little-endian 32-byte form.
#[derive(Debug, Clone, PartialEq, Eq)]
pub struct Fe {
    pub bytes: Vec<u8>,
}

impl View for Fe {
    type V = nat;

    open spec fn view(&self) -> nat {
        le_val(self.bytes@)
    }
}

impl Fe {
    /// Canonical form: exactly 32 bytes, value below the modulus.
    pub open spec fn wf(&self) -> bool {
        self.bytes@.len() == 32 && le_val(self.bytes@) < p_mod()
    }

    /// A copy carrying the same bytes, hence the same value.
    pub fn dup(&self) -> (r: Fe)
        ensures
            r.bytes@ == self.bytes@,
            r@ == self@,
            r.wf() == self.wf(),
    {
        let mut bytes: Vec<u8> = Vec::new();
        let mut i: usize = 0;
        while i < self.bytes.len()
            invariant
                i <= self.bytes@.len(),
                bytes@ == self.bytes@.take(i as int),
            decreases self.bytes@.len() - i,
        {
            bytes.push(self.bytes[i]);
            i = i + 1;
        }
        proof {
            assert(self.bytes@.take(self.bytes@.len() as int) =~= self.bytes@);
        }
        Fe { bytes }
    }
}

/// Field addition on values.
pub open spec fn fe_add_s(a: nat, b: nat) -> nat {
    (a + b) % p_mod()
}

/// Field multiplication on values.
pub open spec fn fe_mul_s(a: nat, b: nat) -> nat {
    (a * b) % p_mod()
}

/// Field exponentiation on values, `a^k mod p`.
pub open spec fn fe_pow_s(a: nat, k: nat) -> nat
    decreases k,
{
    if k == 0 {
        1
    } else {
        fe_mul_s(a, fe_pow_s(a, (k - 1) as nat))
    }
}

/// Decimal digit as a character.
pub open spec fn dec_digit(d: nat) -> char {
    if d == 0 { '0' }
    else if d == 1 { '1' }
    else if d == 2 { '2' }
    else if d == 3 { '3' }
    else if d == 4 { '4' }
    else if d == 5 { '5' }
    else if d == 6 { '6' }
    else if d == 7 { '7' }
    else if d == 8 { '8' }
    else { '9' }
}

/// Base-10 rendering of a natural number, no leading zeros (`0` is `"0"`).
pub open spec fn dec_str(n: nat) -> Seq<char>
    decreases n,
{
    if n < 10 {
        seq![dec_digit(n)]
    } else {
        dec_str(n / 10).push(dec_digit(n % 10))
    }
}

/// What the Circom-compatible Poseidon permutation over BN254 returns on a
/// single field element.
pub uninterp spec fn poseidon_1_s(x: nat) -> nat;

/// What the Circom-compatible Poseidon permutation over BN254 returns on a
/// pair of field elements.
pub uninterp spec fn poseidon_2_s(x: nat, y: nat) -> nat;

/// Relies on `halo2curves::bn256::Fr::from(u64)`: embeds a machine word into
/// the scalar field; every `u64` is below the modulus, so the value is kept.
#[verifier::external_body]
pub fn fe_from_u64(x: u64) -> (r: Fe)
    ensures
        r.wf(),
        r@ == x as nat,
{
    Fe { bytes: Fr::from(x).to_repr().as_ref().to_vec() }
}

/// Relies on `halo2curves::bn256::Fr`'s `Add`: addition in the scalar field.
#[verifier::external_body]
pub fn fe_add(a: &Fe, b: &Fe) -> (r: Fe)
    requires
        a.wf(),
        b.wf(),
    ensures
        r.wf(),
        r@ == fe_add_s(a@, b@),
{
    let x = Fr::from_repr_vartime(a.bytes.as_slice().into()).unwrap();
    let y = Fr::from_repr_vartime(b.bytes.as_slice().into()).unwrap();
    Fe { bytes: (x + y).to_repr().as_ref().to_vec() }
}

/// Relies on `halo2curves::bn256::Fr`'s `Mul`: multiplication in the scalar
/// field.
#[verifier::external_body]
pub fn fe_mul(a: &Fe, b: &Fe) -> (r: Fe)
    requires
        a.wf(),
        b.wf(),
    ensures
        r.wf(),
        r@ == fe_mul_s(a@, b@),
{
    let x = Fr::from_repr_vartime(a.bytes.as_slice().into()).unwrap();
    let y = Fr::from_repr_vartime(b.bytes.as_slice().into()).unwrap();
    Fe { bytes: (x * y).to_repr().as_ref().to_vec() }
}

/// Relies on `halo2curves::bn256::Fr`'s `Neg`: additive inverse in the scalar
/// field.
#[verifier::external_body]
pub fn fe_neg(a: &Fe) -> (r: Fe)
    requires
        a.wf(),
    ensures
        r.wf(),
        r@ == (p_mod() - a@) as nat % p_mod(),
{
    let x = Fr::from_repr_vartime(a.bytes.as_slice().into()).unwrap();
    Fe { bytes: (-x).to_repr().as_ref().to_vec() }
}

/// Relies on `ff::Field::pow` for `halo2curves::bn256::Fr`: exponentiation by
/// a machine word.
#[verifier::external_body]
pub fn fe_pow(a: &Fe, k: u64) -> (r: Fe)
    requires
        a.wf(),
    ensures
        r.wf(),
        r@ == fe_pow_s(a@, k as nat),
{
    let x = Fr::from_repr_vartime(a.bytes.as_slice().into()).unwrap();
    Fe { bytes: x.pow([k]).to_repr().as_ref().to_vec() }
}

/// Relies on `light_poseidon`'s Circom-compatible Poseidon over BN254 with
/// one input: the digest depends on the input value alone.  On a canonical
/// 32-byte operand below the modulus, `hash_bytes_le` cannot fail.
#[verifier::external_body]
pub fn poseidon_one(a: &Fe) -> (r: Fe)
    requires
        a.wf(),
    ensures
        r.wf(),
        r@ == poseidon_1_s(a@),
{
    let mut h = light_poseidon::Poseidon::<ark_bn254::Fr>::new_circom(1).unwrap();
    let out = h.hash_bytes_le(&[a.bytes.as_slice()]).unwrap();
    Fe { bytes: out.to_vec() }
}

/// Relies on `light_poseidon`'s Circom-compatible Poseidon over BN254 with
/// two inputs: the digest depends on the input values alone.  On canonical
/// 32-byte operands below the modulus, `hash_bytes_le` cannot fail.
#[verifier::external_body]
pub fn poseidon_two(a: &Fe, b: &Fe) -> (r: Fe)
    requires
        a.wf(),
        b.wf(),
    ensures
        r.wf(),
        r@ == poseidon_2_s(a@, b@),
{
    let mut h = light_poseidon::Poseidon::<ark_bn254::Fr>::new_circom(2).unwrap();
    let out = h.hash_bytes_le(&[a.bytes.as_slice(), b.bytes.as_slice()]).unwrap();
    Fe { bytes: out.to_vec() }
}

/// Relies on `num_bigint::BigUint`: base-10 rendering of the element's value.
#[verifier::external_body]
pub fn field_element_to_base10_string(a: &Fe) -> (r: String)
    requires
        a.wf(),
    ensures
        r@ == dec_str(a@),
{
    num_bigint::BigUint::from_bytes_le(a.bytes.as_slice()).to_str_radix(10)
}

/// The field element zero.
pub fn fe_zero() -> (r: Fe)
    ensures
        r.wf(),
        r@ == 0,
{
    fe_from_u64(0)
}

/// The field element one.
pub fn fe_one() -> (r: Fe)
    ensures
        r.wf(),
        r@ == 1,
{
    fe_from_u64(1)
}

/// A reduced value stays below the modulus.
pub proof fn lemma_fe_mod_bound(x: nat)
    ensures
        x % p_mod() < p_mod(),
{
    vstd::arithmetic::div_mod::lemma_mod_bound(x as int, p_mod() as int);
}

/// Powers are reduced values.
pub proof fn lemma_fe_pow_bound(a: nat, k: nat)
    ensures
        fe_pow_s(a, k) < p_mod(),
    decreases k,
{
    if k == 0 {
    } else {
        lemma_fe_mod_bound(a * fe_pow_s(a, (k - 1) as nat));
    }
}

/// Field addition is associative.
pub proof fn lemma_fe_add_assoc(a: nat, b: nat, c: nat)
    ensures
        fe_add_s(fe_add_s(a, b), c) == fe_add_s(a, fe_add_s(b, c)),
{
    let p = p_mod() as int;
    vstd::arithmetic::div_mod::lemma_add_mod_noop_right((a + b) as int, c as int, p);
    vstd::arithmetic::div_mod::lemma_add_mod_noop(a as int, (b + c) as int, p);
    vstd::arithmetic::div_mod::lemma_add_mod_noop_right(a as int, (b + c) as int, p);
    vstd::arithmetic::div_mod::lemma_mod_mod((a + b) as int, p, 1);
    assert((((a + b) % p_mod()) as int + c) % p == ((a + b + c) as int) % p) by {
        vstd::arithmetic::div_mod::lemma_add_mod_noop((a + b) as int, c as int, p);
        vstd::arithmetic::div_mod::lemma_mod_twice((a + b) as int, p);
        vstd::arithmetic::div_mod::lemma_add_mod_noop(((a + b) % p_mod()) as int, c as int, p);
    }
    assert((a as int + ((b + c) % p_mod()) as int) % p == ((a + b + c) as int) % p) by {
        vstd::arithmetic::div_mod::lemma_add_mod_noop(a as int, (b + c) as int, p);
        vstd::arithmetic::div_mod::lemma_mod_twice((b + c) as int, p);
        vstd::arithmetic::div_mod::lemma_add_mod_noop(a as int, ((b + c) % p_mod()) as int, p);
    }
}

/// Field multiplication distributes over field addition.
pub proof fn lemma_fe_mul_distrib(a: nat, b: nat, c: nat)
    ensures
        fe_mul_s(a, fe_add_s(b, c)) == fe_add_s(fe_mul_s(a, b), fe_mul_s(a, c)),
{
    let p = p_mod() as int;
    vstd::arithmetic::div_mod::lemma_mul_mod_noop_right(a as int, (b + c) as int, p);
    vstd::arithmetic::mul::lemma_mul_is_distributive_add(a as int, b as int, c as int);
    vstd::arithmetic::div_mod::lemma_add_mod_noop((a * b) as int, (a * c) as int, p);
}

/// Field multiplication is associative.
pub proof fn lemma_fe_mul_assoc(a: nat, b: nat, c: nat)
    ensures
        fe_mul_s(a, fe_mul_s(b, c)) == fe_mul_s(fe_mul_s(a, b), c),
{
    let p = p_mod() as int;
    vstd::arithmetic::div_mod::lemma_mul_mod_noop_right(a as int, (b * c) as int, p);
    vstd::arithmetic::mul::lemma_mul_is_associative(a as int, b as int, c as int);
    vstd::arithmetic::div_mod::lemma_mul_mod_noop_left((a * b) as int, c as int, p);
}

/// Exponents add: `a^(m+n) = a^m * a^n` in the field.
pub proof fn lemma_fe_pow_adds(a: nat, m: nat, n: nat)
    ensures
        fe_pow_s(a, m + n) == fe_mul_s(fe_pow_s(a, m), fe_pow_s(a, n)),
    decreases n,
{
    if n == 0 {
        lemma_fe_pow_bound(a, m);
        vstd::arithmetic::div_mod::lemma_small_mod(fe_pow_s(a, m), p_mod());
        assert(fe_pow_s(a, n) == 1);
        assert(fe_mul_s(fe_pow_s(a, m), 1) == fe_pow_s(a, m));
        assert(fe_pow_s(a, m + n) == fe_mul_s(fe_pow_s(a, m), fe_pow_s(a, n)));
    } else {
        lemma_fe_pow_adds(a, m, (n - 1) as nat);
        let pwm = fe_pow_s(a, m);
        let pwn1 = fe_pow_s(a, (n - 1) as nat);
        assert(fe_pow_s(a, m + n) == fe_mul_s(a, fe_pow_s(a, (m + n - 1) as nat)));
        assert(fe_pow_s(a, (m + n - 1) as nat) == fe_mul_s(pwm, pwn1));
        assert(fe_pow_s(a, n) == fe_mul_s(a, pwn1));
        lemma_fe_mul_assoc(a, pwm, pwn1);
        assert(fe_mul_s(a, pwm) == fe_mul_s(pwm, a));
        lemma_fe_mul_assoc(pwm, a, pwn1);
        assert(fe_mul_s(a, fe_mul_s(pwm, pwn1)) == fe_mul_s(fe_mul_s(pwm, a), pwn1));
        assert(fe_mul_s(fe_mul_s(pwm, a), pwn1) == fe_mul_s(pwm, fe_mul_s(a, pwn1)));
        assert(fe_pow_s(a, m + n) == fe_mul_s(pwm, fe_pow_s(a, n)));
    }
}

} // verus!
