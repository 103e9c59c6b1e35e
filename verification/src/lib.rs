//! Witness computation for HTTP and JSON hashchain circuits.
//!
//! Raw plaintext bytes, padded to a multiple of 16 with a sentinel, are fed
//! byte by byte into two circuit-mirroring state machines; their per-byte
//! snapshots, together with a handful of field-element digests, populate the
//! circuits' public inputs.

use vstd::prelude::*;

pub mod error;
pub mod field;
pub mod http;
pub mod json;
pub mod masks;

pub use crate::error::WitnessGeneratorError;
pub use crate::field::{field_element_to_base10_string, Fe};
pub use crate::http::{default_message, default_version, headers_to_bytes, request_initial_digest,
    response_initial_digest, Manifest, Request, Response, ResponseBody};
pub use crate::json::{json_value_digest, JsonKey};
pub use crate::masks::{compute_http_header_witness, compute_http_witness, HttpMaskType};

use crate::field::{fe_add, fe_add_s, fe_from_u64, fe_mul, fe_mul_s, fe_neg, fe_one, fe_pow,
    fe_pow_s, fe_zero, p_mod, poseidon_1_s, poseidon_2_s, poseidon_one, poseidon_two};

verus! {

/// A byte of plaintext, or the padding sentinel that fills the plaintext out
/// to a multiple of the block size.
#[derive(Debug, Clone, Copy, PartialEq, Eq, Structural)]
pub enum ByteOrPad {
    /// A plaintext byte.
    Byte(u8),
    /// Padding; stands for `0` as a byte and for `-1` as a field element.
    Pad,
}

/// The byte a `ByteOrPad` projects to: padding counts as zero.
pub open spec fn byte_of_pad_s(b: ByteOrPad) -> u8 {
    match b {
        ByteOrPad::Byte(x) => x,
        ByteOrPad::Pad => 0,
    }
}

/// The field element a `ByteOrPad` maps to: padding counts as `-1`.
pub open spec fn fe_of_pad_s(b: ByteOrPad) -> nat {
    match b {
        ByteOrPad::Byte(x) => x as nat,
        ByteOrPad::Pad => (p_mod() - 1) as nat,
    }
}

impl ByteOrPad {
    /// Converts a slice of bytes to `ByteOrPad`s and appends `padding`
    /// sentinels.
    pub fn from_bytes_with_padding(bytes: &[u8], padding: usize) -> (r: Vec<ByteOrPad>)
        requires
            bytes@.len() + padding <= usize::MAX,
        ensures
            r@.len() == bytes@.len() + padding,
            forall|i: int| 0 <= i < bytes@.len() ==> r@[i] == ByteOrPad::Byte(bytes@[i]),
            forall|i: int| bytes@.len() <= i < r@.len() ==> r@[i] == ByteOrPad::Pad,
    {
        let mut result: Vec<ByteOrPad> = Vec::new();
        let mut i: usize = 0;
        while i < bytes.len()
            invariant
                i <= bytes@.len(),
                bytes@.len() + padding <= usize::MAX,
                result@.len() == i,
                forall|j: int| 0 <= j < i ==> result@[j] == ByteOrPad::Byte(bytes@[j]),
            decreases bytes@.len() - i,
        {
            result.push(ByteOrPad::Byte(bytes[i]));
            i = i + 1;
        }
        let mut k: usize = 0;
        while k < padding
            invariant
                k <= padding,
                result@.len() == bytes@.len() + k,
                forall|j: int| 0 <= j < bytes@.len() ==> result@[j] == ByteOrPad::Byte(bytes@[j]),
                forall|j: int| bytes@.len() <= j < result@.len() ==> result@[j] == ByteOrPad::Pad,
            decreases padding - k,
        {
            result.push(ByteOrPad::Pad);
            k = k + 1;
        }
        result
    }

    /// Pads with sentinels up to the nearest multiple of `multiple`.
    pub fn pad_to_nearest_multiple(bytes: &[u8], multiple: usize) -> (r: Vec<ByteOrPad>)
        requires
            multiple > 0,
            bytes@.len() + multiple <= usize::MAX,
        ensures
            r@.len() as int % multiple as int == 0,
            r@.len() >= bytes@.len(),
            r@.len() < bytes@.len() + multiple,
            forall|i: int| 0 <= i < bytes@.len() ==> r@[i] == ByteOrPad::Byte(bytes@[i]),
            forall|i: int| bytes@.len() <= i < r@.len() ==> r@[i] == ByteOrPad::Pad,
    {
        let rem = bytes.len() % multiple;
        let padding: usize = if rem == 0 { 0 } else { multiple - rem };
        proof {
            let n = bytes@.len() as int;
            let m = multiple as int;
            if rem != 0 {
                vstd::arithmetic::div_mod::lemma_add_mod_noop(n, padding as int, m);
                vstd::arithmetic::div_mod::lemma_small_mod(padding as nat, multiple as nat);
                vstd::arithmetic::div_mod::lemma_mod_self_0(m);
                vstd::arithmetic::div_mod::lemma_small_mod(0, multiple as nat);
                assert((n % m + padding as int % m) % m == (rem + (m - rem)) % m);
            }
        }
        Self::from_bytes_with_padding(bytes, padding)
    }

    /// Projects a padded slice back to plain bytes; padding becomes zero.
    pub fn as_bytes(bytes: &[ByteOrPad]) -> (r: Vec<u8>)
        ensures
            r@.len() == bytes@.len(),
            forall|i: int| 0 <= i < bytes@.len() ==> r@[i] == byte_of_pad_s(bytes@[i]),
    {
        let mut result: Vec<u8> = Vec::new();
        let mut i: usize = 0;
        while i < bytes.len()
            invariant
                i <= bytes@.len(),
                result@.len() == i,
                forall|j: int| 0 <= j < i ==> result@[j] == byte_of_pad_s(bytes@[j]),
            decreases bytes@.len() - i,
        {
            match bytes[i] {
                ByteOrPad::Byte(b) => result.push(b),
                ByteOrPad::Pad => result.push(0),
            }
            i = i + 1;
        }
        result
    }

    /// The field element this entry stands for: a byte keeps its value,
    /// padding becomes `-1`.
    pub fn to_field(&self) -> (r: Fe)
        ensures
            r.wf(),
            r@ == fe_of_pad_s(*self),
    {
        match self {
            ByteOrPad::Byte(b) => fe_from_u64(*b as u64),
            ByteOrPad::Pad => {
                let r = fe_neg(&fe_one());
                proof {
                    vstd::arithmetic::div_mod::lemma_small_mod(
                        (p_mod() - 1) as nat, p_mod());
                }
                r
            },
        }
    }

    /// Equality against a plain byte; padding equals no byte.
    pub fn eq_byte(&self, other: u8) -> (r: bool)
        ensures
            r == (*self == ByteOrPad::Byte(other)),
    {
        match self {
            ByteOrPad::Byte(b) => *b == other,
            ByteOrPad::Pad => false,
        }
    }
}

/// `polynomial_digest` of a byte string: `sum_i bytes[i] * p^(counter + i)`
/// in the scalar field.
pub open spec fn poly_digest(bytes: Seq<u8>, p: nat, counter: nat) -> nat
    decreases bytes.len(),
{
    if bytes.len() == 0 {
        0
    } else {
        fe_add_s(
            poly_digest(bytes.drop_last(), p, counter),
            fe_mul_s(bytes.last() as nat, fe_pow_s(p, (counter + bytes.len() - 1) as nat)),
        )
    }
}

/// Evaluates `sum_i bytes[i] * polynomial_input^(counter + i)` over the
/// scalar field.
pub fn polynomial_digest(bytes: &[u8], polynomial_input: &Fe, counter: u64) -> (r: Fe)
    requires
        polynomial_input.wf(),
    ensures
        r.wf(),
        r@ == poly_digest(bytes@, polynomial_input@, counter as nat),
{
    let mut monomial = if counter == 0 { fe_one() } else { fe_pow(polynomial_input, counter) };
    proof {
        assert(fe_pow_s(polynomial_input@, 0) == 1);
    }
    let mut accumulated = fe_zero();
    let mut i: usize = 0;
    while i < bytes.len()
        invariant
            polynomial_input.wf(),
            i <= bytes@.len(),
            monomial.wf(),
            monomial@ == fe_pow_s(polynomial_input@, (counter + i) as nat),
            accumulated.wf(),
            accumulated@ == poly_digest(bytes@.take(i as int), polynomial_input@, counter as nat),
        decreases bytes@.len() - i,
    {
        let b = fe_from_u64(bytes[i] as u64);
        let term = fe_mul(&b, &monomial);
        accumulated = fe_add(&accumulated, &term);
        monomial = fe_mul(&monomial, polynomial_input);
        proof {
            let pre = bytes@.take(i as int);
            let post = bytes@.take(i as int + 1);
            assert(post.drop_last() =~= pre);
            assert(post.last() == bytes@[i as int]);
            let p = polynomial_input@;
            let k = (counter + i) as nat;
            assert(fe_pow_s(p, (k + 1) as nat) == fe_mul_s(p, fe_pow_s(p, k)));
            assert(fe_mul_s(fe_pow_s(p, k), p) == fe_mul_s(p, fe_pow_s(p, k)));
        }
        i = i + 1;
    }
    proof {
        assert(bytes@.take(bytes@.len() as int) =~= bytes@);
    }
    accumulated
}

/// Every slot of the chunk is padding.
pub open spec fn all_pad(chunk: Seq<ByteOrPad>) -> bool {
    forall|i: int| 0 <= i < chunk.len() ==> chunk[i] is Pad
}

/// The 128-bit little-endian packing of a chunk: `sum_i byte_i * 2^(8 i)`,
/// padding contributing zero.
pub open spec fn packed_val(chunk: Seq<ByteOrPad>) -> nat
    decreases chunk.len(),
{
    if chunk.len() == 0 {
        0
    } else {
        packed_val(chunk.drop_last())
            + byte_of_pad_s(chunk.last()) as nat
                * vstd::arithmetic::power2::pow2((8 * (chunk.len() - 1)) as nat)
    }
}

/// The packed value of a chunk of at most 16 slots fits in 128 bits.
pub proof fn lemma_packed_val_bound(chunk: Seq<ByteOrPad>)
    ensures
        packed_val(chunk) < vstd::arithmetic::power2::pow2((8 * chunk.len()) as nat),
    decreases chunk.len(),
{
    vstd::arithmetic::power2::lemma_pow2_pos((8 * chunk.len()) as nat);
    if chunk.len() > 0 {
        lemma_packed_val_bound(chunk.drop_last());
        let k = (8 * (chunk.len() - 1)) as nat;
        vstd::arithmetic::power2::lemma_pow2_pos(k);
        vstd::arithmetic::power2::lemma_pow2_adds(k, 8);
        vstd::arithmetic::power2::lemma2_to64();
        assert(packed_val(chunk.drop_last()) + byte_of_pad_s(chunk.last()) as nat
            * vstd::arithmetic::power2::pow2(k)
            < 256 * vstd::arithmetic::power2::pow2(k)) by {
            assert(byte_of_pad_s(chunk.last()) as nat * vstd::arithmetic::power2::pow2(k)
                <= 255 * vstd::arithmetic::power2::pow2(k))
                by (nonlinear_arith)
                requires byte_of_pad_s(chunk.last()) as nat <= 255,
                    vstd::arithmetic::power2::pow2(k) > 0;
        }
    }
}

/// `2^128` is below the field modulus.
proof fn lemma_pow2_128_lt_p()
    ensures
        vstd::arithmetic::power2::pow2(128) < p_mod(),
{
    vstd::arithmetic::power2::lemma2_to64_rest();
    vstd::arithmetic::power2::lemma_pow2_adds(64, 64);
    assert(vstd::arithmetic::power2::pow2(128) == 0x10000000000000000 * 0x10000000000000000);
}

/// Packs a chunk of up to 16 slots into a field element, little-endian with
/// eight bits per slot; a fully padded chunk packs to nothing.
pub fn bytepack(bytes: &[ByteOrPad]) -> (r: Option<Fe>)
    requires
        bytes@.len() <= 16,
    ensures
        r is None <==> all_pad(bytes@),
        r is Some ==> r->0.wf() && r->0@ == packed_val(bytes@),
{
    let mut output = fe_zero();
    let mut pow = fe_one();
    let mut pad_count: usize = 0;
    let mut i: usize = 0;
    proof {
        vstd::arithmetic::power2::lemma2_to64();
    }
    while i < bytes.len()
        invariant
            bytes@.len() <= 16,
            i <= bytes@.len(),
            pad_count <= i,
            (pad_count == i) <==> all_pad(bytes@.take(i as int)),
            output.wf(),
            output@ == packed_val(bytes@.take(i as int)),
            pow.wf(),
            pow@ == vstd::arithmetic::power2::pow2((8 * i) as nat),
        decreases bytes@.len() - i,
    {
        proof {
            lemma_pow2_128_lt_p();
            lemma_packed_val_bound(bytes@.take(i as int));
            vstd::arithmetic::power2::lemma_pow2_adds((8 * i) as nat, 8);
            vstd::arithmetic::power2::lemma_pow2_pos((8 * i) as nat);
            vstd::arithmetic::power2::lemma2_to64();
            if 8 * i + 8 < 128 {
                vstd::arithmetic::power2::lemma_pow2_strictly_increases((8 * i + 8) as nat, 128);
            }
            assert(vstd::arithmetic::power2::pow2((8 * i + 8) as nat)
                <= vstd::arithmetic::power2::pow2(128));
        }
        let ghost old_out = output@;
        match bytes[i] {
            ByteOrPad::Byte(b) => {
                let bf = fe_from_u64(b as u64);
                let term = fe_mul(&bf, &pow);
                proof {
                    let p2 = vstd::arithmetic::power2::pow2((8 * i) as nat);
                    assert(b as nat * p2 <= 255 * p2) by (nonlinear_arith)
                        requires b as nat <= 255, p2 > 0;
                    assert(255 * p2 < 256 * p2) by (nonlinear_arith)
                        requires p2 > 0;
                    assert(b as nat * p2 < p_mod());
                    vstd::arithmetic::div_mod::lemma_small_mod(
                        (b as nat * p2) as nat, p_mod());
                    assert(term@ == b as nat * p2);
                    assert(old_out + b as nat * p2 < p_mod());
                    vstd::arithmetic::div_mod::lemma_small_mod(
                        (old_out + b as nat * p2) as nat, p_mod());
                }
                output = fe_add(&output, &term);
                proof {
                    let p2 = vstd::arithmetic::power2::pow2((8 * i) as nat);
                    assert(output@ == old_out + b as nat * p2);
                    assert(bytes@[i as int] == ByteOrPad::Byte(b));
                }
            },
            ByteOrPad::Pad => {
                pad_count = pad_count + 1;
            },
        }
        proof {
            let pre = bytes@.take(i as int);
            let post = bytes@.take(i as int + 1);
            assert(post.drop_last() =~= pre);
            assert(post.last() == bytes@[i as int]);
            assert(all_pad(post) <==> (all_pad(pre) && bytes@[i as int] is Pad)) by {
                if all_pad(pre) && bytes@[i as int] is Pad {
                    assert forall|j: int| 0 <= j < post.len() implies post[j] is Pad by {
                        if j < i as int {
                            assert(pre[j] is Pad);
                        }
                    }
                }
            }
            let p2 = vstd::arithmetic::power2::pow2((8 * i) as nat);
            let p2n = vstd::arithmetic::power2::pow2((8 * (i + 1)) as nat);
            assert(fe_mul_s(p2, 256) == p2n % p_mod());
            vstd::arithmetic::div_mod::lemma_small_mod(p2n, p_mod());
            assert(packed_val(post) == packed_val(pre)
                + byte_of_pad_s(bytes@[i as int]) as nat * p2);
            assert(old_out == packed_val(pre));
            if bytes@[i as int] is Byte {
                assert(output@ == old_out + byte_of_pad_s(bytes@[i as int]) as nat * p2);
            } else {
                assert(output@ == old_out);
                assert(byte_of_pad_s(bytes@[i as int]) == 0);
                assert(byte_of_pad_s(bytes@[i as int]) as nat * p2 == 0) by (nonlinear_arith)
                    requires byte_of_pad_s(bytes@[i as int]) == 0;
            }
            assert(output@ == packed_val(post));
        }
        let t256 = fe_from_u64(256);
        pow = fe_mul(&pow, &t256);
        i = i + 1;
    }
    proof {
        assert(bytes@.take(bytes@.len() as int) =~= bytes@);
    }
    if pad_count == bytes.len() {
        None
    } else {
        Some(output)
    }
}

/// Chained sponge over 16-byte chunks: every fully padded chunk is skipped,
/// every other chunk is packed and absorbed as `h = H(h, packed)`.
pub open spec fn data_hash_s(s: Seq<ByteOrPad>, h: nat) -> nat
    decreases s.len(),
{
    if s.len() < 16 {
        h
    } else if all_pad(s.take(16)) {
        data_hash_s(s.skip(16), h)
    } else {
        data_hash_s(s.skip(16), poseidon_2_s(h, packed_val(s.take(16))))
    }
}

/// Hashes a padded byte array with the chained Poseidon sponge, starting
/// from `seed` and skipping fully padded 16-byte chunks.
pub fn data_hasher(preimage: &[ByteOrPad], seed: &Fe) -> (r: Fe)
    requires
        preimage@.len() as int % 16 == 0,
        seed.wf(),
    ensures
        r.wf(),
        r@ == data_hash_s(preimage@, seed@),
{
    let mut hash_val = seed.dup();
    let n: usize = preimage.len();
    proof {
        assert(preimage@.skip(0) =~= preimage@);
    }
    let mut i: usize = 0;
    while i < n
        invariant
            preimage@.len() == n,
            preimage@.len() as int % 16 == 0,
            i <= preimage@.len(),
            i as int % 16 == 0,
            hash_val.wf(),
            data_hash_s(preimage@, seed@) == data_hash_s(preimage@.skip(i as int), hash_val@),
        decreases preimage@.len() - i,
    {
        proof {
            vstd::arithmetic::div_mod::lemma_sub_mod_noop(
                preimage@.len() as int, i as int, 16);
            if preimage@.len() - i < 16 {
                vstd::arithmetic::div_mod::lemma_small_mod(
                    (preimage@.len() - i) as nat, 16);
            }
            assert(i + 16 <= preimage@.len());
        }
        let mut chunk: Vec<ByteOrPad> = Vec::new();
        let mut j: usize = 0;
        while j < 16
            invariant
                preimage@.len() <= usize::MAX,
                i + 16 <= preimage@.len(),
                j <= 16,
                chunk@.len() == j,
                forall|k: int| 0 <= k < j ==> chunk@[k] == preimage@[i + k],
            decreases 16 - j,
        {
            chunk.push(preimage[i + j]);
            j = j + 1;
        }
        proof {
            let rest = preimage@.skip(i as int);
            assert(chunk@ =~= rest.take(16));
            assert(rest.skip(16) =~= preimage@.skip(i as int + 16));
        }
        let packed = bytepack(chunk.as_slice());
        match packed {
            Option::Some(f) => {
                hash_val = poseidon_two(&hash_val, &f);
            },
            Option::None => {},
        }
        proof {
            vstd::arithmetic::div_mod::lemma_add_mod_noop(i as int, 16, 16);
            vstd::arithmetic::div_mod::lemma_mod_self_0(16);
        }
        i = i + 16;
    }
    proof {
        assert(preimage@.skip(preimage@.len() as int) =~= Seq::<ByteOrPad>::empty());
    }
    hash_val
}

/// Circom-compatible Poseidon over the scalar field, for one or two inputs.
pub fn poseidon(preimage: &[Fe]) -> (r: Fe)
    requires
        preimage@.len() == 1 || preimage@.len() == 2,
        forall|i: int| 0 <= i < preimage@.len() ==> preimage@[i].wf(),
    ensures
        r.wf(),
        preimage@.len() == 1 ==> r@ == poseidon_1_s(preimage@[0]@),
        preimage@.len() == 2 ==> r@ == poseidon_2_s(preimage@[0]@, preimage@[1]@),
{
    if preimage.len() == 1 {
        poseidon_one(&preimage[0])
    } else {
        poseidon_two(&preimage[0], &preimage[1])
    }
}

/// A stack-encoding column and a tree-hash column, one pair per key of a
/// chosen JSON path.
pub type StackAndTreeHashes = (Vec<(Fe, Fe)>, Vec<(Fe, Fe)>);

/// Builds the stack and tree-hash columns that announce a chosen JSON key
/// path: `(1,1)` with the key's digest for object keys, `(2,i)` with a zero
/// hash for array indices.
pub fn json_tree_hasher(
    polynomial_input: &Fe,
    key_sequence: &Vec<crate::json::JsonKey>,
    max_stack_height: usize,
) -> (r: StackAndTreeHashes)
    requires
        polynomial_input.wf(),
        key_sequence@.len() <= max_stack_height,
    ensures
        r.0@.len() == key_sequence@.len(),
        r.1@.len() == key_sequence@.len(),
        forall|i: int|
            0 <= i < key_sequence@.len() ==> (#[trigger] r.0@[i]).0.wf() && r.0@[i].1.wf()
                && (r.0@[i].0@, r.0@[i].1@) == crate::json::chosen_stack_s(key_sequence@, i),
        forall|i: int|
            0 <= i < key_sequence@.len() ==> (#[trigger] r.1@[i]).0.wf() && r.1@[i].1.wf()
                && (r.1@[i].0@, r.1@[i].1@) == crate::json::chosen_tree_s(
                key_sequence@,
                polynomial_input@,
                i,
            ),
{
    let mut stack: Vec<(Fe, Fe)> = Vec::new();
    let mut tree_hashes: Vec<(Fe, Fe)> = Vec::new();
    let mut idx: usize = 0;
    while idx < key_sequence.len()
        invariant
            polynomial_input.wf(),
            idx <= key_sequence@.len(),
            stack@.len() == idx,
            tree_hashes@.len() == idx,
            forall|i: int|
                0 <= i < idx ==> (#[trigger] stack@[i]).0.wf() && stack@[i].1.wf()
                    && (stack@[i].0@, stack@[i].1@) == crate::json::chosen_stack_s(
                    key_sequence@,
                    i,
                ),
            forall|i: int|
                0 <= i < idx ==> (#[trigger] tree_hashes@[i]).0.wf() && tree_hashes@[i].1.wf()
                    && (tree_hashes@[i].0@, tree_hashes@[i].1@) == crate::json::chosen_tree_s(
                    key_sequence@,
                    polynomial_input@,
                    i,
                ),
        decreases key_sequence@.len() - idx,
    {
        match &key_sequence[idx] {
            crate::json::JsonKey::String(string) => {
                stack.push((fe_one(), fe_one()));
                let string_hash = polynomial_digest(
                    string.as_str().as_bytes(),
                    polynomial_input,
                    0,
                );
                tree_hashes.push((string_hash, fe_zero()));
            },
            crate::json::JsonKey::Num(array_idx) => {
                stack.push((fe_from_u64(2), fe_from_u64(*array_idx as u64)));
                tree_hashes.push((fe_zero(), fe_zero()));
            },
        }
        idx = idx + 1;
    }
    (stack, tree_hashes)
}

/// Folds a stack column and a tree-hash column into the single compressed
/// digest, three monomials per depth, leaving the value slot out.
pub fn compress_tree_hash(polynomial_input: &Fe, stack_and_tree_hashes: StackAndTreeHashes) -> (r:
    Fe)
    requires
        polynomial_input.wf(),
        stack_and_tree_hashes.0@.len() == stack_and_tree_hashes.1@.len(),
        forall|i: int|
            0 <= i < stack_and_tree_hashes.0@.len() ==> (#[trigger] stack_and_tree_hashes.0@[
            i]).0.wf() && stack_and_tree_hashes.0@[i].1.wf(),
        forall|i: int|
            0 <= i < stack_and_tree_hashes.1@.len() ==> (#[trigger] stack_and_tree_hashes.1@[
            i]).0.wf() && stack_and_tree_hashes.1@[i].1.wf(),
    ensures
        r.wf(),
        r@ == crate::json::compress_s(
            crate::json::fe_pairs_view(stack_and_tree_hashes.0@),
            crate::json::fe_pairs_view(stack_and_tree_hashes.1@),
            polynomial_input@,
        ),
{
    let mut accumulated = fe_zero();
    let mut monomial = fe_one();
    let n = stack_and_tree_hashes.0.len();
    let mut idx: usize = 0;
    while idx < n
        invariant
            polynomial_input.wf(),
            n == stack_and_tree_hashes.0@.len(),
            stack_and_tree_hashes.1@.len() == n,
            forall|i: int|
                0 <= i < n ==> (#[trigger] stack_and_tree_hashes.0@[i]).0.wf()
                    && stack_and_tree_hashes.0@[i].1.wf(),
            forall|i: int|
                0 <= i < n ==> (#[trigger] stack_and_tree_hashes.1@[i]).0.wf()
                    && stack_and_tree_hashes.1@[i].1.wf(),
            idx <= n,
            accumulated.wf(),
            monomial.wf(),
            crate::json::compress_s(
                crate::json::fe_pairs_view(stack_and_tree_hashes.0@),
                crate::json::fe_pairs_view(stack_and_tree_hashes.1@),
                polynomial_input@,
            ) == crate::json::compress_from(
                crate::json::fe_pairs_view(stack_and_tree_hashes.0@),
                crate::json::fe_pairs_view(stack_and_tree_hashes.1@),
                polynomial_input@,
                idx as nat,
                accumulated@,
                monomial@,
            ),
        decreases n - idx,
    {
        let t0 = fe_mul(&stack_and_tree_hashes.0[idx].0, &monomial);
        accumulated = fe_add(&accumulated, &t0);
        monomial = fe_mul(&monomial, polynomial_input);
        let t1 = fe_mul(&stack_and_tree_hashes.0[idx].1, &monomial);
        accumulated = fe_add(&accumulated, &t1);
        monomial = fe_mul(&monomial, polynomial_input);
        let t2 = fe_mul(&stack_and_tree_hashes.1[idx].0, &monomial);
        accumulated = fe_add(&accumulated, &t2);
        monomial = fe_mul(&monomial, polynomial_input);
        idx = idx + 1;
    }
    accumulated
}

/// The key and data bytes a circuit witness file carries.
#[derive(Debug, Clone)]
pub struct Witness {
    /// The serialized key to extract.
    pub key: Vec<u8>,
    /// The document the key is extracted from.
    pub data: Vec<u8>,
}

/// Law: the polynomial digest obeys the Horner recurrence.  For a non-empty
/// byte string, `polynomial_digest(bytes, p, 0)` equals
/// `bytes[0] + p * polynomial_digest(bytes[1..], p, 0)` in the field.
pub proof fn lemma_polynomial_digest_horner(bytes: Seq<u8>, p: nat)
    requires
        bytes.len() > 0,
    ensures
        poly_digest(bytes, p, 0) == fe_add_s(
            bytes[0] as nat,
            fe_mul_s(p, poly_digest(bytes.drop_first(), p, 0)),
        ),
    decreases bytes.len(),
{
    let b0 = bytes[0] as nat;
    if bytes.len() == 1 {
        assert(bytes.drop_last() =~= Seq::<u8>::empty());
        assert(bytes.drop_first() =~= Seq::<u8>::empty());
        assert(fe_pow_s(p, 0) == 1);
        vstd::arithmetic::div_mod::lemma_small_mod(b0, p_mod());
        vstd::arithmetic::div_mod::lemma_small_mod(0, p_mod());
        assert(fe_mul_s(b0, 1) == b0);
        assert(fe_mul_s(p, 0) == 0);
        assert(poly_digest(bytes, p, 0) == fe_add_s(0, b0));
        assert(fe_add_s(0, b0) == b0);
        assert(fe_add_s(b0, 0) == b0);
    } else {
        let dl = bytes.drop_last();
        let df = bytes.drop_first();
        let n = bytes.len();
        let bl = bytes.last() as nat;
        lemma_polynomial_digest_horner(dl, p);
        assert(dl.drop_first() =~= df.drop_last());
        assert(dl[0] == bytes[0]);
        assert(df.last() == bytes.last());
        let x = poly_digest(dl.drop_first(), p, 0);
        let pw2 = fe_pow_s(p, (n - 2) as nat);
        // poly(bytes) unfolds from the right, poly(df) likewise
        assert(poly_digest(bytes, p, 0) == fe_add_s(
            poly_digest(dl, p, 0),
            fe_mul_s(bl, fe_pow_s(p, (n - 1) as nat)),
        ));
        assert(poly_digest(df, p, 0) == fe_add_s(x, fe_mul_s(bl, pw2)));
        // distribute p over the right-hand sum
        crate::field::lemma_fe_mul_distrib(p, x, fe_mul_s(bl, pw2));
        // reassociate the additions
        crate::field::lemma_fe_add_assoc(b0, fe_mul_s(p, x), fe_mul_s(p, fe_mul_s(bl, pw2)));
        // shuffle p into the power
        crate::field::lemma_fe_mul_assoc(p, bl, pw2);
        assert(fe_mul_s(p, bl) == fe_mul_s(bl, p));
        crate::field::lemma_fe_mul_assoc(bl, p, pw2);
        assert(fe_pow_s(p, (n - 1) as nat) == fe_mul_s(p, pw2));
        assert(fe_add_s(b0, fe_mul_s(p, poly_digest(df, p, 0))) == fe_add_s(
            fe_add_s(b0, fe_mul_s(p, x)),
            fe_mul_s(bl, fe_pow_s(p, (n - 1) as nat)),
        ));
    }
}

/// Law: a digest counter only scales the digest.  For every byte string,
/// `polynomial_digest(bytes, p, k)` equals
/// `p^k * polynomial_digest(bytes, p, 0)` in the field.
pub proof fn lemma_polynomial_digest_offset(bytes: Seq<u8>, p: nat, k: nat)
    ensures
        poly_digest(bytes, p, k) == fe_mul_s(fe_pow_s(p, k), poly_digest(bytes, p, 0)),
    decreases bytes.len(),
{
    let pwk = fe_pow_s(p, k);
    if bytes.len() == 0 {
        assert(fe_mul_s(pwk, 0) == 0) by {
            assert(pwk * 0 == 0);
            vstd::arithmetic::div_mod::lemma_small_mod(0, p_mod());
        }
    } else {
        let dl = bytes.drop_last();
        let n = bytes.len();
        let bl = bytes.last() as nat;
        lemma_polynomial_digest_offset(dl, p, k);
        let x = poly_digest(dl, p, 0);
        let pwn1 = fe_pow_s(p, (n - 1) as nat);
        // exponents add under the counter offset
        crate::field::lemma_fe_pow_adds(p, k, (n - 1) as nat);
        assert(fe_pow_s(p, (k + n - 1) as nat) == fe_mul_s(pwk, pwn1));
        // shuffle the byte through the product
        crate::field::lemma_fe_mul_assoc(bl, pwk, pwn1);
        assert(fe_mul_s(bl, pwk) == fe_mul_s(pwk, bl));
        crate::field::lemma_fe_mul_assoc(pwk, bl, pwn1);
        // factor p^k out of the sum
        crate::field::lemma_fe_mul_distrib(pwk, x, fe_mul_s(bl, pwn1));
        assert(poly_digest(bytes, p, k) == fe_add_s(
            fe_mul_s(pwk, x),
            fe_mul_s(bl, fe_mul_s(pwk, pwn1)),
        ));
        assert(fe_mul_s(bl, fe_mul_s(pwk, pwn1)) == fe_mul_s(pwk, fe_mul_s(bl, pwn1)));
    }
}

/// Law: the data hasher ignores a fully padded trailing block.  Appending a
/// 16-slot block of padding to a 16-aligned input leaves the hash unchanged.
pub proof fn lemma_data_hasher_ignores_padding(x: Seq<ByteOrPad>, block: Seq<ByteOrPad>, seed: nat)
    requires
        x.len() as int % 16 == 0,
        block.len() == 16,
        all_pad(block),
    ensures
        data_hash_s(x + block, seed) == data_hash_s(x, seed),
    decreases x.len(),
{
    if x.len() == 0 {
        assert(x + block =~= block);
        assert(block.take(16) =~= block);
        assert(block.skip(16) =~= Seq::<ByteOrPad>::empty());
        assert(data_hash_s(block, seed) == data_hash_s(block.skip(16), seed));
        assert(data_hash_s(block.skip(16), seed) == seed);
        assert(data_hash_s(x, seed) == seed);
    } else {
        if x.len() < 16 {
            vstd::arithmetic::div_mod::lemma_small_mod(x.len(), 16);
            assert(false);
        }
        assert((x + block).take(16) =~= x.take(16));
        assert((x + block).skip(16) =~= x.skip(16) + block);
        vstd::arithmetic::div_mod::lemma_sub_mod_noop(x.len() as int, 16, 16);
        vstd::arithmetic::div_mod::lemma_mod_self_0(16);
        vstd::arithmetic::div_mod::lemma_small_mod(0, 16);
        assert(x.skip(16).len() as int % 16 == 0);
        let h2 = if all_pad(x.take(16)) {
            seed
        } else {
            poseidon_2_s(seed, packed_val(x.take(16)))
        };
        lemma_data_hasher_ignores_padding(x.skip(16), block, h2);
        assert(data_hash_s(x + block, seed) == data_hash_s(x.skip(16) + block, h2));
        assert(data_hash_s(x, seed) == data_hash_s(x.skip(16), h2));
    }
}

} // verus!
