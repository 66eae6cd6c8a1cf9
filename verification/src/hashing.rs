//! Deterministic XXH3 hashing of fixed byte encodings.

use vstd::prelude::*;

use crate::api::identifiers::LogicalIndexId;

verus! {

/// Domain-separates the first half of a rotation seed.
pub const ROTATION_SEED_DOMAIN: u64 = 0x4b54_414e_4e01_b101;

/// Domain-separates the second half of a rotation seed.
pub const ROTATION_SEED_SECOND_DOMAIN: u64 = 0x4b54_414e_4e01_b102;

/// Domain-separates the Leaf Entry projection fingerprint.
pub const ENTRY_FINGERPRINT_DOMAIN: u64 = 0x4b54_414e_4e01_b1a2;

/// The XXH3 64-bit hash of bytes.
pub uninterp spec fn xxh3_64_of(bytes: Seq<u8>) -> u64;

/// The seeded XXH3 128-bit hash of bytes.
pub uninterp spec fn xxh3_128_of(bytes: Seq<u8>, seed: u64) -> u128;

/// Calls `xxhash_rust::xxh3::xxh3_64`. Claims only that the hash is a function
/// of the bytes: [`xxh3_64_of`] names it.
#[verifier::external_body]
fn hash_64(bytes: &Vec<u8>) -> (res: u64)
    ensures
        res == xxh3_64_of(bytes@),
{
    xxhash_rust::xxh3::xxh3_64(bytes.as_slice())
}

/// Calls `xxhash_rust::xxh3::xxh3_128_with_seed`. Claims only that the hash is
/// a function of the bytes and the seed: [`xxh3_128_of`] names it.
#[verifier::external_body]
fn hash_128(bytes: &Vec<u8>, seed: u64) -> (res: u128)
    ensures
        res == xxh3_128_of(bytes@, seed),
{
    xxhash_rust::xxh3::xxh3_128_with_seed(bytes.as_slice(), seed)
}

/// The `n` least significant bytes of a number, least significant first.
pub open spec fn le_bytes(value: nat, n: nat) -> Seq<u8>
    decreases n,
{
    if n == 0 {
        Seq::empty()
    } else {
        seq![(value % 256) as u8] + le_bytes(value / 256, (n - 1) as nat)
    }
}

/// Little-endian bytes determine the number they encode.
pub proof fn le_bytes_injective(a: nat, b: nat, n: nat)
    requires
        le_bytes(a, n) == le_bytes(b, n),
        a < vstd::arithmetic::power::pow(256, n),
        b < vstd::arithmetic::power::pow(256, n),
    ensures
        a == b,
    decreases n,
{
    vstd::arithmetic::power::lemma_pow0(256);
    if n > 0 {
        let rest_a = le_bytes(a / 256, (n - 1) as nat);
        let rest_b = le_bytes(b / 256, (n - 1) as nat);
        assert(le_bytes(a, n)[0] == (a % 256) as u8);
        assert(le_bytes(b, n)[0] == (b % 256) as u8);
        assert(rest_a =~= le_bytes(a, n).drop_first());
        assert(rest_b =~= le_bytes(b, n).drop_first());
        reveal(vstd::arithmetic::power::pow);
        assert(vstd::arithmetic::power::pow(256, n) == 256 * vstd::arithmetic::power::pow(
            256,
            (n - 1) as nat,
        ));
        le_bytes_injective(a / 256, b / 256, (n - 1) as nat);
    }
}

fn encode_le(value: u128, n: usize) -> (res: Vec<u8>)
    ensures
        res@ == le_bytes(value as nat, n as nat),
{
    let mut bytes: Vec<u8> = Vec::new();
    let mut rest: u128 = value;
    let mut done: usize = 0;
    assert(Seq::<u8>::empty() + le_bytes(value as nat, n as nat) =~= le_bytes(
        value as nat,
        n as nat,
    ));
    while done < n
        invariant
            done <= n,
            bytes@ + le_bytes(rest as nat, (n - done) as nat) == le_bytes(value as nat, n as nat),
        decreases n - done,
    {
        let low: u8 = (rest % 256) as u8;
        let ghost before = bytes@;
        bytes.push(low);
        proof {
            let tail = le_bytes((rest / 256) as nat, (n - done - 1) as nat);
            assert(le_bytes(rest as nat, (n - done) as nat) == seq![low] + tail);
            assert(before + (seq![low] + tail) =~= bytes@ + tail);
        }
        rest = rest / 256;
        done = done + 1;
    }
    assert(bytes@ + le_bytes(rest as nat, 0) =~= bytes@);
    bytes
}

/// The eight bytes of a number, most significant first.
pub open spec fn be_bytes_64(value: u64) -> Seq<u8> {
    le_bytes(value as nat, 8).reverse()
}

fn encode_be_64(value: u64) -> (res: Vec<u8>)
    ensures
        res@ == be_bytes_64(value),
{
    let little = encode_le(value as u128, 8);
    let mut bytes: Vec<u8> = Vec::new();
    let mut left: usize = little.len();
    proof {
        le_bytes_len(value as nat, 8);
    }
    while left > 0
        invariant
            left <= little@.len(),
            bytes@.len() == little@.len() - left,
            forall|i: int|
                0 <= i < bytes@.len() ==> bytes@[i] == little@[little@.len() - 1 - i],
        decreases left,
    {
        left = left - 1;
        bytes.push(little[left]);
    }
    assert(bytes@ =~= be_bytes_64(value));
    bytes
}

proof fn le_bytes_len(value: nat, n: nat)
    ensures
        le_bytes(value, n).len() == n,
    decreases n,
{
    if n > 0 {
        le_bytes_len(value / 256, (n - 1) as nat);
    }
}

/// Returns the jitter sample of one retry sequence number.
pub fn jitter_sample(sequence: u64) -> (res: u64)
    ensures
        res == xxh3_64_of(le_bytes(sequence as nat, 8)),
{
    hash_64(&encode_le(sequence as u128, 8))
}

/// The domain of a rotation seed's second half.
pub open spec fn second_domain(first: u128) -> u64 {
    ROTATION_SEED_SECOND_DOMAIN ^ ((first % 0x1_0000_0000_0000_0000) as u64)
}

/// The rotation seed made of two hashes: their little-endian bytes in order.
pub open spec fn seed_bytes(first: u128, second: u128) -> Seq<u8> {
    le_bytes(first as nat, 16) + le_bytes(second as nat, 16)
}

/// Assembles a 32-byte rotation seed from its two halves.
pub fn rotation_seed_from(first: u128, second: u128) -> (res: Vec<u8>)
    ensures
        res@ == seed_bytes(first, second),
        res@.len() == 32,
{
    let mut seed = encode_le(first, 16);
    let mut rest = encode_le(second, 16);
    proof {
        le_bytes_len(first as nat, 16);
        le_bytes_len(second as nat, 16);
    }
    seed.append(&mut rest);
    seed
}

/// The rotation seed of a Logical Index.
pub open spec fn rotation_seed(id: u64) -> Seq<u8> {
    let first = xxh3_128_of(be_bytes_64(id), ROTATION_SEED_DOMAIN);
    let second = xxh3_128_of(le_bytes(first as nat, 16), second_domain(first));
    seed_bytes(first, second)
}

/// Derives the immutable 32-byte rotation seed of a Logical Index from its
/// never-reused identity.
pub fn derive_rotation_seed(id: LogicalIndexId) -> (res: Vec<u8>)
    ensures
        res@ == rotation_seed(id@),
        res@.len() == 32,
{
    let first: u128 = hash_128(&encode_be_64(id.get()), ROTATION_SEED_DOMAIN);
    let low: u64 = (first % 0x1_0000_0000_0000_0000) as u64;
    let second: u128 = hash_128(&encode_le(first, 16), ROTATION_SEED_SECOND_DOMAIN ^ low);
    rotation_seed_from(first, second)
}

/// The fingerprint of one canonical Leaf Entry encoding.
pub open spec fn fingerprint(canonical: Seq<u8>) -> Seq<u8> {
    le_bytes(xxh3_128_of(canonical, ENTRY_FINGERPRINT_DOMAIN) as nat, 16)
}

/// Fingerprints one canonical Leaf Entry encoding. Equal encodings have equal
/// fingerprints.
pub fn entry_fingerprint(canonical: &Vec<u8>) -> (res: Vec<u8>)
    ensures
        res@ == fingerprint(canonical@),
        res@.len() == 16,
{
    let hash: u128 = hash_128(canonical, ENTRY_FINGERPRINT_DOMAIN);
    proof {
        le_bytes_len(hash as nat, 16);
    }
    encode_le(hash, 16)
}

/// A number is stored byte by byte, the lowest first: each byte is one digit to
/// the base 256.
pub proof fn numbers_are_stored_digit_by_digit(value: nat, n: nat, i: nat)
    requires
        i < n,
    ensures
        le_bytes(value, n).len() == n,
        le_bytes(value, n)[i as int] == value / (vstd::arithmetic::power::pow(256, i) as nat) % 256,
        be_bytes_64(value as u64).len() == 8,
        i < 8 ==> be_bytes_64(value as u64)[7 - i] == le_bytes((value as u64) as nat, 8)[i as int],
    decreases n,
{
    le_bytes_len(value, n);
    le_bytes_len((value as u64) as nat, 8);
    let power = vstd::arithmetic::power::pow(256, i);
    vstd::arithmetic::power::lemma_pow_positive(256, i);
    if i == 0 {
        vstd::arithmetic::power::lemma_pow0(256);
        assert(value / 1 == value);
    } else {
        numbers_are_stored_digit_by_digit(value / 256, (n - 1) as nat, (i - 1) as nat);
        le_bytes_len(value / 256, (n - 1) as nat);
        assert(le_bytes(value, n)[i as int] == le_bytes(value / 256, (n - 1) as nat)[i - 1]);
        let less = vstd::arithmetic::power::pow(256, (i - 1) as nat);
        vstd::arithmetic::power::lemma_pow_positive(256, (i - 1) as nat);
        vstd::arithmetic::power::lemma_pow_adds(256, 1, (i - 1) as nat);
        vstd::arithmetic::power::lemma_pow1(256);
        assert(power == 256 * less);
        vstd::arithmetic::div_mod::lemma_div_denominator(value as int, 256, less);
    }
}

/// A seed holds its first half before its second; equal seeds have equal halves.
pub proof fn seeds_hold_both_halves(first: u128, second: u128, i: int)
    requires
        0 <= i < 16,
    ensures
        seed_bytes(first, second).len() == 32,
        seed_bytes(first, second)[i] == le_bytes(first as nat, 16)[i],
        seed_bytes(first, second)[16 + i] == le_bytes(second as nat, 16)[i],
        fingerprint(seed_bytes(first, second)).len() == 16,
{
    le_bytes_len(first as nat, 16);
    le_bytes_len(second as nat, 16);
    le_bytes_len(
        xxh3_128_of(seed_bytes(first, second), ENTRY_FINGERPRINT_DOMAIN) as nat,
        16,
    );
}

} // verus!
