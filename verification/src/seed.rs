//! Seed derivation for the configuration collaborator.
//!
//! A seed is either drawn at random or derived deterministically from
//! free-form text: the text is hashed with SHA-256 and the first sixteen hex
//! digits of the digest are read as a 64-bit value, so the same text always
//! names the same world.

use vstd::prelude::*;

use crate::config::{MapConfig, MAX_SEED};

verus! {

/// The 64 lowercase hexadecimal digits of the SHA-256 digest of a text's
/// UTF-8 bytes. A pure function of the text alone.
pub uninterp spec fn sha256_hex_of(text: Seq<char>) -> Seq<u8>;

/// Whether a byte is a lowercase hexadecimal digit.
pub open spec fn is_hex_digit(b: u8) -> bool {
    0x30 <= b <= 0x39 || 0x61 <= b <= 0x66
}

/// The numeric value of one lowercase hexadecimal digit byte.
pub open spec fn hex_digit_value(b: u8) -> int {
    if 0x30 <= b <= 0x39 {
        b - 0x30
    } else {
        b - 0x61 + 10
    }
}

/// The value of a big-endian string of hexadecimal digit bytes.
pub open spec fn hex_value(digits: Seq<u8>) -> int
    decreases digits.len(),
{
    if digits.len() == 0 {
        0
    } else {
        hex_value(digits.drop_last()) * 16 + hex_digit_value(digits.last())
    }
}

/// Sixteen raised to the given power.
pub open spec fn pow16(n: nat) -> int
    decreases n,
{
    if n == 0 {
        1
    } else {
        16 * pow16((n - 1) as nat)
    }
}

/// The value of a string of hex digits is nonnegative and below sixteen to
/// its length.
proof fn lemma_hex_value_bound(digits: Seq<u8>)
    requires
        forall|i: int| 0 <= i < digits.len() ==> is_hex_digit(#[trigger] digits[i]),
    ensures
        0 <= hex_value(digits) < pow16(digits.len()),
    decreases digits.len(),
{
    if digits.len() > 0 {
        lemma_hex_value_bound(digits.drop_last());
    }
}

/// Sixteen to a power grows with the power.
proof fn lemma_pow16_increases(a: nat, b: nat)
    requires
        a <= b,
    ensures
        0 < pow16(a) <= pow16(b),
    decreases b,
{
    if a < b {
        lemma_pow16_increases(a, (b - 1) as nat);
        assert(pow16(b) == 16 * pow16((b - 1) as nat));
    } else if b == 0 {
    } else {
        lemma_pow16_increases((a - 1) as nat, (b - 1) as nat);
    }
}

/// Relies on the sha256 crate's `digest` for `&str`: it hex-encodes the
/// SHA-256 hash of the string's UTF-8 bytes, yielding exactly 64 lowercase
/// hexadecimal digits, a function of the input alone.
#[verifier::external_body]
fn digest_hex(text: &str) -> (digest: Vec<u8>)
    ensures
        digest@ == sha256_hex_of(text@),
        digest@.len() == 64,
        forall|i: int| 0 <= i < digest@.len() ==> is_hex_digit(#[trigger] digest@[i]),
{
    sha256::digest(text).into_bytes()
}

/// Reads the leading sixteen hexadecimal digits as a big-endian 64-bit
/// value.
fn hex_prefix_to_u64(digits: &Vec<u8>) -> (value: u64)
    requires
        digits@.len() >= 16,
        forall|i: int| 0 <= i < digits@.len() ==> is_hex_digit(#[trigger] digits@[i]),
    ensures
        value as int == hex_value(digits@.take(16)),
{
    let mut value: u64 = 0;
    let mut i: usize = 0;
    while i < 16
        invariant
            i <= 16,
            digits@.len() >= 16,
            forall|j: int| 0 <= j < digits@.len() ==> is_hex_digit(#[trigger] digits@[j]),
            value as int == hex_value(digits@.take(i as int)),
        decreases 16 - i,
    {
        let ghost taken = digits@.take(i as int);
        proof {
            assert(forall|j: int| 0 <= j < taken.len() ==> is_hex_digit(#[trigger] taken[j]));
            lemma_hex_value_bound(taken);
            lemma_pow16_increases(i as nat, 15);
            reveal_with_fuel(pow16, 17);
            assert(pow16(15) == 0x1000000000000000);
        }
        let b = digits[i];
        let d: u64 = if b >= 0x61 {
            (b - 0x61 + 10) as u64
        } else {
            (b - 0x30) as u64
        };
        value = value * 16 + d;
        proof {
            let next = digits@.take(i + 1);
            assert(next.drop_last() =~= taken);
            assert(next.last() == digits@[i as int]);
        }
        i += 1;
    }
    value
}

/// Derives a seed from free-form text: the value of the first sixteen hex
/// digits of the text's SHA-256 digest. Deterministic, so a text names the
/// same world on every run.
pub fn seed_from_text(text: &str) -> (seed: u64)
    ensures
        seed as int == hex_value(sha256_hex_of(text@).take(16)),
{
    let digest = digest_hex(text);
    hex_prefix_to_u64(&digest)
}

/// Relies on rand's `random` for `u64`; nothing is promised of the drawn
/// value.
#[verifier::external_body]
fn random_seed() -> u64 {
    rand::random()
}

/// Replaces the configuration's seed with a randomly drawn one, reduced
/// into the configuration's seed range, leaving the sizes alone. The caller
/// pairs the change with a reload request.
pub fn randomize_seed(config: &mut MapConfig)
    ensures
        final(config).tile_size == old(config).tile_size,
        final(config).chunk_tile_count == old(config).chunk_tile_count,
        final(config).seed <= MAX_SEED,
        old(config).valid() ==> final(config).valid(),
{
    let drawn = random_seed();
    config.seed = drawn % (MAX_SEED + 1);
}

} // verus!
