//! The hash of a value as one machine word, built from a mixing step that
//! every kind of value shares.

use vstd::prelude::*;

verus! {

/// Where every hash starts.
pub const HASH_SEED: u64 = 0xcbf2_9ce4_8422_2325;

/// What every mixing step multiplies by.
pub const HASH_PRIME: u64 = 0x0000_0100_0000_01b3;

/// The hash `h` after the word `x` was mixed in.
pub open spec fn mix(h: u64, x: u64) -> u64 {
    (h ^ x).wrapping_mul(HASH_PRIME)
}

/// Mixes the word `x` into the hash `h`.
pub fn mix_word(h: u64, x: u64) -> (r: u64)
    ensures
        r == mix(h, x),
{
    (h ^ x).wrapping_mul(HASH_PRIME)
}

/// The hash of a text: its characters mixed in, in order.
pub open spec fn hash_chars(text: Seq<char>) -> u64
    decreases text.len(),
{
    if text.len() == 0 {
        HASH_SEED
    } else {
        mix(hash_chars(text.drop_last()), text.last() as u64)
    }
}

/// The hash of a text.
pub fn hash_str(text: &str) -> (h: u64)
    ensures
        h == hash_chars(text@),
{
    let mut h: u64 = HASH_SEED;
    for c in it: text.chars()
        invariant
            it.seq() == text@,
            h == hash_chars(text@.take(it.index())),
    {
        proof {
            let n = it.index();
            assert(text@.take(n + 1).drop_last() =~= text@.take(n));
            assert(text@.take(n + 1).last() == text@[n]);
        }
        h = mix_word(h, c as u64);
    }
    proof {
        assert(text@.take(text@.len() as int) =~= text@);
    }
    h
}

/// `Hasher::write_u64`: feeds one word to the hasher.
#[verifier::external_body]
pub(crate) fn write_u64<H: core::hash::Hasher>(state: &mut H, word: u64) {
    state.write_u64(word)
}

} // verus!
