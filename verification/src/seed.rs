use vstd::prelude::*;
use vstd::string::StringSliceAdditionalSpecFns;

verus! {

/// The number of buckets a seed string is hashed into; a room's jitter is
/// its bucket divided by this number, a value in `[0, 1)`.
pub const RAND_BUCKETS: u64 = 10_000;

/// The hash of a seed string's bytes: starting from 1, each byte `b` takes
/// the hash `h` to `h * 31 + b`, modulo 2^64.
pub open spec fn seed_hash(bytes: Seq<u8>) -> u64
    decreases bytes.len(),
{
    if bytes.len() == 0 {
        1
    } else {
        ((seed_hash(bytes.drop_last()) * 31 + bytes.last()) % 0x1_0000_0000_0000_0000) as u64
    }
}

/// One step of the hash, computed with wrapping arithmetic.
fn hash_step(h: u64, b: u8) -> (r: u64)
    ensures
        r == (h * 31 + b) % 0x1_0000_0000_0000_0000,
{
    let m = h.wrapping_mul(31);
    let r = m.wrapping_add(b as u64);
    proof {
        let big: int = 0x1_0000_0000_0000_0000;
        assert(m == (h * 31) % big);
        vstd::arithmetic::div_mod::lemma_add_mod_noop(h * 31, b as int, big);
        vstd::arithmetic::div_mod::lemma_small_mod(b as nat, big as nat);
        if m + b > u64::MAX {
            vstd::arithmetic::div_mod::lemma_mod_sub_multiples_vanish(m + b, big);
        }
        vstd::arithmetic::div_mod::lemma_small_mod((r as int) as nat, big as nat);
    }
    r
}

/// The deterministic pseudo-random bucket of a seed string (a room's id),
/// in `0..RAND_BUCKETS`: its hash modulo `RAND_BUCKETS`.
pub fn rand_bucket(seed: &str) -> (bucket: u64)
    ensures
        bucket == seed_hash(seed.spec_bytes()) % RAND_BUCKETS,
        bucket < RAND_BUCKETS,
{
    let bytes = seed.as_bytes();
    let mut h: u64 = 1;
    for i in 0..bytes.len()
        invariant
            bytes@ == seed.spec_bytes(),
            h == seed_hash(bytes@.take(i as int)),
    {
        assert(bytes@.take(i + 1).drop_last() =~= bytes@.take(i as int));
        h = hash_step(h, bytes[i]);
    }
    assert(bytes@.take(bytes@.len() as int) =~= bytes@);
    h % RAND_BUCKETS
}

/// The bucket hashes a seed's raw bytes, one byte at a time and without any
/// change to the bytes: the empty seed hashes to 1, and appending any byte `b`
/// to a seed takes its hash `h` to `h * 31 + b` modulo 2^64.
pub proof fn lemma_seed_hash_bytes(s: Seq<u8>, b: u8)
    ensures
        seed_hash(Seq::<u8>::empty()) == 1,
        seed_hash(s.push(b)) == (seed_hash(s) * 31 + b) % 0x1_0000_0000_0000_0000,
{
    assert(s.push(b).drop_last() =~= s);
}

} // verus!
