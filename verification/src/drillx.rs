//! The asymmetric hash construction: an expensive, non-parallelizable digest
//! step over a (challenge, nonce) pair, a cheap keccak finalization that an
//! on-chain verifier can recompute, and the leading-zero-bit difficulty
//! metric over the resulting verification hash.

use vstd::prelude::*;
use vstd::std_specs::bits::u8_leading_zeros;
use vstd::std_specs::bits::axiom_u8_leading_zeros;

verus! {

/// The result of one attempt of the construction: the expensive digest and
/// the verification hash derived from it.
#[derive(Default)]
pub struct Hash {
    /// The 16-byte digest produced by the expensive step.
    pub d: [u8; 16],
    /// The 32-byte verification hash: the keccak digest of `d`.
    pub h: [u8; 32],
}

/// A solution which an on-chain verifier can validate cheaply: the digest
/// together with the nonce it was derived from.
#[derive(Clone, Copy, Debug)]
pub struct Solution {
    /// The 16-byte digest of the expensive step.
    pub d: [u8; 16],
    /// The 8-byte nonce, little-endian.
    pub n: [u8; 8],
}

/// Failures of the construction and of the search.
#[derive(Debug, Clone, Copy, PartialEq, Eq, Structural)]
pub enum DrillxError {
    /// The expensive step rejected the (challenge, nonce) pair.
    BadEquix,
    /// No candidate at all was found before the deadline.
    NoSolutions,
}

/// Number of leading zero bits of a byte string, reading each byte from its
/// most significant bit.
pub open spec fn spec_difficulty(h: Seq<u8>) -> nat
    decreases h.len(),
{
    if h.len() == 0 {
        0
    } else if h[0] == 0u8 {
        (8 + spec_difficulty(h.drop_first())) as nat
    } else {
        u8_leading_zeros(h[0]) as nat
    }
}

/// Bit `i` of a byte string, counting from the most significant bit of the
/// first byte.
pub open spec fn spec_bit(h: Seq<u8>, i: int) -> bool
    recommends
        0 <= i < 8 * h.len(),
{
    (h[i / 8] >> ((7 - (i % 8)) as u8)) & 1u8 == 1u8
}

/// Bit `i - 8` of the tail is bit `i` of the whole string.
proof fn lemma_bit_shift(h: Seq<u8>, i: int)
    requires
        h.len() >= 1,
        8 <= i < 8 * h.len(),
    ensures
        spec_bit(h, i) == spec_bit(h.drop_first(), i - 8),
{
    assert((i - 8) / 8 == i / 8 - 1);
    assert((i - 8) % 8 == i % 8);
    assert(h.drop_first()[(i - 8) / 8] == h[i / 8]);
}

/// The difficulty of a byte string is exactly the length of its leading run
/// of zero bits: every bit below it is zero, and the bit at it (when the
/// string is not all zero) is one.
pub proof fn lemma_difficulty_counts_leading_zero_bits(h: Seq<u8>)
    ensures
        spec_difficulty(h) <= 8 * h.len(),
        forall|i: int| 0 <= i < spec_difficulty(h) ==> !spec_bit(h, i),
        spec_difficulty(h) < 8 * h.len() ==> spec_bit(h, spec_difficulty(h) as int),
    decreases h.len(),
{
    if h.len() == 0 {
    } else if h[0] == 0u8 {
        lemma_difficulty_counts_leading_zero_bits(h.drop_first());
        let d = spec_difficulty(h) as int;
        assert forall|i: int| 0 <= i < d implies !spec_bit(h, i) by {
            if i < 8 {
                assert(h[i / 8] == 0u8);
                let s = (7 - (i % 8)) as u8;
                assert((0u8 >> s) & 1u8 == 0u8) by (bit_vector);
            } else {
                lemma_bit_shift(h, i);
            }
        }
        if d < 8 * h.len() {
            lemma_bit_shift(h, d);
        }
    } else {
        axiom_u8_leading_zeros(h[0]);
        let lz = u8_leading_zeros(h[0]) as int;
        let b0 = h[0];
        assert forall|i: int| 0 <= i < lz implies !spec_bit(h, i) by {
            let j = (7 - i) as u8;
            assert(8 - u8_leading_zeros(b0) <= j < 8);
            assert((b0 >> j) & 1u8 == 0u8);
        }
        let s = (7 - lz) as u8;
        assert((b0 >> s) & 1u8 != 0u8 ==> (b0 >> s) & 1u8 == 1u8) by (bit_vector);
    }
}

/// Monotonicity in leading zero bits: a hash whose bits are zero at least as
/// far as another hash's difficulty scores at least that difficulty.
pub proof fn lemma_difficulty_monotonic(h1: Seq<u8>, h2: Seq<u8>)
    requires
        h1.len() == h2.len(),
        forall|i: int| 0 <= i < spec_difficulty(h1) ==> !spec_bit(h2, i),
    ensures
        spec_difficulty(h2) >= spec_difficulty(h1),
{
    lemma_difficulty_counts_leading_zero_bits(h1);
    lemma_difficulty_counts_leading_zero_bits(h2);
}

/// A zero prefix of `i` bytes contributes exactly `8 * i` to the difficulty.
proof fn lemma_difficulty_zero_prefix(h: Seq<u8>, i: int)
    requires
        0 <= i <= h.len(),
        forall|j: int| 0 <= j < i ==> h[j] == 0u8,
    ensures
        spec_difficulty(h) == 8 * i + spec_difficulty(h.skip(i)),
    decreases i,
{
    if i == 0 {
        assert(h.skip(0) =~= h);
    } else {
        lemma_difficulty_zero_prefix(h.drop_first(), i - 1);
        assert(h.drop_first().skip(i - 1) =~= h.skip(i));
    }
}

/// The number of leading zero bits on a 32-byte hash: the difficulty metric.
/// Total: defined for every input, all-zero and all-ones included.
pub fn difficulty(hash: [u8; 32]) -> (r: u32)
    ensures
        r == spec_difficulty(hash@),
{
    let mut count: u32 = 0;
    let mut i: usize = 0;
    while i < 32
        invariant
            0 <= i <= 32,
            count == 8 * i,
            forall|j: int| 0 <= j < i ==> hash@[j] == 0u8,
        decreases 32 - i,
    {
        let lz = hash[i].leading_zeros();
        proof {
            axiom_u8_leading_zeros(hash@[i as int]);
            lemma_difficulty_zero_prefix(hash@, i as int);
        }
        count = count + lz;
        if lz < 8 {
            proof {
                assert(hash@.skip(i as int)[0] == hash@[i as int]);
            }
            return count;
        }
        i = i + 1;
    }
    proof {
        lemma_difficulty_zero_prefix(hash@, 32);
    }
    count
}

impl Hash {
    /// The leading number of zero bits on the verification hash.
    pub fn difficulty(&self) -> (r: u32)
        ensures
            r == spec_difficulty(self.h@),
    {
        difficulty(self.h)
    }
}

impl Solution {
    /// Builds a new verifiable solution from a digest and nonce.
    pub fn new(digest: [u8; 16], nonce: [u8; 8]) -> (r: Solution)
        ensures
            r.d == digest,
            r.n == nonce,
    {
        Solution { d: digest, n: nonce }
    }

    /// The fixed 24-byte wire record of a solution: the digest bytes then the
    /// nonce bytes, in that order, with no padding.
    pub fn to_bytes(&self) -> (r: Vec<u8>)
        ensures
            r@ == self.d@ + self.n@,
    {
        let mut out: Vec<u8> = Vec::new();
        let mut i: usize = 0;
        while i < 16
            invariant
                0 <= i <= 16,
                out@ == self.d@.take(i as int),
            decreases 16 - i,
        {
            out.push(self.d[i]);
            proof {
                assert(self.d@.take(i + 1) =~= self.d@.take(i as int).push(self.d@[i as int]));
            }
            i = i + 1;
        }
        let mut j: usize = 0;
        while j < 8
            invariant
                0 <= j <= 8,
                out@ == self.d@ + self.n@.take(j as int),
            decreases 8 - j,
        {
            out.push(self.n[j]);
            proof {
                assert(self.d@ + self.n@.take(j + 1) =~= (self.d@ + self.n@.take(j as int)).push(
                    self.n@[j as int],
                ));
            }
            j = j + 1;
        }
        proof {
            assert(self.d@.take(16) =~= self.d@);
            assert(self.n@.take(8) =~= self.n@);
        }
        out
    }
}

/// What `equix::solve` returns for a given seed: the solutions of the puzzle,
/// each 16 bytes, in the solver's order, or nothing when the seed is
/// rejected.
pub uninterp spec fn equix_digests_of(seed: Seq<u8>) -> Option<Seq<Seq<u8>>>;

/// What the keccak-256 hash of a byte string is.
pub uninterp spec fn keccak_of(bytes: Seq<u8>) -> Seq<u8>;

/// Relies on equix::solve: it deterministically derives the puzzle's
/// solutions from the seed bytes alone, each solution 16 bytes long, and
/// fails only when it rejects the seed.
#[verifier::external_body]
fn equix_solve(seed: &[u8]) -> (r: Option<Vec<[u8; 16]>>)
    ensures
        (match (r, equix_digests_of(seed@)) {
            (Some(v), Some(ds)) => v@.map_values(|d: [u8; 16]| d@) == ds,
            (None, None) => true,
            _ => false,
        }),
{
    match equix::solve(seed) {
        Ok(sols) => Some(sols.iter().map(|s| s.to_bytes()).collect()),
        Err(_) => None,
    }
}

/// Relies on solana_program::keccak::hashv: the 32-byte keccak-256 digest of
/// the input bytes, a function of those bytes alone.
#[verifier::external_body]
fn keccak16(bytes: &[u8; 16]) -> (r: [u8; 32])
    ensures
        r@ == keccak_of(bytes@),
{
    solana_program::keccak::hashv(&[bytes.as_slice()]).0
}

/// The digest the expensive step owes for a pair: the first solution of the
/// equix puzzle seeded by challenge-then-nonce, when one exists.
pub open spec fn spec_digest(c: Seq<u8>, n: Seq<u8>) -> Option<Seq<u8>> {
    match equix_digests_of(c + n) {
        Some(ds) => if ds.len() > 0 {
            Some(ds[0])
        } else {
            None
        },
        None => None,
    }
}

/// The verification hash a pair leads to, when the construction accepts it.
pub open spec fn spec_hash(c: Seq<u8>, n: Seq<u8>) -> Option<Seq<u8>> {
    match spec_digest(c, n) {
        Some(d) => Some(keccak_of(d)),
        None => None,
    }
}

/// Concatenates a challenge and a nonce into the seed of the expensive step.
pub fn seed(challenge: &[u8; 32], nonce: &[u8; 8]) -> (r: Vec<u8>)
    ensures
        r@ == challenge@ + nonce@,
{
    let mut out: Vec<u8> = Vec::new();
    let mut i: usize = 0;
    while i < 32
        invariant
            0 <= i <= 32,
            out@ == challenge@.take(i as int),
        decreases 32 - i,
    {
        out.push(challenge[i]);
        proof {
            assert(challenge@.take(i + 1) =~= challenge@.take(i as int).push(
                challenge@[i as int],
            ));
        }
        i = i + 1;
    }
    let mut j: usize = 0;
    while j < 8
        invariant
            0 <= j <= 8,
            out@ == challenge@.take(32) + nonce@.take(j as int),
        decreases 8 - j,
    {
        out.push(nonce[j]);
        proof {
            assert(challenge@.take(32) + nonce@.take(j + 1) =~= (challenge@.take(32)
                + nonce@.take(j as int)).push(nonce@[j as int]));
        }
        j = j + 1;
    }
    proof {
        assert(challenge@.take(32) =~= challenge@);
        assert(nonce@.take(8) =~= nonce@);
    }
    out
}

/// The expensive step. Deterministic and side-effect-free; rejects the
/// bounded set of pairs on which the underlying puzzle has no solution.
pub fn compute(challenge: &[u8; 32], nonce: &[u8; 8]) -> (r: Result<[u8; 16], DrillxError>)
    ensures
        (match spec_digest(challenge@, nonce@) {
            Some(d) => r matches Ok(dg) && dg@ == d,
            None => r matches Err(e) && e == DrillxError::BadEquix,
        }),
{
    let s = seed(challenge, nonce);
    match equix_solve(s.as_slice()) {
        Some(ds) => {
            if ds.len() > 0 {
                proof {
                    let m = ds@.map_values(|d: [u8; 16]| d@);
                    assert(m[0] == ds@[0]@);
                }
                Ok(ds[0])
            } else {
                Err(DrillxError::BadEquix)
            }
        },
        None => Err(DrillxError::BadEquix),
    }
}

/// The cheap step: the keccak digest of the 16 digest bytes, which a verifier
/// recomputes without repeating the expensive step.
pub fn finalize(digest: &[u8; 16]) -> (r: [u8; 32])
    ensures
        r@ == keccak_of(digest@),
{
    keccak16(digest)
}

/// One full attempt: the expensive step, then the cheap finalization.
pub fn hash(challenge: &[u8; 32], nonce: &[u8; 8]) -> (r: Result<Hash, DrillxError>)
    ensures
        (match spec_digest(challenge@, nonce@) {
            Some(d) => r matches Ok(hh) && hh.d@ == d && hh.h@ == keccak_of(d),
            None => r matches Err(e) && e == DrillxError::BadEquix,
        }),
{
    match compute(challenge, nonce) {
        Ok(d) => {
            let h = finalize(&d);
            Ok(Hash { d, h })
        },
        Err(e) => Err(e),
    }
}

/// Repeated attempts on one (challenge, nonce) pair agree: the digest, and
/// with it the verification hash, is a function of the pair alone.
pub proof fn lemma_construction_deterministic(
    c: Seq<u8>,
    n: Seq<u8>,
    r1: Option<Seq<u8>>,
    r2: Option<Seq<u8>>,
)
    requires
        r1 == spec_digest(c, n),
        r2 == spec_digest(c, n),
    ensures
        r1 == r2,
        r1 matches Some(d1) ==> (r2 matches Some(d2) && keccak_of(d1) == keccak_of(d2)),
{
}

} // verus!
