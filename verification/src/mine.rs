//! The deadline-bound nonce search: the nonce space is partitioned into
//! disjoint per-worker ranges that cover it without gaps, each worker scans a
//! prefix of its range until the deadline passes (always completing at least
//! one attempt), and a reduction keeps the highest-difficulty candidate seen,
//! breaking ties by the lowest worker index and, within a worker, by the
//! lowest nonce.

use vstd::prelude::*;
use vstd::arithmetic::div_mod::lemma_fundamental_div_mod;
use vstd::arithmetic::mul::lemma_mul_inequality;
use vstd::bytes::spec_u64_to_le_bytes;
use vstd::bytes::spec_u64_from_le_bytes;
use vstd::bytes::lemma_auto_spec_u64_to_from_le_bytes;
use crate::drillx::{
    DrillxError,
    Solution,
    hash,
    spec_difficulty,
    spec_digest,
    spec_hash,
};

verus! {

/// Relies on u64::to_le_bytes: the little-endian memory representation of
/// the integer, as vstd states it.
#[verifier::external_body]
fn nonce_to_le_bytes(x: u64) -> (r: [u8; 8])
    ensures
        r@ == spec_u64_to_le_bytes(x),
{
    x.to_le_bytes()
}

/// Relies on std::time::SystemTime::now and duration_since: the wall clock,
/// read as whole milliseconds since the Unix epoch (zero when the clock
/// stands before the epoch). Nothing is promised of the value: time moves on
/// its own.
#[verifier::external_body]
fn now_millis() -> u64 {
    match std::time::SystemTime::now().duration_since(std::time::UNIX_EPOCH) {
        Ok(d) => d.as_millis() as u64,
        Err(_) => 0,
    }
}

/// The width of every worker's nonce range but the last, which also takes
/// the remainder of the space.
pub open spec fn spec_chunk(w: u64) -> int {
    u64::MAX as int / w as int
}

/// The first nonce of worker `i`'s range.
pub open spec fn spec_range_start(w: u64, i: u64) -> int {
    i * spec_chunk(w)
}

/// The last nonce of worker `i`'s range, inclusive.
pub open spec fn spec_range_end(w: u64, i: u64) -> int {
    if i == w - 1 {
        u64::MAX as int
    } else {
        (i + 1) * spec_chunk(w) - 1
    }
}

/// The ranges are well formed: each worker's chunk fits in the nonce space
/// and holds at least one nonce.
proof fn lemma_chunk_bounds(w: u64, i: u64)
    requires
        1 <= w,
        i < w,
    ensures
        1 <= spec_chunk(w),
        0 <= spec_range_start(w, i),
        spec_range_start(w, i) <= spec_range_end(w, i),
        spec_range_end(w, i) <= u64::MAX,
        (i + 1) * spec_chunk(w) <= u64::MAX,
        spec_range_start(w, i) + spec_chunk(w) == (i + 1) * spec_chunk(w),
{
    let c = spec_chunk(w);
    lemma_fundamental_div_mod(u64::MAX as int, w as int);
    let rr = u64::MAX as int % w as int;
    assert(0 <= rr && rr < w as int);
    assert(u64::MAX as int == w as int * c + rr);
    assert(c >= 1) by (nonlinear_arith)
        requires
            u64::MAX as int == w as int * c + rr,
            0 <= rr,
            rr < w as int,
            1 <= w as int,
            w as int <= u64::MAX as int,
    ;
    assert(w as int * c <= u64::MAX as int);
    assert((i + 1) as int * c <= w as int * c) by (nonlinear_arith)
        requires
            (i + 1) as int <= w as int,
            c >= 0,
    ;
    assert(i * c >= 0) by (nonlinear_arith)
        requires
            i >= 0,
            c >= 0,
    ;
    assert(i * c + c == (i + 1) * c) by (nonlinear_arith);
}

/// Disjoint, contiguous nonce ranges: worker `index` of `worker_count`
/// searches `[r.0, r.1]`, inclusive on both ends.
pub fn nonce_range(worker_count: u64, index: u64) -> (r: (u64, u64))
    requires
        1 <= worker_count,
        index < worker_count,
    ensures
        r.0 == spec_range_start(worker_count, index),
        r.1 == spec_range_end(worker_count, index),
        r.0 <= r.1,
{
    proof {
        lemma_chunk_bounds(worker_count, index);
    }
    let chunk = u64::MAX / worker_count;
    let start = index * chunk;
    let end = if index == worker_count - 1 {
        u64::MAX
    } else {
        start + chunk - 1
    };
    (start, end)
}

/// Every nonce of the 64-bit space lies in some worker's range: the union of
/// the ranges covers the search space without gaps.
pub proof fn lemma_partition_covers(w: u64, n: u64)
    requires
        1 <= w,
    ensures
        exists|i: u64|
            i < w && #[trigger] spec_range_start(w, i) <= n <= spec_range_end(w, i),
{
    let c = spec_chunk(w);
    lemma_chunk_bounds(w, 0);
    lemma_fundamental_div_mod(n as int, c);
    let q = n as int / c;
    assert(0 <= (n as int % c) && (n as int % c) < c);
    assert(n == c * q + n as int % c);
    assert(q >= 0) by (nonlinear_arith)
        requires c >= 1 && c * q + (n as int % c) >= 0 && 0 <= (n as int % c) && (n as int % c) < c;
    if q >= w {
        let i = (w - 1) as u64;
        lemma_chunk_bounds(w, i);
        lemma_mul_inequality(w as int - 1, q, c);
        assert(spec_range_start(w, i) == (w - 1) as int * c);
        assert((w - 1) as int * c <= q * c);
        assert(q * c == c * q) by (nonlinear_arith);
        assert(spec_range_start(w, i) <= n <= spec_range_end(w, i));
    } else {
        let i = q as u64;
        lemma_chunk_bounds(w, i);
        assert(q * c == c * q) by (nonlinear_arith);
        assert(spec_range_start(w, i) <= n);
        if i != w - 1 {
            assert(n < (q + 1) * c) by (nonlinear_arith)
                requires n as int == c * q + (n as int % c) && (n as int % c) < c;
        }
        assert(spec_range_start(w, i) <= n <= spec_range_end(w, i));
    }
}

/// Distinct workers' ranges are disjoint: a nonce in worker `i`'s range lies
/// in no other worker's range.
pub proof fn lemma_partition_disjoint(w: u64, i: u64, j: u64, n: u64)
    requires
        1 <= w,
        i < w,
        j < w,
        i != j,
        spec_range_start(w, i) <= n <= spec_range_end(w, i),
    ensures
        !(spec_range_start(w, j) <= n <= spec_range_end(w, j)),
{
    let c = spec_chunk(w);
    lemma_chunk_bounds(w, i);
    lemma_chunk_bounds(w, j);
    if i < j {
        // n <= end(i) < start(j)
        lemma_mul_inequality(i + 1, j as int, c);
        assert(spec_range_end(w, i) < spec_range_start(w, j));
    } else {
        // end(j) < start(i) <= n
        lemma_mul_inequality(j + 1, i as int, c);
        assert(spec_range_end(w, j) < spec_range_start(w, i));
    }
}

/// The difficulty a nonce scores against a challenge, when the construction
/// accepts the pair; nothing when it rejects it.
pub open spec fn spec_attempt(c: Seq<u8>, nonce: u64) -> Option<nat> {
    match spec_hash(c, spec_u64_to_le_bytes(nonce)) {
        Some(h) => Some(spec_difficulty(h)),
        None => None,
    }
}

/// A worker's best candidate so far: a solution, its difficulty, and the
/// nonce it came from.
pub struct Candidate {
    /// The verifiable solution.
    pub solution: Solution,
    /// Leading zero bits of the solution's verification hash.
    pub difficulty: u32,
    /// The nonce the solution was derived from, as an integer.
    pub nonce: u64,
}

/// A candidate truly derives from its nonce under the given challenge, and
/// carries that attempt's difficulty.
pub open spec fn valid_candidate(c: Seq<u8>, b: Candidate) -> bool {
    &&& b.solution.n@ == spec_u64_to_le_bytes(b.nonce)
    &&& spec_digest(c, b.solution.n@) == Some(b.solution.d@)
    &&& spec_attempt(c, b.nonce) == Some(b.difficulty as nat)
}

/// `best` reduces the attempts on the nonces of `[start, next)`: it is a
/// valid candidate of maximal difficulty among them, at the earliest such
/// nonce, or nothing when the construction rejected every one of them.
pub open spec fn best_below(c: Seq<u8>, start: u64, next: u64, best: Option<Candidate>) -> bool {
    match best {
        Some(b) => {
            &&& start <= b.nonce < next
            &&& valid_candidate(c, b)
            &&& forall|m: u64|
                start <= m < next ==> ((#[trigger] spec_attempt(c, m)) matches Some(d) ==> d
                    <= b.difficulty)
            &&& forall|m: u64|
                start <= m < b.nonce ==> ((#[trigger] spec_attempt(c, m)) matches Some(d) ==> d
                    < b.difficulty)
        },
        None => forall|m: u64| start <= m < next ==> (#[trigger] spec_attempt(c, m)) is None,
    }
}

/// `best` reduces the attempts on the nonces of `[start, last]`, both ends
/// included, in the sense of `best_below`.
pub open spec fn best_of_prefix(c: Seq<u8>, start: u64, last: u64, best: Option<Candidate>) -> bool {
    match best {
        Some(b) => {
            &&& start <= b.nonce <= last
            &&& valid_candidate(c, b)
            &&& forall|m: u64|
                start <= m <= last ==> ((#[trigger] spec_attempt(c, m)) matches Some(d) ==> d
                    <= b.difficulty)
            &&& forall|m: u64|
                start <= m < b.nonce ==> ((#[trigger] spec_attempt(c, m)) matches Some(d) ==> d
                    < b.difficulty)
        },
        None => forall|m: u64| start <= m <= last ==> (#[trigger] spec_attempt(c, m)) is None,
    }
}

/// How many attempts a worker completes between two reads of the clock: the
/// deadline is checked periodically, not on every iteration, so the time
/// source never dominates the hot loop.
pub const POLL_INTERVAL: u8 = 4;

/// One worker's round: attempts the nonces of `[start, end]` in order, from
/// `start`, always completing the attempt in flight before a deadline check,
/// and stops once a check sees the wall clock past `deadline_millis`, or the
/// range is exhausted. At least one nonce is always attempted, a past
/// deadline notwithstanding. Returns the best candidate of the attempted
/// prefix `[start, r.1]` together with that prefix's last nonce.
pub fn search_range(challenge: &[u8; 32], start: u64, end: u64, deadline_millis: u64) -> (r: (
    Option<Candidate>,
    u64,
))
    requires
        start <= end,
    ensures
        start <= r.1 <= end,
        best_of_prefix(challenge@, start, r.1, r.0),
{
    let mut nonce: u64 = start;
    let mut best: Option<Candidate> = None;
    let mut since_poll: u8 = 0;
    loop
        invariant_except_break
            start <= nonce <= end,
            since_poll < POLL_INTERVAL,
            best_below(challenge@, start, nonce, best),
        invariant
            start <= nonce <= end,
        ensures
            best_of_prefix(challenge@, start, nonce, best),
        decreases end - nonce,
    {
        let nbytes = nonce_to_le_bytes(nonce);
        match hash(challenge, &nbytes) {
            Ok(h) => {
                let d = h.difficulty();
                let better = match &best {
                    Option::None => true,
                    Option::Some(b) => d > b.difficulty,
                };
                if better {
                    best = Some(
                        Candidate { solution: Solution::new(h.d, nbytes), difficulty: d, nonce },
                    );
                }
            },
            Err(_) => {},
        }
        if nonce == end {
            break;
        }
        since_poll = since_poll + 1;
        if since_poll >= POLL_INTERVAL {
            since_poll = 0;
            if now_millis() >= deadline_millis {
                break;
            }
        }
        nonce = nonce + 1;
    }
    (best, nonce)
}

/// Every worker attempted at least the first nonce of its range: `lasts[i]`
/// is the last nonce worker `i` attempted, inside its range.
pub open spec fn lasts_valid(w: u64, lasts: Seq<u64>) -> bool {
    &&& lasts.len() == w
    &&& forall|j: int|
        0 <= j < w ==> spec_range_start(w, j as u64) <= #[trigger] lasts[j] <= spec_range_end(
            w,
            j as u64,
        )
}

/// Worker `j` attempted nonce `m` in the round described by `lasts`.
pub open spec fn attempted_in(w: u64, j: int, lasts: Seq<u64>, m: u64) -> bool {
    spec_range_start(w, j as u64) <= m <= lasts[j]
}

/// The winning attempt behind an `Ok` outcome: worker `wi` found the solution
/// at nonce `bn`; it scores at least every attempt of the round, strictly
/// above every attempt of earlier workers and of earlier nonces of its own
/// worker (the tie-breaks), and the reported pair is valid for `bn`.
pub open spec fn winning_attempt(
    c: Seq<u8>,
    w: u64,
    lasts: Seq<u64>,
    p: (Solution, u32),
    wi: int,
    bn: u64,
) -> bool {
    &&& 0 <= wi < w
    &&& attempted_in(w, wi, lasts, bn)
    &&& p.0.n@ == spec_u64_to_le_bytes(bn)
    &&& spec_digest(c, p.0.n@) == Some(p.0.d@)
    &&& spec_attempt(c, bn) == Some(p.1 as nat)
    &&& forall|j: int, m: u64|
        0 <= j < w && #[trigger] attempted_in(w, j, lasts, m) ==> (spec_attempt(c, m)
            matches Some(d) ==> d <= p.1)
    &&& forall|j: int, m: u64|
        0 <= j < wi && #[trigger] attempted_in(w, j, lasts, m) ==> (spec_attempt(c, m)
            matches Some(d) ==> d < p.1)
    &&& forall|m: u64|
        #[trigger] attempted_in(w, wi, lasts, m) && m < bn ==> (spec_attempt(c, m)
            matches Some(d) ==> d < p.1)
}

/// What a round returns, given which prefix each worker attempted: the true
/// maximum-difficulty solution over everything attempted, ties broken by the
/// lowest worker index and then the lowest nonce; or `NoSolutions` when the
/// construction rejected every attempted nonce.
pub open spec fn winning_exists(c: Seq<u8>, w: u64, lasts: Seq<u64>, p: (Solution, u32)) -> bool {
    exists|wi: int, bn: u64| #[trigger] winning_attempt(c, w, lasts, p, wi, bn)
}

pub open spec fn search_outcome(
    c: Seq<u8>,
    w: u64,
    lasts: Seq<u64>,
    r: Result<(Solution, u32), DrillxError>,
) -> bool {
    match r {
        Ok(p) => winning_exists(c, w, lasts, p),
        Err(e) => {
            &&& e == DrillxError::NoSolutions
            &&& forall|j: int, m: u64|
                0 <= j < w && #[trigger] attempted_in(w, j, lasts, m) ==> spec_attempt(c, m)
                    is None
        },
    }
}

/// The running reduction after the first `done` workers have finished.
pub open spec fn reduction_inv(
    c: Seq<u8>,
    w: u64,
    lasts: Seq<u64>,
    best: Option<Candidate>,
    bw: u64,
    done: u64,
) -> bool {
    match best {
        Some(b) => {
            &&& bw < done
            &&& attempted_in(w, bw as int, lasts, b.nonce)
            &&& valid_candidate(c, b)
            &&& forall|j: int, m: u64|
                0 <= j < done && #[trigger] attempted_in(w, j, lasts, m) ==> (spec_attempt(c, m)
                    matches Some(d) ==> d <= b.difficulty)
            &&& forall|j: int, m: u64|
                0 <= j < bw && #[trigger] attempted_in(w, j, lasts, m) ==> (spec_attempt(c, m)
                    matches Some(d) ==> d < b.difficulty)
            &&& forall|m: u64|
                #[trigger] attempted_in(w, bw as int, lasts, m) && m < b.nonce ==> (spec_attempt(
                    c,
                    m,
                ) matches Some(d) ==> d < b.difficulty)
        },
        None => forall|j: int, m: u64|
            0 <= j < done && #[trigger] attempted_in(w, j, lasts, m) ==> spec_attempt(c, m)
                is None,
    }
}

/// The deadline-bound round: partitions the nonce space across
/// `worker_count` disjoint ranges, lets each worker scan a prefix of its
/// range until the wall clock passes `deadline_millis` (each worker attempts
/// at least one nonce even when the deadline already lies in the past), and
/// reduces the per-worker bests to the single highest-difficulty solution
/// observed. `min_difficulty` is an advisory floor: the best solution found
/// is returned even when it scores below the floor, rather than blocking
/// past the deadline waiting for a better one.
pub fn search(
    challenge: &[u8; 32],
    deadline_millis: u64,
    worker_count: u64,
    min_difficulty: u32,
) -> (r: Result<(Solution, u32), DrillxError>)
    requires
        1 <= worker_count,
    ensures
        exists|lasts: Seq<u64>|
            #[trigger] lasts_valid(worker_count, lasts) && search_outcome(
                challenge@,
                worker_count,
                lasts,
                r,
            ),
        (r matches Ok(p) ==> spec_digest(challenge@, p.0.n@) == Some(p.0.d@)),
        (r matches Ok(p) ==> spec_attempt(challenge@, spec_u64_from_le_bytes(p.0.n@)) == Some(
            p.1 as nat,
        )),
{
    let mut best: Option<Candidate> = None;
    let mut best_worker: u64 = 0;
    let ghost mut lasts: Seq<u64> = Seq::empty();
    let mut i: u64 = 0;
    while i < worker_count
        invariant
            0 <= i <= worker_count,
            1 <= worker_count,
            lasts.len() == i,
            forall|j: int|
                0 <= j < i ==> spec_range_start(worker_count, j as u64) <= #[trigger] lasts[j]
                    <= spec_range_end(worker_count, j as u64),
            reduction_inv(challenge@, worker_count, lasts, best, best_worker, i),
        decreases worker_count - i,
    {
        let (s, e) = nonce_range(worker_count, i);
        let (wb, last) = search_range(challenge, s, e, deadline_millis);
        let ghost old_lasts = lasts;
        proof {
            lasts = lasts.push(last);
            assert forall|j: int, m: u64| 0 <= j < i implies #[trigger] attempted_in(
                worker_count,
                j,
                lasts,
                m,
            ) == attempted_in(worker_count, j, old_lasts, m) by {
                assert(lasts[j] == old_lasts[j]);
            }
            assert(lasts[i as int] == last);
        }
        match wb {
            Some(b) => {
                let replace = match &best {
                    Option::None => true,
                    Option::Some(cur) => b.difficulty > cur.difficulty,
                };
                if replace {
                    best = Some(b);
                    best_worker = i;
                }
            },
            Option::None => {},
        }
        i = i + 1;
    }
    match best {
        Some(b) => {
            proof {
                lemma_auto_spec_u64_to_from_le_bytes();
                assert(lasts_valid(worker_count, lasts));
                let p = (b.solution, b.difficulty);
                assert(winning_attempt(
                    challenge@,
                    worker_count,
                    lasts,
                    p,
                    best_worker as int,
                    b.nonce,
                ));
                assert(winning_exists(challenge@, worker_count, lasts, p));
                assert(search_outcome(
                    challenge@,
                    worker_count,
                    lasts,
                    Ok::<(Solution, u32), DrillxError>((b.solution, b.difficulty)),
                ));
            }
            Ok((b.solution, b.difficulty))
        },
        Option::None => {
            proof {
                assert(lasts_valid(worker_count, lasts));
                assert(search_outcome(
                    challenge@,
                    worker_count,
                    lasts,
                    Err::<(Solution, u32), DrillxError>(DrillxError::NoSolutions),
                ));
            }
            Err(DrillxError::NoSolutions)
        },
    }
}

} // verus!
