use ore_miner::drillx::{compute, difficulty, finalize, DrillxError};
use ore_miner::mine::{nonce_range, search, POLL_INTERVAL};
use std::time::{SystemTime, UNIX_EPOCH};

fn now_millis() -> u64 {
    SystemTime::now()
        .duration_since(UNIX_EPOCH)
        .map(|d| d.as_millis() as u64)
        .unwrap_or(0)
}

/// Reduces, by hand, the attempts a past-deadline round makes: each worker
/// attempts exactly one polling interval's worth of nonces from the start of
/// its range. Ties go to the earliest worker and then the earliest nonce.
fn hand_best(challenge: &[u8; 32], starts: &[u64]) -> Option<(u64, u32)> {
    let k = POLL_INTERVAL as u64;
    let mut best: Option<(u64, u32)> = None;
    for &s in starts {
        for n in s..s + k {
            if let Ok(d) = compute(challenge, &n.to_le_bytes()) {
                let diff = difficulty(finalize(&d));
                let replace = match best {
                    None => true,
                    Some((_, bd)) => diff > bd,
                };
                if replace {
                    best = Some((n, diff));
                }
            }
        }
    }
    best
}

#[test]
fn partition_covers_space_without_gaps() {
    for w in [1u64, 2, 3, 4, 7, 8, 100] {
        let (first_start, _) = nonce_range(w, 0);
        assert_eq!(first_start, 0);
        let (_, last_end) = nonce_range(w, w - 1);
        assert_eq!(last_end, u64::MAX);
        for i in 1..w {
            let (_, prev_end) = nonce_range(w, i - 1);
            let (start, end) = nonce_range(w, i);
            assert_eq!(start, prev_end + 1);
            assert!(start <= end);
        }
    }
}

#[test]
fn partition_of_four_workers() {
    let chunk = u64::MAX / 4;
    assert_eq!(nonce_range(4, 0), (0, chunk - 1));
    assert_eq!(nonce_range(4, 1), (chunk, 2 * chunk - 1));
    assert_eq!(nonce_range(4, 2), (2 * chunk, 3 * chunk - 1));
    assert_eq!(nonce_range(4, 3), (3 * chunk, u64::MAX));
}

#[test]
fn single_worker_owns_whole_space() {
    assert_eq!(nonce_range(1, 0), (0, u64::MAX));
}

#[test]
fn partition_with_extreme_worker_count() {
    assert_eq!(nonce_range(u64::MAX, 0), (0, 0));
    assert_eq!(nonce_range(u64::MAX, u64::MAX - 1), (u64::MAX - 1, u64::MAX));
}

#[test]
fn search_returns_even_when_deadline_is_past() {
    // A deadline of zero lies in the past: the single worker still attempts
    // one polling interval's worth of nonces, and the outcome mirrors those
    // attempts exactly.
    let challenge = [0u8; 32];
    let r = search(&challenge, 0, 1, 0);
    match hand_best(&challenge, &[0]) {
        Some((nonce, expected)) => {
            let (sol, diff) = r.expect("an accepted attempt must yield a solution");
            assert_eq!(u64::from_le_bytes(sol.n), nonce);
            assert_eq!(diff, expected);
        }
        None => {
            assert!(matches!(r, Err(DrillxError::NoSolutions)));
        }
    }
}

#[test]
fn search_round_trips_with_verification() {
    // The end-to-end scenario: a zero challenge, four workers, no difficulty
    // floor, one second of budget. The returned solution must reproduce its
    // reported difficulty through the cheap verification path.
    let challenge = [0u8; 32];
    let deadline = now_millis() + 1_000;
    match search(&challenge, deadline, 4, 0) {
        Ok((sol, diff)) => {
            let nonce = u64::from_le_bytes(sol.n);
            let digest = compute(&challenge, &nonce.to_le_bytes())
                .expect("the returned nonce must be accepted by the construction");
            assert_eq!(digest, sol.d);
            assert_eq!(difficulty(finalize(&sol.d)), diff);
        }
        Err(_) => panic!("a one-second round with four workers found no candidate"),
    }
}

#[test]
fn search_reports_a_maximum_over_a_scanned_prefix() {
    // With a past deadline every worker attempts exactly one polling
    // interval's worth of nonces, so the round reduces the first nonces of
    // each of the three ranges.
    let challenge = [7u8; 32];
    let w = 3u64;
    let r = search(&challenge, 0, w, 0);
    let starts: Vec<u64> = (0..w).map(|i| nonce_range(w, i).0).collect();
    match (r, hand_best(&challenge, &starts)) {
        (Ok((sol, diff)), Some((nonce, expected))) => {
            assert_eq!(diff, expected);
            assert_eq!(u64::from_le_bytes(sol.n), nonce);
        }
        (Err(DrillxError::NoSolutions), None) => {}
        _ => panic!("search disagreed with a hand reduction of the same attempts"),
    }
}
