use ore_miner::drillx::{compute, difficulty, finalize, hash, DrillxError, Solution};

fn nonce_bytes(n: u64) -> [u8; 8] {
    n.to_le_bytes()
}

#[test]
fn construction_is_deterministic() {
    let challenge = [0u8; 32];
    let nonce = nonce_bytes(7);
    let first = compute(&challenge, &nonce);
    let second = compute(&challenge, &nonce);
    match (first, second) {
        (Ok(d1), Ok(d2)) => {
            assert_eq!(d1, d2);
            assert_eq!(finalize(&d1), finalize(&d2));
        }
        (Err(e1), Err(e2)) => {
            assert!(matches!(e1, DrillxError::BadEquix));
            assert!(matches!(e2, DrillxError::BadEquix));
        }
        _ => panic!("two attempts on one pair disagreed"),
    }
}

#[test]
fn hash_composes_compute_and_finalize() {
    let challenge = [3u8; 32];
    for n in 0u64..8 {
        let nonce = nonce_bytes(n);
        match (hash(&challenge, &nonce), compute(&challenge, &nonce)) {
            (Ok(h), Ok(d)) => {
                assert_eq!(h.d, d);
                assert_eq!(h.h, finalize(&d));
                assert_eq!(h.difficulty(), difficulty(h.h));
                return;
            }
            (Err(_), Err(_)) => {}
            _ => panic!("hash and compute disagreed on acceptance"),
        }
    }
    panic!("every attempted pair was rejected");
}

#[test]
fn difficulty_of_all_zero_hash() {
    assert_eq!(difficulty([0u8; 32]), 256);
}

#[test]
fn difficulty_of_all_ones_hash() {
    assert_eq!(difficulty([0xFFu8; 32]), 0);
}

#[test]
fn difficulty_counts_bits_of_first_nonzero_byte() {
    let mut h = [0u8; 32];
    h[0] = 0x01;
    assert_eq!(difficulty(h), 7);
    h[0] = 0x80;
    assert_eq!(difficulty(h), 0);
    h[0] = 0x10;
    assert_eq!(difficulty(h), 3);
}

#[test]
fn difficulty_adds_eight_per_leading_zero_byte() {
    let mut h = [0u8; 32];
    h[2] = 0x01;
    assert_eq!(difficulty(h), 16 + 7);
    let mut g = [0xFFu8; 32];
    g[0] = 0;
    assert_eq!(difficulty(g), 8);
}

#[test]
fn difficulty_is_monotonic_in_leading_zeros() {
    let mut less = [0u8; 32];
    less[1] = 0x40;
    let mut more = [0u8; 32];
    more[2] = 0x40;
    assert!(difficulty(less) < difficulty(more));
}

#[test]
fn solution_new_keeps_fields() {
    let d = [5u8; 16];
    let n = nonce_bytes(42);
    let s = Solution::new(d, n);
    assert_eq!(s.d, d);
    assert_eq!(s.n, n);
}

#[test]
fn solution_serializes_as_digest_then_nonce() {
    let mut d = [0u8; 16];
    for (i, b) in d.iter_mut().enumerate() {
        *b = i as u8;
    }
    let n = nonce_bytes(0x0807060504030201);
    let s = Solution::new(d, n);
    let bytes = s.to_bytes();
    assert_eq!(bytes.len(), 24);
    assert_eq!(&bytes[..16], &d[..]);
    assert_eq!(&bytes[16..], &n[..]);
}

#[test]
fn rejected_pairs_fail_with_bad_equix() {
    let challenge = [0u8; 32];
    for n in 0u64..12 {
        if let Err(e) = compute(&challenge, &nonce_bytes(n)) {
            assert!(matches!(e, DrillxError::BadEquix));
            return;
        }
    }
    // Rejection is a fixed-probability event; a short scan may miss it.
}

#[test]
fn hash_struct_difficulty_matches_free_function() {
    let h = ore_miner::drillx::Hash {
        d: [0u8; 16],
        h: [0u8; 32],
    };
    assert_eq!(h.difficulty(), difficulty([0u8; 32]));
}
