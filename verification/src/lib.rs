//! Core of a deadline-bound proof-of-work miner: the asymmetric hash
//! construction (an expensive digest step paired with a cheap, publicly
//! verifiable finalization and a leading-zero difficulty metric), the
//! nonce-search scheduler that partitions the nonce space across workers
//! and reduces their results to the best solution found before a deadline,
//! and the per-round submission decisions (deadline, epoch reset, bus
//! selection, compute budget).

pub mod drillx;
pub mod mine;
pub mod round;
