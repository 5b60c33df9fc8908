//! The data exchanged with the server and with the compute workers, the
//! handling of server messages, and the reconnection policy.

pub mod protocol;
pub mod types;

use vstd::prelude::*;

verus! {

/// Wait before the first reconnection, in milliseconds.
pub const INITIAL_BACKOFF_MS: u64 = 2000;

/// Longest wait between reconnections, in milliseconds.
pub const MAX_BACKOFF_MS: u64 = 30000;

/// The wait after a failed reconnection: twice the last one, at most
/// `MAX_BACKOFF_MS`.
pub open spec fn next_backoff_spec(backoff_ms: int) -> int {
    if 2 * backoff_ms <= MAX_BACKOFF_MS { 2 * backoff_ms } else { MAX_BACKOFF_MS as int }
}

/// The wait before reconnection attempt `k + 1`, after `k + 1` failures in a row.
pub open spec fn backoff_after(k: nat) -> int
    decreases k,
{
    if k == 0 { INITIAL_BACKOFF_MS as int } else { next_backoff_spec(backoff_after((k - 1) as nat)) }
}

pub open spec fn pow2(k: nat) -> int
    decreases k,
{
    if k == 0 { 1 } else { 2 * pow2((k - 1) as nat) }
}

/// See `next_backoff_spec`.
pub fn next_backoff_ms(backoff_ms: u64) -> (r: u64)
    ensures
        r == next_backoff_spec(backoff_ms as int),
{
    if backoff_ms >= MAX_BACKOFF_MS / 2 {
        MAX_BACKOFF_MS
    } else {
        backoff_ms * 2
    }
}

/// Law: after `k` failed attempts in a row the wait is
/// `min(INITIAL_BACKOFF_MS * 2^k, MAX_BACKOFF_MS)`: 2 s, 4 s, 8 s, 16 s,
/// then 30 s from then on.
pub proof fn lemma_backoff_sequence(k: nat)
    ensures
        backoff_after(k) == (if INITIAL_BACKOFF_MS * pow2(k) <= MAX_BACKOFF_MS {
            INITIAL_BACKOFF_MS * pow2(k)
        } else {
            MAX_BACKOFF_MS as int
        }),
        INITIAL_BACKOFF_MS <= backoff_after(k) <= MAX_BACKOFF_MS,
    decreases k,
{
    if k > 0 {
        lemma_backoff_sequence((k - 1) as nat);
        lemma_pow2_positive((k - 1) as nat);
    }
}

proof fn lemma_pow2_positive(k: nat)
    ensures
        pow2(k) >= 1,
    decreases k,
{
    if k > 0 {
        lemma_pow2_positive((k - 1) as nat);
    }
}

} // verus!
