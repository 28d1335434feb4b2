//! The predicate set and the verifier built from it.
//!
//! Each predicate is a pure check on a (trusted, candidate) pair of blocks,
//! the local time, and the session options.  The verifier evaluates them in
//! a fixed order and reports the first failure: freshness failures are
//! terminal, an insufficient voting-power overlap is recoverable by
//! bisecting to a closer candidate.

use vstd::prelude::*;
use crate::types::{
    block_wf, compute_total_power, lemma_signed_le_total, signed_power, signer_ids, total_power,
    BlockModel, LightBlock,
};
use crate::options::{options_wf, TrustOptions};

verus! {

/// Which predicate failed, with the values it compared.
#[derive(Clone, Copy, PartialEq, Eq, Structural, Debug)]
pub enum PredicateError {
    /// The trusted anchor is older than the trusting period.
    Expired { trusted_time: u64, now: u64 },
    /// The candidate header is from the future beyond the allowed drift.
    FromFuture { candidate_time: u64, now: u64 },
    /// The candidate's height does not exceed the trusted height.
    NonIncreasingHeight { trusted_height: u64, candidate_height: u64 },
    /// The candidate's time does not exceed the trusted time.
    NonIncreasingTime { trusted_time: u64, candidate_time: u64 },
    /// An adjacent candidate's validator-set hash does not match the set
    /// the trusted header announced.
    ValidatorSetMismatch { expected_hash: u64, found_hash: u64 },
    /// The signers' combined power is below the required fraction.
    InsufficientPower { signed: u64, total: u64 },
}

/// The verifier's verdict on one (trusted, candidate) pair.
#[derive(Clone, Copy, PartialEq, Eq, Structural, Debug)]
pub enum Verdict {
    /// All predicates passed: the candidate extends trust.
    Success,
    /// Only the voting-power overlap failed: a closer candidate may still
    /// verify, so bisection may continue.
    NotEnoughTrust { reason: PredicateError },
    /// A predicate failed that no other candidate choice can repair.
    Invalid { reason: PredicateError },
}

/// The trusted anchor is still usable at `now`: strictly less than the
/// trusting period has elapsed since its header time.
pub open spec fn within_trusting_period(trusted: BlockModel, now: u64, options: TrustOptions) -> bool {
    (now as int) < trusted.header.time + options.trusting_period
}

/// The candidate is not from the future beyond the allowed clock drift.
pub open spec fn within_clock_drift(candidate: BlockModel, now: u64, options: TrustOptions) -> bool {
    candidate.header.time <= now + options.clock_drift
}

/// Heights and times must strictly increase from trusted to candidate.
pub open spec fn height_increases(trusted: BlockModel, candidate: BlockModel) -> bool {
    candidate.header.height > trusted.header.height
}

pub open spec fn time_increases(trusted: BlockModel, candidate: BlockModel) -> bool {
    candidate.header.time > trusted.header.time
}

/// The candidate sits directly above the trusted header.
pub open spec fn adjacent(trusted: BlockModel, candidate: BlockModel) -> bool {
    candidate.header.height == trusted.header.height + 1
}

/// An adjacent candidate must carry exactly the validator set the trusted
/// header announced for its height.
pub open spec fn continuity_ok(trusted: BlockModel, candidate: BlockModel) -> bool {
    adjacent(trusted, candidate) ==> candidate.header.validators_hash
        == trusted.header.next_validators_hash
}

/// Power in the trusted header's next validator set held by the candidate's
/// signers meets or exceeds the trust threshold.
pub open spec fn enough_trust(trusted: BlockModel, candidate: BlockModel, options: TrustOptions) -> bool {
    signed_power(trusted.next_validators, signer_ids(candidate.signatures))
        * options.trust_threshold.denominator >= total_power(trusted.next_validators)
        * options.trust_threshold.numerator
}

/// The candidate's own validator set signed it with more than two thirds of
/// its total power: the standard quorum for an adjacent transition.
pub open spec fn enough_quorum(candidate: BlockModel) -> bool {
    3 * signed_power(candidate.validators, signer_ids(candidate.signatures)) > 2 * total_power(
        candidate.validators,
    )
}

/// The voting-power predicate: threshold overlap for a non-adjacent
/// candidate, quorum by the candidate's own set for an adjacent one.
pub open spec fn power_ok(trusted: BlockModel, candidate: BlockModel, options: TrustOptions) -> bool {
    if adjacent(trusted, candidate) {
        enough_quorum(candidate)
    } else {
        enough_trust(trusted, candidate, options)
    }
}

/// The verdict on a (trusted, candidate) pair: the first failing predicate
/// in evaluation order, or success when all pass.  Opaque: callers reason
/// about the verdict value; the definition is revealed where a proof needs
/// the individual predicates.
#[verifier::opaque]
pub open spec fn verify_spec(
    trusted: BlockModel,
    candidate: BlockModel,
    now: u64,
    options: TrustOptions,
) -> Verdict {
    if !within_trusting_period(trusted, now, options) {
        Verdict::Invalid {
            reason: PredicateError::Expired { trusted_time: trusted.header.time, now },
        }
    } else if !within_clock_drift(candidate, now, options) {
        Verdict::Invalid {
            reason: PredicateError::FromFuture { candidate_time: candidate.header.time, now },
        }
    } else if !height_increases(trusted, candidate) {
        Verdict::Invalid {
            reason: PredicateError::NonIncreasingHeight {
                trusted_height: trusted.header.height,
                candidate_height: candidate.header.height,
            },
        }
    } else if !time_increases(trusted, candidate) {
        Verdict::Invalid {
            reason: PredicateError::NonIncreasingTime {
                trusted_time: trusted.header.time,
                candidate_time: candidate.header.time,
            },
        }
    } else if !continuity_ok(trusted, candidate) {
        Verdict::Invalid {
            reason: PredicateError::ValidatorSetMismatch {
                expected_hash: trusted.header.next_validators_hash,
                found_hash: candidate.header.validators_hash,
            },
        }
    } else if !power_ok(trusted, candidate, options) {
        if adjacent(trusted, candidate) {
            Verdict::NotEnoughTrust {
                reason: PredicateError::InsufficientPower {
                    signed: signed_power(
                        candidate.validators,
                        signer_ids(candidate.signatures),
                    ) as u64,
                    total: total_power(candidate.validators) as u64,
                },
            }
        } else {
            Verdict::NotEnoughTrust {
                reason: PredicateError::InsufficientPower {
                    signed: signed_power(
                        trusted.next_validators,
                        signer_ids(candidate.signatures),
                    ) as u64,
                    total: total_power(trusted.next_validators) as u64,
                },
            }
        }
    } else {
        Verdict::Success
    }
}

/// A candidate whose signers hold less than the required fraction of the
/// relevant validator set's power never verifies, whatever the time or the
/// other headers say; and when every other predicate passes, the verdict
/// names the insufficient voting power, so the failure is never silent.
pub proof fn lemma_insufficient_power_never_succeeds(
    trusted: BlockModel,
    candidate: BlockModel,
    now: u64,
    options: TrustOptions,
)
    requires
        !power_ok(trusted, candidate, options),
    ensures
        verify_spec(trusted, candidate, now, options) != Verdict::Success,
        (within_trusting_period(trusted, now, options) && within_clock_drift(
            candidate,
            now,
            options,
        ) && height_increases(trusted, candidate) && time_increases(trusted, candidate)
            && continuity_ok(trusted, candidate)) ==> verify_spec(
            trusted,
            candidate,
            now,
            options,
        ) matches Verdict::NotEnoughTrust {
            reason: PredicateError::InsufficientPower { .. },
        },
{
    reveal(verify_spec);
}

/// The expiry boundary is exact: a trusted header whose age equals the
/// trusting period has expired, while one second younger it still anchors.
pub proof fn lemma_expiry_boundary(trusted: BlockModel, now: u64, options: TrustOptions)
    requires
        now == trusted.header.time + options.trusting_period,
    ensures
        !within_trusting_period(trusted, now, options),
        now > 0 ==> within_trusting_period(trusted, (now - 1) as u64, options),
{
}

/// Executable form of the expiry predicate.
pub fn is_within_trusting_period(trusted: &LightBlock, now: u64, options: &TrustOptions) -> (r: bool)
    ensures
        r == within_trusting_period(trusted@, now, *options),
{
    (now as u128) < trusted.header.time as u128 + options.trusting_period as u128
}

/// Executable form of the clock-drift predicate.
pub fn is_within_clock_drift(candidate: &LightBlock, now: u64, options: &TrustOptions) -> (r: bool)
    ensures
        r == within_clock_drift(candidate@, now, *options),
{
    candidate.header.time as u128 <= now as u128 + options.clock_drift as u128
}

/// Applies the whole predicate set to one (trusted, candidate) pair and
/// returns the verdict, reporting the first failing predicate.
pub fn verify(
    trusted: &LightBlock,
    candidate: &LightBlock,
    now: u64,
    options: &TrustOptions,
) -> (v: Verdict)
    requires
        block_wf(trusted@),
        block_wf(candidate@),
        options_wf(*options),
    ensures
        v == verify_spec(trusted@, candidate@, now, *options),
{
    proof {
        reveal(verify_spec);
    }
    if !is_within_trusting_period(trusted, now, options) {
        return Verdict::Invalid {
            reason: PredicateError::Expired { trusted_time: trusted.header.time, now },
        };
    }
    if !is_within_clock_drift(candidate, now, options) {
        return Verdict::Invalid {
            reason: PredicateError::FromFuture { candidate_time: candidate.header.time, now },
        };
    }
    if candidate.header.height <= trusted.header.height {
        return Verdict::Invalid {
            reason: PredicateError::NonIncreasingHeight {
                trusted_height: trusted.header.height,
                candidate_height: candidate.header.height,
            },
        };
    }
    if candidate.header.time <= trusted.header.time {
        return Verdict::Invalid {
            reason: PredicateError::NonIncreasingTime {
                trusted_time: trusted.header.time,
                candidate_time: candidate.header.time,
            },
        };
    }
    let is_adjacent = trusted.header.height < u64::MAX && candidate.header.height
        == trusted.header.height + 1;
    if is_adjacent && candidate.header.validators_hash != trusted.header.next_validators_hash {
        return Verdict::Invalid {
            reason: PredicateError::ValidatorSetMismatch {
                expected_hash: trusted.header.next_validators_hash,
                found_hash: candidate.header.validators_hash,
            },
        };
    }
    if is_adjacent {
        let signed = crate::types::voting_power_in(&candidate.validators.validators, &candidate.commit);
        let total = compute_total_power(&candidate.validators.validators);
        proof {
            lemma_signed_le_total(candidate@.validators, signer_ids(candidate@.signatures));
        }
        if 3 * (signed as u128) > 2 * total {
            Verdict::Success
        } else {
            Verdict::NotEnoughTrust {
                reason: PredicateError::InsufficientPower { signed, total: total as u64 },
            }
        }
    } else {
        let signed = crate::types::voting_power_in(&trusted.next_validators.validators, &candidate.commit);
        let total = compute_total_power(&trusted.next_validators.validators);
        proof {
            lemma_signed_le_total(trusted@.next_validators, signer_ids(candidate@.signatures));
            vstd::arithmetic::mul::lemma_mul_upper_bound(
                signed as int,
                u64::MAX as int,
                options.trust_threshold.denominator as int,
                u64::MAX as int,
            );
            vstd::arithmetic::mul::lemma_mul_upper_bound(
                total as int,
                u64::MAX as int,
                options.trust_threshold.numerator as int,
                u64::MAX as int,
            );
        }
        if (signed as u128) * (options.trust_threshold.denominator as u128) >= total * (
        options.trust_threshold.numerator as u128) {
            Verdict::Success
        } else {
            Verdict::NotEnoughTrust {
                reason: PredicateError::InsufficientPower { signed, total: total as u64 },
            }
        }
    }
}

} // verus!
