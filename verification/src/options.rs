//! Trust options: threshold fraction, trusting period, clock drift, block lag.

use vstd::prelude::*;

verus! {

/// Why a trust threshold was rejected.
#[derive(Clone, Copy, PartialEq, Eq, Structural, Debug)]
pub enum ThresholdError {
    ZeroDenominator,
    GreaterThanOne,
    BelowOneThird,
}

/// A fraction of the total voting power, between one third and one.
#[derive(Clone, Copy, PartialEq, Eq, Structural, Debug)]
pub struct TrustThreshold {
    pub numerator: u64,
    pub denominator: u64,
}

/// A valid threshold: a proper fraction of at least one third, so that no
/// two conflicting validator subsets can both meet it against an honest
/// majority, and never more than the whole power.
pub open spec fn threshold_wf(t: TrustThreshold) -> bool {
    &&& t.denominator > 0
    &&& t.numerator <= t.denominator
    &&& 3 * t.numerator >= t.denominator
}

impl TrustThreshold {
    /// Builds a threshold, rejecting fractions outside [1/3, 1].
    pub fn new(numerator: u64, denominator: u64) -> (r: Result<TrustThreshold, ThresholdError>)
        ensures
            match r {
                Ok(t) => t.numerator == numerator && t.denominator == denominator
                    && threshold_wf(t),
                Err(ThresholdError::ZeroDenominator) => denominator == 0,
                Err(ThresholdError::GreaterThanOne) => denominator > 0
                    && numerator > denominator,
                Err(ThresholdError::BelowOneThird) => denominator > 0
                    && numerator <= denominator && 3 * numerator < denominator,
            },
    {
        if denominator == 0 {
            Err(ThresholdError::ZeroDenominator)
        } else if numerator > denominator {
            Err(ThresholdError::GreaterThanOne)
        } else if (numerator as u128) * 3 < denominator as u128 {
            Err(ThresholdError::BelowOneThird)
        } else {
            Ok(TrustThreshold { numerator, denominator })
        }
    }

    /// The default threshold of two thirds.
    pub fn two_thirds() -> (r: TrustThreshold)
        ensures
            r.numerator == 2 && r.denominator == 3,
            threshold_wf(r),
    {
        TrustThreshold { numerator: 2, denominator: 3 }
    }
}

/// Options governing one verification session.  Durations are in seconds.
#[derive(Clone, Copy, PartialEq, Eq, Structural, Debug)]
pub struct TrustOptions {
    /// Minimum fraction of the trusted validator set's power that must have
    /// signed a non-adjacent candidate.
    pub trust_threshold: TrustThreshold,
    /// How long a trusted header can anchor verification before it expires.
    pub trusting_period: u64,
    /// Allowed skew between the local clock and a header's time.
    pub clock_drift: u64,
    /// Allowed staleness of a witness when comparing two sources.
    pub max_block_lag: u64,
}

pub open spec fn options_wf(o: TrustOptions) -> bool {
    threshold_wf(o.trust_threshold)
}

impl TrustOptions {
    /// Spec defaults: two-thirds threshold, fourteen-day trusting period,
    /// five seconds of clock drift and of block lag.
    pub fn default_options() -> (r: TrustOptions)
        ensures
            r.trust_threshold.numerator == 2,
            r.trust_threshold.denominator == 3,
            r.trusting_period == 1209600,
            r.clock_drift == 5,
            r.max_block_lag == 5,
            options_wf(r),
    {
        TrustOptions {
            trust_threshold: TrustThreshold::two_thirds(),
            trusting_period: 1209600,
            clock_drift: 5,
            max_block_lag: 5,
        }
    }

    /// Whether the options are valid: the threshold fraction is well formed.
    pub fn is_well_formed(&self) -> (r: bool)
        ensures
            r == options_wf(*self),
    {
        self.trust_threshold.denominator > 0
            && self.trust_threshold.numerator <= self.trust_threshold.denominator
            && (self.trust_threshold.numerator as u128) * 3
                >= self.trust_threshold.denominator as u128
    }
}

} // verus!
