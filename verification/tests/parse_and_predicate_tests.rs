use light_client::options::{ThresholdError, TrustOptions, TrustThreshold};
use light_client::parse::{parse_trust_threshold, parse_u64, parse_u64_list, ParseError};
use light_client::predicates::{
    is_within_clock_drift, is_within_trusting_period, verify, PredicateError, Verdict,
};
use light_client::types::{Commit, Header, LightBlock, Signature, Validator, ValidatorSet};
use light_client::verbosity::{LevelFilter, Verbosity};

fn options() -> TrustOptions {
    TrustOptions {
        trust_threshold: TrustThreshold { numerator: 2, denominator: 3 },
        trusting_period: 100,
        clock_drift: 5,
        max_block_lag: 5,
    }
}

fn set(ids: &[u64]) -> ValidatorSet {
    ValidatorSet {
        validators: ids.iter().map(|&id| Validator { id, power: 25 }).collect(),
    }
}

fn commit_of(ids: &[u64]) -> Commit {
    Commit {
        signatures: ids.iter().map(|&id| Signature { validator_id: id, sig: id }).collect(),
    }
}

fn block(height: u64, time: u64, vals: &[u64], next: &[u64], signers: &[u64]) -> LightBlock {
    LightBlock {
        header: Header {
            height,
            time,
            validators_hash: 1,
            next_validators_hash: 1,
            app_hash: 0,
        },
        commit: commit_of(signers),
        validators: set(vals),
        next_validators: set(next),
    }
}

#[test]
fn insufficient_overlap_names_the_power() {
    // Non-adjacent candidate signed by validators holding 50 of the 100
    // power in the trusted next set: below the 2/3 threshold.
    let trusted = block(100, 10, &[1, 2, 3, 4], &[1, 2, 3, 4], &[1, 2, 3, 4]);
    let candidate = block(102, 12, &[3, 4, 5, 6], &[3, 4, 5, 6], &[3, 4, 5, 6]);
    let v = verify(&trusted, &candidate, 20, &options());
    assert_eq!(
        v,
        Verdict::NotEnoughTrust {
            reason: PredicateError::InsufficientPower { signed: 50, total: 100 },
        }
    );
}

#[test]
fn sufficient_overlap_succeeds() {
    let trusted = block(100, 10, &[1, 2, 3, 4], &[1, 2, 3, 4], &[1, 2, 3, 4]);
    let candidate = block(102, 12, &[2, 3, 4, 5], &[2, 3, 4, 5], &[2, 3, 4, 5]);
    // Signers 2,3,4 of the trusted next set: 75 of 100, at least 2/3.
    let v = verify(&trusted, &candidate, 20, &options());
    assert_eq!(v, Verdict::Success);
}

#[test]
fn expiry_boundary_is_exact() {
    let trusted = block(100, 10, &[1], &[1], &[1]);
    // Age exactly the trusting period: expired.
    assert!(!is_within_trusting_period(&trusted, 110, &options()));
    // One second younger: still usable.
    assert!(is_within_trusting_period(&trusted, 109, &options()));
}

#[test]
fn clock_drift_boundary_is_exact() {
    let candidate = block(101, 20, &[1], &[1], &[1]);
    assert!(is_within_clock_drift(&candidate, 15, &options()));
    assert!(!is_within_clock_drift(&candidate, 14, &options()));
}

#[test]
fn non_increasing_height_is_invalid() {
    let trusted = block(100, 10, &[1], &[1], &[1]);
    let candidate = block(100, 12, &[1], &[1], &[1]);
    let v = verify(&trusted, &candidate, 20, &options());
    assert_eq!(
        v,
        Verdict::Invalid {
            reason: PredicateError::NonIncreasingHeight {
                trusted_height: 100,
                candidate_height: 100,
            },
        }
    );
}

#[test]
fn non_increasing_time_is_invalid() {
    let trusted = block(100, 10, &[1], &[1], &[1]);
    let candidate = block(101, 10, &[1], &[1], &[1]);
    let v = verify(&trusted, &candidate, 20, &options());
    assert_eq!(
        v,
        Verdict::Invalid {
            reason: PredicateError::NonIncreasingTime { trusted_time: 10, candidate_time: 10 },
        }
    );
}

#[test]
fn threshold_parses_the_default() {
    let t = parse_trust_threshold("2/3").unwrap();
    assert_eq!(t, TrustThreshold { numerator: 2, denominator: 3 });
}

#[test]
fn threshold_requires_a_slash() {
    assert_eq!(parse_trust_threshold("23").unwrap_err(), ParseError::NoSeparator);
}

#[test]
fn threshold_sides_must_be_numbers() {
    assert_eq!(parse_trust_threshold("x/3").unwrap_err(), ParseError::InvalidNumerator);
    assert_eq!(parse_trust_threshold("2/").unwrap_err(), ParseError::InvalidDenominator);
}

#[test]
fn threshold_fraction_is_bounded() {
    assert_eq!(
        parse_trust_threshold("2/0").unwrap_err(),
        ParseError::InvalidThreshold { which: ThresholdError::ZeroDenominator }
    );
    assert_eq!(
        parse_trust_threshold("5/3").unwrap_err(),
        ParseError::InvalidThreshold { which: ThresholdError::GreaterThanOne }
    );
    assert_eq!(
        parse_trust_threshold("1/4").unwrap_err(),
        ParseError::InvalidThreshold { which: ThresholdError::BelowOneThird }
    );
}

#[test]
fn numbers_parse_exactly() {
    assert_eq!(parse_u64(b"0"), Ok(0));
    assert_eq!(parse_u64(b"18446744073709551615"), Ok(u64::MAX));
    assert_eq!(parse_u64(b"18446744073709551616").unwrap_err(), ParseError::InvalidNumber);
    assert_eq!(parse_u64(b"").unwrap_err(), ParseError::InvalidNumber);
    assert_eq!(parse_u64(b"12a").unwrap_err(), ParseError::InvalidNumber);
}

#[test]
fn lists_split_on_commas() {
    assert_eq!(parse_u64_list(b"3,5,8").unwrap(), vec![3, 5, 8]);
    assert_eq!(parse_u64_list(b"42").unwrap(), vec![42]);
    assert_eq!(parse_u64_list(b"3,,5").unwrap_err(), ParseError::InvalidNumber);
}

#[test]
fn verbosity_maps_to_levels() {
    assert_eq!(Verbosity { verbose: 0 }.to_level_filter(), LevelFilter::Info);
    assert_eq!(Verbosity { verbose: 1 }.to_level_filter(), LevelFilter::Debug);
    assert_eq!(Verbosity { verbose: 2 }.to_level_filter(), LevelFilter::Trace);
    assert_eq!(Verbosity { verbose: 9 }.to_level_filter(), LevelFilter::Trace);
}

#[test]
fn default_options_match_the_configuration() {
    let o = TrustOptions::default_options();
    assert_eq!(o.trust_threshold, TrustThreshold { numerator: 2, denominator: 3 });
    assert_eq!(o.trusting_period, 1209600);
    assert_eq!(o.clock_drift, 5);
    assert_eq!(o.max_block_lag, 5);
}
