use light_client::codec::{decode_block, encode_block, CodecError};
use light_client::detector::{detect_divergence, DetectorError};
use light_client::options::{TrustOptions, TrustThreshold};
use light_client::types::{Commit, Header, LightBlock, Signature, Validator, ValidatorSet};

fn options() -> TrustOptions {
    TrustOptions {
        trust_threshold: TrustThreshold { numerator: 2, denominator: 3 },
        trusting_period: 100000,
        clock_drift: 5,
        max_block_lag: 5,
    }
}

fn block_at(height: u64, app_hash: u64) -> LightBlock {
    LightBlock {
        header: Header {
            height,
            time: height,
            validators_hash: 11,
            next_validators_hash: 11,
            app_hash,
        },
        commit: Commit {
            signatures: vec![Signature { validator_id: 1, sig: 42 }],
        },
        validators: ValidatorSet { validators: vec![Validator { id: 1, power: 10 }] },
        next_validators: ValidatorSet { validators: vec![Validator { id: 1, power: 10 }] },
    }
}

const NOW: u64 = 40;

#[test]
fn divergence_is_found_at_the_exact_height() {
    // Primary [A@10, B@20, C@30], witness [A@10, B'@20, C@30]: divergence
    // at 20, never at 10 or 30.
    let a = block_at(10, 1);
    let b = block_at(20, 2);
    let b_prime = block_at(20, 999);
    let c = block_at(30, 3);
    let primary = vec![a.clone(), b.clone(), c.clone()];
    let witness = vec![a.clone(), b_prime.clone(), c.clone()];
    let ev = detect_divergence(&primary, &witness, NOW, &options()).unwrap().unwrap();
    assert_eq!(ev.height, 20);
    assert_eq!(ev.primary, b);
    assert_eq!(ev.witness, b_prime);
    // Symmetry: swapping the roles reports the same height.
    let ev2 = detect_divergence(&witness, &primary, NOW, &options()).unwrap().unwrap();
    assert_eq!(ev2.height, 20);
    assert_eq!(ev2.primary, b_prime);
    assert_eq!(ev2.witness, b);
}

#[test]
fn consistent_shorter_witness_is_no_divergence() {
    let primary = vec![block_at(10, 1), block_at(20, 2), block_at(30, 3)];
    let witness = vec![block_at(10, 1), block_at(20, 2)];
    // The witness tip at time 20 lags the primary tip at 30 by 10 > 5, so
    // widen the allowed lag for this comparison.
    let mut opts = options();
    opts.max_block_lag = 20;
    let r = detect_divergence(&primary, &witness, NOW, &opts).unwrap();
    assert!(r.is_none());
}

#[test]
fn disjoint_middle_heights_are_no_divergence() {
    let primary = vec![block_at(10, 1), block_at(20, 2), block_at(30, 3)];
    let witness = vec![block_at(10, 1), block_at(25, 9), block_at(30, 3)];
    let r = detect_divergence(&primary, &witness, NOW, &options()).unwrap();
    assert!(r.is_none());
}

#[test]
fn empty_traces_cannot_be_compared() {
    let primary: Vec<LightBlock> = vec![];
    let witness = vec![block_at(10, 1)];
    assert_eq!(
        detect_divergence(&primary, &witness, NOW, &options()).unwrap_err(),
        DetectorError::EmptyTrace
    );
}

#[test]
fn mismatched_seeds_cannot_be_compared() {
    let primary = vec![block_at(10, 1)];
    let witness = vec![block_at(11, 1)];
    assert_eq!(
        detect_divergence(&primary, &witness, NOW, &options()).unwrap_err(),
        DetectorError::MismatchedSeeds { primary_height: 10, witness_height: 11 }
    );
}

#[test]
fn stale_witness_cannot_be_compared() {
    let primary = vec![block_at(10, 1), block_at(30, 3)];
    let witness = vec![block_at(10, 1), block_at(20, 2)];
    assert_eq!(
        detect_divergence(&primary, &witness, NOW, &options()).unwrap_err(),
        DetectorError::BlockLagExceeded { primary_time: 30, witness_time: 20 }
    );
}

#[test]
fn skewed_witness_cannot_be_compared() {
    let primary = vec![block_at(10, 1), block_at(30, 3)];
    let witness = vec![block_at(10, 1), block_at(30, 777)];
    // now is far behind the witness tip's time.
    assert_eq!(
        detect_divergence(&primary, &witness, 10, &options()).unwrap_err(),
        DetectorError::ClockDriftExceeded { witness_time: 30, now: 10 }
    );
}

#[test]
fn codec_round_trips_every_field() {
    let b = LightBlock {
        header: Header {
            height: 123456789,
            time: 1700000000,
            validators_hash: 0x1111,
            next_validators_hash: 0x2222,
            app_hash: 0x3333,
        },
        commit: Commit {
            signatures: vec![
                Signature { validator_id: 1, sig: 0xdede },
                Signature { validator_id: 2, sig: 0xfefe },
            ],
        },
        validators: ValidatorSet {
            validators: vec![Validator { id: 1, power: 7 }, Validator { id: 2, power: 9 }],
        },
        next_validators: ValidatorSet { validators: vec![Validator { id: 5, power: 11 }] },
    };
    let bytes = encode_block(&b);
    let (b2, used) = decode_block(&bytes).unwrap();
    assert_eq!(used, bytes.len());
    assert_eq!(b2, b);
}

#[test]
fn codec_reads_consecutive_blocks() {
    let b1 = block_at(10, 1);
    let b2 = block_at(20, 2);
    let mut bytes = encode_block(&b1);
    bytes.extend(encode_block(&b2));
    let (r1, used1) = decode_block(&bytes).unwrap();
    assert_eq!(r1, b1);
    let (r2, used2) = decode_block(&bytes[used1..]).unwrap();
    assert_eq!(r2, b2);
    assert_eq!(used1 + used2, bytes.len());
}

#[test]
fn truncated_input_is_refused() {
    let bytes = encode_block(&block_at(10, 1));
    let cut = &bytes[..bytes.len() - 8];
    assert_eq!(decode_block(cut).unwrap_err(), CodecError::Truncated);
}

#[test]
fn unaligned_input_is_refused() {
    let bytes = [0u8, 1, 2];
    assert_eq!(decode_block(&bytes).unwrap_err(), CodecError::NotWordAligned);
}
