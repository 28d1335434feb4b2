//! The divergence detector: compares the verified traces of two sources
//! and assembles misbehavior evidence at the earliest disagreement.
//!
//! Both traces must be anchored at the same trusted seed.  Staleness and
//! clock skew make a comparison meaningless, so they are reported as
//! distinct errors, never as evidence.

use vstd::prelude::*;
use crate::options::TrustOptions;
use crate::store::{chain_block_at, chain_has_height, chain_index_of, chain_sorted, lemma_chain_at_index};
use crate::types::{BlockModel, LightBlock};

verus! {

/// Proof that two sources disagree: validly committed headers at the same
/// height with different contents.  Evidence owns its blocks so it can
/// outlive the session that produced it.
#[derive(Clone, PartialEq, Eq, Debug)]
pub struct Evidence {
    /// The height at which the two traces first diverge.
    pub height: u64,
    /// The primary's block at that height.
    pub primary: LightBlock,
    /// The witness's block at that height.
    pub witness: LightBlock,
}

/// Why two traces could not be compared.  Distinct from finding no
/// divergence: a caller must never confuse "could not compare" with
/// "compared and found no conflict".
#[derive(Clone, Copy, PartialEq, Eq, Structural, Debug)]
pub enum DetectorError {
    /// One of the traces is empty.
    EmptyTrace,
    /// The traces do not start from the same trusted seed.
    MismatchedSeeds { primary_height: u64, witness_height: u64 },
    /// The witness's tip is older than the primary's by more than the
    /// allowed block lag: too stale to compare.
    BlockLagExceeded { primary_time: u64, witness_time: u64 },
    /// The witness's tip is from the future beyond the allowed clock
    /// drift: too skewed to compare.
    ClockDriftExceeded { witness_time: u64, now: u64 },
}

/// Both traces hold height `h` and their headers there differ.
pub open spec fn diverges_at(p: Seq<BlockModel>, w: Seq<BlockModel>, h: u64) -> bool {
    &&& chain_has_height(p, h)
    &&& chain_has_height(w, h)
    &&& chain_block_at(p, h).header != chain_block_at(w, h).header
}

/// No height common to both traces carries differing headers.
pub open spec fn no_divergence(p: Seq<BlockModel>, w: Seq<BlockModel>) -> bool {
    forall|h: u64| !diverges_at(p, w, h)
}

/// The traces start from the same seed block.
pub open spec fn same_seed(p: Seq<BlockModel>, w: Seq<BlockModel>) -> bool {
    p[0].header.height == w[0].header.height && p[0].header == w[0].header
}

/// The witness's tip is recent enough to compare against the primary's.
pub open spec fn lag_ok(p: Seq<BlockModel>, w: Seq<BlockModel>, options: TrustOptions) -> bool {
    p.last().header.time <= w.last().header.time + options.max_block_lag
}

/// The witness's tip is not from the future beyond the allowed drift.
pub open spec fn drift_ok(w: Seq<BlockModel>, now: u64, options: TrustOptions) -> bool {
    w.last().header.time <= now + options.clock_drift
}

/// Divergence is a symmetric relation: the two traces disagree at a height
/// no matter which of them plays the primary.
pub proof fn lemma_divergence_symmetric(p: Seq<BlockModel>, w: Seq<BlockModel>, h: u64)
    ensures
        diverges_at(p, w, h) == diverges_at(w, p, h),
{
}

/// The earliest divergence height is the same seen from either side: a
/// height where the traces first disagree does not depend on which trace
/// is the primary.
pub proof fn lemma_first_divergence_symmetric(p: Seq<BlockModel>, w: Seq<BlockModel>, h: u64)
    ensures
        (diverges_at(p, w, h) && (forall|h2: u64| h2 < h ==> !diverges_at(p, w, h2)))
            == (diverges_at(w, p, h) && (forall|h2: u64| h2 < h ==> !diverges_at(w, p, h2))),
{
    if diverges_at(p, w, h) && (forall|h2: u64| h2 < h ==> !diverges_at(p, w, h2)) {
        assert forall|h2: u64| h2 < h implies !diverges_at(w, p, h2) by {
            assert(!diverges_at(p, w, h2));
        }
    }
    if diverges_at(w, p, h) && (forall|h2: u64| h2 < h ==> !diverges_at(w, p, h2)) {
        assert forall|h2: u64| h2 < h implies !diverges_at(p, w, h2) by {
            assert(!diverges_at(w, p, h2));
        }
    }
}

/// Compares two verified traces and reports the earliest divergence, if
/// any.  Requires both traces ascending by height, as the engine produces
/// them.  Exact behavior: an empty trace, mismatched seeds, a witness tip
/// lagging beyond `max_block_lag`, or one skewed beyond `clock_drift` are
/// errors; otherwise the result is the evidence at the least common
/// differing height, or nothing when every common height agrees.
pub fn detect_divergence(
    primary: &Vec<LightBlock>,
    witness: &Vec<LightBlock>,
    now: u64,
    options: &TrustOptions,
) -> (r: Result<Option<Evidence>, DetectorError>)
    requires
        chain_sorted(primary@.map_values(|b: LightBlock| b@)),
        chain_sorted(witness@.map_values(|b: LightBlock| b@)),
    ensures
        ({
            let p = primary@.map_values(|b: LightBlock| b@);
            let w = witness@.map_values(|b: LightBlock| b@);
            match r {
                Err(DetectorError::EmptyTrace) => p.len() == 0 || w.len() == 0,
                Err(DetectorError::MismatchedSeeds { primary_height, witness_height }) => p.len()
                    > 0 && w.len() > 0 && !same_seed(p, w) && primary_height
                    == p[0].header.height && witness_height == w[0].header.height,
                Err(DetectorError::BlockLagExceeded { primary_time, witness_time }) => p.len() > 0
                    && w.len() > 0 && same_seed(p, w) && !lag_ok(p, w, *options) && primary_time
                    == p.last().header.time && witness_time == w.last().header.time,
                Err(DetectorError::ClockDriftExceeded { witness_time, now: n }) => p.len() > 0
                    && w.len() > 0 && same_seed(p, w) && lag_ok(p, w, *options) && !drift_ok(
                    w,
                    now,
                    *options,
                ) && witness_time == w.last().header.time && n == now,
                Ok(None) => p.len() > 0 && w.len() > 0 && same_seed(p, w) && lag_ok(p, w, *options)
                    && drift_ok(w, now, *options) && no_divergence(p, w),
                Ok(Some(ev)) => p.len() > 0 && w.len() > 0 && same_seed(p, w) && lag_ok(
                    p,
                    w,
                    *options,
                ) && drift_ok(w, now, *options) && diverges_at(p, w, ev.height) && (forall|h2: u64|
                    h2 < ev.height ==> !diverges_at(p, w, h2)) && ev.primary@ == chain_block_at(
                    p,
                    ev.height,
                ) && ev.witness@ == chain_block_at(w, ev.height),
            }
        }),
{
    let ghost p = primary@.map_values(|b: LightBlock| b@);
    let ghost w = witness@.map_values(|b: LightBlock| b@);
    let np = primary.len();
    let nw = witness.len();
    if np == 0 || nw == 0 {
        return Err(DetectorError::EmptyTrace);
    }
    if primary[0].header.height != witness[0].header.height || !(primary[0].header
        == witness[0].header) {
        return Err(DetectorError::MismatchedSeeds {
            primary_height: primary[0].header.height,
            witness_height: witness[0].header.height,
        });
    }
    let p_tip = primary[np - 1].header.time;
    let w_tip = witness[nw - 1].header.time;
    if p_tip as u128 > w_tip as u128 + options.max_block_lag as u128 {
        return Err(DetectorError::BlockLagExceeded { primary_time: p_tip, witness_time: w_tip });
    }
    if w_tip as u128 > now as u128 + options.clock_drift as u128 {
        return Err(DetectorError::ClockDriftExceeded { witness_time: w_tip, now });
    }
    let mut i: usize = 0;
    let mut j: usize = 0;
    while i < np && j < nw
        invariant
            0 <= i <= np,
            0 <= j <= nw,
            np == primary@.len(),
            nw == witness@.len(),
            np > 0,
            nw > 0,
            p == primary@.map_values(|b: LightBlock| b@),
            w == witness@.map_values(|b: LightBlock| b@),
            chain_sorted(p),
            chain_sorted(w),
            same_seed(p, w),
            lag_ok(p, w, *options),
            drift_ok(w, now, *options),
            forall|l: int| 0 <= l < j ==> i == np || (#[trigger] w[l]).header.height < p[i as int].header.height,
            forall|k: int| 0 <= k < i ==> j == nw || (#[trigger] p[k]).header.height < w[j as int].header.height,
            forall|k: int, l: int|
                0 <= k < i && 0 <= l < j && (#[trigger] p[k]).header.height == (
                #[trigger] w[l]).header.height ==> p[k].header == w[l].header,
        decreases np - i + nw - j,
    {
        let ph = primary[i].header.height;
        let wh = witness[j].header.height;
        if ph < wh {
            i += 1;
        } else if wh < ph {
            j += 1;
        } else {
            if !(primary[i].header == witness[j].header) {
                proof {
                    lemma_chain_at_index(p, i as int);
                    lemma_chain_at_index(w, j as int);
                    assert(diverges_at(p, w, ph));
                    assert forall|h2: u64| h2 < ph implies !diverges_at(p, w, h2) by {
                        if diverges_at(p, w, h2) {
                            let k = chain_index_of(p, h2);
                            let l = chain_index_of(w, h2);
                            assert(p[k].header.height == h2 && w[l].header.height == h2);
                            if k >= i {
                                assert(p[i as int].header.height <= p[k].header.height);
                            }
                            if l >= j {
                                assert(w[j as int].header.height <= w[l].header.height);
                            }
                            assert(k < i && l < j);
                        }
                    }
                }
                return Ok(Some(Evidence {
                    height: ph,
                    primary: primary[i].duplicate(),
                    witness: witness[j].duplicate(),
                }));
            }
            i += 1;
            j += 1;
        }
    }
    proof {
        assert forall|h2: u64| !diverges_at(p, w, h2) by {
            if diverges_at(p, w, h2) {
                let k = chain_index_of(p, h2);
                let l = chain_index_of(w, h2);
                assert(p[k].header.height == h2 && w[l].header.height == h2);
                if i == np {
                    assert(k < i);
                    assert(l < j || (j < nw && p[k].header.height < w[j as int].header.height));
                    assert(l < j);
                } else {
                    assert(j == nw);
                    assert(l < j);
                    assert(k < i || w[l].header.height < p[i as int].header.height);
                    assert(k < i);
                }
                assert(p[k].header == w[l].header);
            }
        }
    }
    Ok(None)
}

} // verus!
