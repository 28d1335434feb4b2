//! The verification engine: adaptive bisection from a trusted anchor to a
//! target height.
//!
//! The engine owns a store seeded with pre-supplied blocks, the first of
//! which is the trusted anchor.  `verify_to_height` drives the scheduler:
//! it attempts the target directly and, whenever the voting-power overlap
//! with the current anchor is insufficient, bisects to the midpoint, so the
//! number of predicate evaluations stays logarithmic in the height gap.
//! Every successful step advances the anchor and extends the trace.
//!
//! The whole walk is mirrored by the spec function [`bisect`]; the engine's
//! contract states that result, trace and statuses equal that function of
//! the initial state, so two calls with the same state agree exactly.

use vstd::prelude::*;
use crate::options::{options_wf, TrustOptions};
use crate::predicates::{
    continuity_ok, height_increases, power_ok, time_increases, verify, verify_spec,
    PredicateError, Verdict,
};
use crate::store::{
    block_at, chain_block_at, chain_has_height, chain_index_of, chain_sorted, contains_height,
    entry_height, index_of_height, lemma_at_index, lemma_chain_at_index, lemma_store_chain,
    status_at, store_blocks, store_sorted, store_wf, EntryModel, Status, Store,
};
use crate::types::{block_wf, BlockModel, LightBlock};

verus! {

/// Why the engine could not be built.
#[derive(Clone, Copy, PartialEq, Eq, Structural, Debug)]
pub enum ClientError {
    /// The trust threshold fraction is not a valid threshold.
    InvalidOptions,
    /// No seed block was supplied.
    EmptySeed,
    /// A seed block's validator powers overflow a machine word.
    MalformedBlock { height: u64 },
    /// Seed heights must strictly increase.
    UnorderedSeed { prev_height: u64, height: u64 },
}

/// Why a verification call failed.
#[derive(Clone, Copy, PartialEq, Eq, Structural, Debug)]
pub enum VerifyError {
    /// The target lies at or below an already trusted height.
    TargetLowerThanTrusted { target: u64, trusted: u64 },
    /// A height the scheduler picked is not in the store, and the engine
    /// performs no fetches of its own.
    HeightNotFound { height: u64 },
    /// The candidate directly above the anchor lacks trust: nothing is left
    /// to bisect, so trust cannot be extended.
    NoTrustPath { anchor: u64, failed: u64 },
    /// A candidate failed a terminal predicate.
    VerificationFailed { anchor: u64, failed: u64, reason: PredicateError },
}

/// The outcome of a bisection walk: the newly verified heights in order,
/// and how the walk ended.
#[verifier::ext_equal]
pub ghost enum Search {
    /// The target was reached; `chain` ends at the target.
    Reached { chain: Seq<u64> },
    /// A wanted height is not in the store.
    Missing { chain: Seq<u64>, height: u64 },
    /// The candidate adjacent to the anchor lacked trust.
    NoPath { chain: Seq<u64>, anchor: u64, failed: u64 },
    /// A candidate failed a terminal predicate.
    Rejected { chain: Seq<u64>, anchor: u64, failed: u64, reason: PredicateError },
}

pub open spec fn search_chain(s: Search) -> Seq<u64> {
    match s {
        Search::Reached { chain } => chain,
        Search::Missing { chain, .. } => chain,
        Search::NoPath { chain, .. } => chain,
        Search::Rejected { chain, .. } => chain,
    }
}

pub open spec fn with_chain(s: Search, c: Seq<u64>) -> Search {
    match s {
        Search::Reached { .. } => Search::Reached { chain: c },
        Search::Missing { height, .. } => Search::Missing { chain: c, height },
        Search::NoPath { anchor, failed, .. } => Search::NoPath { chain: c, anchor, failed },
        Search::Rejected { anchor, failed, reason, .. } => Search::Rejected {
            chain: c,
            anchor,
            failed,
            reason,
        },
    }
}

/// The same outcome with already-verified heights put in front.
pub open spec fn prepend(pre: Seq<u64>, s: Search) -> Search {
    with_chain(s, pre + search_chain(s))
}

/// The blocks a sequence of heights names in a block sequence.
pub open spec fn blocks_of_heights(bs: Seq<BlockModel>, hs: Seq<u64>) -> Seq<BlockModel> {
    hs.map_values(|h: u64| chain_block_at(bs, h))
}

/// Extending the trace by one verified height extends the named blocks.
proof fn lemma_trace_extend(
    pre_trace: Seq<BlockModel>,
    bs: Seq<BlockModel>,
    done: Seq<u64>,
    current: u64,
    new_trace: Seq<BlockModel>,
)
    requires
        new_trace == (pre_trace + blocks_of_heights(bs, done)).push(chain_block_at(bs, current)),
    ensures
        new_trace == pre_trace + blocks_of_heights(bs, done + seq![current]),
{
    assert(new_trace =~= pre_trace + blocks_of_heights(bs, done + seq![current]));
}

/// The height the scheduler bisects to: halfway between the anchor and a
/// candidate that could not be trusted directly.
pub open spec fn midpoint(anchor: u64, failed: u64) -> u64 {
    (anchor + (failed - anchor) / 2) as u64
}

/// The bisection walk itself, as a function of the blocks alone (statuses
/// play no part in a verdict).  From anchor height `anchor`, examining
/// `current`, aiming at `target`: verify `current` against the anchor; on
/// success the anchor advances to `current` and the walk resumes at the
/// target; when only the voting-power overlap fails, bisect to the
/// midpoint; a terminal predicate failure, a missing block, or an
/// untrusted adjacent candidate ends the walk.
pub open spec fn bisect(
    bs: Seq<BlockModel>,
    anchor: u64,
    current: u64,
    target: u64,
    now: u64,
    options: TrustOptions,
) -> Search
    decreases target - anchor, current - anchor,
        when anchor < current <= target && chain_has_height(bs, anchor)
{
    if !chain_has_height(bs, current) {
        Search::Missing { chain: seq![], height: current }
    } else {
        let verdict = verify_spec(
            chain_block_at(bs, anchor),
            chain_block_at(bs, current),
            now,
            options,
        );
        match verdict {
            Verdict::Success => {
                if current == target {
                    Search::Reached { chain: seq![current] }
                } else {
                    prepend(seq![current], bisect(bs, current, target, target, now, options))
                }
            },
            Verdict::NotEnoughTrust { .. } => {
                if current == anchor + 1 {
                    Search::NoPath { chain: seq![], anchor, failed: current }
                } else {
                    bisect(bs, anchor, midpoint(anchor, current), target, now, options)
                }
            },
            Verdict::Invalid { reason } => {
                Search::Rejected { chain: seq![], anchor, failed: current, reason }
            },
        }
    }
}

/// A chain that reached the target is non-empty, strictly ascending above
/// the anchor, ends at the target, and names only stored heights.
pub proof fn lemma_reached_chain(
    bs: Seq<BlockModel>,
    anchor: u64,
    current: u64,
    target: u64,
    now: u64,
    options: TrustOptions,
)
    requires
        anchor < current <= target,
        chain_has_height(bs, anchor),
        bisect(bs, anchor, current, target, now, options) matches Search::Reached { .. },
    ensures
        ({
            let chain = search_chain(bisect(bs, anchor, current, target, now, options));
            &&& chain.len() > 0
            &&& chain.last() == target
            &&& forall|i: int| 0 <= i < chain.len() ==> anchor < #[trigger] chain[i] <= target
            &&& forall|i: int, j: int| 0 <= i < j < chain.len() ==> chain[i] < chain[j]
            &&& forall|i: int| 0 <= i < chain.len() ==> chain_has_height(bs, #[trigger] chain[i])
        }),
    decreases target - anchor, current - anchor,
{
    let r = bisect(bs, anchor, current, target, now, options);
    let verdict = verify_spec(chain_block_at(bs, anchor), chain_block_at(bs, current), now, options);
    match verdict {
        Verdict::Success => {
            if current != target {
                lemma_reached_chain(bs, current, target, target, now, options);
            }
        },
        Verdict::NotEnoughTrust { .. } => {
            if current != anchor + 1 {
                lemma_reached_chain(bs, anchor, midpoint(anchor, current), target, now, options);
            }
        },
        Verdict::Invalid { .. } => {},
    }
}

/// Two prefixes prepend as their concatenation does.
pub proof fn lemma_prepend_concat(a: Seq<u64>, b: Seq<u64>, s: Search)
    ensures
        prepend(a, prepend(b, s)) =~= prepend(a + b, s),
{
    assert(a + (b + search_chain(s)) =~= (a + b) + search_chain(s));
}

pub proof fn lemma_prepend_empty(s: Search)
    ensures
        prepend(seq![], s) =~= s,
{
    assert(seq![] + search_chain(s) =~= search_chain(s));
}

/// Two consecutive trace blocks are linked: height and time increase, an
/// adjacent step carries the announced validator set, and the signers hold
/// enough power.  These are the time-independent predicates; the
/// time-dependent ones held at the moment the link was verified.
pub open spec fn linked(t: BlockModel, c: BlockModel, options: TrustOptions) -> bool {
    &&& height_increases(t, c)
    &&& time_increases(t, c)
    &&& continuity_ok(t, c)
    &&& power_ok(t, c, options)
}

/// The verification engine: a store of blocks, the session options, and the
/// trace of anchors established so far (the seed first).
#[derive(Debug)]
pub struct LightClient {
    store: Store,
    options: TrustOptions,
    trace: Vec<LightBlock>,
}

impl LightClient {
    /// The store's model: blocks with statuses, ascending by height.
    pub closed spec fn store_model(&self) -> Seq<EntryModel> {
        self.store@
    }

    /// The trace's model: the chain of anchors established so far.
    pub closed spec fn trace_model(&self) -> Seq<BlockModel> {
        self.trace@.map_values(|b: LightBlock| b@)
    }

    pub closed spec fn options_spec(&self) -> TrustOptions {
        self.options
    }

    /// The current anchor: the last block of the trace.
    pub open spec fn anchor_model(&self) -> BlockModel {
        self.trace_model().last()
    }

    pub open spec fn anchor_height(&self) -> u64 {
        self.anchor_model().header.height
    }

    /// The engine invariant: the store is well formed; the trace is a
    /// non-empty ascending chain of linked blocks, each present in the
    /// store as `Trusted` or `Verified`; the first trace block is the
    /// trusted seed.
    pub closed spec fn wf(&self) -> bool {
        let tm = self.trace_model();
        &&& store_wf(self.store@)
        &&& options_wf(self.options)
        &&& tm.len() > 0
        &&& chain_sorted(tm)
        &&& forall|i: int|
            0 <= i < tm.len() ==> contains_height(self.store@, (#[trigger] tm[i]).header.height)
                && block_at(self.store@, tm[i].header.height) == tm[i] && (status_at(
                self.store@,
                tm[i].header.height,
            ) == Status::Trusted || status_at(self.store@, tm[i].header.height)
                == Status::Verified)
        &&& status_at(self.store@, tm[0].header.height) == Status::Trusted
        &&& forall|i: int| 0 <= i < tm.len() - 1 ==> linked(#[trigger] tm[i], tm[i + 1], self.options)
    }

    /// Builds an engine from a seed: a non-empty list of blocks in strictly
    /// ascending height order, the first of which becomes the trusted
    /// anchor and the rest of which are stored `Unverified`.
    pub fn new(seed: &Vec<LightBlock>, options: TrustOptions) -> (r: Result<
        LightClient,
        ClientError,
    >)
        ensures
            match r {
                Ok(c) => {
                    &&& options_wf(options)
                    &&& seed@.len() > 0
                    &&& forall|i: int| 0 <= i < seed@.len() ==> block_wf((#[trigger] seed@[i])@)
                    &&& forall|i: int, j: int|
                        0 <= i < j < seed@.len() ==> (#[trigger] seed@[i])@.header.height < (
                        #[trigger] seed@[j])@.header.height
                    &&& c.wf()
                    &&& c.options_spec() == options
                    &&& c.trace_model() =~= seq![seed@[0]@]
                    &&& c.store_model().len() == seed@.len()
                    &&& forall|i: int|
                        0 <= i < seed@.len() ==> {
                            let h = (#[trigger] seed@[i])@.header.height;
                            contains_height(c.store_model(), h) && block_at(c.store_model(), h)
                                == seed@[i]@ && status_at(c.store_model(), h) == if i == 0 {
                                Status::Trusted
                            } else {
                                Status::Unverified
                            }
                        }
                },
                Err(ClientError::InvalidOptions) => !options_wf(options),
                Err(ClientError::EmptySeed) => options_wf(options) && seed@.len() == 0,
                Err(ClientError::MalformedBlock { height }) => exists|i: int|
                    0 <= i < seed@.len() && !block_wf((#[trigger] seed@[i])@) && height
                        == seed@[i]@.header.height && (forall|j: int|
                        0 <= j < i ==> block_wf((#[trigger] seed@[j])@)),
                Err(ClientError::UnorderedSeed { prev_height, height }) => exists|i: int|
                    0 < i < seed@.len() && prev_height == (#[trigger] seed@[i - 1])@.header.height
                        && height == seed@[i]@.header.height && prev_height >= height,
            },
    {
        if !options.is_well_formed() {
            return Err(ClientError::InvalidOptions);
        }
        let n = seed.len();
        if n == 0 {
            return Err(ClientError::EmptySeed);
        }
        let mut store = Store::new();
        let mut i: usize = 0;
        while i < n
            invariant
                0 < n == seed@.len(),
                0 <= i <= n,
                store.wf(),
                store@.len() == i,
                forall|j: int| 0 <= j < i ==> block_wf((#[trigger] seed@[j])@),
                forall|j: int, k: int|
                    0 <= j < k < i ==> (#[trigger] seed@[j])@.header.height < (
                    #[trigger] seed@[k])@.header.height,
                forall|j: int|
                    0 <= j < i ==> {
                        let h = (#[trigger] seed@[j])@.header.height;
                        contains_height(store@, h) && block_at(store@, h) == seed@[j]@
                            && status_at(store@, h) == if j == 0 {
                            Status::Trusted
                        } else {
                            Status::Unverified
                        }
                    },
                forall|h: u64|
                    contains_height(store@, h) ==> exists|j: int|
                        0 <= j < i && (#[trigger] seed@[j])@.header.height == h,
            decreases n - i,
        {
            if !seed[i].is_well_formed() {
                return Err(ClientError::MalformedBlock { height: seed[i].header.height });
            }
            if i > 0 && seed[i - 1].header.height >= seed[i].header.height {
                return Err(ClientError::UnorderedSeed {
                    prev_height: seed[i - 1].header.height,
                    height: seed[i].header.height,
                });
            }
            let ghost pre = store@;
            let h = seed[i].header.height;
            proof {
                if contains_height(pre, h) {
                    let j = choose|j: int|
                        0 <= j < i && (#[trigger] seed@[j])@.header.height == h;
                    assert(seed@[j]@.header.height < seed@[i as int]@.header.height);
                }
            }
            let status = if i == 0 {
                Status::Trusted
            } else {
                Status::Unverified
            };
            let res = store.insert_with_status(seed[i].duplicate(), status);
            proof {
                if res matches Err(_) {
                    assert(false);
                }
                assert forall|h2: u64| contains_height(store@, h2) implies exists|j: int|
                    0 <= j < i + 1 && (#[trigger] seed@[j])@.header.height == h2 by {
                    if h2 != h {
                        assert(contains_height(pre, h2));
                    } else {
                        assert(seed@[i as int]@.header.height == h2);
                    }
                }
            }
            i += 1;
        }
        let trace_head = seed[0].duplicate();
        let mut trace: Vec<LightBlock> = Vec::new();
        trace.push(trace_head);
        let c = LightClient { store, options, trace };
        proof {
            assert(c.trace_model() =~= seq![seed@[0]@]);
            assert forall|k: int, j: int|
                0 <= k < j < seed@.len() implies (#[trigger] seed@[k])@.header.height < (
            #[trigger] seed@[j])@.header.height by {}
        }
        Ok(c)
    }

    /// The most recently established trusted block: the current anchor.
    pub fn latest_trusted(&self) -> (r: Option<LightBlock>)
        requires
            self.wf(),
        ensures
            r matches Some(b) && b@ == self.anchor_model(),
    {
        let last = self.trace.len() - 1;
        Some(self.trace[last].duplicate())
    }

    /// Walks from the current anchor to `target` by bisection and returns
    /// the verified target block.  The contract equates result, trace and
    /// statuses with the [`bisect`] walk over the initial state, so the
    /// call is deterministic in the state; when the anchor already stands
    /// at `target` the stored anchor is returned and nothing changes, and
    /// in particular no predicate is evaluated again.
    #[verifier::rlimit(100)]
    pub fn verify_to_height(&mut self, target: u64, now: u64) -> (r: Result<
        LightBlock,
        VerifyError,
    >)
        requires
            old(self).wf(),
        ensures
            final(self).wf(),
            verify_post(*old(self), *final(self), target, now, r),
    {
        let last0 = self.trace.len() - 1;
        proof {
            assert(self.trace_model()[last0 as int] == self.trace@[last0 as int]@);
        }
        let anchor_h0 = self.trace[last0].header.height;
        if target == anchor_h0 {
            let b = self.trace[last0].duplicate();
            return Ok(b);
        }
        if target < anchor_h0 {
            return Err(VerifyError::TargetLowerThanTrusted { target, trusted: anchor_h0 });
        }
        let ghost pre = *self;
        let ghost bs = store_blocks(self.store@);
        let ghost full = bisect(bs, anchor_h0, target, target, now, self.options);
        let mut current: u64 = target;
        let ghost mut done: Seq<u64> = seq![];
        proof {
            lemma_prepend_empty(bisect(bs, anchor_h0, target, target, now, self.options));
            assert(blocks_of_heights(bs, done) =~= Seq::<BlockModel>::empty());
            assert(self.trace_model() =~= pre.trace_model() + blocks_of_heights(bs, done));
        }
        loop
            invariant
                pre == *old(self),
                self.wf(),
                store_wf(pre.store@),
                self.options == pre.options,
                self.store@.len() == pre.store@.len(),
                store_blocks(self.store@) == bs,
                bs == store_blocks(pre.store@),
                pre.anchor_height() == anchor_h0,
                anchor_h0 < target,
                self.anchor_height() < current <= target,
                full == bisect(bs, anchor_h0, target, target, now, pre.options),
                full == prepend(
                    done,
                    bisect(bs, self.anchor_height(), current, target, now, self.options),
                ),
                self.trace_model() == pre.trace_model() + blocks_of_heights(bs, done),
                statuses_after(pre.store@, self.store@, done, None::<u64>),
                forall|k: int| 0 <= k < done.len() ==> #[trigger] done[k] <= self.anchor_height(),
            decreases target - self.anchor_height(), current - self.anchor_height(),
        {
            let last = self.trace.len() - 1;
            proof {
                assert(self.trace_model()[last as int] == self.trace@[last as int]@);
            }
            let anchor_h = self.trace[last].header.height;
            proof {
                assert(anchor_h == self.anchor_height());
                lemma_store_chain(self.store@, anchor_h);
                assert(chain_has_height(bs, anchor_h));
                assert(chain_block_at(bs, anchor_h) == self.anchor_model());
                lemma_at_index(self.store@, index_of_height(self.store@, anchor_h));
                assert(block_wf(self.anchor_model()));
            }
            let cand_opt = match self.store.get(current) {
                Some(c) => Some(c.duplicate()),
                None => None,
            };
            let cand = match cand_opt {
                None => {
                    proof {
                        lemma_store_chain(self.store@, current);
                        assert(bisect(bs, anchor_h, current, target, now, self.options)
                            == Search::Missing { chain: seq![], height: current });
                        assert(full =~= Search::Missing { chain: done, height: current });
                        lemma_same_heights(pre.store@, self.store@, bs);
                    }
                    return Err(VerifyError::HeightNotFound { height: current });
                },
                Some(c) => c,
            };
            proof {
                lemma_store_chain(self.store@, current);
                assert(cand@ == chain_block_at(bs, current));
                lemma_at_index(self.store@, index_of_height(self.store@, current));
                assert(block_wf(cand@));
            }
            let verdict = verify(&self.trace[last], &cand, now, &self.options);
            let ghost step = bisect(bs, anchor_h, current, target, now, self.options);
            match verdict {
                Verdict::Success => {
                    let ghost mid_store = self.store@;
                    self.store.set_status(current, Status::Verified);
                    let ghost cand_model = cand@;
                    let ghost old_trace = self.trace_model();
                    self.trace.push(cand);
                    proof {
                        assert(self.trace_model() =~= old_trace.push(cand_model));
                        lemma_wf_after_step(
                            pre,
                            *self,
                            bs,
                            old_trace,
                            cand_model,
                            mid_store,
                            current,
                            now,
                        );
                        lemma_same_heights(pre.store@, mid_store, bs);
                        lemma_same_heights(pre.store@, self.store@, bs);
                        lemma_statuses_extend(pre.store@, mid_store, self.store@, done, current);
                        lemma_trace_extend(
                            pre.trace_model(),
                            bs,
                            done,
                            current,
                            self.trace_model(),
                        );
                    }
                    if current == target {
                        let lastn = self.trace.len() - 1;
                        proof {
                            assert(step == Search::Reached { chain: seq![current] });
                            assert(full =~= Search::Reached { chain: done + seq![current] });
                            assert(self.trace_model()[lastn as int] == self.trace@[lastn as int]@);
                        }
                        let b = self.trace[lastn].duplicate();
                        return Ok(b);
                    }
                    proof {
                        assert(step == prepend(
                            seq![current],
                            bisect(bs, current, target, target, now, self.options),
                        ));
                        lemma_prepend_concat(
                            done,
                            seq![current],
                            bisect(bs, current, target, target, now, self.options),
                        );
                        done = done + seq![current];
                        assert(self.anchor_height() == current);
                    }
                    current = target;
                },
                Verdict::NotEnoughTrust { .. } => {
                    if current == anchor_h + 1 {
                        proof {
                            assert(step == Search::NoPath {
                                chain: seq![],
                                anchor: anchor_h,
                                failed: current,
                            });
                            assert(full =~= Search::NoPath {
                                chain: done,
                                anchor: anchor_h,
                                failed: current,
                            });
                            lemma_same_heights(pre.store@, self.store@, bs);
                        }
                        return Err(VerifyError::NoTrustPath { anchor: anchor_h, failed: current });
                    }
                    proof {
                        assert(step == bisect(
                            bs,
                            anchor_h,
                            midpoint(anchor_h, current),
                            target,
                            now,
                            self.options,
                        ));
                    }
                    current = anchor_h + (current - anchor_h) / 2;
                },
                Verdict::Invalid { reason } => {
                    let ghost mid_store = self.store@;
                    self.store.set_status(current, Status::Failed);
                    proof {
                        assert(step == Search::Rejected {
                            chain: seq![],
                            anchor: anchor_h,
                            failed: current,
                            reason,
                        });
                        assert(full =~= Search::Rejected {
                            chain: done,
                            anchor: anchor_h,
                            failed: current,
                            reason,
                        });
                        lemma_wf_after_fail(pre, *self, mid_store, current);
                        lemma_same_heights(pre.store@, mid_store, bs);
                        lemma_same_heights(pre.store@, self.store@, bs);
                        assert(!done.contains(current)) by {
                            if done.contains(current) {
                                let k = choose|k: int| 0 <= k < done.len() && done[k] == current;
                                assert(done[k] <= self.anchor_height());
                            }
                        }
                        lemma_statuses_fail(pre.store@, mid_store, self.store@, done, current);
                        assert(self.trace_model() == pre.trace_model() + blocks_of_heights(
                            bs,
                            done,
                        ));
                    }
                    return Err(VerifyError::VerificationFailed {
                        anchor: anchor_h,
                        failed: current,
                        reason,
                    });
                },
            }
        }
    }

    /// Walks to the greatest height present in the store.
    pub fn verify_to_highest(&mut self, now: u64) -> (r: Result<LightBlock, VerifyError>)
        requires
            old(self).wf(),
        ensures
            final(self).wf(),
            verify_post(
                *old(self),
                *final(self),
                entry_height(old(self).store_model().last()),
                now,
                r,
            ),
    {
        proof {
            let tm = self.trace_model();
            assert(contains_height(self.store@, tm[0].header.height));
        }
        let t = match self.store.highest_height() {
            Some(t) => t,
            None => {
                proof {
                    assert(false);
                }
                0
            },
        };
        self.verify_to_height(t, now)
    }

    /// The verified trace up to height `h`: the chain of anchors from the
    /// seed to `h`, or empty when `h` was never made an anchor.
    #[verifier::rlimit(50)]
    pub fn get_trace(&self, h: u64) -> (r: Vec<LightBlock>)
        requires
            self.wf(),
        ensures
            ({
                let tm = self.trace_model();
                if chain_has_height(tm, h) {
                    r@.map_values(|b: LightBlock| b@) == tm.take(chain_index_of(tm, h) + 1)
                } else {
                    r@.len() == 0
                }
            }),
    {
        let n = self.trace.len();
        let mut r: Vec<LightBlock> = Vec::new();
        let mut k: usize = 0;
        while k < n
            invariant
                0 <= k <= n,
                n == self.trace@.len(),
                chain_sorted(self.trace_model()),
                r@.len() == k,
                forall|j: int| 0 <= j < k ==> (#[trigger] r@[j])@ == self.trace_model()[j],
                forall|j: int| 0 <= j < k ==> self.trace_model()[j].header.height != h,
            decreases n - k,
        {
            proof {
                assert(self.trace_model()[k as int] == self.trace@[k as int]@);
            }
            r.push(self.trace[k].duplicate());
            if self.trace[k].header.height == h {
                proof {
                    lemma_chain_at_index(self.trace_model(), k as int);
                    assert(r@.map_values(|b: LightBlock| b@) =~= self.trace_model().take(
                        k as int + 1,
                    ));
                }
                return r;
            }
            k += 1;
        }
        Vec::new()
    }
}

/// Each bisection step at least halves the remaining gap: the midpoint lies
/// strictly between the anchor and the failed candidate, and its distance
/// from the anchor is at most half the failed candidate's, rounded up.
/// Together with the termination measure of [`bisect`] this bounds a walk's
/// probes logarithmically in the height gap.
pub proof fn lemma_bisection_halves(anchor: u64, failed: u64)
    requires
        anchor + 1 < failed,
    ensures
        anchor < midpoint(anchor, failed) < failed,
        2 * (midpoint(anchor, failed) - anchor) <= failed - anchor + 1,
{
}

/// Verifying to a height the anchor already stands at changes nothing and
/// returns the same block: a second `verify_to_height` call right after a
/// successful one yields the same trace and re-evaluates no predicate.
pub proof fn lemma_verify_idempotent(
    s0: LightClient,
    s1: LightClient,
    s2: LightClient,
    target: u64,
    now1: u64,
    now2: u64,
    r1: Result<LightBlock, VerifyError>,
    r2: Result<LightBlock, VerifyError>,
)
    requires
        s0.wf(),
        verify_post(s0, s1, target, now1, r1),
        r1 is Ok,
        verify_post(s1, s2, target, now2, r2),
    ensures
        r1 matches Ok(b1) && r2 matches Ok(b2) && b1@ == b2@,
        s2.store_model() == s1.store_model(),
        s2.trace_model() == s1.trace_model(),
{
    let bs = store_blocks(s0.store_model());
    let a0 = s0.anchor_height();
    if target == a0 {
        assert(s1.trace_model() == s0.trace_model());
        assert(s1.anchor_height() == target);
    } else {
        assert(target > a0);
        let s = bisect(bs, a0, target, target, now1, s0.options_spec());
        assert(s is Reached);
        let chain = search_chain(s);
        assert(chain_has_height(bs, a0)) by {
            let tm = s0.trace_model();
            assert(contains_height(s0.store_model(), tm[tm.len() - 1].header.height));
            lemma_store_chain(s0.store_model(), a0);
        }
        lemma_reached_chain(bs, a0, target, target, now1, s0.options_spec());
        assert(chain.len() > 0 && chain.last() == target);
        let named = blocks_of_heights(bs, chain);
        assert(s1.trace_model() == s0.trace_model() + named);
        assert(named.len() == chain.len());
        assert(s1.anchor_model() == named.last());
        assert(named.last() == chain_block_at(bs, chain.last()));
        assert(s1.anchor_model() == chain_block_at(bs, target));
        assert(r1 matches Ok(b1) && b1@ == s1.anchor_model());
    }
    assert(target == s1.anchor_height());
}

/// Statuses after a walk: heights on the verified chain advance to
/// `Verified`, a rejected height advances to `Failed`, everything else
/// keeps its status.  Blocks themselves never change.
pub open spec fn statuses_after(
    pre: Seq<EntryModel>,
    post: Seq<EntryModel>,
    verified: Seq<u64>,
    failed: Option<u64>,
) -> bool {
    forall|h: u64|
        contains_height(pre, h) ==> #[trigger] status_at(post, h) == (if verified.contains(h) {
            Status::Verified
        } else if failed == Some(h) {
            Status::Failed
        } else {
            status_at(pre, h)
        })
}

/// What one verification call does, as a function of the initial state: the
/// fast path when the target is not above the anchor, otherwise exactly the
/// [`bisect`] walk.
pub open spec fn verify_post(
    pre: LightClient,
    post: LightClient,
    target: u64,
    now: u64,
    r: Result<LightBlock, VerifyError>,
) -> bool {
    let bs = store_blocks(pre.store_model());
    let a0 = pre.anchor_height();
    &&& post.options_spec() == pre.options_spec()
    &&& store_blocks(post.store_model()) == bs
    &&& post.store_model().len() == pre.store_model().len()
    &&& forall|h: u64| contains_height(post.store_model(), h) == contains_height(pre.store_model(), h)
    &&& if target == a0 {
        &&& r matches Ok(b) && b@ == pre.anchor_model()
        &&& post.store_model() == pre.store_model()
        &&& post.trace_model() == pre.trace_model()
    } else if target < a0 {
        &&& r == Err::<LightBlock, VerifyError>(
            VerifyError::TargetLowerThanTrusted { target, trusted: a0 },
        )
        &&& post.store_model() == pre.store_model()
        &&& post.trace_model() == pre.trace_model()
    } else {
        let s = bisect(bs, a0, target, target, now, pre.options_spec());
        let chain = search_chain(s);
        &&& post.trace_model() == pre.trace_model() + blocks_of_heights(bs, chain)
        &&& match s {
            Search::Reached { .. } => {
                &&& r matches Ok(b) && b@ == chain_block_at(bs, target)
                &&& statuses_after(pre.store_model(), post.store_model(), chain, None::<u64>)
                &&& post.anchor_height() == target
            },
            Search::Missing { height, .. } => {
                &&& r == Err::<LightBlock, VerifyError>(VerifyError::HeightNotFound { height })
                &&& statuses_after(pre.store_model(), post.store_model(), chain, None::<u64>)
            },
            Search::NoPath { anchor, failed, .. } => {
                &&& r == Err::<LightBlock, VerifyError>(VerifyError::NoTrustPath { anchor, failed })
                &&& statuses_after(pre.store_model(), post.store_model(), chain, None::<u64>)
            },
            Search::Rejected { anchor, failed, reason, .. } => {
                &&& r == Err::<LightBlock, VerifyError>(
                    VerifyError::VerificationFailed { anchor, failed, reason },
                )
                &&& statuses_after(pre.store_model(), post.store_model(), chain, Some(failed))
            },
        }
    }
}

/// Membership in a sequence extended by one element.
proof fn lemma_push_contains(s: Seq<u64>, x: u64, h: u64)
    ensures
        (s + seq![x]).contains(h) == (s.contains(h) || h == x),
{
    assert((s + seq![x])[s.len() as int] == x);
    if s.contains(h) {
        let i = choose|i: int| 0 <= i < s.len() && s[i] == h;
        assert((s + seq![x])[i] == h);
    }
    if (s + seq![x]).contains(h) {
        let i = choose|i: int| 0 <= i < (s + seq![x]).len() && (s + seq![x])[i] == h;
        if i < s.len() {
            assert(s[i] == h);
        }
    }
}

/// Statuses after one more verified height: the bookkeeping step for a
/// successful verification.
proof fn lemma_statuses_extend(
    pre_s: Seq<EntryModel>,
    mid_s: Seq<EntryModel>,
    post_s: Seq<EntryModel>,
    done: Seq<u64>,
    current: u64,
)
    requires
        statuses_after(pre_s, mid_s, done, None::<u64>),
        contains_height(post_s, current),
        status_at(post_s, current) == Status::Verified,
        forall|h: u64|
            h != current ==> (contains_height(post_s, h) == contains_height(mid_s, h) && (
            contains_height(post_s, h) ==> status_at(post_s, h) == status_at(mid_s, h))),
        forall|h: u64| contains_height(pre_s, h) ==> contains_height(mid_s, h),
    ensures
        statuses_after(pre_s, post_s, done + seq![current], None::<u64>),
{
    assert forall|h: u64| contains_height(pre_s, h) implies #[trigger] status_at(post_s, h) == (
    if (done + seq![current]).contains(h) {
        Status::Verified
    } else if None::<u64> == Some(h) {
        Status::Failed
    } else {
        status_at(pre_s, h)
    }) by {
        lemma_push_contains(done, current, h);
        if h != current {
            assert(status_at(post_s, h) == status_at(mid_s, h));
        }
    }
}

/// Statuses after a terminal rejection: the verified chain keeps its
/// statuses and the rejected height becomes `Failed`.
proof fn lemma_statuses_fail(
    pre_s: Seq<EntryModel>,
    mid_s: Seq<EntryModel>,
    post_s: Seq<EntryModel>,
    done: Seq<u64>,
    current: u64,
)
    requires
        statuses_after(pre_s, mid_s, done, None::<u64>),
        contains_height(post_s, current),
        status_at(post_s, current) == Status::Failed,
        forall|h: u64|
            h != current ==> (contains_height(post_s, h) == contains_height(mid_s, h) && (
            contains_height(post_s, h) ==> status_at(post_s, h) == status_at(mid_s, h))),
        forall|h: u64| contains_height(pre_s, h) ==> contains_height(mid_s, h),
        !done.contains(current),
    ensures
        statuses_after(pre_s, post_s, done, Some(current)),
{
    assert forall|h: u64| contains_height(pre_s, h) implies #[trigger] status_at(post_s, h) == (
    if done.contains(h) {
        Status::Verified
    } else if Some(current) == Some(h) {
        Status::Failed
    } else {
        status_at(pre_s, h)
    }) by {
        if h != current {
            assert(status_at(post_s, h) == status_at(mid_s, h));
        }
    }
}

/// Stores with equal block sequences hold the same heights.
proof fn lemma_same_heights(s1: Seq<EntryModel>, s2: Seq<EntryModel>, bs: Seq<BlockModel>)
    requires
        store_sorted(s1),
        store_sorted(s2),
        store_blocks(s1) == bs,
        store_blocks(s2) == bs,
    ensures
        forall|h: u64| contains_height(s1, h) == contains_height(s2, h),
{
    assert forall|h: u64| contains_height(s1, h) == contains_height(s2, h) by {
        lemma_store_chain(s1, h);
        lemma_store_chain(s2, h);
    }
}

/// After one successful step the engine invariant still holds: the pushed
/// candidate is in the store as `Verified`, sits above every earlier trace
/// block, and is linked to the previous anchor.
proof fn lemma_wf_after_step(
    pre: LightClient,
    cur: LightClient,
    bs: Seq<BlockModel>,
    old_trace: Seq<BlockModel>,
    cand: BlockModel,
    mid_store: Seq<EntryModel>,
    current: u64,
    now: u64,
)
    requires
        store_wf(cur.store_model()),
        options_wf(cur.options_spec()),
        old_trace.len() > 0,
        chain_sorted(old_trace),
        cur.trace_model() == old_trace.push(cand),
        cand.header.height == current,
        old_trace.last().header.height < current,
        verify_spec(old_trace.last(), cand, now, cur.options_spec()) == Verdict::Success,
        forall|i: int|
            0 <= i < old_trace.len() ==> contains_height(
                mid_store,
                (#[trigger] old_trace[i]).header.height,
            ) && block_at(mid_store, old_trace[i].header.height) == old_trace[i] && (status_at(
                mid_store,
                old_trace[i].header.height,
            ) == Status::Trusted || status_at(mid_store, old_trace[i].header.height)
                == Status::Verified),
        status_at(mid_store, old_trace[0].header.height) == Status::Trusted,
        forall|i: int|
            0 <= i < old_trace.len() - 1 ==> linked(
                #[trigger] old_trace[i],
                old_trace[i + 1],
                cur.options_spec(),
            ),
        // what set_status guarantees
        store_sorted(mid_store),
        cur.store_model().len() == mid_store.len(),
        contains_height(cur.store_model(), current),
        block_at(cur.store_model(), current) == cand,
        status_at(cur.store_model(), current) == Status::Verified,
        forall|h2: u64|
            h2 != current ==> (contains_height(cur.store_model(), h2) == contains_height(
                mid_store,
                h2,
            ) && (contains_height(cur.store_model(), h2) ==> block_at(cur.store_model(), h2)
                == block_at(mid_store, h2) && status_at(cur.store_model(), h2) == status_at(
                mid_store,
                h2,
            ))),
    ensures
        cur.wf(),
{
    let tm = cur.trace_model();
    assert forall|i: int, j: int|
        0 <= i < j < tm.len() implies (#[trigger] tm[i]).header.height < (
    #[trigger] tm[j]).header.height by {
        if j < tm.len() - 1 {
            assert(tm[i] == old_trace[i] && tm[j] == old_trace[j]);
        } else {
            if i < tm.len() - 1 {
                assert(tm[i] == old_trace[i]);
                if i < old_trace.len() - 1 {
                    assert(old_trace[i].header.height < old_trace.last().header.height);
                }
            }
        }
    }
    assert forall|i: int| 0 <= i < tm.len() implies contains_height(
        cur.store_model(),
        (#[trigger] tm[i]).header.height,
    ) && block_at(cur.store_model(), tm[i].header.height) == tm[i] && (status_at(
        cur.store_model(),
        tm[i].header.height,
    ) == Status::Trusted || status_at(cur.store_model(), tm[i].header.height)
        == Status::Verified) by {
        if i < tm.len() - 1 {
            assert(tm[i] == old_trace[i]);
            assert(old_trace[i].header.height < current);
        } else {
            assert(tm[i] == cand);
        }
    }
    assert(tm[0] == old_trace[0]);
    assert(old_trace[0].header.height < current);
    assert(status_at(cur.store_model(), tm[0].header.height) == Status::Trusted);
    assert forall|i: int| 0 <= i < tm.len() - 1 implies linked(
        #[trigger] tm[i],
        tm[i + 1],
        cur.options_spec(),
    ) by {
        if i < tm.len() - 2 {
            assert(tm[i] == old_trace[i] && tm[i + 1] == old_trace[i + 1]);
        } else {
            assert(tm[i] == old_trace.last() && tm[i + 1] == cand);
            assert(verify_spec(old_trace.last(), cand, now, cur.options_spec())
                == Verdict::Success);
            assert(linked(old_trace.last(), cand, cur.options_spec())) by {
                reveal(verify_spec);
            }
        }
    }
}

/// After marking a failed candidate the engine invariant still holds: the
/// failed height lies strictly above every trace height, so no trace
/// status changed.
proof fn lemma_wf_after_fail(
    pre: LightClient,
    cur: LightClient,
    mid_store: Seq<EntryModel>,
    current: u64,
)
    requires
        store_wf(cur.store_model()),
        options_wf(cur.options_spec()),
        cur.trace_model().len() > 0,
        chain_sorted(cur.trace_model()),
        cur.trace_model().last().header.height < current,
        forall|i: int|
            0 <= i < cur.trace_model().len() ==> contains_height(
                mid_store,
                (#[trigger] cur.trace_model()[i]).header.height,
            ) && block_at(mid_store, cur.trace_model()[i].header.height) == cur.trace_model()[i]
                && (status_at(mid_store, cur.trace_model()[i].header.height) == Status::Trusted
                || status_at(mid_store, cur.trace_model()[i].header.height) == Status::Verified),
        status_at(mid_store, cur.trace_model()[0].header.height) == Status::Trusted,
        forall|i: int|
            0 <= i < cur.trace_model().len() - 1 ==> linked(
                #[trigger] cur.trace_model()[i],
                cur.trace_model()[i + 1],
                cur.options_spec(),
            ),
        store_sorted(mid_store),
        cur.store_model().len() == mid_store.len(),
        forall|h2: u64|
            h2 != current ==> (contains_height(cur.store_model(), h2) == contains_height(
                mid_store,
                h2,
            ) && (contains_height(cur.store_model(), h2) ==> block_at(cur.store_model(), h2)
                == block_at(mid_store, h2) && status_at(cur.store_model(), h2) == status_at(
                mid_store,
                h2,
            ))),
    ensures
        cur.wf(),
{
    let tm = cur.trace_model();
    assert forall|i: int| 0 <= i < tm.len() implies contains_height(
        cur.store_model(),
        (#[trigger] tm[i]).header.height,
    ) && block_at(cur.store_model(), tm[i].header.height) == tm[i] && (status_at(
        cur.store_model(),
        tm[i].header.height,
    ) == Status::Trusted || status_at(cur.store_model(), tm[i].header.height)
        == Status::Verified) by {
        if i < tm.len() - 1 {
            assert(tm[i].header.height < tm[tm.len() - 1].header.height);
        }
        assert(tm[i].header.height != current);
    }
    assert(tm[0].header.height != current);
}

} // verus!
