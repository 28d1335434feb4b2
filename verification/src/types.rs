//! Blocks, validator sets, commits, and their mathematical models.
//!
//! A light block bundles a signed header with the validator set that
//! produced it and the validator set announced for the next height.  Hash
//! values are opaque content identifiers: the library compares them, it
//! never computes them.  Times are seconds, heights are plain integers.

use vstd::prelude::*;

verus! {

/// A signed header.  `validators_hash` identifies the set that signed this
/// header, `next_validators_hash` the set announced for the next height,
/// `app_hash` the application state.
#[derive(Clone, Copy, PartialEq, Eq, Structural, Debug)]
pub struct Header {
    pub height: u64,
    pub time: u64,
    pub validators_hash: u64,
    pub next_validators_hash: u64,
    pub app_hash: u64,
}

/// One validator: an identifier and its voting power.
#[derive(Clone, Copy, PartialEq, Eq, Structural, Debug)]
pub struct Validator {
    pub id: u64,
    pub power: u64,
}

/// One commit signature: which validator signed, and the signature value.
#[derive(Clone, Copy, PartialEq, Eq, Structural, Debug)]
pub struct Signature {
    pub validator_id: u64,
    pub sig: u64,
}

/// A validator set: the validators with their powers.  Its content hash
/// lives in the headers that reference it.
#[derive(Clone, PartialEq, Eq, Debug)]
pub struct ValidatorSet {
    pub validators: Vec<Validator>,
}

/// The commit for a header: the signatures collected for it.
#[derive(Clone, PartialEq, Eq, Debug)]
pub struct Commit {
    pub signatures: Vec<Signature>,
}

/// A light block: header, commit, and the two validator sets it carries.
#[derive(Clone, PartialEq, Eq, Debug)]
pub struct LightBlock {
    pub header: Header,
    pub commit: Commit,
    pub validators: ValidatorSet,
    pub next_validators: ValidatorSet,
}

/// Mathematical model of a light block.
#[verifier::ext_equal]
pub ghost struct BlockModel {
    pub header: Header,
    pub signatures: Seq<Signature>,
    pub validators: Seq<Validator>,
    pub next_validators: Seq<Validator>,
}

impl View for ValidatorSet {
    type V = Seq<Validator>;

    open spec fn view(&self) -> Seq<Validator> {
        self.validators@
    }
}

impl View for LightBlock {
    type V = BlockModel;

    open spec fn view(&self) -> BlockModel {
        BlockModel {
            header: self.header,
            signatures: self.commit.signatures@,
            validators: self.validators@,
            next_validators: self.next_validators@,
        }
    }
}

/// Total voting power of a list of validators.
pub open spec fn total_power(vals: Seq<Validator>) -> int
    decreases vals.len(),
{
    if vals.len() == 0 {
        0
    } else {
        total_power(vals.drop_last()) + vals.last().power
    }
}

/// The set of validator identifiers that signed a commit.
pub open spec fn signer_ids(sigs: Seq<Signature>) -> Set<u64> {
    Set::new(|id: u64| exists|i: int| 0 <= i < sigs.len() && sigs[i].validator_id == id)
}

/// Combined voting power of the validators in `vals` whose id is in `signers`.
pub open spec fn signed_power(vals: Seq<Validator>, signers: Set<u64>) -> int
    decreases vals.len(),
{
    if vals.len() == 0 {
        0
    } else {
        signed_power(vals.drop_last(), signers) + if signers.contains(vals.last().id) {
            vals.last().power as int
        } else {
            0
        }
    }
}

/// A validator set is well formed when its total power fits in a machine
/// word, so that power sums and threshold products cannot overflow.
pub open spec fn valset_wf(vals: Seq<Validator>) -> bool {
    total_power(vals) <= u64::MAX
}

/// A block is well formed when both validator sets it carries are.
pub open spec fn block_wf(b: BlockModel) -> bool {
    valset_wf(b.validators) && valset_wf(b.next_validators)
}

pub proof fn lemma_total_power_take_succ(vals: Seq<Validator>, i: int)
    requires
        0 <= i < vals.len(),
    ensures
        total_power(vals.take(i + 1)) == total_power(vals.take(i)) + vals[i].power,
{
    assert(vals.take(i + 1).drop_last() =~= vals.take(i));
    assert(vals.take(i + 1).last() == vals[i]);
}

pub proof fn lemma_signed_power_take_succ(vals: Seq<Validator>, signers: Set<u64>, i: int)
    requires
        0 <= i < vals.len(),
    ensures
        signed_power(vals.take(i + 1), signers) == signed_power(vals.take(i), signers) + if signers.contains(vals[i].id) {
            vals[i].power as int
        } else {
            0
        },
{
    assert(vals.take(i + 1).drop_last() =~= vals.take(i));
    assert(vals.take(i + 1).last() == vals[i]);
}

/// Power sums are monotone in the prefix taken.
pub proof fn lemma_total_power_take_le(vals: Seq<Validator>, i: int)
    requires
        0 <= i <= vals.len(),
    ensures
        total_power(vals.take(i)) <= total_power(vals),
    decreases vals.len() - i,
{
    if i == vals.len() {
        assert(vals.take(i) =~= vals);
    } else {
        lemma_total_power_take_succ(vals, i);
        lemma_total_power_take_le(vals, i + 1);
    }
}

/// The power signed over is never more than the total power.
pub proof fn lemma_signed_le_total(vals: Seq<Validator>, signers: Set<u64>)
    ensures
        0 <= signed_power(vals, signers) <= total_power(vals),
    decreases vals.len(),
{
    if vals.len() > 0 {
        lemma_signed_le_total(vals.drop_last(), signers);
    }
}

/// Whether a commit carries a signature by the validator with `id`.
fn commit_contains(commit: &Commit, id: u64) -> (r: bool)
    ensures
        r == signer_ids(commit.signatures@).contains(id),
{
    let n = commit.signatures.len();
    let mut k: usize = 0;
    while k < n
        invariant
            0 <= k <= n,
            n == commit.signatures.len(),
            forall|j: int| 0 <= j < k ==> commit.signatures@[j].validator_id != id,
        decreases n - k,
    {
        if commit.signatures[k].validator_id == id {
            return true;
        }
        k += 1;
    }
    false
}

/// Total voting power of a validator list, computed without overflow.
pub fn compute_total_power(vals: &Vec<Validator>) -> (t: u128)
    ensures
        t == total_power(vals@),
{
    let n = vals.len();
    let mut t: u128 = 0;
    let mut k: usize = 0;
    while k < n
        invariant
            0 <= k <= n,
            n == vals.len(),
            t == total_power(vals@.take(k as int)),
            t <= (k as int) * (u64::MAX as int),
        decreases n - k,
    {
        proof {
            lemma_total_power_take_succ(vals@, k as int);
            vstd::arithmetic::mul::lemma_mul_inequality(
                k as int,
                u64::MAX as int,
                u64::MAX as int,
            );
            vstd::arithmetic::mul::lemma_mul_is_commutative(k as int, u64::MAX as int);
        }
        t = t + vals[k].power as u128;
        k += 1;
    }
    proof {
        assert(vals@.take(n as int) =~= vals@);
    }
    t
}

/// Combined voting power of the validators in `vals` that signed `commit`.
pub fn voting_power_in(vals: &Vec<Validator>, commit: &Commit) -> (p: u64)
    requires
        total_power(vals@) <= u64::MAX,
    ensures
        p == signed_power(vals@, signer_ids(commit.signatures@)),
{
    let ghost signers = signer_ids(commit.signatures@);
    let n = vals.len();
    let mut p: u64 = 0;
    let mut k: usize = 0;
    while k < n
        invariant
            0 <= k <= n,
            n == vals.len(),
            total_power(vals@) <= u64::MAX,
            signers == signer_ids(commit.signatures@),
            p == signed_power(vals@.take(k as int), signers),
        decreases n - k,
    {
        proof {
            lemma_signed_power_take_succ(vals@, signers, k as int);
            lemma_signed_le_total(vals@.take(k as int + 1), signers);
            lemma_total_power_take_le(vals@, k as int + 1);
        }
        if commit_contains(commit, vals[k].id) {
            p = p + vals[k].power;
        }
        k += 1;
    }
    proof {
        assert(vals@.take(n as int) =~= vals@);
    }
    p
}

impl ValidatorSet {
    /// Whether the set's total power fits in a machine word.
    pub fn is_well_formed(&self) -> (r: bool)
        ensures
            r == valset_wf(self@),
    {
        compute_total_power(&self.validators) <= u64::MAX as u128
    }

    /// An owned copy with the same model.
    pub fn duplicate(&self) -> (r: ValidatorSet)
        ensures
            r@ == self@,
    {
        let mut validators: Vec<Validator> = Vec::new();
        let n = self.validators.len();
        let mut k: usize = 0;
        while k < n
            invariant
                0 <= k <= n,
                n == self.validators.len(),
                validators@ =~= self.validators@.take(k as int),
            decreases n - k,
        {
            validators.push(self.validators[k]);
            k += 1;
        }
        proof {
            assert(validators@ =~= self.validators@);
        }
        ValidatorSet { validators }
    }
}

impl Commit {
    /// An owned copy with the same signatures.
    pub fn duplicate(&self) -> (r: Commit)
        ensures
            r.signatures@ == self.signatures@,
    {
        let mut signatures: Vec<Signature> = Vec::new();
        let n = self.signatures.len();
        let mut k: usize = 0;
        while k < n
            invariant
                0 <= k <= n,
                n == self.signatures.len(),
                signatures@ =~= self.signatures@.take(k as int),
            decreases n - k,
        {
            signatures.push(self.signatures[k]);
            k += 1;
        }
        proof {
            assert(signatures@ =~= self.signatures@);
        }
        Commit { signatures }
    }
}

impl LightBlock {
    /// Whether both validator sets the block carries are well formed.
    pub fn is_well_formed(&self) -> (r: bool)
        ensures
            r == block_wf(self@),
    {
        self.validators.is_well_formed() && self.next_validators.is_well_formed()
    }

    /// An owned copy with the same model.
    pub fn duplicate(&self) -> (r: LightBlock)
        ensures
            r@ == self@,
    {
        let r = LightBlock {
            header: self.header,
            commit: self.commit.duplicate(),
            validators: self.validators.duplicate(),
            next_validators: self.next_validators.duplicate(),
        };
        proof {
            assert(r@ =~= self@);
        }
        r
    }
}

} // verus!
