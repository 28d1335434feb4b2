//! The block store: at most one block per height, each tagged with a
//! verification status, kept in ascending height order.

use vstd::prelude::*;
use crate::types::{block_wf, BlockModel, LightBlock};

verus! {

/// How far a stored block has come through verification.
#[derive(Clone, Copy, PartialEq, Eq, Structural, Debug)]
pub enum Status {
    /// The seed: assumed correct, set once at initialization.
    Trusted,
    /// Passed all predicates against a trusted ancestor.
    Verified,
    /// Supplied but not yet checked.
    Unverified,
    /// Checked and rejected.
    Failed,
}

/// One stored block with its status.
#[derive(Debug)]
pub struct StoreEntry {
    pub block: LightBlock,
    pub status: Status,
}

/// Mathematical model of a store entry.
#[verifier::ext_equal]
pub ghost struct EntryModel {
    pub block: BlockModel,
    pub status: Status,
}

impl View for StoreEntry {
    type V = EntryModel;

    open spec fn view(&self) -> EntryModel {
        EntryModel { block: self.block@, status: self.status }
    }
}

pub open spec fn entry_height(e: EntryModel) -> u64 {
    e.block.header.height
}

/// Entries are in strictly ascending height order: one block per height.
pub open spec fn store_sorted(s: Seq<EntryModel>) -> bool {
    forall|i: int, j: int| 0 <= i < j < s.len() ==> entry_height(s[i]) < entry_height(s[j])
}

pub open spec fn store_blocks_wf(s: Seq<EntryModel>) -> bool {
    forall|i: int| 0 <= i < s.len() ==> block_wf(#[trigger] s[i].block)
}

pub open spec fn store_wf(s: Seq<EntryModel>) -> bool {
    store_sorted(s) && store_blocks_wf(s)
}

pub open spec fn contains_height(s: Seq<EntryModel>, h: u64) -> bool {
    exists|i: int| 0 <= i < s.len() && entry_height(#[trigger] s[i]) == h
}

pub open spec fn index_of_height(s: Seq<EntryModel>, h: u64) -> int {
    choose|i: int| 0 <= i < s.len() && entry_height(#[trigger] s[i]) == h
}

pub open spec fn block_at(s: Seq<EntryModel>, h: u64) -> BlockModel {
    s[index_of_height(s, h)].block
}

pub open spec fn status_at(s: Seq<EntryModel>, h: u64) -> Status {
    s[index_of_height(s, h)].status
}

/// The blocks alone, statuses stripped: what verification verdicts depend on.
pub open spec fn store_blocks(s: Seq<EntryModel>) -> Seq<BlockModel> {
    s.map_values(|e: EntryModel| e.block)
}

/// Whether a sequence of blocks holds one at height `h`.
pub open spec fn chain_has_height(bs: Seq<BlockModel>, h: u64) -> bool {
    exists|i: int| 0 <= i < bs.len() && (#[trigger] bs[i]).header.height == h
}

pub open spec fn chain_index_of(bs: Seq<BlockModel>, h: u64) -> int {
    choose|i: int| 0 <= i < bs.len() && (#[trigger] bs[i]).header.height == h
}

/// The block at height `h` in a sequence of blocks.
pub open spec fn chain_block_at(bs: Seq<BlockModel>, h: u64) -> BlockModel {
    bs[chain_index_of(bs, h)]
}

/// Heights strictly ascend along the sequence.
pub open spec fn chain_sorted(bs: Seq<BlockModel>) -> bool {
    forall|i: int, j: int|
        0 <= i < j < bs.len() ==> (#[trigger] bs[i]).header.height < (#[trigger] bs[j]).header.height
}

/// In a sorted block sequence the block at index `i` is the one its height
/// finds.
pub proof fn lemma_chain_at_index(bs: Seq<BlockModel>, i: int)
    requires
        chain_sorted(bs),
        0 <= i < bs.len(),
    ensures
        chain_has_height(bs, bs[i].header.height),
        chain_index_of(bs, bs[i].header.height) == i,
{
    let h = bs[i].header.height;
    assert(chain_has_height(bs, h));
    let j = chain_index_of(bs, h);
    if j < i {
        assert(bs[j].header.height < bs[i].header.height);
    } else if j > i {
        assert(bs[i].header.height < bs[j].header.height);
    }
}

/// A sorted store and its blocks-only sequence agree on every lookup.
pub proof fn lemma_store_chain(s: Seq<EntryModel>, h: u64)
    requires
        store_sorted(s),
    ensures
        chain_sorted(store_blocks(s)),
        chain_has_height(store_blocks(s), h) == contains_height(s, h),
        contains_height(s, h) ==> chain_block_at(store_blocks(s), h) == block_at(s, h),
{
    let bs = store_blocks(s);
    assert(forall|i: int| 0 <= i < s.len() ==> bs[i] == #[trigger] s[i].block);
    assert(chain_sorted(bs));
    if contains_height(s, h) {
        let i = index_of_height(s, h);
        lemma_at_index(s, i);
        assert(bs[i].header.height == h);
        lemma_chain_at_index(bs, i);
    }
    if chain_has_height(bs, h) {
        let i = chain_index_of(bs, h);
        assert(0 <= i < s.len() && bs[i].header.height == h);
        assert(entry_height(s[i]) == h);
        assert(contains_height(s, h));
    }
}

/// In a sorted store the entry at index `i` is the one its height finds.
pub proof fn lemma_at_index(s: Seq<EntryModel>, i: int)
    requires
        store_sorted(s),
        0 <= i < s.len(),
    ensures
        contains_height(s, entry_height(s[i])),
        index_of_height(s, entry_height(s[i])) == i,
{
    let h = entry_height(s[i]);
    assert(contains_height(s, h));
    let j = index_of_height(s, h);
    if j < i {
        assert(entry_height(s[j]) < entry_height(s[i]));
    } else if j > i {
        assert(entry_height(s[i]) < entry_height(s[j]));
    }
}

/// The store.
#[derive(Debug)]
pub struct Store {
    entries: Vec<StoreEntry>,
}

/// Why an insertion was refused.
#[derive(Clone, Copy, PartialEq, Eq, Structural, Debug)]
pub enum StoreError {
    /// The block's height already holds the trusted seed, which is never
    /// evicted.
    TrustedImmutable { height: u64 },
}

impl View for Store {
    type V = Seq<EntryModel>;

    closed spec fn view(&self) -> Seq<EntryModel> {
        self.entries@.map_values(|e: StoreEntry| e@)
    }
}

impl Store {
    pub open spec fn wf(&self) -> bool {
        store_wf(self@)
    }

    /// An empty store.
    pub fn new() -> (r: Store)
        ensures
            r@ =~= Seq::<EntryModel>::empty(),
            r.wf(),
    {
        Store { entries: Vec::new() }
    }

    pub fn len(&self) -> (r: usize)
        ensures
            r == self@.len(),
    {
        self.entries.len()
    }

    /// The index holding height `h`, if any.
    fn find(&self, h: u64) -> (r: Option<usize>)
        ensures
            match r {
                Some(i) => i < self@.len() && entry_height(self@[i as int]) == h,
                None => !contains_height(self@, h),
            },
    {
        let n = self.entries.len();
        let mut k: usize = 0;
        while k < n
            invariant
                0 <= k <= n,
                n == self.entries.len(),
                self@.len() == n,
                forall|j: int| 0 <= j < k ==> entry_height(self@[j]) != h,
            decreases n - k,
        {
            assert(self@[k as int] == self.entries@[k as int]@);
            if self.entries[k].block.header.height == h {
                return Some(k);
            }
            k += 1;
        }
        None
    }

    /// The block stored at height `h`, if any.
    pub fn get(&self, h: u64) -> (r: Option<&LightBlock>)
        requires
            self.wf(),
        ensures
            match r {
                Some(b) => contains_height(self@, h) && b@ == block_at(self@, h),
                None => !contains_height(self@, h),
            },
    {
        match self.find(h) {
            Some(i) => {
                proof {
                    lemma_at_index(self@, i as int);
                    assert(self@[i as int] == self.entries@[i as int]@);
                }
                Some(&self.entries[i].block)
            },
            None => None,
        }
    }

    /// The status of the block stored at height `h`, if any.
    pub fn status_of(&self, h: u64) -> (r: Option<Status>)
        requires
            self.wf(),
        ensures
            match r {
                Some(st) => contains_height(self@, h) && st == status_at(self@, h),
                None => !contains_height(self@, h),
            },
    {
        match self.find(h) {
            Some(i) => {
                proof {
                    lemma_at_index(self@, i as int);
                    assert(self@[i as int] == self.entries@[i as int]@);
                }
                Some(self.entries[i].status)
            },
            None => None,
        }
    }

    /// The heights present, in ascending order.
    pub fn heights(&self) -> (r: Vec<u64>)
        ensures
            r@ =~= self@.map_values(|e: EntryModel| entry_height(e)),
    {
        let n = self.entries.len();
        let mut r: Vec<u64> = Vec::new();
        let mut k: usize = 0;
        while k < n
            invariant
                0 <= k <= n,
                n == self.entries.len(),
                self@.len() == n,
                r@.len() == k,
                forall|j: int| 0 <= j < k ==> r@[j] == entry_height(self@[j]),
            decreases n - k,
        {
            assert(self@[k as int] == self.entries@[k as int]@);
            r.push(self.entries[k].block.header.height);
            k += 1;
        }
        r
    }

    /// The greatest height present, if the store is not empty.
    pub fn highest_height(&self) -> (r: Option<u64>)
        requires
            self.wf(),
        ensures
            match r {
                Some(h) => self@.len() > 0 && h == entry_height(self@.last())
                    && contains_height(self@, h),
                None => self@.len() == 0,
            },
    {
        let n = self.entries.len();
        if n == 0 {
            None
        } else {
            proof {
                assert(self@[n - 1] == self.entries@[n - 1]@);
                lemma_at_index(self@, n as int - 1);
            }
            Some(self.entries[n - 1].block.header.height)
        }
    }

    /// The highest block with the given status, if any.
    pub fn latest_with_status(&self, status: Status) -> (r: Option<&LightBlock>)
        requires
            self.wf(),
        ensures
            match r {
                Some(b) => exists|i: int|
                    0 <= i < self@.len() && #[trigger] self@[i].status == status && b@
                        == self@[i].block && forall|j: int|
                        i < j < self@.len() ==> self@[j].status != status,
                None => forall|i: int| 0 <= i < self@.len() ==> self@[i].status != status,
            },
    {
        let n = self.entries.len();
        let mut k: usize = n;
        while k > 0
            invariant
                0 <= k <= n,
                n == self.entries.len(),
                self@.len() == n,
                forall|j: int| k <= j < n ==> self@[j].status != status,
            decreases k,
        {
            k -= 1;
            assert(self@[k as int] == self.entries@[k as int]@);
            if self.entries[k].status == status {
                return Some(&self.entries[k].block);
            }
        }
        None
    }

    /// Supplies a block, tagged `Unverified`.  A block already at that
    /// height is replaced, except the trusted seed, which is never evicted.
    pub fn insert(&mut self, block: LightBlock) -> (r: Result<(), StoreError>)
        requires
            old(self).wf(),
            block_wf(block@),
        ensures
            final(self).wf(),
            insert_post(old(self)@, final(self)@, block@, Status::Unverified, r),
    {
        self.insert_with_status(block, Status::Unverified)
    }

    /// Inserts with an explicit status; the engine seeds the store and
    /// advances statuses through this.
    pub(crate) fn insert_with_status(&mut self, block: LightBlock, status: Status) -> (r: Result<
        (),
        StoreError,
    >)
        requires
            old(self).wf(),
            block_wf(block@),
        ensures
            final(self).wf(),
            insert_post(old(self)@, final(self)@, block@, status, r),
    {
        let h = block.header.height;
        let n = self.entries.len();
        // position of the first entry at or above h
        let mut k: usize = 0;
        while k < n && self.entries[k].block.header.height < h
            invariant
                0 <= k <= n,
                n == self.entries.len(),
                self@.len() == n,
                forall|j: int| 0 <= j < k ==> entry_height(self@[j]) < h,
                k < n ==> self@[k as int] == self.entries@[k as int]@,
            decreases n - k,
        {
            k += 1;
            assert(k < n ==> self@[k as int] == self.entries@[k as int]@);
        }
        proof {
            assert(k < n ==> entry_height(self@[k as int]) >= h);
        }
        if k < n && self.entries[k].block.header.height == h {
            proof {
                assert(self@[k as int] == self.entries@[k as int]@);
                lemma_at_index(self@, k as int);
            }
            if self.entries[k].status == Status::Trusted {
                proof {
                    assert(self@ =~= old(self)@);
                }
                return Err(StoreError::TrustedImmutable { height: h });
            }
            let ghost before = self@;
            self.entries[k] = StoreEntry { block, status };
            proof {
                assert(self@ =~= before.update(k as int, EntryModel { block: block@, status }));
                lemma_insert_replace(before, self@, k as int, block@, status);
            }
            Ok(())
        } else {
            let ghost before = self@;
            self.entries.insert(k, StoreEntry { block, status });
            proof {
                assert(self@ =~= before.insert(
                    k as int,
                    EntryModel { block: block@, status },
                ));
                lemma_insert_fresh(before, self@, k as int, block@, status, block@.header.height);
            }
            Ok(())
        }
    }

    /// Sets the status of the block at height `h`; the block itself and all
    /// other entries are unchanged.
    pub(crate) fn set_status(&mut self, h: u64, status: Status)
        requires
            old(self).wf(),
            contains_height(old(self)@, h),
        ensures
            final(self).wf(),
            final(self)@.len() == old(self)@.len(),
            contains_height(final(self)@, h),
            block_at(final(self)@, h) == block_at(old(self)@, h),
            status_at(final(self)@, h) == status,
            forall|i: int|
                0 <= i < final(self)@.len() ==> #[trigger] final(self)@[i].block
                    == old(self)@[i].block,
            forall|h2: u64|
                h2 != h ==> (contains_height(final(self)@, h2) == contains_height(old(self)@, h2)
                    && (contains_height(final(self)@, h2) ==> block_at(final(self)@, h2)
                    == block_at(old(self)@, h2) && status_at(final(self)@, h2) == status_at(
                    old(self)@,
                    h2,
                ))),
            store_blocks(final(self)@) =~= store_blocks(old(self)@),
    {
        let i = match self.find(h) {
            Some(i) => i,
            None => {
                proof {
                    assert(false);
                }
                0
            },
        };
        proof {
            assert(self@[i as int] == self.entries@[i as int]@);
            lemma_at_index(self@, i as int);
        }
        let ghost before = self@;
        let b = self.entries[i].block.duplicate();
        self.entries[i] = StoreEntry { block: b, status };
        proof {
            assert(self@ =~= before.update(
                i as int,
                EntryModel { block: block_at(before, h), status },
            ));
            lemma_set_status(before, self@, i as int, h, status);
        }
    }
}

/// What an insertion does to the store's model: the trusted seed's height
/// refuses replacement; any other height receives the block with the given
/// status and every other entry is untouched.
pub open spec fn insert_post(
    before: Seq<EntryModel>,
    after: Seq<EntryModel>,
    b: BlockModel,
    status: Status,
    r: Result<(), StoreError>,
) -> bool {
    let h = b.header.height;
    match r {
        Err(e) => after == before && contains_height(before, h) && status_at(before, h)
            == Status::Trusted && e == (StoreError::TrustedImmutable { height: h }),
        Ok(()) => {
            &&& !(contains_height(before, h) && status_at(before, h) == Status::Trusted)
            &&& contains_height(after, h)
            &&& block_at(after, h) == b
            &&& status_at(after, h) == status
            &&& after.len() == before.len() + if contains_height(before, h) {
                0int
            } else {
                1int
            }
            &&& forall|h2: u64|
                h2 != h ==> (contains_height(after, h2) == contains_height(before, h2) && (
                contains_height(before, h2) ==> block_at(after, h2) == block_at(before, h2)
                    && status_at(after, h2) == status_at(before, h2)))
        },
    }
}

proof fn lemma_set_status(
    before: Seq<EntryModel>,
    after: Seq<EntryModel>,
    i: int,
    h: u64,
    status: Status,
)
    requires
        store_wf(before),
        0 <= i < before.len(),
        entry_height(before[i]) == h,
        after == before.update(i, EntryModel { block: before[i].block, status }),
    ensures
        store_wf(after),
        contains_height(after, h),
        block_at(after, h) == block_at(before, h),
        status_at(after, h) == status,
        forall|h2: u64|
            h2 != h ==> (contains_height(after, h2) == contains_height(before, h2) && (
            contains_height(after, h2) ==> block_at(after, h2) == block_at(before, h2)
                && status_at(after, h2) == status_at(before, h2))),
{
    assert forall|k: int| 0 <= k < after.len() implies entry_height(after[k]) == entry_height(
        before[k],
    ) by {}
    assert(store_wf(after));
    lemma_at_index(before, i);
    lemma_at_index(after, i);
    assert forall|h2: u64| h2 != h implies (contains_height(after, h2) == contains_height(
        before,
        h2,
    ) && (contains_height(after, h2) ==> block_at(after, h2) == block_at(before, h2) && status_at(
        after,
        h2,
    ) == status_at(before, h2))) by {
        if contains_height(before, h2) {
            let j = index_of_height(before, h2);
            lemma_at_index(after, j);
        }
        if contains_height(after, h2) {
            let j = index_of_height(after, h2);
            lemma_at_index(before, j);
            lemma_at_index(after, j);
        }
    }
}

proof fn lemma_insert_replace(
    before: Seq<EntryModel>,
    after: Seq<EntryModel>,
    i: int,
    b: BlockModel,
    status: Status,
)
    requires
        store_wf(before),
        block_wf(b),
        0 <= i < before.len(),
        entry_height(before[i]) == b.header.height,
        after == before.update(i, EntryModel { block: b, status }),
    ensures
        store_wf(after),
        insert_post(before, after, b, status, Ok(())) || (contains_height(before, b.header.height)
            && status_at(before, b.header.height) == Status::Trusted),
{
    let h = b.header.height;
    assert forall|k: int| 0 <= k < after.len() implies entry_height(after[k]) == entry_height(
        before[k],
    ) by {}
    assert(store_wf(after));
    lemma_at_index(before, i);
    lemma_at_index(after, i);
    if status_at(before, h) != Status::Trusted {
        assert forall|h2: u64| h2 != h implies (contains_height(after, h2) == contains_height(
            before,
            h2,
        ) && (contains_height(before, h2) ==> block_at(after, h2) == block_at(before, h2)
            && status_at(after, h2) == status_at(before, h2))) by {
            if contains_height(before, h2) {
                let j = index_of_height(before, h2);
                lemma_at_index(after, j);
            }
            if contains_height(after, h2) {
                let j = index_of_height(after, h2);
                lemma_at_index(before, j);
                lemma_at_index(after, j);
            }
        }
        assert(insert_post(before, after, b, status, Ok(())));
    }
}

proof fn lemma_insert_fresh(
    before: Seq<EntryModel>,
    after: Seq<EntryModel>,
    k: int,
    b: BlockModel,
    status: Status,
    h: u64,
)
    requires
        store_wf(before),
        block_wf(b),
        b.header.height == h,
        0 <= k <= before.len(),
        forall|j: int| 0 <= j < k ==> entry_height(before[j]) < h,
        forall|j: int| k <= j < before.len() ==> entry_height(before[j]) > h,
        after == before.insert(k, EntryModel { block: b, status }),
    ensures
        store_wf(after),
        insert_post(before, after, b, status, Ok(())),
{
    assert(!contains_height(before, h));
    assert forall|i: int, j: int| 0 <= i < j < after.len() implies entry_height(after[i])
        < entry_height(after[j]) by {
        if i < k && j > k {
            assert(after[i] == before[i] && after[j] == before[j - 1]);
        }
    }
    assert(store_wf(after));
    assert(after[k] == (EntryModel { block: b, status }));
    lemma_at_index(after, k);
    assert forall|h2: u64| h2 != h implies (contains_height(after, h2) == contains_height(
        before,
        h2,
    ) && (contains_height(before, h2) ==> block_at(after, h2) == block_at(before, h2) && status_at(
        after,
        h2,
    ) == status_at(before, h2))) by {
        if contains_height(before, h2) {
            let j = index_of_height(before, h2);
            if j < k {
                assert(after[j] == before[j]);
                lemma_at_index(after, j);
            } else {
                assert(after[j + 1] == before[j]);
                lemma_at_index(after, j + 1);
            }
        }
        if contains_height(after, h2) {
            let j = index_of_height(after, h2);
            lemma_at_index(after, j);
            if j < k {
                assert(after[j] == before[j]);
                lemma_at_index(before, j);
            } else {
                assert(j > k);
                assert(after[j] == before[j - 1]);
                lemma_at_index(before, j - 1);
            }
        }
    }
}

} // verus!
