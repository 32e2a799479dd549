//! The append-only chain of a dataset's metadata blocks.

use vstd::prelude::*;

use crate::block_hash::{compute_block_hash, content_hash};
use crate::metadata::MetadataBlock;

verus! {

/// Named references into a chain.
#[derive(Debug, Clone, Copy, PartialEq, Eq, Structural)]
pub enum BlockRef {
    Head,
}

/// The blocks of one dataset, genesis first.
#[derive(Debug)]
pub struct MetadataChain {
    blocks: Vec<MetadataBlock>,
}

/// `b` with its hash field set to `h`.
pub open spec fn with_hash(b: MetadataBlock, h: String) -> MetadataBlock {
    MetadataBlock { block_hash: h, ..b }
}

/// The chain invariants over a sequence of blocks, genesis first.
#[verifier::opaque]
pub open spec fn chain_wf(bs: Seq<MetadataBlock>) -> bool {
    &&& bs.len() >= 1
    &&& bs[0].prev_block_hash@ == Seq::<char>::empty()
    &&& bs[0].source is Some
    &&& forall|i: int| 0 <= i < bs.len() ==> (#[trigger] bs[i]).block_hash@ == content_hash(bs[i])
    &&& forall|i: int|
        0 < i < bs.len() ==> (#[trigger] bs[i]).prev_block_hash@ == bs[i - 1].block_hash@
    &&& forall|i: int, j: int| 0 <= i <= j < bs.len() ==> bs[i].system_time <= bs[j].system_time
}

impl View for MetadataChain {
    type V = Seq<MetadataBlock>;

    closed spec fn view(&self) -> Seq<MetadataBlock> {
        self.blocks@
    }
}

impl MetadataChain {
    pub open spec fn wf(&self) -> bool {
        chain_wf(self@)
    }

    /// The newest block.
    pub open spec fn head(&self) -> MetadataBlock {
        self@.last()
    }

    /// The blocks from the newest back to the genesis block.
    pub open spec fn blocks_from_head(&self) -> Seq<MetadataBlock> {
        Seq::new(self@.len(), |i: int| self@[self@.len() - 1 - i])
    }

    /// Starts a chain with its genesis block.
    pub fn create(genesis: MetadataBlock) -> (r: (MetadataChain, String))
        requires
            genesis.prev_block_hash@ == Seq::<char>::empty(),
            genesis.source is Some,
        ensures
            r.0.wf(),
            r.0@.len() == 1,
            r.0@[0] == with_hash(genesis, r.0@[0].block_hash),
            r.1@ == content_hash(genesis),
            r.0@[0].block_hash@ == r.1@,
    {
        reveal(chain_wf);
        let mut genesis = genesis;
        let h = compute_block_hash(&genesis);
        let ret = h.clone();
        genesis.block_hash = h;
        let mut blocks: Vec<MetadataBlock> = Vec::new();
        blocks.push(genesis);
        let chain = MetadataChain { blocks };
        assert(chain@[0] == with_hash(genesis, chain@[0].block_hash));
        (chain, ret)
    }

    /// Rebuilds a chain from stored blocks, genesis first, when they satisfy
    /// every chain invariant; `None` otherwise.
    pub fn from_blocks(blocks: Vec<MetadataBlock>) -> (r: Option<MetadataChain>)
        ensures
            r is Some <==> chain_wf(blocks@),
            r matches Some(c) ==> c@ == blocks@ && c.wf(),
    {
        let n = blocks.len();
        if n == 0 {
            proof {
                reveal(chain_wf);
            }
            return None;
        }
        if blocks[0].prev_block_hash.unicode_len() != 0 || blocks[0].source.is_none() {
            proof {
                reveal(chain_wf);
            }
            return None;
        }
        let mut i: usize = 0;
        while i < n
            invariant
                n == blocks@.len(),
                n >= 1,
                0 <= i <= n,
                forall|k: int| 0 <= k < i ==> (#[trigger] blocks@[k]).block_hash@ == content_hash(blocks@[k]),
                forall|k: int| 0 < k < i ==> (#[trigger] blocks@[k]).prev_block_hash@ == blocks@[k - 1].block_hash@,
                forall|k: int| 0 < k < i ==> blocks@[k - 1].system_time <= (#[trigger] blocks@[k]).system_time,
            decreases n - i,
        {
            let b = &blocks[i];
            let h = compute_block_hash(b);
            if !str_eq(h.as_str(), b.block_hash.as_str()) {
                proof {
                    reveal(chain_wf);
                }
                return None;
            }
            if i > 0 {
                let p = &blocks[i - 1];
                if !str_eq(b.prev_block_hash.as_str(), p.block_hash.as_str()) {
                    proof {
                        reveal(chain_wf);
                    }
                    return None;
                }
                if b.system_time < p.system_time {
                    proof {
                        reveal(chain_wf);
                    }
                    return None;
                }
            }
            i += 1;
        }
        assert(blocks@[0].prev_block_hash@ =~= Seq::<char>::empty());
        proof {
            lemma_times_sorted(blocks@);
            reveal(chain_wf);
        }
        Some(MetadataChain { blocks })
    }

    /// Appends a block that follows the current head, sets its content hash and
    /// moves the head to it. Returns the hash.
    pub fn append(&mut self, block: MetadataBlock) -> (r: String)
        requires
            old(self).wf(),
            block.prev_block_hash@ == old(self).head().block_hash@,
            block.system_time >= old(self).head().system_time,
        ensures
            final(self).wf(),
            final(self)@ == old(self)@.push(with_hash(block, final(self).head().block_hash)),
            r@ == content_hash(block),
            final(self).head().block_hash@ == r@,
    {
        reveal(chain_wf);
        let mut block = block;
        let h = compute_block_hash(&block);
        let ret = h.clone();
        block.block_hash = h;
        let ghost before = self@;
        self.blocks.push(block);
        assert(self@[self@.len() - 1] == block);
        assert forall|i: int, j: int| 0 <= i <= j < self@.len() implies self@[i].system_time
            <= self@[j].system_time by {
            if j < before.len() {
                assert(self@[i] == before[i] && self@[j] == before[j]);
            } else {
                assert(self@[i] == before[i] || i == j);
                if i < j {
                    assert(before[i].system_time <= before[before.len() - 1].system_time);
                }
            }
        }
        assert forall|i: int| 0 < i < self@.len() implies (#[trigger] self@[i]).prev_block_hash@
            == self@[i - 1].block_hash@ by {
            if i < before.len() {
                assert(self@[i] == before[i] && self@[i - 1] == before[i - 1]);
            }
        }
        assert forall|i: int| 0 <= i < self@.len() implies (#[trigger] self@[i]).block_hash@
            == content_hash(self@[i]) by {
            if i < before.len() {
                assert(self@[i] == before[i]);
            }
        }
        ret
    }

    /// The hash that a reference points to.
    pub fn read_ref(&self, r: &BlockRef) -> (h: String)
        requires
            self.wf(),
        ensures
            h@ == self.head().block_hash@,
    {
        reveal(chain_wf);
        match r {
            BlockRef::Head => self.blocks[self.blocks.len() - 1].block_hash.clone(),
        }
    }

    /// The block with the given hash, if the chain holds one.
    pub fn get_block(&self, hash: &str) -> (r: Option<&MetadataBlock>)
        ensures
            r matches Some(b) ==> exists|i: int| first_with_hash(self@, hash@, i) && self@[i] == *b,
            r matches Some(b) ==> b.block_hash@ == hash@,
            r is None ==> forall|i: int| 0 <= i < self@.len() ==> self@[i].block_hash@ != hash@,
    {
        let n = self.blocks.len();
        let mut i: usize = 0;
        while i < n
            invariant
                n == self@.len(),
                0 <= i <= n,
                forall|j: int| 0 <= j < i ==> self@[j].block_hash@ != hash@,
            decreases n - i,
        {
            if str_eq(self.blocks[i].block_hash.as_str(), hash) {
                assert(first_with_hash(self@, hash@, i as int));
                return Some(&self.blocks[i]);
            }
            i += 1;
        }
        None
    }

    /// The number of blocks.
    pub fn len(&self) -> (r: usize)
        ensures
            r == self@.len(),
    {
        self.blocks.len()
    }

    /// The `i`-th block counting back from the head (the head is the 0th).
    pub fn block_from_head(&self, i: usize) -> (r: &MetadataBlock)
        requires
            i < self@.len(),
        ensures
            *r == self.blocks_from_head()[i as int],
    {
        &self.blocks[self.blocks.len() - 1 - i]
    }

    /// The blocks from the head back to the genesis block.
    pub fn iter_blocks(&self) -> (r: Vec<&MetadataBlock>)
        ensures
            r@.len() == self@.len(),
            forall|i: int| 0 <= i < r@.len() ==> *r@[i] == self.blocks_from_head()[i],
    {
        let n = self.blocks.len();
        let mut out: Vec<&MetadataBlock> = Vec::new();
        let mut i: usize = 0;
        while i < n
            invariant
                n == self@.len(),
                0 <= i <= n,
                out@.len() == i,
                forall|j: int| 0 <= j < i ==> *out@[j] == self.blocks_from_head()[j],
            decreases n - i,
        {
            out.push(self.block_from_head(i));
            i += 1;
        }
        out
    }
}

proof fn lemma_times_sorted(bs: Seq<MetadataBlock>)
    requires
        forall|k: int| 0 < k < bs.len() ==> bs[k - 1].system_time <= (#[trigger] bs[k]).system_time,
    ensures
        forall|a: int, b: int| 0 <= a <= b < bs.len() ==> bs[a].system_time <= bs[b].system_time,
{
    assert forall|a: int, b: int| 0 <= a <= b < bs.len() implies bs[a].system_time <= bs[b].system_time by {
        lemma_times_pair(bs, a, b);
    }
}

proof fn lemma_times_pair(bs: Seq<MetadataBlock>, a: int, b: int)
    requires
        forall|k: int| 0 < k < bs.len() ==> bs[k - 1].system_time <= (#[trigger] bs[k]).system_time,
        0 <= a <= b < bs.len(),
    ensures
        bs[a].system_time <= bs[b].system_time,
    decreases b - a,
{
    if a < b {
        lemma_times_pair(bs, a, b - 1);
    }
}

/// `bs[k]` is the first block of `bs` with hash `h`.
pub open spec fn first_with_hash(bs: Seq<MetadataBlock>, h: Seq<char>, k: int) -> bool {
    &&& 0 <= k < bs.len()
    &&& bs[k].block_hash@ == h
    &&& forall|j: int| 0 <= j < k ==> bs[j].block_hash@ != h
}

/// Character-wise equality of two strings.
pub fn str_eq(a: &str, b: &str) -> (r: bool)
    ensures
        r == (a@ == b@),
{
    let n = a.unicode_len();
    let m = b.unicode_len();
    if n != m {
        return false;
    }
    let mut i: usize = 0;
    while i < n
        invariant
            n == a@.len(),
            m == b@.len(),
            n == m,
            0 <= i <= n,
            forall|j: int| 0 <= j < i ==> a@[j] == b@[j],
        decreases n - i,
    {
        if a.get_char(i) != b.get_char(i) {
            return false;
        }
        i += 1;
    }
    assert(a@ =~= b@);
    true
}

/// After a block is appended, it is the head (so the head reference names its
/// hash) and iterating from the head yields it first, then the earlier blocks
/// as before.
pub proof fn lemma_append_then_head(before: MetadataChain, after: MetadataChain, b: MetadataBlock)
    requires
        after@ == before@.push(b),
    ensures
        after.head() == b,
        after.blocks_from_head()[0] == b,
        after.blocks_from_head().len() == before@.len() + 1,
        forall|i: int|
            0 <= i < before@.len() ==> after.blocks_from_head()[i + 1] == #[trigger] before.blocks_from_head()[i],
{
}

/// Injectivity of the content hash is out of reach for any fixed-width digest;
/// what holds is that the hash depends on the content alone.
pub proof fn lemma_hash_ignores_own_field(b: MetadataBlock, h: String)
    ensures
        content_hash(with_hash(b, h)) == content_hash(b),
{
}

} // verus!
