use crate::meta::{items_before, total_items, BlockMeta};
use vstd::prelude::*;

verus! {

/// Block `b` of the list holds record `rec`: the blocks before it hold
/// fewer than `rec + 1` items, and with it they hold more than `rec`.
pub open spec fn holds_record(blocks: Seq<BlockMeta>, b: int, rec: int) -> bool {
    &&& 0 <= b < blocks.len()
    &&& items_before(blocks, b) <= rec < items_before(blocks, b + 1)
}

/// The first block at or after `from` whose end lies past record `rec`; the
/// number of blocks where there is none.
pub open spec fn first_block_past(blocks: Seq<BlockMeta>, rec: int, from: int) -> int
    decreases blocks.len() - from,
{
    if from < 0 || from >= blocks.len() {
        blocks.len() as int
    } else if rec < items_before(blocks, from + 1) {
        from
    } else {
        first_block_past(blocks, rec, from + 1)
    }
}

/// The block that holds record `rec`, for `0 <= rec < total_items(blocks)`.
pub open spec fn block_holding(blocks: Seq<BlockMeta>, rec: int) -> int {
    first_block_past(blocks, rec, 0)
}

/// Item counts only grow along a block list.
pub proof fn lemma_items_before_monotone(blocks: Seq<BlockMeta>, a: int, b: int)
    requires
        a <= b,
    ensures
        0 <= items_before(blocks, a) <= items_before(blocks, b),
    decreases b - a, b,
{
    if a < b {
        lemma_items_before_monotone(blocks, a, b - 1);
    } else if a > 0 {
        lemma_items_before_monotone(blocks, a - 1, a - 1);
    }
}

/// A record lies in at most one block, and that block is `block_holding`.
pub proof fn lemma_block_holding_unique(blocks: Seq<BlockMeta>, b: int, rec: int)
    requires
        holds_record(blocks, b, rec),
    ensures
        block_holding(blocks, rec) == b,
{
    lemma_first_block_past(blocks, rec, 0, b);
}

proof fn lemma_first_block_past(blocks: Seq<BlockMeta>, rec: int, from: int, b: int)
    requires
        holds_record(blocks, b, rec),
        0 <= from <= b,
    ensures
        first_block_past(blocks, rec, from) == b,
    decreases b - from,
{
    if from < b {
        lemma_items_before_monotone(blocks, from + 1, b);
        lemma_first_block_past(blocks, rec, from + 1, b);
    }
}

/// Every record below the total lies in the block that `block_holding` names.
pub proof fn lemma_block_holding_exists(blocks: Seq<BlockMeta>, rec: int)
    requires
        0 <= rec < total_items(blocks),
    ensures
        holds_record(blocks, block_holding(blocks, rec), rec),
{
    lemma_first_block_past_holds(blocks, rec, 0);
}

proof fn lemma_first_block_past_holds(blocks: Seq<BlockMeta>, rec: int, from: int)
    requires
        0 <= from <= blocks.len(),
        items_before(blocks, from) <= rec < total_items(blocks),
    ensures
        holds_record(blocks, first_block_past(blocks, rec, from), rec),
    decreases blocks.len() - from,
{
    if from < blocks.len() && !(rec < items_before(blocks, from + 1)) {
        lemma_first_block_past_holds(blocks, rec, from + 1);
    }
}

/// The starting record number of every block of one field, and the number
/// of records in all of them.
#[derive(Debug)]
pub struct BlockIndex {
    pub starts: Vec<usize>,
    pub total: usize,
}

impl BlockIndex {
    /// The index describes the block list: one start per block, each the
    /// item count of the blocks before it.
    pub open spec fn describes(self, blocks: Seq<BlockMeta>) -> bool {
        &&& self.starts@.len() == blocks.len()
        &&& forall|b: int|
            0 <= b < blocks.len() ==> #[trigger] self.starts@[b] == items_before(blocks, b)
        &&& self.total == total_items(blocks)
    }

    /// Builds the index of a block list; `None` where the number of records
    /// does not fit in `usize`.
    pub fn new(blocks: &Vec<BlockMeta>) -> (r: Option<BlockIndex>)
        ensures
            r is Some <==> total_items(blocks@) <= usize::MAX,
            r is Some ==> r->0.describes(blocks@),
    {
        let mut starts: Vec<usize> = Vec::new();
        let mut acc: usize = 0;
        let mut b: usize = 0;
        while b < blocks.len()
            invariant
                b <= blocks@.len(),
                starts@.len() == b,
                acc == items_before(blocks@, b as int),
                forall|j: int| 0 <= j < b ==> #[trigger] starts@[j] == items_before(blocks@, j),
            decreases blocks@.len() - b,
        {
            starts.push(acc);
            let n: u32 = blocks[b].numitems;
            if n as u64 > (usize::MAX - acc) as u64 {
                proof {
                    lemma_items_before_monotone(blocks@, b + 1, blocks@.len() as int);
                }
                return None;
            }
            acc = acc + n as usize;
            b += 1;
        }
        Some(BlockIndex { starts, total: acc })
    }

    /// The block that holds record `rec` and the record's position in that
    /// block; `None` where the list has no such record.
    pub fn locate(&self, blocks: &Vec<BlockMeta>, rec: usize) -> (r: Option<(usize, usize)>)
        requires
            self.describes(blocks@),
        ensures
            match r {
                Some((b, offset)) => holds_record(blocks@, b as int, rec as int) && offset == rec
                    - items_before(blocks@, b as int),
                None => rec >= total_items(blocks@),
            },
    {
        if rec >= self.total {
            return None;
        }
        proof {
            lemma_block_holding_exists(blocks@, rec as int);
        }
        let ghost target = block_holding(blocks@, rec as int);
        // The last start at or below `rec` is the start of the block sought.
        let mut lo: usize = 0;
        let mut hi: usize = self.starts.len();
        while hi - lo > 1
            invariant
                self.describes(blocks@),
                holds_record(blocks@, target, rec as int),
                0 <= lo <= target < hi <= blocks@.len(),
            decreases hi - lo,
        {
            let mid: usize = lo + (hi - lo) / 2;
            if self.starts[mid] <= rec {
                proof {
                    if target < mid {
                        lemma_items_before_monotone(blocks@, target + 1, mid as int);
                    }
                }
                lo = mid;
            } else {
                proof {
                    if target >= mid {
                        lemma_items_before_monotone(blocks@, mid as int, target);
                    }
                }
                hi = mid;
            }
        }
        Some((lo, rec - self.starts[lo]))
    }
}

} // verus!
