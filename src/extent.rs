//! The extent tree: which physical blocks hold a file's data, in logical order.
use vstd::prelude::*;
use crate::error::Fault;
use crate::model::readable;

verus! {

/// The feature named when an extent tree is missing or malformed.
pub const EXTENTS: &'static str = "extents";

/// The magic number of an extent node header.
pub const EXTENT_MAGIC: u32 = 0xF30A;

/// Low 16 bits of the first header word.
pub open spec fn node_magic(node: Seq<u32>) -> int {
    node[0] as int % 0x10000
}

/// High 16 bits of the first header word.
pub open spec fn node_entries(node: Seq<u32>) -> int {
    node[0] as int / 0x10000
}

/// High 16 bits of the second header word.
pub open spec fn node_depth(node: Seq<u32>) -> int {
    node[1] as int / 0x10000
}

/// Index of the first word of entry `i`.
pub open spec fn entry_base(i: int) -> int {
    3 + 3 * i
}

/// Entry `i` lies wholly inside the node.
pub open spec fn entry_present(node: Seq<u32>, i: int) -> bool {
    entry_base(i) + 2 < node.len()
}

/// Number of blocks that leaf entry `i` covers.
pub open spec fn leaf_len(node: Seq<u32>, i: int) -> int {
    node[entry_base(i) + 1] as int % 0x10000
}

/// First physical block of leaf entry `i`.
pub open spec fn leaf_start(node: Seq<u32>, i: int) -> int {
    (node[entry_base(i) + 1] as int / 0x10000) * 0x1_0000_0000 + node[entry_base(i) + 2] as int
}

/// The blocks of leaf entry `i`, if it is there, have numbers that fit in 32
/// bits, the width of the block list.
pub open spec fn leaf_fits(node: Seq<u32>, i: int) -> bool {
    entry_present(node, i) ==> leaf_start(node, i) + leaf_len(node, i) <= 0x1_0000_0000
}

/// The first `k` entries of a leaf node all fit.
pub open spec fn leaves_fit(node: Seq<u32>, k: int) -> bool {
    forall|i: int| 0 <= i < k ==> #[trigger] leaf_fits(node, i)
}

/// The block numbers that leaf entry `i` covers.
pub open spec fn leaf_run(node: Seq<u32>, i: int) -> Seq<u32> {
    if entry_present(node, i) {
        Seq::new(leaf_len(node, i) as nat, |j: int| (leaf_start(node, i) + j) as u32)
    } else {
        Seq::empty()
    }
}

/// The blocks of the first `k` entries of a leaf node.
pub open spec fn leaf_blocks(node: Seq<u32>, k: int) -> Seq<u32>
    decreases k,
{
    if k <= 0 {
        Seq::empty()
    } else {
        leaf_blocks(node, k - 1) + leaf_run(node, k - 1)
    }
}

/// Physical block of the child node that index entry `i` points at.
pub open spec fn child_block(node: Seq<u32>, i: int) -> int {
    (node[entry_base(i) + 2] as int % 0x10000) * 0x1_0000_0000 + node[entry_base(i) + 1] as int
}

/// The node held in the block at byte offset `off`, as words.
pub open spec fn node_at(c: Seq<u8>, off: int, block_size: int) -> Seq<u32> {
    crate::structs::words_at(c, off, block_size / 4)
}

/// The flat block list of the tree rooted at `node`, whose depth may be at
/// most `limit`; each child must be shallower than its parent, and every leaf
/// block number must fit in 32 bits.
pub open spec fn extent_walk(c: Seq<u8>, block_size: int, node: Seq<u32>, limit: int) -> Result<Seq<u32>, Fault>
    decreases limit, 0int,
{
    if node_magic(node) != EXTENT_MAGIC || node_depth(node) > limit || limit < 0 {
        Err(Fault::UnsupportedFeature(EXTENTS@))
    } else if node_depth(node) == 0 {
        if leaves_fit(node, node_entries(node)) {
            Ok(leaf_blocks(node, node_entries(node)))
        } else {
            Err(Fault::UnsupportedFeature(EXTENTS@))
        }
    } else {
        index_blocks(c, block_size, node, node_entries(node), node_depth(node) - 1)
    }
}

/// The blocks below the first `k` entries of an index node, whose children
/// may be at most `child_limit` deep.
pub open spec fn index_blocks(c: Seq<u8>, block_size: int, node: Seq<u32>, k: int, child_limit: int) -> Result<
    Seq<u32>,
    Fault,
>
    decreases child_limit, k,
{
    if k <= 0 || child_limit < 0 {
        Ok(Seq::empty())
    } else {
        match index_blocks(c, block_size, node, k - 1, child_limit) {
            Err(e) => Err(e),
            Ok(acc) => if !entry_present(node, k - 1) {
                Ok(acc)
            } else {
                let off = child_block(node, k - 1) * block_size;
                if !readable(c, off, block_size) {
                    Err(Fault::Io)
                } else {
                    match extent_walk(c, block_size, node_at(c, off, block_size), child_limit) {
                        Err(e) => Err(e),
                        Ok(b) => Ok(acc + b),
                    }
                }
            },
        }
    }
}

/// An error in the first `i` entries is the error of the first `k`.
pub proof fn lemma_index_error(c: Seq<u8>, block_size: int, node: Seq<u32>, i: int, k: int, child_limit: int)
    requires
        0 <= i <= k,
        child_limit >= 0,
        index_blocks(c, block_size, node, i, child_limit) is Err,
    ensures
        index_blocks(c, block_size, node, k, child_limit) == index_blocks(c, block_size, node, i, child_limit),
    decreases k - i,
{
    if k > i {
        lemma_index_error(c, block_size, node, i, k - 1, child_limit);
    }
}

/// Total of the `length` fields of the first `k` entries of a leaf node.
pub open spec fn leaf_length_sum(node: Seq<u32>, k: int) -> int
    decreases k,
{
    if k <= 0 {
        0
    } else {
        leaf_length_sum(node, k - 1) + if entry_present(node, k - 1) {
            leaf_len(node, k - 1)
        } else {
            0
        }
    }
}

/// Total of the `length` fields of all leaf entries reachable from `node`.
pub open spec fn extent_length_sum(c: Seq<u8>, block_size: int, node: Seq<u32>, limit: int) -> int
    decreases limit, 0int,
{
    if node_magic(node) != EXTENT_MAGIC || node_depth(node) > limit || limit < 0 {
        0
    } else if node_depth(node) == 0 {
        leaf_length_sum(node, node_entries(node))
    } else {
        index_length_sum(c, block_size, node, node_entries(node), node_depth(node) - 1)
    }
}

/// Total of the leaf `length` fields below the first `k` entries of an index node.
pub open spec fn index_length_sum(c: Seq<u8>, block_size: int, node: Seq<u32>, k: int, child_limit: int) -> int
    decreases child_limit, k,
{
    if k <= 0 || child_limit < 0 {
        0
    } else {
        index_length_sum(c, block_size, node, k - 1, child_limit) + if !entry_present(node, k - 1) {
            0
        } else {
            extent_length_sum(
                c,
                block_size,
                node_at(c, child_block(node, k - 1) * block_size, block_size),
                child_limit,
            )
        }
    }
}

proof fn lemma_leaf_len(node: Seq<u32>, k: int)
    ensures
        leaf_blocks(node, k).len() == leaf_length_sum(node, k),
    decreases k,
{
    if k > 0 {
        lemma_leaf_len(node, k - 1);
    }
}

proof fn lemma_index_len(c: Seq<u8>, block_size: int, node: Seq<u32>, k: int, child_limit: int)
    requires
        index_blocks(c, block_size, node, k, child_limit) is Ok,
    ensures
        index_blocks(c, block_size, node, k, child_limit)->Ok_0.len() == index_length_sum(
            c,
            block_size,
            node,
            k,
            child_limit,
        ),
    decreases child_limit, k,
{
    if k > 0 && child_limit >= 0 {
        lemma_index_len(c, block_size, node, k - 1, child_limit);
        if entry_present(node, k - 1) {
            let off = child_block(node, k - 1) * block_size;
            lemma_extent_len(c, block_size, node_at(c, off, block_size), child_limit);
        }
    }
}

/// For a well-formed extent tree of any depth, the flat block list has as many
/// blocks as the `length` fields of all reachable leaf entries add up to.
pub proof fn lemma_extent_len(c: Seq<u8>, block_size: int, node: Seq<u32>, limit: int)
    requires
        extent_walk(c, block_size, node, limit) is Ok,
    ensures
        extent_walk(c, block_size, node, limit)->Ok_0.len() == extent_length_sum(c, block_size, node, limit),
    decreases limit, 0int,
{
    if node_depth(node) == 0 {
        lemma_leaf_len(node, node_entries(node));
    } else {
        lemma_index_len(c, block_size, node, node_entries(node), node_depth(node) - 1);
    }
}

} // verus!
