//! The buddy tree, an auxiliary allocator experiment off the hot path:
//! a complete binary tree over a power-of-two arena where each node
//! holds the largest free power-of-two order available in its subtree.

use vstd::prelude::*;

verus! {

/// Depth of the tree: orders run from `MAX_LEVEL` at the root to 1.
pub const MAX_LEVEL: usize = 15;

/// Amount of nodes kept in the array.
pub const NODE_COUNT: usize = 16384;

/// Whether `x` is a power of two (zero is of no concern here).
pub open spec fn spec_is_pow2(x: u64) -> bool {
    x & (x - 1) as u64 == 0
}

/// The free order stored at node `i` by `init`: the root takes
/// `MAX_LEVEL` and the order drops by one whenever `i + 1` crosses a
/// power of two, that is, on each new tree level.
pub open spec fn init_order(i: int) -> int
    decreases i,
{
    if i <= 0 {
        MAX_LEVEL as int
    } else if spec_is_pow2((i + 1) as u64) && init_order(i - 1) > 0 {
        init_order(i - 1) - 1
    } else {
        init_order(i - 1)
    }
}

/// `init_order` stays within `0 ..= MAX_LEVEL`.
proof fn lemma_init_order_bounds(i: int)
    ensures
        0 <= init_order(i) <= MAX_LEVEL,
    decreases i,
{
    if i > 0 {
        lemma_init_order_bounds(i - 1);
    }
}

/// The buddy tree.
pub struct Tree {
    /// Entries in the tree: the largest free order in each subtree.
    pub nodes: Vec<u8>,
}

impl Tree {
    pub open spec fn wf(self) -> bool {
        self.nodes@.len() == NODE_COUNT && forall|i: int|
            0 <= i < NODE_COUNT ==> #[trigger] self.nodes@[i] <= MAX_LEVEL as u8
    }

    /// A tree with zeroed storage; `init` gives it its content.
    pub fn new() -> (r: Tree)
        ensures
            r.wf(),
            r.nodes@.len() == NODE_COUNT,
    {
        let mut nodes: Vec<u8> = Vec::new();
        let mut i: usize = 0;
        while i < NODE_COUNT
            invariant
                i <= NODE_COUNT,
                nodes@.len() == i,
                forall|k: int| 0 <= k < i ==> #[trigger] nodes@[k] == 0,
            decreases NODE_COUNT - i,
        {
            nodes.push(0);
            i += 1;
        }
        Tree { nodes }
    }

    /// Initializes the tree: every subtree fully free.
    pub fn init(&mut self)
        requires
            old(self).nodes@.len() == NODE_COUNT,
        ensures
            final(self).wf(),
            forall|i: int|
                0 <= i < NODE_COUNT ==> #[trigger] final(self).nodes@[i] == init_order(i),
            final(self).nodes@[0] == MAX_LEVEL as u8,
    {
        let mut size: u8 = (MAX_LEVEL + 1) as u8;
        let mut i: usize = 0;
        while i < NODE_COUNT
            invariant
                i <= NODE_COUNT,
                self.nodes@.len() == NODE_COUNT,
                forall|k: int| 0 <= k < i ==> #[trigger] self.nodes@[k] == init_order(k),
                i == 0 ==> size == MAX_LEVEL + 1,
                i > 0 ==> size == init_order(i - 1),
                size <= MAX_LEVEL + 1,
            decreases NODE_COUNT - i,
        {
            proof {
                lemma_init_order_bounds(i as int);
                lemma_init_order_bounds(i as int - 1);
            }
            let x = (i + 1) as u64;
            let pow2 = x & (x - 1) == 0;
            proof {
                assert(pow2 == spec_is_pow2((i as int + 1) as u64));
            }
            if pow2 && size > 0 {
                size -= 1;
            }
            proof {
                if i == 0 {
                    assert(1u64 & 0u64 == 0) by (bit_vector);
                    assert(init_order(0) == MAX_LEVEL as int);
                } else {
                    assert(init_order(i as int) == if spec_is_pow2((i as int + 1) as u64)
                        && init_order(i as int - 1) > 0 {
                        init_order(i as int - 1) - 1
                    } else {
                        init_order(i as int - 1)
                    });
                }
                assert(size == init_order(i as int));
            }
            self.nodes[i] = size;
            i += 1;
        }
        proof {
            assert forall|k: int|
                0 <= k < NODE_COUNT implies #[trigger] self.nodes@[k] <= MAX_LEVEL as u8 by {
                lemma_init_order_bounds(k);
            }
        }
    }

    /// Left index of a node.
    pub fn left_index(&self, index: usize) -> (r: usize)
        requires
            index < NODE_COUNT,
        ensures
            r == 2 * index + 1,
    {
        let r = (index << 1usize) | 1;
        proof {
            assert(r == 2 * index + 1) by (bit_vector)
                requires
                    r == (index << 1usize) | 1,
                    index < 16384usize,
            ;
        }
        r
    }

    /// Right index of a node.
    pub fn right_index(&self, index: usize) -> (r: usize)
        requires
            index < NODE_COUNT,
        ensures
            r == 2 * index + 2,
    {
        self.left_index(index) + 1
    }

    /// Parent index of a node.
    pub fn parent_index(&self, index: usize) -> (r: usize)
        requires
            0 < index < 2 * NODE_COUNT,
        ensures
            r as int == (index + 1) / 2 - 1,
            r < index,
    {
        let ip = index + 1;
        proof {
            assert(ip >> 1usize >= 1) by (bit_vector)
                requires
                    ip >= 2usize,
            ;
        }
        let r = (ip >> 1usize) - 1;
        proof {
            assert(r == ip / 2 - 1 && r <= ip - 2) by (bit_vector)
                requires
                    r == (ip >> 1usize) - 1,
                    2 <= ip <= 32768usize,
            ;
        }
        r
    }

    /// Allocates a block of order `size` (a block of `1 << size` units):
    /// descends to a node of that order, marks it used, and repairs the
    /// orders on the path up. Returns the block's offset in the arena,
    /// aligned to the block size; `None` exactly when the root has no
    /// free block of the requested order.
    pub fn allocate(&mut self, size: usize) -> (r: Option<usize>)
        requires
            old(self).wf(),
            2 <= size <= MAX_LEVEL,
        ensures
            final(self).wf(),
            r is None <==> old(self).nodes@[0] < size as u8,
            match r {
                Some(offset) => offset % (1usize << size) == 0 && offset + (1usize << size)
                    <= 1usize << MAX_LEVEL,
                None => *final(self) == *old(self),
            },
    {
        if self.nodes[0] < size as u8 {
            return None;
        }
        // Find a node with the smallest order that still fits the request.
        let wanted_level = MAX_LEVEL - size;
        let mut index: usize = 0;
        let mut level: usize = 0;
        proof {
            assert((1usize << 0usize) == 1 && (1usize << 1usize) == 2) by (bit_vector);
        }
        while level < wanted_level
            invariant
                self.wf(),
                level <= wanted_level,
                wanted_level == MAX_LEVEL - size,
                2 <= size <= MAX_LEVEL,
                (1usize << level) - 1 <= index < (1usize << (level + 1)) - 1,
            decreases wanted_level - level,
        {
            proof {
                let lv = level;
                assert((1usize << (lv + 1)) - 1 <= 2 * ((1usize << lv) - 1) + 1 && 2 * ((1usize << (
                lv + 1)) - 2) + 2 < (1usize << (lv + 2)) - 1 && (1usize << (lv + 2)) <= 16384usize)
                    by (bit_vector)
                    requires
                        lv < 13usize,
                ;
            }
            let left_index = self.left_index(index);
            let right_index = self.right_index(index);
            index = if self.nodes[left_index] >= size as u8 {
                left_index
            } else {
                right_index
            };
            level += 1;
        }
        // Calculate the offset from the index.
        proof {
            let wl = wanted_level;
            assert((1usize << wl) >= 1 && (1usize << wl) - 1 <= 16384usize && (1usize << (wl + 1))
                == 2 * (1usize << wl) && (1usize << (wl + 1)) <= 16384usize) by (bit_vector)
                requires
                    wl <= 13usize,
            ;
        }
        let first_index_in_this_level = (1usize << wanted_level) - 1;
        let index_in_this_level = index - first_index_in_this_level;
        let offset = index_in_this_level << size;
        proof {
            let d = index_in_this_level;
            let sz = size;
            let wl = wanted_level;
            assert((d << sz) % (1usize << sz) == 0 && (d << sz) + (1usize << sz) <= (1usize
                << 15usize)) by (bit_vector)
                requires
                    d < (1usize << wl),
                    wl == 15usize - sz,
                    2 <= sz <= 15usize,
            ;
        }
        // Update the path so that each node again holds the largest free
        // order of its subtree.
        self.nodes[index] = 0;
        while index > 0
            invariant
                self.wf(),
                index < NODE_COUNT - 1,
            decreases index,
        {
            index = self.parent_index(index);
            let left_index = self.left_index(index);
            let right_index = self.right_index(index);
            proof {
                assert(2 * index + 2 < NODE_COUNT);
            }
            let l = self.nodes[left_index];
            let rv = self.nodes[right_index];
            let m = if l > rv {
                l
            } else {
                rv
            };
            self.nodes[index] = m;
        }
        Some(offset)
    }
}

} // verus!
