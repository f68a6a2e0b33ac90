use vstd::prelude::*;

use crate::bits::{bit_set, lemma_bit_or};

verus! {

/// A node of a sparse 64-tree: a child offset with a leaf flag in its lowest bit, and a
/// 64-bit child mask split into two words.
#[derive(Clone, Copy, Debug, PartialEq, Eq, Structural)]
pub struct Node {
    pub data_offset: u32,
    pub mask_lower: u32,
    pub mask_upper: u32,
}

/// Whether bit `p` (below 64) of a node's child mask is set.
pub open spec fn mask_bit(n: Node, p: int) -> bool {
    if p < 32 {
        bit_set(n.mask_lower, p as u32)
    } else {
        bit_set(n.mask_upper, (p - 32) as u32)
    }
}

/// The leaf flag of a node.
pub open spec fn node_is_leaf(n: Node) -> bool {
    n.data_offset & 1 == 1
}

/// The child offset of a node.
pub open spec fn child_ptr(n: Node) -> u32 {
    n.data_offset >> 1
}

impl Node {
    pub fn is_leaf(&self) -> (r: bool)
        ensures
            r == node_is_leaf(*self),
    {
        self.data_offset & 1 == 1
    }

    /// Stores the child offset `val` (shifted past the leaf flag, so its top bit is lost)
    /// and keeps the leaf flag.
    pub fn set_child_ptr(&mut self, val: u32)
        ensures
            final(self).data_offset == if node_is_leaf(*old(self)) {
                (val << 1u32) | 1
            } else {
                val << 1u32
            },
            node_is_leaf(*final(self)) == node_is_leaf(*old(self)),
            child_ptr(*final(self)) == val & 0x7FFF_FFFF,
            final(self).mask_lower == old(self).mask_lower,
            final(self).mask_upper == old(self).mask_upper,
    {
        let is_leaf = self.is_leaf();
        self.data_offset = val << 1;
        if is_leaf {
            self.data_offset |= 1;
        }
        proof {
            assert(((val << 1u32) | 1) & 1 == 1 && (val << 1u32) & 1 == 0 && ((val << 1u32) | 1) >> 1u32
                == val & 0x7FFF_FFFF && (val << 1u32) >> 1u32 == val & 0x7FFF_FFFF) by (bit_vector);
        }
    }

    /// Marks the node as a leaf; the child offset stays.
    pub fn set_is_leaf(&mut self)
        ensures
            final(self).data_offset == old(self).data_offset | 1,
            node_is_leaf(*final(self)),
            child_ptr(*final(self)) == child_ptr(*old(self)),
            final(self).mask_lower == old(self).mask_lower,
            final(self).mask_upper == old(self).mask_upper,
    {
        let ghost d = self.data_offset;
        self.data_offset |= 1;
        proof {
            assert((d | 1) & 1 == 1 && (d | 1) >> 1u32 == d >> 1u32) by (bit_vector);
        }
    }

    /// Sets bit `position` of the child mask; every other bit stays.
    pub fn set_mask(&mut self, position: u8)
        requires
            position < 64,
        ensures
            forall|p: int| 0 <= p < 64 ==> #[trigger] mask_bit(*final(self), p) == (mask_bit(
                *old(self),
                p,
            ) || p == position),
            final(self).data_offset == old(self).data_offset,
    {
        let ghost old_n = *self;
        if position >= 32 {
            self.mask_upper |= 1u32 << (position - 32);
        } else {
            self.mask_lower |= 1u32 << position;
        }
        assert forall|p: int| 0 <= p < 64 implies #[trigger] mask_bit(*self, p) == (mask_bit(
            old_n,
            p,
        ) || p == position) by {
            if p < 32 {
                if position < 32 {
                    lemma_bit_or(old_n.mask_lower, position as u32, p as u32);
                }
            } else {
                if position >= 32 {
                    lemma_bit_or(old_n.mask_upper, (position - 32) as u32, (p - 32) as u32);
                }
            }
        }
    }
}

} // verus!
