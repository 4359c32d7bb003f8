//! Regions: ordered sequences of blocks, owned by operations.

use vstd::prelude::*;
use crate::block::BlockRef;
use crate::context::Context;
use crate::operation::OperationRef;

verus! {

/// The state of one region in the tree arena.
pub struct RegionData {
    /// The blocks this region owns, in order.
    pub blocks: Vec<BlockRef>,
    /// The operation this region is attached to, if any.
    pub parent: Option<OperationRef>,
}

/// A reference to a region in a context's tree arena.
#[derive(Clone, Copy, Debug, PartialEq, Eq, Structural)]
pub struct RegionRef {
    pub id: usize,
}

impl RegionRef {
    /// Whether this handle points into the region arena of `ctx`.
    pub open spec fn valid(&self, ctx: &Context) -> bool {
        self.id < ctx.regions@.len()
    }
}


impl RegionRef {
    /// Creates a new standalone region owning no blocks.
    pub fn new(ctx: &mut Context) -> (r: RegionRef)
        requires
            old(ctx).wf(),
        ensures
            final(ctx).wf(),
            final(ctx).same_interned(old(ctx)),
            final(ctx).ops@ == old(ctx).ops@,
            final(ctx).blocks@ == old(ctx).blocks@,
            final(ctx).regions@.len() == old(ctx).regions@.len() + 1,
            forall|j: int|
                0 <= j < old(ctx).regions@.len() ==> final(ctx).regions@[j] == old(
                    ctx,
                ).regions@[j],
            r.id == old(ctx).regions@.len(),
            final(ctx).regions@[r.id as int].blocks@.len() == 0,
            final(ctx).regions@[r.id as int].parent is None,
    {
        let id = ctx.regions.len();
        ctx.regions.push(RegionData { blocks: Vec::new(), parent: None });
        RegionRef { id }
    }

    /// Appends a standalone block to the region, transferring ownership
    /// of the block to it.
    pub fn append_block(&self, ctx: &mut Context, block: BlockRef) -> (r: BlockRef)
        requires
            old(ctx).wf(),
            self.valid(old(ctx)),
            block.valid(old(ctx)),
            old(ctx).blocks@[block.id as int].parent is None,
        ensures
            final(ctx).wf(),
            final(ctx).same_interned(old(ctx)),
            final(ctx).ops@ == old(ctx).ops@,
            r == block,
            final(ctx).regions@.len() == old(ctx).regions@.len(),
            forall|j: int|
                0 <= j < old(ctx).regions@.len() && j != self.id ==> final(ctx).regions@[j] == old(
                    ctx,
                ).regions@[j],
            final(ctx).regions@[self.id as int].blocks@ == old(
                ctx,
            ).regions@[self.id as int].blocks@.push(block),
            final(ctx).regions@[self.id as int].parent == old(ctx).regions@[self.id as int].parent,
            final(ctx).blocks@.len() == old(ctx).blocks@.len(),
            forall|j: int|
                0 <= j < old(ctx).blocks@.len() && j != block.id ==> final(ctx).blocks@[j] == old(
                    ctx,
                ).blocks@[j],
            final(ctx).blocks@[block.id as int].parent == Some(*self),
            final(ctx).blocks@[block.id as int].ops@ == old(ctx).blocks@[block.id as int].ops@,
            final(ctx).blocks@[block.id as int].arg_types@ == old(
                ctx,
            ).blocks@[block.id as int].arg_types@,
            final(ctx).blocks@[block.id as int].arg_locs@ == old(
                ctx,
            ).blocks@[block.id as int].arg_locs@,
    {
        ctx.blocks[block.id].parent = Some(*self);
        ctx.regions[self.id].blocks.push(block);
        proof {
            let c0 = old(ctx);
            let c1 = ctx;
            assert forall|b: usize|
                b < c1.blocks@.len() && (#[trigger] c1.blocks@[b as int]).parent is Some implies {
                let rr = c1.blocks@[b as int].parent->0;
                rr.id < c1.regions@.len() && c1.regions@[rr.id as int].blocks@.contains(
                    BlockRef { id: b },
                )
            } by {
                if b == block.id {
                    assert(c1.regions@[self.id as int].blocks@.last() == block);
                } else {
                    let rr = c1.blocks@[b as int].parent->0;
                    assert(c0.regions@[rr.id as int].blocks@.contains(BlockRef { id: b }));
                    let k = choose|k: int|
                        0 <= k < c0.regions@[rr.id as int].blocks@.len()
                            && c0.regions@[rr.id as int].blocks@[k] == (BlockRef { id: b });
                    assert(c1.regions@[rr.id as int].blocks@[k] == (BlockRef { id: b }));
                }
            }
            assert forall|rr: int, k: int, m: int|
                0 <= rr < c1.regions@.len() && 0 <= k < m < c1.regions@[rr].blocks@.len() implies
                c1.regions@[rr].blocks@[k] != c1.regions@[rr].blocks@[m] by {
                if rr == self.id as int && m == c1.regions@[rr].blocks@.len() - 1 {
                    if c0.regions@[rr].blocks@[k] == block {
                        assert(c0.blocks@[block.id as int].parent is Some);
                    }
                }
            }
        }
        block
    }

    /// Returns the first block of the region, if it has one.
    pub fn first_block(&self, ctx: &Context) -> (r: Option<BlockRef>)
        requires
            ctx.wf(),
            self.valid(ctx),
        ensures
            match r {
                Some(b) => ctx.regions@[self.id as int].blocks@.len() > 0 && b == ctx.regions@[self.id as int].blocks@[0]
                    && b.valid(ctx),
                None => ctx.regions@[self.id as int].blocks@.len() == 0,
            },
    {
        if ctx.regions[self.id].blocks.len() > 0 {
            let b = ctx.regions[self.id].blocks[0];
            Some(b)
        } else {
            None
        }
    }

    /// If this region sits in an operation and another region follows it
    /// there, returns that region: the successor in declaration order,
    /// absence exactly when this region is standalone or last.
    pub fn next_in_parent_operation(&self, ctx: &Context) -> (r: Option<RegionRef>)
        requires
            ctx.wf(),
            self.valid(ctx),
        ensures
            match r {
                Some(n) => n.valid(ctx) && ctx.regions@[self.id as int].parent is Some && exists|
                    k: int,
                |
                    0 <= k < ctx.ops@[(ctx.regions@[self.id
                        as int].parent->0).id as int].regions@.len() - 1
                        && #[trigger] ctx.ops@[(ctx.regions@[self.id
                        as int].parent->0).id as int].regions@[k] == *self && ctx.ops@[(
                    ctx.regions@[self.id as int].parent->0).id as int].regions@[k + 1] == n,
                None => ctx.regions@[self.id as int].parent is None || ctx.ops@[(ctx.regions@[
                    self.id as int].parent->0).id as int].regions@.last() == *self,
            },
    {
        match ctx.regions[self.id].parent {
            Some(op) => {
                let k = find_in_op_regions(ctx, op, *self);
                let n = ctx.ops[op.id].regions.len();
                if k + 1 < n {
                    let next = ctx.ops[op.id].regions[k + 1];
                    proof {
                        assert(ctx.op_entry_wf(ctx.ops@[op.id as int]));
                    }
                    Some(next)
                } else {
                    proof {
                        assert(ctx.ops@[op.id as int].regions@.last() == *self);
                    }
                    None
                }
            },
            None => None,
        }
    }
}

/// Finds the position of an attached region in its operation's list.
pub fn find_in_op_regions(ctx: &Context, op: OperationRef, reference: RegionRef) -> (k: usize)
    requires
        ctx.wf(),
        op.id < ctx.ops@.len(),
        reference.valid(ctx),
        ctx.regions@[reference.id as int].parent == Some(op),
    ensures
        k < ctx.ops@[op.id as int].regions@.len(),
        ctx.ops@[op.id as int].regions@[k as int] == reference,
{
    proof {
        assert(ctx.ops@[op.id as int].regions@.contains(reference));
    }
    let n = ctx.ops[op.id].regions.len();
    let mut k: usize = 0;
    while k < n
        invariant
            ctx.wf(),
            op.id < ctx.ops@.len(),
            n == ctx.ops@[op.id as int].regions@.len(),
            k <= n,
            ctx.ops@[op.id as int].regions@.contains(reference),
            forall|j: int| 0 <= j < k ==> ctx.ops@[op.id as int].regions@[j] != reference,
        ensures
            k < n,
            ctx.ops@[op.id as int].regions@[k as int] == reference,
        decreases n - k,
    {
        if ctx.ops[op.id].regions[k].id == reference.id {
            break;
        }
        proof {
            if k as int == n - 1 {
                let w = choose|w: int|
                    0 <= w < ctx.ops@[op.id as int].regions@.len() && ctx.ops@[op.id
                        as int].regions@[w] == reference;
                assert(false);
            }
        }
        k = k + 1;
    }
    k
}

} // verus!
