//! Blocks: ordered sequences of operations plus a fixed vector of typed
//! arguments, owned by regions.

use vstd::prelude::*;
use crate::context::Context;
use crate::location::LocationRef;
use crate::operation::OpData;
use crate::operation::OperationRef;
use crate::value::ValueRef;
use crate::region::RegionRef;
use crate::types::TypeRef;

verus! {

/// The state of one block in the tree arena.
pub struct BlockData {
    /// The types of the block's arguments, established at construction
    /// time; argument types may later be changed in place.
    pub arg_types: Vec<TypeRef>,
    /// The locations of the block's arguments.
    pub arg_locs: Vec<LocationRef>,
    /// The operations this block owns, in order.
    pub ops: Vec<OperationRef>,
    /// The region this block is attached to, if any.
    pub parent: Option<RegionRef>,
}

/// A reference to a block in a context's tree arena.
#[derive(Clone, Copy, Debug, PartialEq, Eq, Structural)]
pub struct BlockRef {
    pub id: usize,
}

impl BlockRef {
    /// Whether this handle points into the block arena of `ctx`.
    pub open spec fn valid(&self, ctx: &Context) -> bool {
        self.id < ctx.blocks@.len()
    }
}


impl BlockRef {
    /// Creates a new standalone block with the given argument types and
    /// locations.
    pub fn new(ctx: &mut Context, args: &Vec<(TypeRef, LocationRef)>) -> (r: BlockRef)
        requires
            old(ctx).wf(),
            forall|k: int|
                0 <= k < args@.len() ==> (#[trigger] args@[k]).0.valid(old(ctx))
                    && args@[k].1.valid(old(ctx)),
        ensures
            final(ctx).wf(),
            final(ctx).same_interned(old(ctx)),
            final(ctx).ops@ == old(ctx).ops@,
            final(ctx).regions@ == old(ctx).regions@,
            final(ctx).blocks@.len() == old(ctx).blocks@.len() + 1,
            forall|j: int|
                0 <= j < old(ctx).blocks@.len() ==> final(ctx).blocks@[j] == old(ctx).blocks@[j],
            r.id == old(ctx).blocks@.len(),
            final(ctx).blocks@[r.id as int].parent is None,
            final(ctx).blocks@[r.id as int].ops@.len() == 0,
            final(ctx).blocks@[r.id as int].arg_types@.len() == args@.len(),
            forall|k: int|
                0 <= k < args@.len() ==> final(ctx).blocks@[r.id as int].arg_types@[k]
                    == args@[k].0 && final(ctx).blocks@[r.id as int].arg_locs@[k] == args@[k].1,
    {
        let mut arg_types: Vec<TypeRef> = Vec::new();
        let mut arg_locs: Vec<LocationRef> = Vec::new();
        let mut k: usize = 0;
        while k < args.len()
            invariant
                k <= args@.len(),
                arg_types@.len() == k,
                arg_locs@.len() == k,
                forall|j: int|
                    0 <= j < k ==> arg_types@[j] == args@[j].0 && arg_locs@[j] == args@[j].1,
            decreases args@.len() - k,
        {
            let (t, l) = args[k];
            arg_types.push(t);
            arg_locs.push(l);
            k = k + 1;
        }
        let id = ctx.blocks.len();
        ctx.blocks.push(BlockData { arg_types, arg_locs, ops: Vec::new(), parent: None });
        BlockRef { id }
    }

    /// Appends a standalone operation to the block, transferring
    /// ownership of the operation to it.  The appended operation becomes
    /// the last operation of the block and its parent block becomes this
    /// block.
    pub fn append_operation(&self, ctx: &mut Context, operation: OperationRef) -> (r: OperationRef)
        requires
            old(ctx).wf(),
            self.valid(old(ctx)),
            operation.valid(old(ctx)),
            old(ctx).ops@[operation.id as int].parent is None,
        ensures
            final(ctx).wf(),
            final(ctx).same_interned(old(ctx)),
            r == operation,
            final(ctx).regions@ == old(ctx).regions@,
            final(ctx).blocks@.len() == old(ctx).blocks@.len(),
            forall|j: int|
                0 <= j < old(ctx).blocks@.len() && j != self.id ==> final(ctx).blocks@[j] == old(
                    ctx,
                ).blocks@[j],
            final(ctx).blocks@[self.id as int].ops@ == old(
                ctx,
            ).blocks@[self.id as int].ops@.push(operation),
            final(ctx).blocks@[self.id as int].parent == old(ctx).blocks@[self.id as int].parent,
            final(ctx).blocks@[self.id as int].arg_types@ == old(
                ctx,
            ).blocks@[self.id as int].arg_types@,
            final(ctx).blocks@[self.id as int].arg_locs@ == old(
                ctx,
            ).blocks@[self.id as int].arg_locs@,
            final(ctx).ops@.len() == old(ctx).ops@.len(),
            forall|j: int|
                0 <= j < old(ctx).ops@.len() && j != operation.id ==> final(ctx).ops@[j] == old(
                    ctx,
                ).ops@[j],
            final(ctx).ops@[operation.id as int] == (OpData {
                parent: Some(*self),
                ..old(ctx).ops@[operation.id as int]
            }),
    {
        ctx.ops[operation.id].parent = Some(*self);
        ctx.blocks[self.id].ops.push(operation);
        proof {
            let c0 = old(ctx);
            let c1 = ctx;
            assert forall|o: usize|
                o < c1.ops@.len() && (#[trigger] c1.ops@[o as int]).parent is Some implies {
                let b = c1.ops@[o as int].parent->0;
                b.id < c1.blocks@.len() && c1.blocks@[b.id as int].ops@.contains(
                    OperationRef { id: o },
                )
            } by {
                if o == operation.id {
                    assert(c1.blocks@[self.id as int].ops@.last() == operation);
                } else {
                    let b = c1.ops@[o as int].parent->0;
                    assert(c0.blocks@[b.id as int].ops@.contains(OperationRef { id: o }));
                    let k = choose|k: int|
                        0 <= k < c0.blocks@[b.id as int].ops@.len() && c0.blocks@[b.id
                            as int].ops@[k] == (OperationRef { id: o });
                    assert(c1.blocks@[b.id as int].ops@[k] == (OperationRef { id: o }));
                }
            }
            assert forall|b: int, k: int, m: int|
                0 <= b < c1.blocks@.len() && 0 <= k < m < c1.blocks@[b].ops@.len() implies
                c1.blocks@[b].ops@[k] != c1.blocks@[b].ops@[m] by {
                if b == self.id as int && m == c1.blocks@[b].ops@.len() - 1 {
                    if c0.blocks@[b].ops@[k] == operation {
                        assert(c0.ops@[operation.id as int].parent is Some);
                    }
                }
            }
            assert forall|o: int| 0 <= o < c1.ops@.len() implies c1.op_entry_wf(
                #[trigger] c1.ops@[o],
            ) by {
                assert(c0.op_entry_wf(c0.ops@[o]));
                assert forall|k: int|
                    0 <= k < c1.ops@[o].operands@.len() implies (
                #[trigger] c1.ops@[o].operands@[k]).valid(c1) by {
                    assert(c0.ops@[o].operands@[k].valid(c0));
                }
            }
        }
        operation
    }

    /// Inserts a standalone operation directly after `reference`, which
    /// must already sit in this block.
    pub fn insert_operation_after(&self, ctx: &mut Context, reference: OperationRef,
        operation: OperationRef)
        requires
            old(ctx).wf(),
            self.valid(old(ctx)),
            reference.valid(old(ctx)),
            operation.valid(old(ctx)),
            reference != operation,
            old(ctx).ops@[reference.id as int].parent == Some(*self),
            old(ctx).ops@[operation.id as int].parent is None,
        ensures
            final(ctx).wf(),
            final(ctx).same_interned(old(ctx)),
            final(ctx).regions@ == old(ctx).regions@,
            final(ctx).blocks@.len() == old(ctx).blocks@.len(),
            forall|j: int|
                0 <= j < old(ctx).blocks@.len() && j != self.id ==> final(ctx).blocks@[j] == old(
                    ctx,
                ).blocks@[j],
            final(ctx).ops@.len() == old(ctx).ops@.len(),
            forall|j: int|
                0 <= j < old(ctx).ops@.len() && j != operation.id ==> final(ctx).ops@[j] == old(
                    ctx,
                ).ops@[j],
            final(ctx).ops@[operation.id as int] == (OpData {
                parent: Some(*self),
                ..old(ctx).ops@[operation.id as int]
            }),
            exists|k: int|
                {
                    &&& 0 <= k < old(ctx).blocks@[self.id as int].ops@.len()
                    &&& #[trigger] old(ctx).blocks@[self.id as int].ops@[k] == reference
                    &&& final(ctx).blocks@[self.id as int].ops@ == old(ctx).blocks@[self.id
                        as int].ops@.insert(k + 1, operation)
                },
    {
        let k = find_in_block(ctx, *self, reference);
        let n = ctx.blocks[self.id].ops.len();
        proof {
            assert(k < n);
        }
        insert_operation_at(ctx, *self, k + 1, operation);
        proof {
            assert(old(ctx).blocks@[self.id as int].ops@[k as int] == reference);
        }
    }

}

impl OperationRef {
    /// Moves this attached operation to sit directly after `other`,
    /// transferring ownership to the owner of `other` without copying.
    pub fn move_after(&self, ctx: &mut Context, other: OperationRef)
        requires
            old(ctx).wf(),
            self.valid(old(ctx)),
            other.valid(old(ctx)),
            *self != other,
            old(ctx).ops@[self.id as int].parent is Some,
            old(ctx).ops@[other.id as int].parent is Some,
        ensures
            final(ctx).wf(),
            final(ctx).same_interned(old(ctx)),
            final(ctx).regions@ == old(ctx).regions@,
            final(ctx).ops@[other.id as int].parent == old(ctx).ops@[other.id as int].parent,
            final(ctx).ops@[self.id as int].parent == final(ctx).ops@[other.id as int].parent,
            exists|k: int|
                {
                    &&& 0 <= k < final(ctx).blocks@[(final(ctx).ops@[other.id
                        as int].parent->0).id as int].ops@.len() - 1
                    &&& #[trigger] final(ctx).blocks@[(final(ctx).ops@[other.id
                        as int].parent->0).id as int].ops@[k] == other
                    &&& final(ctx).blocks@[(final(ctx).ops@[other.id
                        as int].parent->0).id as int].ops@[k + 1] == *self
                },
    {
        self.remove_from_parent(ctx);
        let block = match ctx.ops[other.id].parent {
            Some(b) => b,
            None => {
                proof {
                    assert(false);
                }
                BlockRef { id: 0 }
            },
        };
        let k = find_in_block(ctx, block, other);
        let n = ctx.blocks[block.id].ops.len();
        proof {
            assert(k < n);
        }
        insert_operation_at(ctx, block, k + 1, *self);
        proof {
            assert(final(ctx).blocks@[block.id as int].ops@[k as int] == other);
            assert(final(ctx).blocks@[block.id as int].ops@[k + 1] == *self);
        }
    }

    /// Moves this attached operation to sit directly before `other`,
    /// transferring ownership to the owner of `other` without copying.
    pub fn move_before(&self, ctx: &mut Context, other: OperationRef)
        requires
            old(ctx).wf(),
            self.valid(old(ctx)),
            other.valid(old(ctx)),
            *self != other,
            old(ctx).ops@[self.id as int].parent is Some,
            old(ctx).ops@[other.id as int].parent is Some,
        ensures
            final(ctx).wf(),
            final(ctx).same_interned(old(ctx)),
            final(ctx).regions@ == old(ctx).regions@,
            final(ctx).ops@[other.id as int].parent == old(ctx).ops@[other.id as int].parent,
            final(ctx).ops@[self.id as int].parent == final(ctx).ops@[other.id as int].parent,
            exists|k: int|
                {
                    &&& 0 <= k < final(ctx).blocks@[(final(ctx).ops@[other.id
                        as int].parent->0).id as int].ops@.len() - 1
                    &&& #[trigger] final(ctx).blocks@[(final(ctx).ops@[other.id
                        as int].parent->0).id as int].ops@[k] == *self
                    &&& final(ctx).blocks@[(final(ctx).ops@[other.id
                        as int].parent->0).id as int].ops@[k + 1] == other
                },
    {
        self.remove_from_parent(ctx);
        let block = match ctx.ops[other.id].parent {
            Some(b) => b,
            None => {
                proof {
                    assert(false);
                }
                BlockRef { id: 0 }
            },
        };
        let k = find_in_block(ctx, block, other);
        insert_operation_at(ctx, block, k, *self);
        proof {
            assert(final(ctx).blocks@[block.id as int].ops@[k as int] == *self);
            assert(final(ctx).blocks@[block.id as int].ops@[k + 1] == other);
        }
    }
}

impl BlockRef {
    /// Returns the number of arguments the block has.
    pub fn num_arguments(&self, ctx: &Context) -> (r: usize)
        requires
            self.valid(ctx),
        ensures
            r == ctx.blocks@[self.id as int].arg_types@.len(),
    {
        ctx.blocks[self.id].arg_types.len()
    }

    /// Gets the argument at the provided index; the index must be within
    /// bounds.
    pub fn argument(&self, ctx: &Context, idx: usize) -> (r: ValueRef)
        requires
            self.valid(ctx),
            idx < ctx.blocks@[self.id as int].arg_types@.len(),
        ensures
            r == (ValueRef::Argument { block: *self, index: idx }),
            r.valid(ctx),
    {
        ValueRef::Argument { block: *self, index: idx }
    }

    /// If the block is nested within a region, returns the parent region.
    pub fn parent_region(&self, ctx: &Context) -> (r: Option<RegionRef>)
        requires
            ctx.wf(),
            self.valid(ctx),
        ensures
            r == ctx.blocks@[self.id as int].parent,
            match r {
                Some(rr) => rr.valid(ctx),
                None => true,
            },
    {
        ctx.blocks[self.id].parent
    }

    /// If the block is nested within an operation, returns the operation
    /// owning the region that holds it.
    pub fn parent_operation(&self, ctx: &Context) -> (r: Option<OperationRef>)
        requires
            ctx.wf(),
            self.valid(ctx),
        ensures
            match r {
                Some(op) => op.valid(ctx) && ctx.blocks@[self.id as int].parent is Some
                    && ctx.regions@[(ctx.blocks@[self.id as int].parent->0).id as int].parent
                    == Some(op),
                None => ctx.blocks@[self.id as int].parent is None || ctx.regions@[(ctx.blocks@[self.id as int].parent->0).id as int].parent is None,
            },
    {
        match ctx.blocks[self.id].parent {
            Some(region) => ctx.regions[region.id].parent,
            None => None,
        }
    }

    /// Returns the first operation of the block, if it has one.
    pub fn first_operation(&self, ctx: &Context) -> (r: Option<OperationRef>)
        requires
            ctx.wf(),
            self.valid(ctx),
        ensures
            match r {
                Some(op) => ctx.blocks@[self.id as int].ops@.len() > 0 && op == ctx.blocks@[self.id
                    as int].ops@[0] && op.valid(ctx),
                None => ctx.blocks@[self.id as int].ops@.len() == 0,
            },
    {
        if ctx.blocks[self.id].ops.len() > 0 {
            Some(ctx.blocks[self.id].ops[0])
        } else {
            None
        }
    }

    /// Returns the terminating operation of the block: its last
    /// operation, if it has one.
    pub fn terminator(&self, ctx: &Context) -> (r: Option<OperationRef>)
        requires
            ctx.wf(),
            self.valid(ctx),
        ensures
            match r {
                Some(op) => ctx.blocks@[self.id as int].ops@.len() > 0 && op == ctx.blocks@[self.id
                    as int].ops@.last() && op.valid(ctx),
                None => ctx.blocks@[self.id as int].ops@.len() == 0,
            },
    {
        let n = ctx.blocks[self.id].ops.len();
        if n > 0 {
            Some(ctx.blocks[self.id].ops[n - 1])
        } else {
            None
        }
    }

    /// If this block is in a region and another block follows it there,
    /// returns that block: the successor in insertion order, absence
    /// exactly when this block is detached or last.
    pub fn next_in_parent_region(&self, ctx: &Context) -> (r: Option<BlockRef>)
        requires
            ctx.wf(),
            self.valid(ctx),
        ensures
            match r {
                Some(b) => b.valid(ctx) && ctx.blocks@[self.id as int].parent is Some && exists|
                    k: int,
                |
                    0 <= k < ctx.regions@[(ctx.blocks@[self.id
                        as int].parent->0).id as int].blocks@.len() - 1
                        && #[trigger] ctx.regions@[(ctx.blocks@[self.id
                        as int].parent->0).id as int].blocks@[k] == *self && ctx.regions@[(
                    ctx.blocks@[self.id as int].parent->0).id as int].blocks@[k + 1] == b,
                None => ctx.blocks@[self.id as int].parent is None || ctx.regions@[(ctx.blocks@[
                    self.id as int].parent->0).id as int].blocks@.last() == *self,
            },
    {
        match ctx.blocks[self.id].parent {
            Some(region) => {
                let k = find_in_region(ctx, region, *self);
                let n = ctx.regions[region.id].blocks.len();
                if k + 1 < n {
                    let next = ctx.regions[region.id].blocks[k + 1];
                    Some(next)
                } else {
                    proof {
                        assert(ctx.regions@[region.id as int].blocks@.last() == *self);
                    }
                    None
                }
            },
            None => None,
        }
    }
}


/// Finds the position of an attached block in its region's list.
pub fn find_in_region(ctx: &Context, region: RegionRef, reference: BlockRef) -> (k: usize)
    requires
        ctx.wf(),
        region.valid(ctx),
        reference.valid(ctx),
        ctx.blocks@[reference.id as int].parent == Some(region),
    ensures
        k < ctx.regions@[region.id as int].blocks@.len(),
        ctx.regions@[region.id as int].blocks@[k as int] == reference,
{
    proof {
        assert(ctx.regions@[region.id as int].blocks@.contains(reference));
    }
    let n = ctx.regions[region.id].blocks.len();
    let mut k: usize = 0;
    while k < n
        invariant
            ctx.wf(),
            region.id < ctx.regions@.len(),
            n == ctx.regions@[region.id as int].blocks@.len(),
            k <= n,
            ctx.regions@[region.id as int].blocks@.contains(reference),
            forall|j: int| 0 <= j < k ==> ctx.regions@[region.id as int].blocks@[j] != reference,
        ensures
            k < n,
            ctx.regions@[region.id as int].blocks@[k as int] == reference,
        decreases n - k,
    {
        if ctx.regions[region.id].blocks[k].id == reference.id {
            break;
        }
        proof {
            if k as int == n - 1 {
                let w = choose|w: int|
                    0 <= w < ctx.regions@[region.id as int].blocks@.len() && ctx.regions@[region.id
                        as int].blocks@[w] == reference;
                assert(false);
            }
        }
        k = k + 1;
    }
    k
}

/// Finds the position of an attached operation in its block's list.
pub fn find_in_block(ctx: &Context, block: BlockRef, reference: OperationRef) -> (k: usize)
    requires
        ctx.wf(),
        block.valid(ctx),
        reference.valid(ctx),
        ctx.ops@[reference.id as int].parent == Some(block),
    ensures
        k < ctx.blocks@[block.id as int].ops@.len(),
        ctx.blocks@[block.id as int].ops@[k as int] == reference,
{
    proof {
        assert(ctx.blocks@[block.id as int].ops@.contains(reference));
    }
    let n = ctx.blocks[block.id].ops.len();
    let mut k: usize = 0;
    while k < n
        invariant
            ctx.wf(),
            block.id < ctx.blocks@.len(),
            n == ctx.blocks@[block.id as int].ops@.len(),
            k <= n,
            ctx.blocks@[block.id as int].ops@.contains(reference),
            forall|j: int| 0 <= j < k ==> ctx.blocks@[block.id as int].ops@[j] != reference,
        ensures
            k < n,
            ctx.blocks@[block.id as int].ops@[k as int] == reference,
        decreases n - k,
    {
        if ctx.blocks[block.id].ops[k].id == reference.id {
            break;
        }
        proof {
            if k as int == n - 1 {
                let w = choose|w: int|
                    0 <= w < ctx.blocks@[block.id as int].ops@.len() && ctx.blocks@[block.id
                        as int].ops@[w] == reference;
                assert(false);
            }
        }
        k = k + 1;
    }
    k
}

/// Inserts a standalone operation at position `at` of a block's list,
/// transferring ownership of the operation to the block.
pub fn insert_operation_at(ctx: &mut Context, block: BlockRef, at: usize,
    operation: OperationRef)
    requires
        old(ctx).wf(),
        block.valid(old(ctx)),
        operation.valid(old(ctx)),
        at <= old(ctx).blocks@[block.id as int].ops@.len(),
        old(ctx).ops@[operation.id as int].parent is None,
    ensures
        final(ctx).wf(),
        final(ctx).same_interned(old(ctx)),
        final(ctx).regions@ == old(ctx).regions@,
        final(ctx).blocks@.len() == old(ctx).blocks@.len(),
        forall|j: int|
            0 <= j < old(ctx).blocks@.len() && j != block.id ==> final(ctx).blocks@[j] == old(
                ctx,
            ).blocks@[j],
        final(ctx).ops@.len() == old(ctx).ops@.len(),
        forall|j: int|
            0 <= j < old(ctx).ops@.len() && j != operation.id ==> final(ctx).ops@[j] == old(
                ctx,
            ).ops@[j],
        final(ctx).ops@[operation.id as int] == (OpData {
            parent: Some(block),
            ..old(ctx).ops@[operation.id as int]
        }),
        final(ctx).blocks@[block.id as int].ops@ == old(ctx).blocks@[block.id
            as int].ops@.insert(at as int, operation),
        final(ctx).blocks@[block.id as int].parent == old(ctx).blocks@[block.id as int].parent,
        final(ctx).blocks@[block.id as int].arg_types@ == old(ctx).blocks@[block.id
            as int].arg_types@,
        final(ctx).blocks@[block.id as int].arg_locs@ == old(ctx).blocks@[block.id
            as int].arg_locs@,
{
    ctx.ops[operation.id].parent = Some(block);
    let ghost c0 = *old(ctx);
    ctx.blocks[block.id].ops.insert(at, operation);
    proof {
        let c1 = ctx;
        let oldlist = c0.blocks@[block.id as int].ops@;
        let newlist = c1.blocks@[block.id as int].ops@;
        assert(newlist == oldlist.insert(at as int, operation));
        assert forall|j: int, m: int|
            0 <= j < m < newlist.len() implies newlist[j] != newlist[m] by {
            let jo: int = if j < at as int {
                j
            } else {
                j - 1
            };
            let mo: int = if m < at as int {
                m
            } else {
                m - 1
            };
            if j != at as int && m != at as int {
                assert(newlist[j] == oldlist[jo]);
                assert(newlist[m] == oldlist[mo]);
            } else if j == at as int {
                assert(newlist[j] == operation);
                assert(newlist[m] == oldlist[mo]);
                if oldlist[mo] == operation {
                    assert(c0.ops@[operation.id as int].parent == Some(block));
                }
            } else {
                assert(newlist[m] == operation);
                assert(newlist[j] == oldlist[jo]);
                if oldlist[jo] == operation {
                    assert(c0.ops@[operation.id as int].parent == Some(block));
                }
            }
        }
        assert forall|b: int, jj: int|
            0 <= b < c1.blocks@.len() && 0 <= jj < c1.blocks@[b].ops@.len() implies {
            let o = #[trigger] c1.blocks@[b].ops@[jj];
            &&& o.id < c1.ops@.len()
            &&& c1.ops@[o.id as int].parent is Some
            &&& (c1.ops@[o.id as int].parent->0).id as int == b
        } by {
            if b == block.id as int {
                if jj != at as int {
                    let jo: int = if jj < at as int {
                        jj
                    } else {
                        jj - 1
                    };
                    assert(c1.blocks@[b].ops@[jj] == oldlist[jo]);
                    if oldlist[jo] == operation {
                        assert(c0.ops@[operation.id as int].parent is Some);
                    }
                }
            } else {
                if c1.blocks@[b].ops@[jj] == operation {
                    assert(c0.ops@[operation.id as int].parent is Some);
                }
            }
        }
        assert forall|o: usize|
            o < c1.ops@.len() && (#[trigger] c1.ops@[o as int]).parent is Some implies {
            let bb = c1.ops@[o as int].parent->0;
            bb.id < c1.blocks@.len() && c1.blocks@[bb.id as int].ops@.contains(
                OperationRef { id: o },
            )
        } by {
            if o == operation.id {
                assert(newlist[at as int] == operation);
            } else {
                let bb = c1.ops@[o as int].parent->0;
                assert(c0.blocks@[bb.id as int].ops@.contains(OperationRef { id: o }));
                let w = choose|w: int|
                    0 <= w < c0.blocks@[bb.id as int].ops@.len() && c0.blocks@[bb.id
                        as int].ops@[w] == (OperationRef { id: o });
                if bb.id as int == block.id as int {
                    if w < at as int {
                        assert(newlist[w] == oldlist[w]);
                    } else {
                        assert(newlist[w + 1] == oldlist[w]);
                    }
                } else {
                    assert(c1.blocks@[bb.id as int].ops@[w] == (OperationRef { id: o }));
                }
            }
        }
        assert forall|o: int| 0 <= o < c1.ops@.len() implies c1.op_entry_wf(
            #[trigger] c1.ops@[o],
        ) by {
            assert(c0.op_entry_wf(c0.ops@[o]));
            assert forall|kk: int|
                0 <= kk < c1.ops@[o].operands@.len() implies (
            #[trigger] c1.ops@[o].operands@[kk]).valid(c1) by {
                assert(c0.ops@[o].operands@[kk].valid(&c0));
            }
        }
    }
}

} // verus!
