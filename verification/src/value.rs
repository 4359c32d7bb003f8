//! Values: the producer-side identity of data flowing between operations,
//! either an operation result or a block argument.  Values are views into
//! the tree, never created or destroyed directly.

use vstd::prelude::*;
use crate::block::BlockRef;
use crate::context::Context;
use crate::operation::OpData;
use crate::operation::OperationRef;
use crate::opoperand::OpOperandRef;
use crate::types::TypeRef;

verus! {

/// A reference to a value: a result position of an operation or an
/// argument position of a block.
#[derive(Clone, Copy, Debug, PartialEq, Eq, Structural)]
pub enum ValueRef {
    /// The `index`-th result of `op`.
    Result { op: OperationRef, index: usize },
    /// The `index`-th argument of `block`.
    Argument { block: BlockRef, index: usize },
}

impl ValueRef {
    /// Whether this value names an existing result or argument position
    /// in `ctx`.
    pub open spec fn valid(&self, ctx: &Context) -> bool {
        match *self {
            ValueRef::Result { op, index } => op.valid(ctx) && index
                < ctx.ops@[op.id as int].result_types@.len(),
            ValueRef::Argument { block, index } => block.valid(ctx) && index
                < ctx.blocks@[block.id as int].arg_types@.len(),
        }
    }
}


/// The type of a value: the stated result type or block argument type.
pub open spec fn spec_value_type(ctx: &Context, v: ValueRef) -> TypeRef {
    match v {
        ValueRef::Result { op, index } => ctx.ops@[op.id as int].result_types@[index as int],
        ValueRef::Argument { block, index } => ctx.blocks@[block.id as int].arg_types@[index
            as int],
    }
}

/// Scans the operand positions of operation `o` strictly below `k`,
/// highest position first, for a use of `v`.
pub open spec fn scan_operands_pos(ctx: &Context, v: ValueRef, o: int, k: int) -> Option<
    (int, int),
>
    decreases k,
{
    if k <= 0 {
        None
    } else if 0 <= o < ctx.ops@.len() && k <= ctx.ops@[o].operands@.len() && ctx.ops@[o].operands@[
    k - 1] == v {
        Some((o, k - 1))
    } else {
        scan_operands_pos(ctx, v, o, k - 1)
    }
}

/// Scans the operations strictly below `o`, newest first, for a use of
/// `v`; within one operation, higher operand positions come first.
pub open spec fn scan_ops_pos(ctx: &Context, v: ValueRef, o: int) -> Option<(int, int)>
    decreases o,
{
    if o <= 0 {
        None
    } else {
        let from_op = if o - 1 < ctx.ops@.len() {
            scan_operands_pos(ctx, v, o - 1, ctx.ops@[o - 1].operands@.len() as int)
        } else {
            None
        };
        match from_op {
            Some(u) => Some(u),
            None => scan_ops_pos(ctx, v, o - 1),
        }
    }
}

/// The first use of `v`: the most recently added operand position that
/// references it.
pub open spec fn spec_first_use_pos(ctx: &Context, v: ValueRef) -> Option<(int, int)> {
    scan_ops_pos(ctx, v, ctx.ops@.len() as int)
}

/// Whether `r` names exactly the position `pos`.
pub open spec fn use_matches(r: Option<OpOperandRef>, pos: Option<(int, int)>) -> bool {
    match r {
        Some(u) => pos matches Some(p) && u.owner.id as int == p.0 && u.index as int == p.1,
        None => pos is None,
    }
}

impl ValueRef {
    /// Returns the type of the value.
    pub fn get_type(&self, ctx: &Context) -> (r: TypeRef)
        requires
            ctx.wf(),
            self.valid(ctx),
        ensures
            r == spec_value_type(ctx, *self),
            r.id < ctx.types@.len(),
    {
        match *self {
            ValueRef::Result { op, index } => {
                proof {
                    assert(ctx.op_entry_wf(ctx.ops@[op.id as int]));
                }
                ctx.ops[op.id].result_types[index]
            },
            ValueRef::Argument { block, index } => ctx.blocks[block.id].arg_types[index],
        }
    }

    /// Sets the type of the value in place.
    pub fn set_type(&self, ctx: &mut Context, ty: TypeRef)
        requires
            old(ctx).wf(),
            self.valid(old(ctx)),
            ty.id < old(ctx).types@.len(),
        ensures
            final(ctx).wf(),
            final(ctx).same_interned(old(ctx)),
            final(ctx).regions@ == old(ctx).regions@,
            spec_value_type(final(ctx), *self) == ty,
            match *self {
                ValueRef::Result { op, index } => {
                    &&& final(ctx).blocks@ == old(ctx).blocks@
                    &&& final(ctx).ops@.len() == old(ctx).ops@.len()
                    &&& forall|j: int|
                        0 <= j < old(ctx).ops@.len() && j != op.id ==> final(ctx).ops@[j] == old(
                            ctx,
                        ).ops@[j]
                    &&& final(ctx).ops@[op.id as int] == (OpData {
                        result_types: final(ctx).ops@[op.id as int].result_types,
                        ..old(ctx).ops@[op.id as int]
                    })
                    &&& final(ctx).ops@[op.id as int].result_types@ == old(ctx).ops@[op.id
                        as int].result_types@.update(index as int, ty)
                },
                ValueRef::Argument { block, index } => {
                    &&& final(ctx).ops@ == old(ctx).ops@
                    &&& final(ctx).blocks@.len() == old(ctx).blocks@.len()
                    &&& forall|j: int|
                        0 <= j < old(ctx).blocks@.len() && j != block.id ==> final(ctx).blocks@[j]
                            == old(ctx).blocks@[j]
                    &&& final(ctx).blocks@[block.id as int] == (crate::block::BlockData {
                        arg_types: final(ctx).blocks@[block.id as int].arg_types,
                        ..old(ctx).blocks@[block.id as int]
                    })
                    &&& final(ctx).blocks@[block.id as int].arg_types@ == old(ctx).blocks@[block.id
                        as int].arg_types@.update(index as int, ty)
                },
            },
    {
        match *self {
            ValueRef::Result { op, index } => {
                ctx.ops[op.id].result_types[index] = ty;
                proof {
                    let c0 = old(ctx);
                    let c1 = ctx;
                    assert forall|o: int| 0 <= o < c1.ops@.len() implies c1.op_entry_wf(
                        #[trigger] c1.ops@[o],
                    ) by {
                        assert(c0.op_entry_wf(c0.ops@[o]));
                        assert forall|k: int|
                            0 <= k < c1.ops@[o].operands@.len() implies (
                        #[trigger] c1.ops@[o].operands@[k]).valid(c1) by {
                            assert(c0.ops@[o].operands@[k].valid(c0));
                        }
                        assert forall|k: int|
                            0 <= k < c1.ops@[o].result_types@.len() implies (
                        #[trigger] c1.ops@[o].result_types@[k]).id < c1.types@.len() by {
                            if !(o == op.id as int && k == index as int) {
                                assert(c0.ops@[o].result_types@[k].id < c0.types@.len());
                            }
                        }
                    }
                    assert forall|o: usize|
                        o < c1.ops@.len() && (#[trigger] c1.ops@[o as int]).parent is Some
                        implies {
                        let b = c1.ops@[o as int].parent->0;
                        b.id < c1.blocks@.len() && c1.blocks@[b.id as int].ops@.contains(
                            OperationRef { id: o },
                        )
                    } by {
                        assert(c0.ops@[o as int].parent == c1.ops@[o as int].parent);
                    }
                }
            },
            ValueRef::Argument { block, index } => {
                ctx.blocks[block.id].arg_types[index] = ty;
                proof {
                    let c0 = old(ctx);
                    let c1 = ctx;
                    assert forall|o: int| 0 <= o < c1.ops@.len() implies c1.op_entry_wf(
                        #[trigger] c1.ops@[o],
                    ) by {
                        assert(c0.op_entry_wf(c0.ops@[o]));
                        assert forall|k: int|
                            0 <= k < c1.ops@[o].operands@.len() implies (
                        #[trigger] c1.ops@[o].operands@[k]).valid(c1) by {
                            assert(c0.ops@[o].operands@[k].valid(c0));
                        }
                    }
                    assert forall|bb: usize|
                        bb < c1.blocks@.len() && (#[trigger] c1.blocks@[bb as int]).parent is Some
                        implies {
                        let r = c1.blocks@[bb as int].parent->0;
                        r.id < c1.regions@.len() && c1.regions@[r.id as int].blocks@.contains(
                            BlockRef { id: bb },
                        )
                    } by {
                        assert(c0.blocks@[bb as int].parent == c1.blocks@[bb as int].parent);
                    }
                }
            },
        }
    }

    /// Returns whether the value is a block argument.
    pub fn is_block_argument(&self) -> (r: bool)
        ensures
            r == (*self is Argument),
    {
        match *self {
            ValueRef::Argument { .. } => true,
            _ => false,
        }
    }

    /// Returns whether the value is an operation result.
    pub fn is_op_result(&self) -> (r: bool)
        ensures
            r == (*self is Result),
    {
        match *self {
            ValueRef::Result { .. } => true,
            _ => false,
        }
    }

    /// Finds the first use of the value: the most recently added operand
    /// position referencing it, since uses behave as a stack.  Absence
    /// when the value is unused.
    pub fn get_first_use(&self, ctx: &Context) -> (r: Option<OpOperandRef>)
        requires
            ctx.wf(),
            self.valid(ctx),
        ensures
            use_matches(r, spec_first_use_pos(ctx, *self)),
            match r {
                Some(u) => u.valid(ctx) && ctx.ops@[u.owner.id as int].operands@[u.index as int]
                    == *self,
                None => true,
            },
    {
        let n = ctx.ops.len();
        let mut o: usize = n;
        while o > 0
            invariant
                ctx.wf(),
                n == ctx.ops@.len(),
                o <= n,
                scan_ops_pos(ctx, *self, n as int) == scan_ops_pos(ctx, *self, o as int),
            ensures
                o == 0,
                scan_ops_pos(ctx, *self, n as int) == scan_ops_pos(ctx, *self, 0),
            decreases o,
        {
            let oo = o - 1;
            let nk = ctx.ops[oo].operands.len();
            let mut k: usize = nk;
            while k > 0
                invariant
                    ctx.wf(),
                    oo < ctx.ops@.len(),
                    nk == ctx.ops@[oo as int].operands@.len(),
                    k <= nk,
                    scan_operands_pos(ctx, *self, oo as int, nk as int) == scan_operands_pos(
                        ctx,
                        *self,
                        oo as int,
                        k as int,
                    ),
                ensures
                    oo < ctx.ops@.len(),
                    k <= nk,
                    k > 0 ==> ctx.ops@[oo as int].operands@[k - 1] == *self
                        && scan_operands_pos(ctx, *self, oo as int, nk as int) == Some(
                        (oo as int, k - 1),
                    ),
                    k == 0 ==> scan_operands_pos(ctx, *self, oo as int, nk as int) is None,
                decreases k,
            {
                if ctx.ops[oo].operands[k - 1] == *self {
                    break;
                }
                k = k - 1;
            }
            if k > 0 {
                proof {
                    assert(ctx.op_entry_wf(ctx.ops@[oo as int]));
                    assert(scan_ops_pos(ctx, *self, o as int) == Some((oo as int, k - 1)));
                }
                return Some(OpOperandRef { owner: OperationRef { id: oo }, index: k - 1 });
            }
            proof {
                assert(scan_ops_pos(ctx, *self, o as int) == scan_ops_pos(
                    ctx,
                    *self,
                    oo as int,
                ));
            }
            o = oo;
        }
        proof {
            assert(scan_ops_pos(ctx, *self, 0) is None);
        }
        None
    }

    /// Finds the first use of the value; a shorter spelling of
    /// [`Self::get_first_use`].
    pub fn first_use(&self, ctx: &Context) -> (r: Option<OpOperandRef>)
        requires
            ctx.wf(),
            self.valid(ctx),
        ensures
            use_matches(r, spec_first_use_pos(ctx, *self)),
    {
        self.get_first_use(ctx)
    }
}

} // verus!
