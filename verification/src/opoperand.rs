//! Use-def edges: one operand position of one operation, pointing at a
//! value.  The uses of a value form a chain ordered most recent first.

use vstd::prelude::*;
use crate::context::Context;
use crate::operation::OperationRef;
use crate::value::scan_operands_pos;
use crate::value::scan_ops_pos;
use crate::value::use_matches;
use crate::value::ValueRef;

verus! {

/// A reference to one edge in the use-def graph: the pair of a using
/// operation and an operand position on it.
#[derive(Clone, Copy, Debug, PartialEq, Eq, Structural)]
pub struct OpOperandRef {
    pub owner: OperationRef,
    pub index: usize,
}

impl OpOperandRef {
    /// Whether this edge names an existing operand position in `ctx`.
    pub open spec fn valid(&self, ctx: &Context) -> bool {
        self.owner.valid(ctx) && self.index < ctx.ops@[self.owner.id as int].operands@.len()
    }
}


/// The use of `v` following position `(o, k)` in the use chain.
pub open spec fn spec_next_use_pos(ctx: &Context, v: ValueRef, o: int, k: int) -> Option<
    (int, int),
> {
    match scan_operands_pos(ctx, v, o, k) {
        Some(u) => Some(u),
        None => scan_ops_pos(ctx, v, o),
    }
}

impl OpOperandRef {
    /// Returns the value this operand consumes.
    pub fn get_value(&self, ctx: &Context) -> (r: ValueRef)
        requires
            ctx.wf(),
            self.valid(ctx),
        ensures
            r == ctx.ops@[self.owner.id as int].operands@[self.index as int],
            r.valid(ctx),
    {
        proof {
            assert(ctx.op_entry_wf(ctx.ops@[self.owner.id as int]));
        }
        ctx.ops[self.owner.id].operands[self.index]
    }

    /// Returns the operation that owns the operand.
    pub fn get_owner(&self) -> (r: OperationRef)
        ensures
            r == self.owner,
    {
        self.owner
    }

    /// Returns the next use of the same value in the chain: the next
    /// older operand position referencing it.  Absence at the end of the
    /// chain.
    pub fn next_use(&self, ctx: &Context) -> (r: Option<OpOperandRef>)
        requires
            ctx.wf(),
            self.valid(ctx),
        ensures
            use_matches(
                r,
                spec_next_use_pos(
                    ctx,
                    ctx.ops@[self.owner.id as int].operands@[self.index as int],
                    self.owner.id as int,
                    self.index as int,
                ),
            ),
    {
        let v = self.get_value(ctx);
        let oo0 = self.owner.id;
        let mut k: usize = self.index;
        while k > 0
            invariant
                ctx.wf(),
                oo0 < ctx.ops@.len(),
                k <= ctx.ops@[oo0 as int].operands@.len(),
                scan_operands_pos(ctx, v, oo0 as int, self.index as int) == scan_operands_pos(
                    ctx,
                    v,
                    oo0 as int,
                    k as int,
                ),
            ensures
                oo0 < ctx.ops@.len(),
                k <= ctx.ops@[oo0 as int].operands@.len(),
                k > 0 ==> ctx.ops@[oo0 as int].operands@[k - 1] == v && scan_operands_pos(
                    ctx,
                    v,
                    oo0 as int,
                    self.index as int,
                ) == Some((oo0 as int, k - 1)),
                k == 0 ==> scan_operands_pos(ctx, v, oo0 as int, self.index as int) is None,
            decreases k,
        {
            if ctx.ops[oo0].operands[k - 1] == v {
                break;
            }
            k = k - 1;
        }
        if k > 0 {
            return Some(OpOperandRef { owner: OperationRef { id: oo0 }, index: k - 1 });
        }
        let mut o: usize = oo0;
        while o > 0
            invariant
                ctx.wf(),
                oo0 == self.owner.id,
                self.valid(ctx),
                v == ctx.ops@[self.owner.id as int].operands@[self.index as int],
                scan_operands_pos(ctx, v, oo0 as int, self.index as int) is None,
                o <= ctx.ops@.len(),
                scan_ops_pos(ctx, v, oo0 as int) == scan_ops_pos(ctx, v, o as int),
            ensures
                o == 0,
                scan_ops_pos(ctx, v, oo0 as int) == scan_ops_pos(ctx, v, 0),
            decreases o,
        {
            let oo = o - 1;
            let nk = ctx.ops[oo].operands.len();
            let mut kk: usize = nk;
            while kk > 0
                invariant
                    ctx.wf(),
                    oo < ctx.ops@.len(),
                    nk == ctx.ops@[oo as int].operands@.len(),
                    kk <= nk,
                    scan_operands_pos(ctx, v, oo as int, nk as int) == scan_operands_pos(
                        ctx,
                        v,
                        oo as int,
                        kk as int,
                    ),
                ensures
                    oo < ctx.ops@.len(),
                    kk <= nk,
                    kk > 0 ==> ctx.ops@[oo as int].operands@[kk - 1] == v && scan_operands_pos(
                        ctx,
                        v,
                        oo as int,
                        nk as int,
                    ) == Some((oo as int, kk - 1)),
                    kk == 0 ==> scan_operands_pos(ctx, v, oo as int, nk as int) is None,
                decreases kk,
            {
                if ctx.ops[oo].operands[kk - 1] == v {
                    break;
                }
                kk = kk - 1;
            }
            if kk > 0 {
                proof {
                    assert(scan_ops_pos(ctx, v, o as int) == Some((oo as int, kk - 1)));
                }
                return Some(OpOperandRef { owner: OperationRef { id: oo }, index: kk - 1 });
            }
            proof {
                assert(scan_ops_pos(ctx, v, o as int) == scan_ops_pos(ctx, v, oo as int));
            }
            o = oo;
        }
        proof {
            assert(scan_ops_pos(ctx, v, 0) is None);
        }
        None
    }
}

} // verus!
