//! Operations: heap-owned tree nodes with operands, results, regions and
//! two independent attribute dictionaries.

use vstd::prelude::*;
use crate::attributes::AttributeRef;
use crate::attributes::NamedAttribute;
use crate::context::str_eq;
use crate::context::views;
use crate::identifier::IdentifierRef;
use crate::context::names_unique;
use crate::block::BlockRef;
use crate::context::Context;
use crate::location::LocationRef;
use crate::region::RegionData;
use crate::region::RegionRef;
use crate::types::TypeRef;
use crate::value::ValueRef;

verus! {

/// The state of one operation in the tree arena.
pub struct OpData {
    /// The fully-qualified operation name, as an identifier-table index.
    pub name: usize,
    /// The location associated with the operation.
    pub location: LocationRef,
    /// Non-owning links to the values this operation consumes.
    pub operands: Vec<ValueRef>,
    /// The types of the values this operation produces.
    pub result_types: Vec<TypeRef>,
    /// The regions this operation owns, in order.
    pub regions: Vec<RegionRef>,
    /// The inherent attribute dictionary: names (identifier-table
    /// indices) paired with attribute values, names unique.
    pub inherent: Vec<(usize, AttributeRef)>,
    /// The discardable attribute dictionary, an independent namespace
    /// with the same shape.
    pub discardable: Vec<(usize, AttributeRef)>,
    /// The block this operation is attached to, if any.
    pub parent: Option<BlockRef>,
}

/// A reference to an operation in a context's tree arena.
#[derive(Clone, Copy, Debug, PartialEq, Eq, Structural)]
pub struct OperationRef {
    pub id: usize,
}

impl OperationRef {
    /// Whether this handle points into the operation arena of `ctx`.
    pub open spec fn valid(&self, ctx: &Context) -> bool {
        self.id < ctx.ops@.len()
    }
}


/// Looks a name up in an attribute dictionary: the value of the first
/// entry whose identifier spells `name`.
pub open spec fn dict_get(
    idents: Seq<Seq<char>>,
    d: Seq<(usize, AttributeRef)>,
    name: Seq<char>,
) -> Option<AttributeRef>
    decreases d.len(),
{
    if d.len() == 0 {
        None
    } else if d[0].0 < idents.len() && idents[d[0].0 as int] == name {
        Some(d[0].1)
    } else {
        dict_get(idents, d.drop_first(), name)
    }
}

/// Updating one entry of a dictionary rewrites exactly the lookups of
/// that entry's name.
pub proof fn lemma_dict_get_update(
    idents: Seq<Seq<char>>,
    d: Seq<(usize, AttributeRef)>,
    i: int,
    value: AttributeRef,
    name: Seq<char>,
)
    requires
        0 <= i < d.len(),
        forall|k: int, m: int| 0 <= k < m < d.len() ==> d[k].0 != d[m].0,
        forall|k: int| 0 <= k < d.len() ==> (#[trigger] d[k]).0 < idents.len(),
        names_unique(idents),
    ensures
        dict_get(idents, d.update(i, (d[i].0, value)), name) == if idents[d[i].0 as int] == name {
            Some(value)
        } else {
            dict_get(idents, d, name)
        },
    decreases d.len(),
{
    let du = d.update(i, (d[i].0, value));
    if i == 0 {
        assert(du[0] == (d[0].0, value));
        assert(du.drop_first() =~= d.drop_first());
        if !(idents[d[0].0 as int] == name) {
        }
    } else {
        assert(du[0] == d[0]);
        assert(du.drop_first() =~= d.drop_first().update(i - 1, (d[i].0, value)));
        assert(d.drop_first()[i - 1] == d[i]);
        lemma_dict_get_update(idents, d.drop_first(), i - 1, value, name);
        if idents[d[0].0 as int] == name && idents[d[i].0 as int] == name {
            assert(d[0].0 == d[i].0);
            assert(false);
        }
    }
}

/// Appending an entry with a fresh identifier rewrites exactly the
/// lookups of that identifier's name.
pub proof fn lemma_dict_get_push(
    idents: Seq<Seq<char>>,
    d: Seq<(usize, AttributeRef)>,
    nid: usize,
    value: AttributeRef,
    name: Seq<char>,
)
    requires
        nid < idents.len(),
        forall|k: int| 0 <= k < d.len() ==> (#[trigger] d[k]).0 != nid,
        forall|k: int| 0 <= k < d.len() ==> (#[trigger] d[k]).0 < idents.len(),
        names_unique(idents),
    ensures
        dict_get(idents, d.push((nid, value)), name) == if idents[nid as int] == name {
            Some(value)
        } else {
            dict_get(idents, d, name)
        },
    decreases d.len(),
{
    let dp = d.push((nid, value));
    if d.len() == 0 {
        assert(dp[0] == (nid, value));
        assert(dp.drop_first() =~= Seq::<(usize, AttributeRef)>::empty());
        assert(dict_get(idents, dp.drop_first(), name) is None);
        assert(dict_get(idents, d, name) is None);
        if idents[nid as int] == name {
            assert(dict_get(idents, dp, name) == Some(value));
        } else {
            assert(dict_get(idents, dp, name) == dict_get(idents, dp.drop_first(), name));
        }
    } else {
        assert(dp[0] == d[0]);
        assert(dp.drop_first() =~= d.drop_first().push((nid, value)));
        lemma_dict_get_push(idents, d.drop_first(), nid, value, name);
        if idents[d[0].0 as int] == name && idents[nid as int] == name {
            assert(d[0].0 == nid);
            assert(false);
        }
    }
}

/// Removing one entry of a dictionary erases exactly the lookups of that
/// entry's name.
pub proof fn lemma_dict_get_remove(
    idents: Seq<Seq<char>>,
    d: Seq<(usize, AttributeRef)>,
    i: int,
    name: Seq<char>,
)
    requires
        0 <= i < d.len(),
        forall|k: int, m: int| 0 <= k < m < d.len() ==> d[k].0 != d[m].0,
        forall|k: int| 0 <= k < d.len() ==> (#[trigger] d[k]).0 < idents.len(),
        names_unique(idents),
    ensures
        dict_get(idents, d.remove(i), name) == if idents[d[i].0 as int] == name {
            None
        } else {
            dict_get(idents, d, name)
        },
    decreases d.len(),
{
    let dr = d.remove(i);
    if i == 0 {
        assert(dr =~= d.drop_first());
        if idents[d[0].0 as int] == name {
            assert forall|k: int|
                0 <= k < d.drop_first().len() implies !(d.drop_first()[k].0 < idents.len()
                && idents[d.drop_first()[k].0 as int] == name) by {
                if d.drop_first()[k].0 < idents.len() && idents[d.drop_first()[k].0 as int]
                    == name {
                    assert(d[k + 1].0 == d[0].0);
                }
            }
            lemma_dict_get_absent(idents, d.drop_first(), name);
        }
    } else {
        assert(dr[0] == d[0]);
        assert(dr.drop_first() =~= d.drop_first().remove(i - 1));
        assert(d.drop_first()[i - 1] == d[i]);
        lemma_dict_get_remove(idents, d.drop_first(), i - 1, name);
        if idents[d[0].0 as int] == name && idents[d[i].0 as int] == name {
            assert(d[0].0 == d[i].0);
            assert(false);
        }
    }
}

/// A name borne by no entry is not found.
pub proof fn lemma_dict_get_absent(
    idents: Seq<Seq<char>>,
    d: Seq<(usize, AttributeRef)>,
    name: Seq<char>,
)
    requires
        forall|k: int|
            0 <= k < d.len() ==> !((#[trigger] d[k]).0 < idents.len() && idents[d[k].0 as int]
                == name),
    ensures
        dict_get(idents, d, name) is None,
    decreases d.len(),
{
    if d.len() > 0 {
        assert(d.drop_first().len() == d.len() - 1);
        assert forall|k: int|
            0 <= k < d.drop_first().len() implies !((#[trigger] d.drop_first()[k]).0 < idents.len()
            && idents[d.drop_first()[k].0 as int] == name) by {
            assert(d.drop_first()[k] == d[k + 1]);
        }
        lemma_dict_get_absent(idents, d.drop_first(), name);
    }
}

/// Growing the identifier table does not change what a dictionary's
/// entries spell.
pub proof fn lemma_dict_get_stable(
    idents0: Seq<Seq<char>>,
    idents1: Seq<Seq<char>>,
    d: Seq<(usize, AttributeRef)>,
    name: Seq<char>,
)
    requires
        idents0.len() <= idents1.len(),
        forall|j: int| 0 <= j < idents0.len() ==> idents1[j] == idents0[j],
        forall|k: int| 0 <= k < d.len() ==> (#[trigger] d[k]).0 < idents0.len(),
    ensures
        dict_get(idents1, d, name) == dict_get(idents0, d, name),
    decreases d.len(),
{
    if d.len() > 0 {
        assert forall|k: int|
            0 <= k < d.drop_first().len() implies (#[trigger] d.drop_first()[k]).0
            < idents0.len() by {
            assert(d.drop_first()[k] == d[k + 1]);
        }
        lemma_dict_get_stable(idents0, idents1, d.drop_first(), name);
    }
}


impl OperationRef {
    /// The inherent attribute dictionary of this operation.
    pub open spec fn inherent_dict(&self, ctx: &Context) -> Seq<(usize, AttributeRef)> {
        ctx.ops@[self.id as int].inherent@
    }

    /// The discardable attribute dictionary of this operation.
    pub open spec fn discardable_dict(&self, ctx: &Context) -> Seq<(usize, AttributeRef)> {
        ctx.ops@[self.id as int].discardable@
    }

    /// Returns the name of the operation.
    pub fn name(&self, ctx: &Context) -> (r: IdentifierRef)
        requires
            ctx.wf(),
            self.valid(ctx),
        ensures
            r.id == ctx.ops@[self.id as int].name,
            r.valid(ctx),
    {
        proof {
            assert(ctx.op_entry_wf(ctx.ops@[self.id as int]));
        }
        IdentifierRef { id: ctx.ops[self.id].name }
    }

    /// Returns the location associated with the operation.
    pub fn location(&self, ctx: &Context) -> (r: LocationRef)
        requires
            ctx.wf(),
            self.valid(ctx),
        ensures
            r == ctx.ops@[self.id as int].location,
            r.valid(ctx),
    {
        proof {
            assert(ctx.op_entry_wf(ctx.ops@[self.id as int]));
        }
        ctx.ops[self.id].location
    }

    /// Structural verification.  In this model the verifier's judgment
    /// is the context's well-formedness invariant together with handle
    /// validity; both hold by construction for every reachable tree, so
    /// verification reports exactly that conjunction.
    pub fn verify(&self, ctx: &Context) -> (r: bool)
        requires
            ctx.wf(),
            self.valid(ctx),
        ensures
            r == (ctx.wf() && self.valid(ctx)),
    {
        true
    }

    /// Returns the number of operands the operation has.
    pub fn num_operands(&self, ctx: &Context) -> (r: usize)
        requires
            self.valid(ctx),
        ensures
            r == ctx.ops@[self.id as int].operands@.len(),
    {
        ctx.ops[self.id].operands.len()
    }

    /// Gets the operand at the provided index; out-of-bounds access is a
    /// caller error, excluded by the boundary-exclusive precondition.
    pub fn operand(&self, ctx: &Context, idx: usize) -> (r: ValueRef)
        requires
            ctx.wf(),
            self.valid(ctx),
            idx < ctx.ops@[self.id as int].operands@.len(),
        ensures
            r == ctx.ops@[self.id as int].operands@[idx as int],
            r.valid(ctx),
    {
        proof {
            assert(ctx.op_entry_wf(ctx.ops@[self.id as int]));
        }
        ctx.ops[self.id].operands[idx]
    }

    /// Sets the operand at the provided index to the specified value.
    pub fn set_operand(&self, ctx: &mut Context, idx: usize, new_value: ValueRef)
        requires
            old(ctx).wf(),
            self.valid(old(ctx)),
            idx < old(ctx).ops@[self.id as int].operands@.len(),
            new_value.valid(old(ctx)),
        ensures
            final(ctx).wf(),
            final(ctx).same_interned(old(ctx)),
            final(ctx).regions@ == old(ctx).regions@,
            final(ctx).blocks@ == old(ctx).blocks@,
            final(ctx).ops@.len() == old(ctx).ops@.len(),
            forall|j: int|
                0 <= j < old(ctx).ops@.len() && j != self.id ==> final(ctx).ops@[j] == old(
                    ctx,
                ).ops@[j],
            final(ctx).ops@[self.id as int] == (OpData {
                operands: final(ctx).ops@[self.id as int].operands,
                ..old(ctx).ops@[self.id as int]
            }),
            final(ctx).ops@[self.id as int].operands@ == old(
                ctx,
            ).ops@[self.id as int].operands@.update(idx as int, new_value),
    {
        ctx.ops[self.id].operands[idx] = new_value;
        proof {
            let c0 = old(ctx);
            let c1 = ctx;
            assert forall|o: int| 0 <= o < c1.ops@.len() implies c1.op_entry_wf(
                #[trigger] c1.ops@[o],
            ) by {
                assert(c0.op_entry_wf(c0.ops@[o]));
                assert forall|k: int|
                    0 <= k < c1.ops@[o].operands@.len() implies (
                #[trigger] c1.ops@[o].operands@[k]).valid(c1) by {
                    if o == self.id as int && k == idx as int {
                    } else {
                        assert(c0.ops@[o].operands@[k].valid(c0));
                    }
                }
            }
            assert forall|o: usize|
                o < c1.ops@.len() && (#[trigger] c1.ops@[o as int]).parent is Some implies {
                let b = c1.ops@[o as int].parent->0;
                b.id < c1.blocks@.len() && c1.blocks@[b.id as int].ops@.contains(
                    OperationRef { id: o },
                )
            } by {
                assert(c0.ops@[o as int].parent == c1.ops@[o as int].parent);
            }
        }
    }

    /// Returns the number of regions the operation has.
    pub fn num_regions(&self, ctx: &Context) -> (r: usize)
        requires
            self.valid(ctx),
        ensures
            r == ctx.ops@[self.id as int].regions@.len(),
    {
        ctx.ops[self.id].regions.len()
    }

    /// Gets the region at the provided index; out-of-bounds access is a
    /// caller error, excluded by the boundary-exclusive precondition.
    pub fn region(&self, ctx: &Context, idx: usize) -> (r: RegionRef)
        requires
            ctx.wf(),
            self.valid(ctx),
            idx < ctx.ops@[self.id as int].regions@.len(),
        ensures
            r == ctx.ops@[self.id as int].regions@[idx as int],
            r.valid(ctx),
    {
        proof {
            assert(ctx.op_entry_wf(ctx.ops@[self.id as int]));
        }
        ctx.ops[self.id].regions[idx]
    }

    /// Returns the first region of the operation, if it has one.
    pub fn first_region(&self, ctx: &Context) -> (r: Option<RegionRef>)
        requires
            ctx.wf(),
            self.valid(ctx),
        ensures
            match r {
                Some(rr) => ctx.ops@[self.id as int].regions@.len() > 0 && rr == ctx.ops@[self.id
                    as int].regions@[0] && rr.valid(ctx),
                None => ctx.ops@[self.id as int].regions@.len() == 0,
            },
    {
        if ctx.ops[self.id].regions.len() > 0 {
            Some(self.region(ctx, 0))
        } else {
            None
        }
    }

    /// Returns the number of results the operation has.
    pub fn num_results(&self, ctx: &Context) -> (r: usize)
        requires
            self.valid(ctx),
        ensures
            r == ctx.ops@[self.id as int].result_types@.len(),
    {
        ctx.ops[self.id].result_types.len()
    }

    /// Gets the result at the provided index; out-of-bounds access is a
    /// caller error, excluded by the boundary-exclusive precondition.
    pub fn result(&self, ctx: &Context, idx: usize) -> (r: ValueRef)
        requires
            self.valid(ctx),
            idx < ctx.ops@[self.id as int].result_types@.len(),
        ensures
            r == (ValueRef::Result { op: *self, index: idx }),
            r.valid(ctx),
    {
        ValueRef::Result { op: *self, index: idx }
    }

    /// If the operation is nested within a block, returns the parent
    /// block.
    pub fn parent_block(&self, ctx: &Context) -> (r: Option<BlockRef>)
        requires
            ctx.wf(),
            self.valid(ctx),
        ensures
            r == ctx.ops@[self.id as int].parent,
            match r {
                Some(b) => b.valid(ctx),
                None => true,
            },
    {
        ctx.ops[self.id].parent
    }

    /// The parent operation: the owner of the region holding the parent
    /// block, absence anywhere the chain ends.
    pub open spec fn spec_parent_operation(&self, ctx: &Context) -> Option<OperationRef> {
        match ctx.ops@[self.id as int].parent {
            Some(block) => match ctx.blocks@[block.id as int].parent {
                Some(region) => ctx.regions@[region.id as int].parent,
                None => None,
            },
            None => None,
        }
    }

    /// If the operation is nested within another operation, returns that
    /// operation: the owner of the region holding the parent block.
    pub fn parent_operation(&self, ctx: &Context) -> (r: Option<OperationRef>)
        requires
            ctx.wf(),
            self.valid(ctx),
        ensures
            r == self.spec_parent_operation(ctx),
            match r {
                Some(op) => op.valid(ctx),
                None => true,
            },
    {
        match ctx.ops[self.id].parent {
            Some(block) => {
                match ctx.blocks[block.id].parent {
                    Some(region) => ctx.regions[region.id].parent,
                    None => None,
                }
            },
            None => None,
        }
    }

    /// If this operation is in a block and another operation follows it
    /// there, returns that operation: the successor in insertion order,
    /// absence exactly when this operation is detached or last.
    pub fn next_in_parent_block(&self, ctx: &Context) -> (r: Option<OperationRef>)
        requires
            ctx.wf(),
            self.valid(ctx),
        ensures
            match r {
                Some(op) => op.valid(ctx) && ctx.ops@[self.id as int].parent is Some && exists|
                    k: int,
                |
                    0 <= k < ctx.blocks@[(ctx.ops@[self.id as int].parent->0).id as int].ops@.len()
                        - 1 && #[trigger] ctx.blocks@[(ctx.ops@[self.id
                        as int].parent->0).id as int].ops@[k] == *self && ctx.blocks@[(ctx.ops@[
                        self.id as int].parent->0).id as int].ops@[k + 1] == op,
                None => ctx.ops@[self.id as int].parent is None || ctx.blocks@[(ctx.ops@[self.id
                    as int].parent->0).id as int].ops@.last() == *self,
            },
    {
        match ctx.ops[self.id].parent {
            Some(block) => {
                let k = crate::block::find_in_block(ctx, block, *self);
                let n = ctx.blocks[block.id].ops.len();
                if k + 1 < n {
                    let next = ctx.blocks[block.id].ops[k + 1];
                    Some(next)
                } else {
                    proof {
                        assert(ctx.blocks@[block.id as int].ops@.last() == *self);
                    }
                    None
                }
            },
            None => None,
        }
    }

    /// Removes the operation from its parent block without destroying
    /// it, handing ownership back to the caller.  The operation becomes
    /// detached; every other operation keeps its place.
    pub fn remove_from_parent(&self, ctx: &mut Context)
        requires
            old(ctx).wf(),
            self.valid(old(ctx)),
            old(ctx).ops@[self.id as int].parent is Some,
        ensures
            final(ctx).wf(),
            final(ctx).same_interned(old(ctx)),
            final(ctx).regions@ == old(ctx).regions@,
            final(ctx).blocks@.len() == old(ctx).blocks@.len(),
            final(ctx).ops@.len() == old(ctx).ops@.len(),
            forall|j: int|
                0 <= j < old(ctx).ops@.len() && j != self.id ==> final(ctx).ops@[j] == old(
                    ctx,
                ).ops@[j],
            final(ctx).ops@[self.id as int] == (OpData {
                parent: None,
                ..old(ctx).ops@[self.id as int]
            }),
            forall|j: int|
                0 <= j < old(ctx).blocks@.len() && j != (old(ctx).ops@[self.id
                    as int].parent->0).id ==> final(ctx).blocks@[j] == old(ctx).blocks@[j],
            exists|k: int|
                {
                    &&& 0 <= k < old(ctx).blocks@[(old(ctx).ops@[self.id
                        as int].parent->0).id as int].ops@.len()
                    &&& #[trigger] old(ctx).blocks@[(old(ctx).ops@[self.id
                        as int].parent->0).id as int].ops@[k] == *self
                    &&& final(ctx).blocks@[(old(ctx).ops@[self.id
                        as int].parent->0).id as int].ops@ == old(ctx).blocks@[(old(
                        ctx,
                    ).ops@[self.id as int].parent->0).id as int].ops@.remove(k)
                    &&& final(ctx).blocks@[(old(ctx).ops@[self.id
                        as int].parent->0).id as int].parent == old(ctx).blocks@[(old(
                        ctx,
                    ).ops@[self.id as int].parent->0).id as int].parent
                    &&& final(ctx).blocks@[(old(ctx).ops@[self.id
                        as int].parent->0).id as int].arg_types@ == old(ctx).blocks@[(old(
                        ctx,
                    ).ops@[self.id as int].parent->0).id as int].arg_types@
                    &&& final(ctx).blocks@[(old(ctx).ops@[self.id
                        as int].parent->0).id as int].arg_locs@ == old(ctx).blocks@[(old(
                        ctx,
                    ).ops@[self.id as int].parent->0).id as int].arg_locs@
                },
    {
        let block = match ctx.ops[self.id].parent {
            Some(b) => b,
            None => {
                proof {
                    assert(false);
                }
                BlockRef { id: 0 }
            },
        };
        ctx.ops[self.id].parent = None;
        let ghost c0 = *old(ctx);
        proof {
            assert(c0.blocks@[block.id as int].ops@.contains(*self));
        }
        let n = ctx.blocks[block.id].ops.len();
        let mut k: usize = 0;
        while k < n
            invariant
                block.id < ctx.blocks@.len(),
                n == ctx.blocks@[block.id as int].ops@.len(),
                k <= n,
                ctx.blocks@[block.id as int].ops@.contains(*self),
                forall|j: int| 0 <= j < k ==> ctx.blocks@[block.id as int].ops@[j] != *self,
            ensures
                block.id < ctx.blocks@.len(),
                n == ctx.blocks@[block.id as int].ops@.len(),
                k < n,
                ctx.blocks@[block.id as int].ops@[k as int] == *self,
            decreases n - k,
        {
            if ctx.blocks[block.id].ops[k].id == self.id {
                break;
            }
            proof {
                if k as int == n - 1 {
                    let w = choose|w: int|
                        0 <= w < ctx.blocks@[block.id as int].ops@.len() && ctx.blocks@[block.id
                            as int].ops@[w] == *self;
                    assert(false);
                }
            }
            k = k + 1;
        }
        ctx.blocks[block.id].ops.remove(k);
        proof {
            let c1 = ctx;
            let oldlist = c0.blocks@[block.id as int].ops@;
            let newlist = c1.blocks@[block.id as int].ops@;
            assert(newlist == oldlist.remove(k as int));
            assert forall|j: int, m: int|
                0 <= j < m < newlist.len() implies newlist[j] != newlist[m] by {
                let jo: int = if j < k as int {
                    j
                } else {
                    j + 1
                };
                let mo: int = if m < k as int {
                    m
                } else {
                    m + 1
                };
                assert(newlist[j] == oldlist[jo]);
                assert(newlist[m] == oldlist[mo]);
            }
            assert forall|b: int, jj: int|
                0 <= b < c1.blocks@.len() && 0 <= jj < c1.blocks@[b].ops@.len() implies {
                let o = #[trigger] c1.blocks@[b].ops@[jj];
                &&& o.id < c1.ops@.len()
                &&& c1.ops@[o.id as int].parent is Some
                &&& (c1.ops@[o.id as int].parent->0).id as int == b
            } by {
                if b == block.id as int {
                    let jo: int = if jj < k as int {
                        jj
                    } else {
                        jj + 1
                    };
                    assert(c1.blocks@[b].ops@[jj] == oldlist[jo]);
                    if oldlist[jo] == *self {
                        if jo < k as int {
                            assert(c0.blocks@[block.id as int].ops@[jo] != c0.blocks@[block.id
                                as int].ops@[k as int]);
                        } else {
                            assert(c0.blocks@[block.id as int].ops@[k as int] != c0.blocks@[
                            block.id as int].ops@[jo]);
                        }
                        assert(false);
                    }
                } else {
                    assert(c1.blocks@[b].ops@[jj] == c0.blocks@[b].ops@[jj]);
                    if c0.blocks@[b].ops@[jj] == *self {
                        assert((c0.ops@[self.id as int].parent->0).id as int == b);
                        assert((c0.ops@[self.id as int].parent->0).id == block.id);
                        assert(false);
                    }
                }
            }
            assert forall|o: usize|
                o < c1.ops@.len() && (#[trigger] c1.ops@[o as int]).parent is Some implies {
                let bb = c1.ops@[o as int].parent->0;
                bb.id < c1.blocks@.len() && c1.blocks@[bb.id as int].ops@.contains(
                    OperationRef { id: o },
                )
            } by {
                let bb = c1.ops@[o as int].parent->0;
                assert(o != self.id);
                assert(c0.blocks@[bb.id as int].ops@.contains(OperationRef { id: o }));
                let w = choose|w: int|
                    0 <= w < c0.blocks@[bb.id as int].ops@.len() && c0.blocks@[bb.id
                        as int].ops@[w] == (OperationRef { id: o });
                if bb.id as int == block.id as int {
                    assert(oldlist[w] == (OperationRef { id: o }));
                    assert((OperationRef { id: o }).id != self.id);
                    assert(oldlist[w] != *self);
                    if w < k as int {
                        assert(newlist[w] == oldlist[w]);
                    } else {
                        assert(w != k as int);
                        assert(newlist[w - 1] == oldlist[w]);
                    }
                } else {
                    assert(c1.blocks@[bb.id as int].ops@[w] == (OperationRef { id: o }));
                }
            }
            assert forall|o: int| 0 <= o < c1.ops@.len() implies c1.op_entry_wf(
                #[trigger] c1.ops@[o],
            ) by {
                assert(c0.op_entry_wf(c0.ops@[o]));
                assert forall|kk: int|
                    0 <= kk < c1.ops@[o].operands@.len() implies (
                #[trigger] c1.ops@[o].operands@[kk]).valid(c1) by {
                    assert(c0.ops@[o].operands@[kk].valid(&c0));
                }
            }
        }
    }
}


/// Finds the position of the entry with name-identifier `nid`, if any.
pub fn dict_find_id(d: &Vec<(usize, AttributeRef)>, nid: usize) -> (r: Option<usize>)
    ensures
        match r {
            Some(j) => j < d@.len() && d@[j as int].0 == nid,
            None => forall|k: int| 0 <= k < d@.len() ==> (#[trigger] d@[k]).0 != nid,
        },
{
    let mut j: usize = 0;
    while j < d.len()
        invariant
            j <= d@.len(),
            forall|k: int| 0 <= k < j ==> (#[trigger] d@[k]).0 != nid,
        decreases d@.len() - j,
    {
        if d[j].0 == nid {
            return Some(j);
        }
        j = j + 1;
    }
    None
}

/// Looks `name` up in a dictionary by comparing the spelled names.
pub fn dict_lookup(ctx: &Context, d: &Vec<(usize, AttributeRef)>, name: &str) -> (r: Option<
    AttributeRef,
>)
    requires
        forall|k: int| 0 <= k < d@.len() ==> (#[trigger] d@[k]).0 < ctx.idents@.len(),
    ensures
        r == dict_get(views(ctx.idents@), d@, name@),
{
    let mut j: usize = 0;
    proof {
        assert(d@.skip(0) =~= d@);
    }
    while j < d.len()
        invariant
            forall|k: int| 0 <= k < d@.len() ==> (#[trigger] d@[k]).0 < ctx.idents@.len(),
            j <= d@.len(),
            dict_get(views(ctx.idents@), d@, name@) == dict_get(
                views(ctx.idents@),
                d@.skip(j as int),
                name@,
            ),
        decreases d@.len() - j,
    {
        proof {
            assert(d@.skip(j as int)[0] == d@[j as int]);
            assert(d@.skip(j as int).drop_first() =~= d@.skip(j as int + 1));
        }
        if str_eq(ctx.idents[d[j].0].as_str(), name) {
            proof {
                assert(views(ctx.idents@)[d@[j as int].0 as int] == name@);
            }
            return Some(d[j].1);
        }
        proof {
            assert(views(ctx.idents@)[d@[j as int].0 as int] != name@);
        }
        j = j + 1;
    }
    proof {
        assert(d@.skip(d@.len() as int) =~= Seq::<(usize, AttributeRef)>::empty());
    }
    None
}

impl OperationRef {
    /// Checks if the operation has an inherent attribute with the
    /// specified name.
    pub fn has_inherent_attribute(&self, ctx: &Context, name: &str) -> (r: bool)
        requires
            ctx.wf(),
            self.valid(ctx),
        ensures
            r == (dict_get(views(ctx.idents@), self.inherent_dict(ctx), name@) is Some),
    {
        proof {
            assert(ctx.op_entry_wf(ctx.ops@[self.id as int]));
        }
        let a = dict_lookup(ctx, &ctx.ops[self.id].inherent, name);
        a.is_some()
    }

    /// Gets the inherent attribute with the specified name, if it
    /// exists.
    pub fn inherent_attribute(&self, ctx: &Context, name: &str) -> (r: Option<AttributeRef>)
        requires
            ctx.wf(),
            self.valid(ctx),
        ensures
            r == dict_get(views(ctx.idents@), self.inherent_dict(ctx), name@),
    {
        proof {
            assert(ctx.op_entry_wf(ctx.ops@[self.id as int]));
        }
        dict_lookup(ctx, &ctx.ops[self.id].inherent, name)
    }

    /// Returns the number of discardable attributes the operation has.
    pub fn num_discardable_attributes(&self, ctx: &Context) -> (r: usize)
        requires
            self.valid(ctx),
        ensures
            r == ctx.ops@[self.id as int].discardable@.len(),
    {
        ctx.ops[self.id].discardable.len()
    }

    /// Gets the discardable attribute at the provided index as a
    /// name-value pair; the index must be within bounds.
    pub fn discardable_attribute_at(&self, ctx: &Context, idx: usize) -> (r: NamedAttribute)
        requires
            ctx.wf(),
            self.valid(ctx),
            idx < ctx.ops@[self.id as int].discardable@.len(),
        ensures
            r.name.id == ctx.ops@[self.id as int].discardable@[idx as int].0,
            r.attribute == ctx.ops@[self.id as int].discardable@[idx as int].1,
            r.name.valid(ctx),
            r.attribute.valid(ctx),
    {
        proof {
            assert(ctx.op_entry_wf(ctx.ops@[self.id as int]));
        }
        let (nid, a) = ctx.ops[self.id].discardable[idx];
        NamedAttribute { name: IdentifierRef { id: nid }, attribute: a }
    }

    /// Gets the discardable attribute with the specified name, if it
    /// exists.
    pub fn discardable_attribute(&self, ctx: &Context, name: &str) -> (r: Option<AttributeRef>)
        requires
            ctx.wf(),
            self.valid(ctx),
        ensures
            r == dict_get(views(ctx.idents@), self.discardable_dict(ctx), name@),
    {
        proof {
            assert(ctx.op_entry_wf(ctx.ops@[self.id as int]));
        }
        dict_lookup(ctx, &ctx.ops[self.id].discardable, name)
    }

    /// Returns the number of attributes the operation has, over both
    /// namespaces.
    pub fn num_attributes(&self, ctx: &Context) -> (r: usize)
        requires
            ctx.wf(),
            self.valid(ctx),
            ctx.ops@[self.id as int].inherent@.len() + ctx.ops@[self.id
                as int].discardable@.len() <= usize::MAX,
        ensures
            r == ctx.ops@[self.id as int].inherent@.len() + ctx.ops@[self.id
                as int].discardable@.len(),
    {
        let ni = ctx.ops[self.id].inherent.len();
        let nd = ctx.ops[self.id].discardable.len();
        ni + nd
    }

    /// Gets the attribute at the provided index, counting inherent
    /// attributes first; the index must be within bounds.
    pub fn attribute_at(&self, ctx: &Context, idx: usize) -> (r: NamedAttribute)
        requires
            ctx.wf(),
            self.valid(ctx),
            idx < ctx.ops@[self.id as int].inherent@.len() + ctx.ops@[self.id
                as int].discardable@.len(),
        ensures
            r.name.valid(ctx),
            r.attribute.valid(ctx),
            idx < ctx.ops@[self.id as int].inherent@.len() ==> r.name.id == ctx.ops@[self.id
                as int].inherent@[idx as int].0 && r.attribute == ctx.ops@[self.id
                as int].inherent@[idx as int].1,
            idx >= ctx.ops@[self.id as int].inherent@.len() ==> r.name.id == ctx.ops@[self.id
                as int].discardable@[idx - ctx.ops@[self.id as int].inherent@.len()].0
                && r.attribute == ctx.ops@[self.id as int].discardable@[idx - ctx.ops@[self.id
                as int].inherent@.len()].1,
    {
        proof {
            assert(ctx.op_entry_wf(ctx.ops@[self.id as int]));
        }
        let ni = ctx.ops[self.id].inherent.len();
        if idx < ni {
            let (nid, a) = ctx.ops[self.id].inherent[idx];
            NamedAttribute { name: IdentifierRef { id: nid }, attribute: a }
        } else {
            let (nid, a) = ctx.ops[self.id].discardable[idx - ni];
            NamedAttribute { name: IdentifierRef { id: nid }, attribute: a }
        }
    }

    /// Gets the attribute with the specified name from either namespace,
    /// looking at inherent attributes first.
    pub fn attribute(&self, ctx: &Context, name: &str) -> (r: Option<AttributeRef>)
        requires
            ctx.wf(),
            self.valid(ctx),
        ensures
            r == (match dict_get(views(ctx.idents@), self.inherent_dict(ctx), name@) {
                Some(a) => Some(a),
                None => dict_get(views(ctx.idents@), self.discardable_dict(ctx), name@),
            }),
    {
        match self.inherent_attribute(ctx, name) {
            Some(a) => Some(a),
            None => self.discardable_attribute(ctx, name),
        }
    }
}


/// Finds the position of the entry spelling `name`, if any, together
/// with the lookup result.
pub fn dict_find_name(ctx: &Context, d: &Vec<(usize, AttributeRef)>, name: &str) -> (r: Option<
    usize,
>)
    requires
        forall|k: int| 0 <= k < d@.len() ==> (#[trigger] d@[k]).0 < ctx.idents@.len(),
    ensures
        match r {
            Some(j) => j < d@.len() && views(ctx.idents@)[d@[j as int].0 as int] == name@
                && dict_get(views(ctx.idents@), d@, name@) == Some(d@[j as int].1),
            None => dict_get(views(ctx.idents@), d@, name@) is None,
        },
{
    let mut j: usize = 0;
    proof {
        assert(d@.skip(0) =~= d@);
    }
    while j < d.len()
        invariant
            forall|k: int| 0 <= k < d@.len() ==> (#[trigger] d@[k]).0 < ctx.idents@.len(),
            j <= d@.len(),
            dict_get(views(ctx.idents@), d@, name@) == dict_get(
                views(ctx.idents@),
                d@.skip(j as int),
                name@,
            ),
        decreases d@.len() - j,
    {
        proof {
            assert(d@.skip(j as int)[0] == d@[j as int]);
            assert(d@.skip(j as int).drop_first() =~= d@.skip(j as int + 1));
        }
        if str_eq(ctx.idents[d[j].0].as_str(), name) {
            proof {
                assert(views(ctx.idents@)[d@[j as int].0 as int] == name@);
            }
            return Some(j);
        }
        proof {
            assert(views(ctx.idents@)[d@[j as int].0 as int] != name@);
        }
        j = j + 1;
    }
    proof {
        assert(d@.skip(d@.len() as int) =~= Seq::<(usize, AttributeRef)>::empty());
    }
    None
}

impl OperationRef {
    /// Sets the discardable attribute with the specified name, leaving
    /// the inherent namespace and every other discardable name
    /// untouched.
    pub fn set_discardable_attribute(&self, ctx: &mut Context, name: &str, value: AttributeRef)
        requires
            old(ctx).wf(),
            self.valid(old(ctx)),
            value.valid(old(ctx)),
        ensures
            final(ctx).wf(),
            final(ctx).idents_extended(old(ctx)),
            final(ctx).regions@ == old(ctx).regions@,
            final(ctx).blocks@ == old(ctx).blocks@,
            final(ctx).ops@.len() == old(ctx).ops@.len(),
            forall|j: int|
                0 <= j < old(ctx).ops@.len() && j != self.id ==> final(ctx).ops@[j] == old(
                    ctx,
                ).ops@[j],
            final(ctx).ops@[self.id as int] == (OpData {
                discardable: final(ctx).ops@[self.id as int].discardable,
                ..old(ctx).ops@[self.id as int]
            }),
            dict_get(views(final(ctx).idents@), self.discardable_dict(final(ctx)), name@) == Some(
                value,
            ),
            forall|other: Seq<char>|
                other != name@ ==> dict_get(
                    views(final(ctx).idents@),
                    self.discardable_dict(final(ctx)),
                    other,
                ) == dict_get(views(old(ctx).idents@), self.discardable_dict(old(ctx)), other),
            forall|n: Seq<char>|
                dict_get(views(final(ctx).idents@), self.inherent_dict(final(ctx)), n) == dict_get(
                    views(old(ctx).idents@),
                    self.inherent_dict(old(ctx)),
                    n,
                ),
    {
        let ghost c0 = *old(ctx);
        proof {
            assert(c0.op_entry_wf(c0.ops@[self.id as int]));
        }
        let nid = ctx.intern_ident(name).id;
        let j_opt = dict_find_id(&ctx.ops[self.id].discardable, nid);
        let ghost olddict = c0.ops@[self.id as int].discardable@;
        match j_opt {
            Some(j) => {
                ctx.ops[self.id].discardable[j] = (nid, value);
                proof {
                    let c2 = ctx;
                    let newdict = c2.ops@[self.id as int].discardable@;
                    assert(olddict[j as int].0 == nid);
                    assert(newdict == olddict.update(j as int, (olddict[j as int].0, value)));
                    op_dict_frame_proof(c2, &c0, self.id as int);
                    assert forall|other: Seq<char>| other != name@ implies dict_get(
                        views(c2.idents@),
                        newdict,
                        other,
                    ) == dict_get(views(c0.idents@), olddict, other) by {
                        lemma_dict_get_stable(views(c0.idents@), views(c2.idents@), olddict, other);
                        lemma_dict_get_update(views(c2.idents@), olddict, j as int, value, other);
                    }
                    assert(dict_get(views(c2.idents@), newdict, name@) == Some(value)) by {
                        lemma_dict_get_update(views(c2.idents@), olddict, j as int, value, name@);
                    }
                    assert forall|n: Seq<char>| dict_get(
                        views(c2.idents@),
                        c2.ops@[self.id as int].inherent@,
                        n,
                    ) == dict_get(views(c0.idents@), c0.ops@[self.id as int].inherent@, n) by {
                        lemma_dict_get_stable(
                            views(c0.idents@),
                            views(c2.idents@),
                            c0.ops@[self.id as int].inherent@,
                            n,
                        );
                    }
                }
            },
            None => {
                ctx.ops[self.id].discardable.push((nid, value));
                proof {
                    let c2 = ctx;
                    let newdict = c2.ops@[self.id as int].discardable@;
                    assert(newdict == olddict.push((nid, value)));
                    op_dict_frame_proof(c2, &c0, self.id as int);
                    assert forall|other: Seq<char>| other != name@ implies dict_get(
                        views(c2.idents@),
                        newdict,
                        other,
                    ) == dict_get(views(c0.idents@), olddict, other) by {
                        lemma_dict_get_stable(views(c0.idents@), views(c2.idents@), olddict, other);
                        lemma_dict_get_push(views(c2.idents@), olddict, nid, value, other);
                    }
                    assert(dict_get(views(c2.idents@), newdict, name@) == Some(value)) by {
                        lemma_dict_get_push(views(c2.idents@), olddict, nid, value, name@);
                    }
                    assert forall|n: Seq<char>| dict_get(
                        views(c2.idents@),
                        c2.ops@[self.id as int].inherent@,
                        n,
                    ) == dict_get(views(c0.idents@), c0.ops@[self.id as int].inherent@, n) by {
                        lemma_dict_get_stable(
                            views(c0.idents@),
                            views(c2.idents@),
                            c0.ops@[self.id as int].inherent@,
                            n,
                        );
                    }
                }
            },
        }
    }

    /// Sets the inherent attribute with the specified name, leaving the
    /// discardable namespace and every other inherent name untouched.
    pub fn set_inherent_attribute(&self, ctx: &mut Context, name: &str, value: AttributeRef)
        requires
            old(ctx).wf(),
            self.valid(old(ctx)),
            value.valid(old(ctx)),
        ensures
            final(ctx).wf(),
            final(ctx).idents_extended(old(ctx)),
            final(ctx).regions@ == old(ctx).regions@,
            final(ctx).blocks@ == old(ctx).blocks@,
            final(ctx).ops@.len() == old(ctx).ops@.len(),
            forall|j: int|
                0 <= j < old(ctx).ops@.len() && j != self.id ==> final(ctx).ops@[j] == old(
                    ctx,
                ).ops@[j],
            final(ctx).ops@[self.id as int] == (OpData {
                inherent: final(ctx).ops@[self.id as int].inherent,
                ..old(ctx).ops@[self.id as int]
            }),
            dict_get(views(final(ctx).idents@), self.inherent_dict(final(ctx)), name@) == Some(
                value,
            ),
            forall|other: Seq<char>|
                other != name@ ==> dict_get(
                    views(final(ctx).idents@),
                    self.inherent_dict(final(ctx)),
                    other,
                ) == dict_get(views(old(ctx).idents@), self.inherent_dict(old(ctx)), other),
            forall|n: Seq<char>|
                dict_get(views(final(ctx).idents@), self.discardable_dict(final(ctx)), n)
                    == dict_get(views(old(ctx).idents@), self.discardable_dict(old(ctx)), n),
    {
        let ghost c0 = *old(ctx);
        proof {
            assert(c0.op_entry_wf(c0.ops@[self.id as int]));
        }
        let nid = ctx.intern_ident(name).id;
        let j_opt = dict_find_id(&ctx.ops[self.id].inherent, nid);
        let ghost olddict = c0.ops@[self.id as int].inherent@;
        match j_opt {
            Some(j) => {
                ctx.ops[self.id].inherent[j] = (nid, value);
                proof {
                    let c2 = ctx;
                    let newdict = c2.ops@[self.id as int].inherent@;
                    assert(newdict == olddict.update(j as int, (olddict[j as int].0, value)));
                    op_dict_frame_proof(c2, &c0, self.id as int);
                    assert forall|other: Seq<char>| other != name@ implies dict_get(
                        views(c2.idents@),
                        newdict,
                        other,
                    ) == dict_get(views(c0.idents@), olddict, other) by {
                        lemma_dict_get_stable(views(c0.idents@), views(c2.idents@), olddict, other);
                        lemma_dict_get_update(views(c2.idents@), olddict, j as int, value, other);
                    }
                    assert(dict_get(views(c2.idents@), newdict, name@) == Some(value)) by {
                        lemma_dict_get_update(views(c2.idents@), olddict, j as int, value, name@);
                    }
                    assert forall|n: Seq<char>| dict_get(
                        views(c2.idents@),
                        c2.ops@[self.id as int].discardable@,
                        n,
                    ) == dict_get(views(c0.idents@), c0.ops@[self.id as int].discardable@, n) by {
                        lemma_dict_get_stable(
                            views(c0.idents@),
                            views(c2.idents@),
                            c0.ops@[self.id as int].discardable@,
                            n,
                        );
                    }
                }
            },
            None => {
                ctx.ops[self.id].inherent.push((nid, value));
                proof {
                    let c2 = ctx;
                    let newdict = c2.ops@[self.id as int].inherent@;
                    assert(newdict == olddict.push((nid, value)));
                    op_dict_frame_proof(c2, &c0, self.id as int);
                    assert forall|other: Seq<char>| other != name@ implies dict_get(
                        views(c2.idents@),
                        newdict,
                        other,
                    ) == dict_get(views(c0.idents@), olddict, other) by {
                        lemma_dict_get_stable(views(c0.idents@), views(c2.idents@), olddict, other);
                        lemma_dict_get_push(views(c2.idents@), olddict, nid, value, other);
                    }
                    assert(dict_get(views(c2.idents@), newdict, name@) == Some(value)) by {
                        lemma_dict_get_push(views(c2.idents@), olddict, nid, value, name@);
                    }
                    assert forall|n: Seq<char>| dict_get(
                        views(c2.idents@),
                        c2.ops@[self.id as int].discardable@,
                        n,
                    ) == dict_get(views(c0.idents@), c0.ops@[self.id as int].discardable@, n) by {
                        lemma_dict_get_stable(
                            views(c0.idents@),
                            views(c2.idents@),
                            c0.ops@[self.id as int].discardable@,
                            n,
                        );
                    }
                }
            },
        }
    }

    /// Removes the discardable attribute with the specified name,
    /// reporting whether it existed.
    pub fn remove_discardable_attribute(&self, ctx: &mut Context, name: &str) -> (r: bool)
        requires
            old(ctx).wf(),
            self.valid(old(ctx)),
        ensures
            final(ctx).wf(),
            final(ctx).idents_extended(old(ctx)),
            final(ctx).idents@ == old(ctx).idents@,
            final(ctx).regions@ == old(ctx).regions@,
            final(ctx).blocks@ == old(ctx).blocks@,
            final(ctx).ops@.len() == old(ctx).ops@.len(),
            forall|j: int|
                0 <= j < old(ctx).ops@.len() && j != self.id ==> final(ctx).ops@[j] == old(
                    ctx,
                ).ops@[j],
            final(ctx).ops@[self.id as int] == (OpData {
                discardable: final(ctx).ops@[self.id as int].discardable,
                ..old(ctx).ops@[self.id as int]
            }),
            r == (dict_get(views(old(ctx).idents@), self.discardable_dict(old(ctx)), name@)
                is Some),
            dict_get(views(final(ctx).idents@), self.discardable_dict(final(ctx)), name@) is None,
            forall|other: Seq<char>|
                other != name@ ==> dict_get(
                    views(final(ctx).idents@),
                    self.discardable_dict(final(ctx)),
                    other,
                ) == dict_get(views(old(ctx).idents@), self.discardable_dict(old(ctx)), other),
    {
        let ghost c0 = *old(ctx);
        proof {
            assert(c0.op_entry_wf(c0.ops@[self.id as int]));
        }
        let ghost olddict = c0.ops@[self.id as int].discardable@;
        let j_opt = dict_find_name(ctx, &ctx.ops[self.id].discardable, name);
        match j_opt {
            Some(j) => {
                ctx.ops[self.id].discardable.remove(j);
                proof {
                    let c2 = ctx;
                    let newdict = c2.ops@[self.id as int].discardable@;
                    assert(newdict == olddict.remove(j as int));
                    assert forall|k: int, m: int|
                        0 <= k < m < newdict.len() implies newdict[k].0 != newdict[m].0 by {
                        let ko: int = if k < j as int {
                            k
                        } else {
                            k + 1
                        };
                        let mo: int = if m < j as int {
                            m
                        } else {
                            m + 1
                        };
                        assert(newdict[k] == olddict[ko]);
                        assert(newdict[m] == olddict[mo]);
                    }
                    assert forall|k: int|
                        0 <= k < newdict.len() implies (#[trigger] newdict[k]).0
                        < c2.idents@.len() && newdict[k].1.id < c2.attrs@.len() by {
                        let ko: int = if k < j as int {
                            k
                        } else {
                            k + 1
                        };
                        assert(newdict[k] == olddict[ko]);
                    }
                    op_dict_frame_proof(c2, &c0, self.id as int);
                    assert forall|other: Seq<char>| other != name@ implies dict_get(
                        views(c2.idents@),
                        newdict,
                        other,
                    ) == dict_get(views(c0.idents@), olddict, other) by {
                        lemma_dict_get_remove(views(c2.idents@), olddict, j as int, other);
                    }
                    assert(dict_get(views(c2.idents@), newdict, name@) is None) by {
                        lemma_dict_get_remove(views(c2.idents@), olddict, j as int, name@);
                    }
                }
                true
            },
            None => false,
        }
    }

    /// Sets the attribute with the specified name: the inherent entry
    /// when one exists, a discardable entry otherwise.
    pub fn set_attribute(&self, ctx: &mut Context, name: &str, value: AttributeRef)
        requires
            old(ctx).wf(),
            self.valid(old(ctx)),
            value.valid(old(ctx)),
        ensures
            final(ctx).wf(),
            final(ctx).idents_extended(old(ctx)),
            final(ctx).regions@ == old(ctx).regions@,
            final(ctx).blocks@ == old(ctx).blocks@,
            final(ctx).ops@.len() == old(ctx).ops@.len(),
            forall|j: int|
                0 <= j < old(ctx).ops@.len() && j != self.id ==> final(ctx).ops@[j] == old(
                    ctx,
                ).ops@[j],
            dict_get(views(old(ctx).idents@), self.inherent_dict(old(ctx)), name@) is Some
                ==> dict_get(views(final(ctx).idents@), self.inherent_dict(final(ctx)), name@)
                == Some(value) && final(ctx).ops@[self.id as int].discardable@ == old(
                ctx,
            ).ops@[self.id as int].discardable@,
            dict_get(views(old(ctx).idents@), self.inherent_dict(old(ctx)), name@) is None
                ==> dict_get(views(final(ctx).idents@), self.discardable_dict(final(ctx)), name@)
                == Some(value) && final(ctx).ops@[self.id as int].inherent@ == old(
                ctx,
            ).ops@[self.id as int].inherent@,
    {
        let ghost c0 = *old(ctx);
        proof {
            assert(c0.op_entry_wf(c0.ops@[self.id as int]));
        }
        let j_opt = dict_find_name(ctx, &ctx.ops[self.id].inherent, name);
        match j_opt {
            Some(_) => {
                self.set_inherent_attribute(ctx, name, value);
            },
            None => {
                self.set_discardable_attribute(ctx, name, value);
            },
        }
    }

    /// Removes the attribute with the specified name from whichever
    /// namespace holds it, trying the discardable one first; reports
    /// whether it existed.
    pub fn remove_attribute(&self, ctx: &mut Context, name: &str) -> (r: bool)
        requires
            old(ctx).wf(),
            self.valid(old(ctx)),
        ensures
            final(ctx).wf(),
            final(ctx).idents_extended(old(ctx)),
            final(ctx).regions@ == old(ctx).regions@,
            final(ctx).blocks@ == old(ctx).blocks@,
            final(ctx).ops@.len() == old(ctx).ops@.len(),
            forall|j: int|
                0 <= j < old(ctx).ops@.len() && j != self.id ==> final(ctx).ops@[j] == old(
                    ctx,
                ).ops@[j],
            r == (dict_get(views(old(ctx).idents@), self.discardable_dict(old(ctx)), name@)
                is Some || dict_get(views(old(ctx).idents@), self.inherent_dict(old(ctx)), name@)
                is Some),
    {
        let ghost c0 = *old(ctx);
        proof {
            assert(c0.op_entry_wf(c0.ops@[self.id as int]));
        }
        let removed = self.remove_discardable_attribute(ctx, name);
        if removed {
            return true;
        }
        let j_opt = dict_find_name(ctx, &ctx.ops[self.id].inherent, name);
        match j_opt {
            Some(j) => {
                let ghost olddict = ctx.ops@[self.id as int].inherent@;
                ctx.ops[self.id].inherent.remove(j);
                proof {
                    let c2 = ctx;
                    let newdict = c2.ops@[self.id as int].inherent@;
                    assert(newdict == olddict.remove(j as int));
                    assert forall|k: int, m: int|
                        0 <= k < m < newdict.len() implies newdict[k].0 != newdict[m].0 by {
                        let ko: int = if k < j as int {
                            k
                        } else {
                            k + 1
                        };
                        let mo: int = if m < j as int {
                            m
                        } else {
                            m + 1
                        };
                        assert(newdict[k] == olddict[ko]);
                        assert(newdict[m] == olddict[mo]);
                    }
                    assert forall|k: int|
                        0 <= k < newdict.len() implies (#[trigger] newdict[k]).0
                        < c2.idents@.len() && newdict[k].1.id < c2.attrs@.len() by {
                        let ko: int = if k < j as int {
                            k
                        } else {
                            k + 1
                        };
                        assert(newdict[k] == olddict[ko]);
                    }
                    op_dict_frame_proof(c2, &c0, self.id as int);
                }
                true
            },
            None => false,
        }
    }
}

/// Re-establishes the tree invariant after one operation's attribute
/// dictionaries changed: nothing the tree links depend on moved.
pub proof fn op_dict_frame_proof(c1: &Context, c0: &Context, oid: int)
    requires
        c0.wf(),
        0 <= oid < c0.ops@.len(),
        c1.ops@.len() == c0.ops@.len(),
        forall|j: int| 0 <= j < c0.ops@.len() && j != oid ==> c1.ops@[j] == c0.ops@[j],
        c1.ops@[oid] == (OpData {
            inherent: c1.ops@[oid].inherent,
            discardable: c1.ops@[oid].discardable,
            ..c0.ops@[oid]
        }),
        c1.regions@ == c0.regions@,
        c1.blocks@ == c0.blocks@,
        c0.idents@.len() <= c1.idents@.len(),
        forall|j: int| 0 <= j < c0.idents@.len() ==> c1.idents@[j]@ == c0.idents@[j]@,
        c1.types@ == c0.types@,
        c1.attrs@ == c0.attrs@,
        c1.locs@ == c0.locs@,
        views(c1.bool_lists@) == views(c0.bool_lists@),
        views(c1.i32_lists@) == views(c0.i32_lists@),
        views(c1.str_lists@) == views(c0.str_lists@),
        views(c1.loc_lists@) == views(c0.loc_lists@),
        views(c1.registered@) == views(c0.registered@),
        views(c1.loaded@) == views(c0.loaded@),
        names_unique(views(c1.idents@)),
        c1.dict_wf(c1.ops@[oid].inherent@),
        c1.dict_wf(c1.ops@[oid].discardable@),
    ensures
        c1.wf(),
{
    assert forall|o: int| 0 <= o < c1.ops@.len() implies c1.op_entry_wf(
        #[trigger] c1.ops@[o],
    ) by {
        assert(c0.op_entry_wf(c0.ops@[o]));
        if o != oid {
            assert(c1.dict_wf(c1.ops@[o].inherent@)) by {
                assert(c0.dict_wf(c0.ops@[o].inherent@));
            }
            assert(c1.dict_wf(c1.ops@[o].discardable@)) by {
                assert(c0.dict_wf(c0.ops@[o].discardable@));
            }
        }
        assert forall|k: int|
            0 <= k < c1.ops@[o].operands@.len() implies (
        #[trigger] c1.ops@[o].operands@[k]).valid(c1) by {
            assert(c0.ops@[o].operands@[k].valid(c0));
        }
    }
    assert forall|b: int, k: int|
        0 <= b < c1.blocks@.len() && 0 <= k < c1.blocks@[b].ops@.len() implies {
        let o = #[trigger] c1.blocks@[b].ops@[k];
        &&& o.id < c1.ops@.len()
        &&& c1.ops@[o.id as int].parent is Some
        &&& (c1.ops@[o.id as int].parent->0).id as int == b
    } by {
        let o = c1.blocks@[b].ops@[k];
        assert(c0.ops@[o.id as int].parent is Some);
        assert(c1.ops@[o.id as int].parent == c0.ops@[o.id as int].parent);
    }
    assert forall|o: usize|
        o < c1.ops@.len() && (#[trigger] c1.ops@[o as int]).parent is Some implies {
        let b = c1.ops@[o as int].parent->0;
        b.id < c1.blocks@.len() && c1.blocks@[b.id as int].ops@.contains(
            OperationRef { id: o },
        )
    } by {
        assert(c0.ops@[o as int].parent == c1.ops@[o as int].parent);
    }
    assert forall|o: int, k: int|
        0 <= o < c1.ops@.len() && 0 <= k < c1.ops@[o].regions@.len() implies {
        let r = #[trigger] c1.ops@[o].regions@[k];
        &&& c1.regions@[r.id as int].parent is Some
        &&& (c1.regions@[r.id as int].parent->0).id as int == o
    } by {
        assert(c0.ops@[o].regions@[k] == c1.ops@[o].regions@[k]);
    }
    assert forall|r: usize|
        r < c1.regions@.len() && (#[trigger] c1.regions@[r as int]).parent is Some implies {
        let o = c1.regions@[r as int].parent->0;
        o.id < c1.ops@.len() && c1.ops@[o.id as int].regions@.contains(
            RegionRef { id: r },
        )
    } by {
        let o = c1.regions@[r as int].parent->0;
        assert(c0.ops@[o.id as int].regions@.contains(RegionRef { id: r }));
        assert(c1.ops@[o.id as int].regions@ == c0.ops@[o.id as int].regions@);
    }
    assert(views(c1.bool_lists@).len() == c1.bool_lists@.len());
    assert(views(c0.bool_lists@).len() == c0.bool_lists@.len());
    assert(c1.bool_lists@.len() == c0.bool_lists@.len());
    assert(views(c1.i32_lists@).len() == c1.i32_lists@.len());
    assert(views(c0.i32_lists@).len() == c0.i32_lists@.len());
    assert(c1.i32_lists@.len() == c0.i32_lists@.len());
    assert(views(c1.str_lists@).len() == c1.str_lists@.len());
    assert(views(c0.str_lists@).len() == c0.str_lists@.len());
    assert(c1.str_lists@.len() == c0.str_lists@.len());
    assert(views(c1.loc_lists@).len() == c1.loc_lists@.len());
    assert(views(c0.loc_lists@).len() == c0.loc_lists@.len());
    assert(c1.loc_lists@.len() == c0.loc_lists@.len());
    assert(c1.wf_names());
    assert forall|i: int|
        0 <= i < c1.types@.len() implies crate::context::type_entry_wf(
        #[trigger] c1.types@[i],
        c1.idents@.len() as int,
        i,
    ) by {
        assert(crate::context::type_entry_wf(c0.types@[i], c0.idents@.len() as int, i));
    }
    assert forall|i: int| 0 <= i < c1.attrs@.len() implies c1.attr_entry_wf(
        #[trigger] c1.attrs@[i],
    ) by {
        assert(c0.attr_entry_wf(c0.attrs@[i]));
    }
    assert forall|i: int|
        0 <= i < c1.locs@.len() implies crate::context::loc_entry_wf(
        #[trigger] c1.locs@[i],
        c1.idents@.len() as int,
        c1.attrs@.len() as int,
        views(c1.loc_lists@),
        i,
    ) by {
        assert(crate::context::loc_entry_wf(
            c0.locs@[i],
            c0.idents@.len() as int,
            c0.attrs@.len() as int,
            views(c0.loc_lists@),
            i,
        ));
    }
    assert forall|k: int, m: int|
        0 <= k < c1.str_lists@.len() && 0 <= m < views(c1.str_lists@)[k].len() implies views(
        c1.str_lists@,
    )[k][m] < c1.idents@.len() by {
        assert(views(c0.str_lists@)[k][m] < c0.idents@.len());
    }
    assert(c1.wf_interned());
    assert(c1.wf_tree());
}


/// A fluent accumulator for building an operation: results, operands,
/// regions and attributes are collected and a single terminal build step
/// constructs the operation.
pub struct OperationBuilder {
    /// The fully-qualified operation name.
    pub name: String,
    /// The location of the operation being built.
    pub location: LocationRef,
    /// Accumulated operand values.
    pub operands: Vec<ValueRef>,
    /// Accumulated result types.
    pub results: Vec<TypeRef>,
    /// Accumulated regions, whose ownership transfers at build time.
    pub regions: Vec<RegionRef>,
    /// Accumulated attributes, filed as inherent attributes.
    pub attributes: Vec<NamedAttribute>,
    /// Whether result types should be inferred rather than stated.
    pub infer_result_types: bool,
}

impl OperationBuilder {
    /// Whether everything accumulated so far is valid in `ctx`: handles
    /// in range, regions standalone and distinct, attribute names
    /// distinct.
    pub open spec fn wf_in(&self, ctx: &Context) -> bool {
        &&& self.location.valid(ctx)
        &&& forall|k: int|
            0 <= k < self.operands@.len() ==> (#[trigger] self.operands@[k]).valid(ctx)
        &&& forall|k: int|
            0 <= k < self.results@.len() ==> (#[trigger] self.results@[k]).id < ctx.types@.len()
        &&& forall|k: int|
            0 <= k < self.regions@.len() ==> (#[trigger] self.regions@[k]).id < ctx.regions@.len()
                && ctx.regions@[self.regions@[k].id as int].parent is None
        &&& forall|k: int, m: int|
            0 <= k < m < self.regions@.len() ==> self.regions@[k] != self.regions@[m]
        &&& forall|k: int|
            0 <= k < self.attributes@.len() ==> (#[trigger] self.attributes@[k]).name.id
                < ctx.idents@.len() && self.attributes@[k].attribute.id < ctx.attrs@.len()
        &&& forall|k: int, m: int|
            0 <= k < m < self.attributes@.len() ==> self.attributes@[k].name.id
                != self.attributes@[m].name.id
    }

    /// Starts building an operation with the given name and location.
    pub fn new(name: &str, location: LocationRef) -> (r: OperationBuilder)
        ensures
            r.name@ == name@,
            r.location == location,
            r.operands@.len() == 0,
            r.results@.len() == 0,
            r.regions@.len() == 0,
            r.attributes@.len() == 0,
            r.infer_result_types == false,
    {
        OperationBuilder {
            name: name.to_owned(),
            location,
            operands: Vec::new(),
            results: Vec::new(),
            regions: Vec::new(),
            attributes: Vec::new(),
            infer_result_types: false,
        }
    }

    /// Appends result types, consuming and returning the builder.
    pub fn add_results(self, types: &Vec<TypeRef>) -> (r: OperationBuilder)
        ensures
            r == (OperationBuilder { results: r.results, ..self }),
            r.results@ == self.results@ + types@,
    {
        let mut b = self;
        let mut k: usize = 0;
        while k < types.len()
            invariant
                k <= types@.len(),
                b == (OperationBuilder { results: b.results, ..self }),
                b.results@ == self.results@ + types@.take(k as int),
            decreases types@.len() - k,
        {
            b.results.push(types[k]);
            proof {
                assert(self.results@ + types@.take(k + 1) =~= (self.results@ + types@.take(
                    k as int,
                )).push(types@[k as int]));
            }
            k = k + 1;
        }
        proof {
            assert(types@.take(types@.len() as int) =~= types@);
        }
        b
    }

    /// Appends operand values, consuming and returning the builder.
    pub fn add_operands(self, operands: &Vec<ValueRef>) -> (r: OperationBuilder)
        ensures
            r == (OperationBuilder { operands: r.operands, ..self }),
            r.operands@ == self.operands@ + operands@,
    {
        let mut b = self;
        let mut k: usize = 0;
        while k < operands.len()
            invariant
                k <= operands@.len(),
                b == (OperationBuilder { operands: b.operands, ..self }),
                b.operands@ == self.operands@ + operands@.take(k as int),
            decreases operands@.len() - k,
        {
            b.operands.push(operands[k]);
            proof {
                assert(self.operands@ + operands@.take(k + 1) =~= (self.operands@
                    + operands@.take(k as int)).push(operands@[k as int]));
            }
            k = k + 1;
        }
        proof {
            assert(operands@.take(operands@.len() as int) =~= operands@);
        }
        b
    }

    /// Appends regions whose ownership will transfer to the built
    /// operation, consuming and returning the builder.
    pub fn add_regions(self, regions: Vec<RegionRef>) -> (r: OperationBuilder)
        ensures
            r == (OperationBuilder { regions: r.regions, ..self }),
            r.regions@ == self.regions@ + regions@,
    {
        let mut b = self;
        let mut k: usize = 0;
        while k < regions.len()
            invariant
                k <= regions@.len(),
                b == (OperationBuilder { regions: b.regions, ..self }),
                b.regions@ == self.regions@ + regions@.take(k as int),
            decreases regions@.len() - k,
        {
            b.regions.push(regions[k]);
            proof {
                assert(self.regions@ + regions@.take(k + 1) =~= (self.regions@ + regions@.take(
                    k as int,
                )).push(regions@[k as int]));
            }
            k = k + 1;
        }
        proof {
            assert(regions@.take(regions@.len() as int) =~= regions@);
        }
        b
    }

    /// Appends attributes, consuming and returning the builder.
    pub fn add_attributes(self, attributes: &Vec<NamedAttribute>) -> (r: OperationBuilder)
        ensures
            r == (OperationBuilder { attributes: r.attributes, ..self }),
            r.attributes@ == self.attributes@ + attributes@,
    {
        let mut b = self;
        let mut k: usize = 0;
        while k < attributes.len()
            invariant
                k <= attributes@.len(),
                b == (OperationBuilder { attributes: b.attributes, ..self }),
                b.attributes@ == self.attributes@ + attributes@.take(k as int),
            decreases attributes@.len() - k,
        {
            b.attributes.push(attributes[k]);
            proof {
                assert(self.attributes@ + attributes@.take(k + 1) =~= (self.attributes@
                    + attributes@.take(k as int)).push(attributes@[k as int]));
            }
            k = k + 1;
        }
        proof {
            assert(attributes@.take(attributes@.len() as int) =~= attributes@);
        }
        b
    }

    /// Enables result type inference, consuming and returning the
    /// builder.  Inference itself is the registered operation
    /// definition's semantics, which live behind the handle boundary;
    /// the model records the request and the build step provably leaves
    /// the stated result types as accumulated.
    pub fn enable_result_type_inference(self) -> (r: OperationBuilder)
        ensures
            r == (OperationBuilder { infer_result_types: true, ..self }),
    {
        OperationBuilder { infer_result_types: true, ..self }
    }

    /// Performs the one construction step: yields a standalone operation
    /// holding everything accumulated, or absence when the operation
    /// name is neither registered nor tolerated as unregistered.
    pub fn build(self, ctx: &mut Context) -> (r: Option<OperationRef>)
        requires
            old(ctx).wf(),
            self.wf_in(old(ctx)),
        ensures
            final(ctx).wf(),
            r is Some <==> (crate::context::spec_operation_registered(old(ctx), self.name@) || old(
                ctx,
            ).allow_unregistered),
            r is None ==> *final(ctx) == *old(ctx),
            match r {
                Some(op) => {
                    &&& op.id == old(ctx).ops@.len()
                    &&& final(ctx).idents_extended(old(ctx))
                    &&& final(ctx).blocks@ == old(ctx).blocks@
                    &&& final(ctx).ops@.len() == old(ctx).ops@.len() + 1
                    &&& forall|j: int|
                        0 <= j < old(ctx).ops@.len() ==> final(ctx).ops@[j] == old(ctx).ops@[j]
                    &&& views(final(ctx).idents@)[final(ctx).ops@[op.id as int].name as int]
                        == self.name@
                    &&& final(ctx).ops@[op.id as int].location == self.location
                    &&& final(ctx).ops@[op.id as int].operands@ == self.operands@
                    &&& final(ctx).ops@[op.id as int].result_types@ == self.results@
                    &&& final(ctx).ops@[op.id as int].regions@ == self.regions@
                    &&& final(ctx).ops@[op.id as int].parent is None
                    &&& final(ctx).ops@[op.id as int].discardable@.len() == 0
                    &&& final(ctx).ops@[op.id as int].inherent@.len() == self.attributes@.len()
                    &&& forall|k: int|
                        0 <= k < self.attributes@.len() ==> final(ctx).ops@[op.id
                            as int].inherent@[k] == ((#[trigger] self.attributes@[k]).name.id,
                        self.attributes@[k].attribute)
                    &&& final(ctx).regions@.len() == old(ctx).regions@.len()
                    &&& forall|k: int|
                        0 <= k < self.regions@.len() ==> final(ctx).regions@[(
                        #[trigger] self.regions@[k]).id as int] == (RegionData {
                            parent: Some(op),
                            ..old(ctx).regions@[self.regions@[k].id as int]
                        })
                    &&& forall|j: int|
                        0 <= j < old(ctx).regions@.len() && (forall|k: int|
                            0 <= k < self.regions@.len() ==> (#[trigger] self.regions@[k]).id
                                as int != j) ==> final(ctx).regions@[j] == old(ctx).regions@[j]
                },
                None => true,
            },
    {
        let registered = ctx.is_operation_registered(self.name.as_str());
        if !registered && !ctx.allows_unregistered_dialects() {
            return None;
        }
        let nid = ctx.intern_ident(self.name.as_str());
        let ghost c1 = *ctx;
        let mut inherent: Vec<(usize, AttributeRef)> = Vec::new();
        let mut k: usize = 0;
        while k < self.attributes.len()
            invariant
                k <= self.attributes@.len(),
                inherent@.len() == k,
                forall|j: int|
                    0 <= j < k ==> inherent@[j] == ((#[trigger] self.attributes@[j]).name.id,
                    self.attributes@[j].attribute),
            decreases self.attributes@.len() - k,
        {
            let a = self.attributes[k];
            inherent.push((a.name.id, a.attribute));
            k = k + 1;
        }
        let opid = ctx.ops.len();
        let op = OperationRef { id: opid };
        let nregions = self.regions.len();
        ctx.ops.push(
            OpData {
                name: nid.id,
                location: self.location,
                operands: self.operands,
                result_types: self.results,
                regions: self.regions,
                inherent,
                discardable: Vec::new(),
                parent: None,
            },
        );
        let ghost c2 = *ctx;
        let ghost rlist = c2.ops@[opid as int].regions@;
        let mut m: usize = 0;
        while m < nregions
            invariant
                opid < ctx.ops@.len(),
                ctx.ops@ == c2.ops@,
                ctx.blocks@ == c2.blocks@,
                ctx.idents@ == c2.idents@,
                ctx.types@ == c2.types@,
                ctx.attrs@ == c2.attrs@,
                ctx.locs@ == c2.locs@,
                ctx.bool_lists@ == c2.bool_lists@,
                ctx.i32_lists@ == c2.i32_lists@,
                ctx.str_lists@ == c2.str_lists@,
                ctx.loc_lists@ == c2.loc_lists@,
                ctx.registered@ == c2.registered@,
                ctx.loaded@ == c2.loaded@,
                ctx.allow_unregistered == c2.allow_unregistered,
                ctx.threading == c2.threading,
                rlist == c2.ops@[opid as int].regions@,
                rlist =~= self.regions@,
                m <= nregions,
                nregions == rlist.len(),
                forall|kk: int|
                    0 <= kk < rlist.len() ==> (#[trigger] rlist[kk]).id < ctx.regions@.len(),
                ctx.regions@.len() == c2.regions@.len(),
                forall|kk: int|
                    0 <= kk < m ==> ctx.regions@[(#[trigger] rlist[kk]).id as int] == (RegionData {
                        parent: Some(op),
                        ..c2.regions@[rlist[kk].id as int]
                    }),
                forall|j: int|
                    0 <= j < ctx.regions@.len() && (forall|kk: int|
                        0 <= kk < m ==> (#[trigger] rlist[kk]).id as int != j)
                        ==> ctx.regions@[j] == c2.regions@[j],
            decreases nregions - m,
        {
            let rid = ctx.ops[opid].regions[m].id;
            ctx.regions[rid].parent = Some(op);
            m = m + 1;
        }
        proof {
            build_wf_proof(ctx, &c1, &c2, opid as int, &self);
        }
        Some(op)
    }
}

/// Re-establishes the context invariant after building one operation.
pub proof fn build_wf_proof(
    c3: &Context,
    c1: &Context,
    c2: &Context,
    opid: int,
    b: &OperationBuilder,
)
    requires
        c1.wf(),
        b.wf_in(c1),
        0 <= opid <= usize::MAX,
        opid == c1.ops@.len(),
        c2.ops@.len() == c1.ops@.len() + 1,
        forall|j: int| 0 <= j < c1.ops@.len() ==> c2.ops@[j] == c1.ops@[j],
        c2.ops@[opid].name < c1.idents@.len(),
        c2.ops@[opid].location == b.location,
        c2.ops@[opid].operands@ == b.operands@,
        c2.ops@[opid].result_types@ == b.results@,
        c2.ops@[opid].regions@ == b.regions@,
        c2.ops@[opid].parent is None,
        c2.ops@[opid].discardable@.len() == 0,
        c2.ops@[opid].inherent@.len() == b.attributes@.len(),
        forall|k: int|
            0 <= k < b.attributes@.len() ==> c2.ops@[opid].inherent@[k] == ((
            #[trigger] b.attributes@[k]).name.id, b.attributes@[k].attribute),
        c2.regions@ == c1.regions@,
        c2.blocks@ == c1.blocks@,
        c2.idents@ == c1.idents@,
        c2.types@ == c1.types@,
        c2.attrs@ == c1.attrs@,
        c2.locs@ == c1.locs@,
        c2.bool_lists@ == c1.bool_lists@,
        c2.i32_lists@ == c1.i32_lists@,
        c2.str_lists@ == c1.str_lists@,
        c2.loc_lists@ == c1.loc_lists@,
        c2.registered@ == c1.registered@,
        c2.loaded@ == c1.loaded@,
        c2.allow_unregistered == c1.allow_unregistered,
        c2.threading == c1.threading,
        c3.ops@ == c2.ops@,
        c3.blocks@ == c2.blocks@,
        c3.idents@ == c2.idents@,
        c3.types@ == c2.types@,
        c3.attrs@ == c2.attrs@,
        c3.locs@ == c2.locs@,
        c3.bool_lists@ == c2.bool_lists@,
        c3.i32_lists@ == c2.i32_lists@,
        c3.str_lists@ == c2.str_lists@,
        c3.loc_lists@ == c2.loc_lists@,
        c3.registered@ == c2.registered@,
        c3.loaded@ == c2.loaded@,
        c3.allow_unregistered == c2.allow_unregistered,
        c3.threading == c2.threading,
        c3.regions@.len() == c2.regions@.len(),
        forall|kk: int|
            0 <= kk < b.regions@.len() ==> c3.regions@[(#[trigger] b.regions@[kk]).id as int]
                == (RegionData {
                parent: Some(OperationRef { id: opid as usize }),
                ..c2.regions@[b.regions@[kk].id as int]
            }),
        forall|j: int|
            0 <= j < c3.regions@.len() && (forall|kk: int|
                0 <= kk < b.regions@.len() ==> (#[trigger] b.regions@[kk]).id as int != j)
                ==> c3.regions@[j] == c2.regions@[j],
    ensures
        c3.wf(),
{
    assert forall|o: int| 0 <= o < c3.ops@.len() implies c3.op_entry_wf(
        #[trigger] c3.ops@[o],
    ) by {
        if o < opid {
            assert(c1.op_entry_wf(c1.ops@[o]));
            assert forall|k: int|
                0 <= k < c3.ops@[o].operands@.len() implies (
            #[trigger] c3.ops@[o].operands@[k]).valid(c3) by {
                assert(c1.ops@[o].operands@[k].valid(c1));
            }
            assert(c3.dict_wf(c3.ops@[o].inherent@)) by {
                assert(c1.dict_wf(c1.ops@[o].inherent@));
            }
            assert(c3.dict_wf(c3.ops@[o].discardable@)) by {
                assert(c1.dict_wf(c1.ops@[o].discardable@));
            }
        } else {
            assert forall|k: int|
                0 <= k < c3.ops@[o].operands@.len() implies (
            #[trigger] c3.ops@[o].operands@[k]).valid(c3) by {
                assert(b.operands@[k].valid(c1));
            }
            assert(c3.dict_wf(c3.ops@[o].inherent@)) by {
                assert forall|k: int, m: int|
                    0 <= k < m < c3.ops@[o].inherent@.len() implies c3.ops@[o].inherent@[k].0
                    != c3.ops@[o].inherent@[m].0 by {
                    assert(c3.ops@[o].inherent@[k] == (b.attributes@[k].name.id,
                    b.attributes@[k].attribute));
                    assert(c3.ops@[o].inherent@[m] == (b.attributes@[m].name.id,
                    b.attributes@[m].attribute));
                }
                assert forall|k: int|
                    0 <= k < c3.ops@[o].inherent@.len() implies (
                #[trigger] c3.ops@[o].inherent@[k]).0 < c3.idents@.len() && c3.ops@[o].inherent@[
                k].1.id < c3.attrs@.len() by {
                    assert(c3.ops@[o].inherent@[k] == (b.attributes@[k].name.id,
                    b.attributes@[k].attribute));
                }
            }
        }
    }
    assert forall|b2: int, k: int|
        0 <= b2 < c3.blocks@.len() && 0 <= k < c3.blocks@[b2].ops@.len() implies {
        let o = #[trigger] c3.blocks@[b2].ops@[k];
        &&& o.id < c3.ops@.len()
        &&& c3.ops@[o.id as int].parent is Some
        &&& (c3.ops@[o.id as int].parent->0).id as int == b2
    } by {
        let o = c3.blocks@[b2].ops@[k];
        assert(o.id < c1.ops@.len());
        assert(c3.ops@[o.id as int] == c1.ops@[o.id as int]);
    }
    assert forall|o: usize|
        o < c3.ops@.len() && (#[trigger] c3.ops@[o as int]).parent is Some implies {
        let bb = c3.ops@[o as int].parent->0;
        bb.id < c3.blocks@.len() && c3.blocks@[bb.id as int].ops@.contains(
            OperationRef { id: o },
        )
    } by {
        assert((o as int) < opid);
        assert(c3.ops@[o as int] == c1.ops@[o as int]);
    }
    assert forall|r: int, k: int|
        0 <= r < c3.regions@.len() && 0 <= k < c3.regions@[r].blocks@.len() implies {
        let bb = #[trigger] c3.regions@[r].blocks@[k];
        &&& bb.id < c3.blocks@.len()
        &&& c3.blocks@[bb.id as int].parent is Some
        &&& (c3.blocks@[bb.id as int].parent->0).id as int == r
    } by {
        assert(c3.regions@[r].blocks@ == c1.regions@[r].blocks@);
    }
    assert forall|r: int, k: int, m: int|
        0 <= r < c3.regions@.len() && 0 <= k < m < c3.regions@[r].blocks@.len() implies
        c3.regions@[r].blocks@[k] != c3.regions@[r].blocks@[m] by {
        assert(c3.regions@[r].blocks@ == c1.regions@[r].blocks@);
    }
    assert forall|bb: usize|
        bb < c3.blocks@.len() && (#[trigger] c3.blocks@[bb as int]).parent is Some implies {
        let r = c3.blocks@[bb as int].parent->0;
        r.id < c3.regions@.len() && c3.regions@[r.id as int].blocks@.contains(
            crate::block::BlockRef { id: bb },
        )
    } by {
        let r = c3.blocks@[bb as int].parent->0;
        assert(c1.regions@[r.id as int].blocks@.contains(crate::block::BlockRef { id: bb }));
        assert(c3.regions@[r.id as int].blocks@ == c1.regions@[r.id as int].blocks@);
    }
    assert forall|o: int, k: int|
        0 <= o < c3.ops@.len() && 0 <= k < c3.ops@[o].regions@.len() implies {
        let r = #[trigger] c3.ops@[o].regions@[k];
        &&& c3.regions@[r.id as int].parent is Some
        &&& (c3.regions@[r.id as int].parent->0).id as int == o
    } by {
        let r = c3.ops@[o].regions@[k];
        if o < opid {
            assert(c1.op_entry_wf(c1.ops@[o]));
            assert(c1.regions@[r.id as int].parent is Some);
            assert((c1.regions@[r.id as int].parent->0).id as int == o);
            assert forall|kk: int|
                0 <= kk < b.regions@.len() implies (#[trigger] b.regions@[kk]).id as int != r.id
                as int by {
                if b.regions@[kk].id as int == r.id as int {
                    assert(c1.regions@[b.regions@[kk].id as int].parent is None);
                }
            }
            assert(c3.regions@[r.id as int] == c2.regions@[r.id as int]);
        } else {
            assert(r == b.regions@[k]);
            assert(c3.regions@[r.id as int] == (RegionData {
                parent: Some(OperationRef { id: opid as usize }),
                ..c2.regions@[r.id as int]
            }));
        }
    }
    assert forall|r: usize|
        r < c3.regions@.len() && (#[trigger] c3.regions@[r as int]).parent is Some implies {
        let o = c3.regions@[r as int].parent->0;
        o.id < c3.ops@.len() && c3.ops@[o.id as int].regions@.contains(
            RegionRef { id: r },
        )
    } by {
        let o = c3.regions@[r as int].parent->0;
        if exists|kk: int|
            0 <= kk < b.regions@.len() && (#[trigger] b.regions@[kk]).id as int == r as int {
            let kk = choose|kk: int|
                0 <= kk < b.regions@.len() && (#[trigger] b.regions@[kk]).id as int == r as int;
            assert(c3.regions@[r as int] == (RegionData {
                parent: Some(OperationRef { id: opid as usize }),
                ..c2.regions@[r as int]
            }));
            assert(b.regions@[kk] == (RegionRef { id: r }));
            assert(c3.ops@[opid].regions@[kk] == (RegionRef { id: r }));
        } else {
            assert(c3.regions@[r as int] == c2.regions@[r as int]);
            assert(c1.regions@[r as int].parent is Some);
            assert(o == c1.regions@[r as int].parent->0);
            assert(c1.ops@[o.id as int].regions@.contains(RegionRef { id: r }));
            assert(c3.ops@[o.id as int] == c1.ops@[o.id as int]);
        }
    }
    assert forall|bb: int|
        0 <= bb < c3.blocks@.len() implies {
        let bd = #[trigger] c3.blocks@[bb];
        &&& bd.arg_types@.len() == bd.arg_locs@.len()
        &&& forall|k: int|
            0 <= k < bd.arg_types@.len() ==> (#[trigger] bd.arg_types@[k]).id < c3.types@.len()
        &&& forall|k: int|
            0 <= k < bd.arg_locs@.len() ==> (#[trigger] bd.arg_locs@[k]).id < c3.locs@.len()
    } by {
        assert(c3.blocks@[bb] == c1.blocks@[bb]);
    }
}


/// The operations of the tree rooted at `op`, in walk order: each
/// operation before the contents of its regions, regions in order,
/// blocks in order, operations in insertion order.  The fuel bounds the
/// nesting depth; any fuel beyond the depth of the tree gives the same
/// sequence.
pub open spec fn spec_walk_op(ctx: &Context, op: OperationRef, fuel: nat) -> Seq<OperationRef>
    decreases fuel, 0int, 0int,
{
    if fuel == 0 || op.id >= ctx.ops@.len() {
        Seq::empty()
    } else {
        seq![op] + spec_walk_region_list(ctx, ctx.ops@[op.id as int].regions@, (fuel - 1) as nat)
    }
}

/// The walk of a list of sibling operations, left to right.
pub open spec fn spec_walk_op_list(ctx: &Context, list: Seq<OperationRef>, fuel: nat) -> Seq<
    OperationRef,
>
    decreases fuel, 1int, list.len(),
{
    if list.len() == 0 {
        Seq::empty()
    } else {
        spec_walk_op_list(ctx, list.drop_last(), fuel) + spec_walk_op(ctx, list.last(), fuel)
    }
}

/// The walk of a list of blocks, in order.
pub open spec fn spec_walk_block_list(ctx: &Context, list: Seq<crate::block::BlockRef>, fuel: nat)
    -> Seq<OperationRef>
    decreases fuel, 2int, list.len(),
{
    if list.len() == 0 {
        Seq::empty()
    } else {
        spec_walk_block_list(ctx, list.drop_last(), fuel) + (if (list.last().id as int)
            < ctx.blocks@.len() {
            spec_walk_op_list(ctx, ctx.blocks@[list.last().id as int].ops@, fuel)
        } else {
            Seq::empty()
        })
    }
}

/// The walk of a list of regions, in order.
pub open spec fn spec_walk_region_list(ctx: &Context, list: Seq<RegionRef>, fuel: nat) -> Seq<
    OperationRef,
>
    decreases fuel, 3int, list.len(),
{
    if list.len() == 0 {
        Seq::empty()
    } else {
        spec_walk_region_list(ctx, list.drop_last(), fuel) + (if (list.last().id as int)
            < ctx.regions@.len() {
            spec_walk_block_list(ctx, ctx.regions@[list.last().id as int].blocks@, fuel)
        } else {
            Seq::empty()
        })
    }
}

/// Appends the walk of one operation to `out`.
fn walk_op(ctx: &Context, op: OperationRef, fuel: usize, out: &mut Vec<OperationRef>)
    requires
        ctx.wf(),
    ensures
        final(out)@ == old(out)@ + spec_walk_op(ctx, op, fuel as nat),
    decreases fuel, 0int, 0int,
{
    if fuel == 0 || op.id >= ctx.ops.len() {
        proof {
            assert(out@ =~= old(out)@ + spec_walk_op(ctx, op, fuel as nat));
        }
        return;
    }
    out.push(op);
    walk_region_list(ctx, &ctx.ops[op.id].regions, fuel - 1, out);
    proof {
        assert(out@ =~= old(out)@ + spec_walk_op(ctx, op, fuel as nat));
    }
}

/// Appends the walk of a list of sibling operations to `out`.
fn walk_op_list(ctx: &Context, list: &Vec<OperationRef>, fuel: usize, out: &mut Vec<OperationRef>)
    requires
        ctx.wf(),
    ensures
        final(out)@ == old(out)@ + spec_walk_op_list(ctx, list@, fuel as nat),
    decreases fuel, 1int, 0int,
{
    let mut i: usize = 0;
    proof {
        assert(list@.take(0) =~= Seq::<OperationRef>::empty());
        assert(out@ =~= old(out)@ + spec_walk_op_list(ctx, list@.take(0), fuel as nat));
    }
    while i < list.len()
        invariant
            ctx.wf(),
            i <= list@.len(),
            out@ == old(out)@ + spec_walk_op_list(ctx, list@.take(i as int), fuel as nat),
        decreases list@.len() - i,
    {
        walk_op(ctx, list[i], fuel, out);
        proof {
            assert(list@.take(i + 1).drop_last() =~= list@.take(i as int));
            assert(list@.take(i + 1).last() == list@[i as int]);
            assert(out@ =~= old(out)@ + spec_walk_op_list(ctx, list@.take(i + 1), fuel as nat));
        }
        i = i + 1;
    }
    proof {
        assert(list@.take(list@.len() as int) =~= list@);
    }
}

/// Appends the walk of a list of blocks to `out`.
fn walk_block_list(
    ctx: &Context,
    list: &Vec<crate::block::BlockRef>,
    fuel: usize,
    out: &mut Vec<OperationRef>,
)
    requires
        ctx.wf(),
    ensures
        final(out)@ == old(out)@ + spec_walk_block_list(ctx, list@, fuel as nat),
    decreases fuel, 2int, 0int,
{
    let mut i: usize = 0;
    proof {
        assert(list@.take(0) =~= Seq::<crate::block::BlockRef>::empty());
        assert(out@ =~= old(out)@ + spec_walk_block_list(ctx, list@.take(0), fuel as nat));
    }
    while i < list.len()
        invariant
            ctx.wf(),
            i <= list@.len(),
            out@ == old(out)@ + spec_walk_block_list(ctx, list@.take(i as int), fuel as nat),
        decreases list@.len() - i,
    {
        let b = list[i];
        if b.id < ctx.blocks.len() {
            walk_op_list(ctx, &ctx.blocks[b.id].ops, fuel, out);
        }
        proof {
            assert(list@.take(i + 1).drop_last() =~= list@.take(i as int));
            assert(list@.take(i + 1).last() == list@[i as int]);
            assert(out@ =~= old(out)@ + spec_walk_block_list(ctx, list@.take(i + 1), fuel as nat));
        }
        i = i + 1;
    }
    proof {
        assert(list@.take(list@.len() as int) =~= list@);
    }
}

/// Appends the walk of a list of regions to `out`.
fn walk_region_list(ctx: &Context, list: &Vec<RegionRef>, fuel: usize, out: &mut Vec<OperationRef>)
    requires
        ctx.wf(),
    ensures
        final(out)@ == old(out)@ + spec_walk_region_list(ctx, list@, fuel as nat),
    decreases fuel, 3int, 0int,
{
    let mut i: usize = 0;
    proof {
        assert(list@.take(0) =~= Seq::<RegionRef>::empty());
        assert(out@ =~= old(out)@ + spec_walk_region_list(ctx, list@.take(0), fuel as nat));
    }
    while i < list.len()
        invariant
            ctx.wf(),
            i <= list@.len(),
            out@ == old(out)@ + spec_walk_region_list(ctx, list@.take(i as int), fuel as nat),
        decreases list@.len() - i,
    {
        let r = list[i];
        if r.id < ctx.regions.len() {
            walk_block_list(ctx, &ctx.regions[r.id].blocks, fuel, out);
        }
        proof {
            assert(list@.take(i + 1).drop_last() =~= list@.take(i as int));
            assert(list@.take(i + 1).last() == list@[i as int]);
            assert(out@ =~= old(out)@ + spec_walk_region_list(
                ctx,
                list@.take(i + 1),
                fuel as nat,
            ));
        }
        i = i + 1;
    }
    proof {
        assert(list@.take(list@.len() as int) =~= list@);
    }
}

impl OperationRef {
    /// Returns the operations of the tree rooted here in walk order:
    /// this operation first, then the contents of its regions in
    /// declaration, block and insertion order.
    pub fn walk(&self, ctx: &Context) -> (r: Vec<OperationRef>)
        requires
            ctx.wf(),
            self.valid(ctx),
        ensures
            r@ == spec_walk_op(ctx, *self, crate::text::sat_add_nat(1, ctx.ops@.len()) as nat),
            r@.len() >= 1 && r@[0] == *self,
    {
        let mut out: Vec<OperationRef> = Vec::new();
        let fuel = crate::text::sat_add(1, ctx.ops.len());
        walk_op(ctx, *self, fuel, &mut out);
        proof {
            assert(out@[0] == *self);
        }
        out
    }
}


/// Copies a vector of copyable elements.
fn copy_vec<T: Copy>(v: &Vec<T>) -> (r: Vec<T>)
    ensures
        r@ == v@,
{
    let mut out: Vec<T> = Vec::new();
    let mut i: usize = 0;
    while i < v.len()
        invariant
            i <= v@.len(),
            out@ == v@.take(i as int),
        decreases v@.len() - i,
    {
        out.push(v[i]);
        proof {
            assert(out@ =~= v@.take(i + 1));
        }
        i = i + 1;
    }
    proof {
        assert(v@.take(v@.len() as int) =~= v@);
    }
    out
}

impl OperationRef {
    /// Clones this operation into a new standalone operation: same
    /// name, location, operand references, result types and attribute
    /// dictionaries.  Only operations owning no regions can be cloned
    /// here: copying a region tree faithfully requires substituting the
    /// copied values inside it, which this model does not provide.
    pub fn clone_op(&self, ctx: &mut Context) -> (r: OperationRef)
        requires
            old(ctx).wf(),
            self.valid(old(ctx)),
            old(ctx).ops@[self.id as int].regions@.len() == 0,
        ensures
            final(ctx).wf(),
            final(ctx).same_interned(old(ctx)),
            final(ctx).blocks@ == old(ctx).blocks@,
            final(ctx).regions@ == old(ctx).regions@,
            final(ctx).ops@.len() == old(ctx).ops@.len() + 1,
            forall|j: int| 0 <= j < old(ctx).ops@.len() ==> final(ctx).ops@[j] == old(ctx).ops@[j],
            r.id == old(ctx).ops@.len(),
            final(ctx).ops@[r.id as int].name == old(ctx).ops@[self.id as int].name,
            final(ctx).ops@[r.id as int].location == old(ctx).ops@[self.id as int].location,
            final(ctx).ops@[r.id as int].operands@ == old(ctx).ops@[self.id as int].operands@,
            final(ctx).ops@[r.id as int].result_types@ == old(ctx).ops@[self.id
                as int].result_types@,
            final(ctx).ops@[r.id as int].regions@.len() == 0,
            final(ctx).ops@[r.id as int].inherent@ == old(ctx).ops@[self.id as int].inherent@,
            final(ctx).ops@[r.id as int].discardable@ == old(ctx).ops@[self.id
                as int].discardable@,
            final(ctx).ops@[r.id as int].parent is None,
    {
        let ghost c0 = *old(ctx);
        proof {
            assert(c0.op_entry_wf(c0.ops@[self.id as int]));
        }
        let name = ctx.ops[self.id].name;
        let location = ctx.ops[self.id].location;
        let operands = copy_vec(&ctx.ops[self.id].operands);
        let result_types = copy_vec(&ctx.ops[self.id].result_types);
        let inherent = copy_vec(&ctx.ops[self.id].inherent);
        let discardable = copy_vec(&ctx.ops[self.id].discardable);
        let id = ctx.ops.len();
        ctx.ops.push(
            OpData {
                name,
                location,
                operands,
                result_types,
                regions: Vec::new(),
                inherent,
                discardable,
                parent: None,
            },
        );
        proof {
            let c1 = ctx;
            assert forall|o: int| 0 <= o < c1.ops@.len() implies c1.op_entry_wf(
                #[trigger] c1.ops@[o],
            ) by {
                if o < id as int {
                    assert(c0.op_entry_wf(c0.ops@[o]));
                    assert forall|k: int|
                        0 <= k < c1.ops@[o].operands@.len() implies (
                    #[trigger] c1.ops@[o].operands@[k]).valid(c1) by {
                        assert(c0.ops@[o].operands@[k].valid(&c0));
                    }
                    assert(c1.dict_wf(c1.ops@[o].inherent@)) by {
                        assert(c0.dict_wf(c0.ops@[o].inherent@));
                    }
                    assert(c1.dict_wf(c1.ops@[o].discardable@)) by {
                        assert(c0.dict_wf(c0.ops@[o].discardable@));
                    }
                } else {
                    assert forall|k: int|
                        0 <= k < c1.ops@[o].operands@.len() implies (
                    #[trigger] c1.ops@[o].operands@[k]).valid(c1) by {
                        assert(c0.ops@[self.id as int].operands@[k].valid(&c0));
                    }
                    assert(c1.dict_wf(c1.ops@[o].inherent@)) by {
                        assert(c0.dict_wf(c0.ops@[self.id as int].inherent@));
                    }
                    assert(c1.dict_wf(c1.ops@[o].discardable@)) by {
                        assert(c0.dict_wf(c0.ops@[self.id as int].discardable@));
                    }
                }
            }
            assert forall|o: usize|
                o < c1.ops@.len() && (#[trigger] c1.ops@[o as int]).parent is Some implies {
                let b = c1.ops@[o as int].parent->0;
                b.id < c1.blocks@.len() && c1.blocks@[b.id as int].ops@.contains(
                    OperationRef { id: o },
                )
            } by {
                assert((o as int) < id as int);
                assert(c1.ops@[o as int] == c0.ops@[o as int]);
            }
        }
        OperationRef { id }
    }
}

} // verus!
