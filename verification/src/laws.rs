//! The laws the library states of itself, proved once and for all: the
//! interning equalities, the tree invariants behind attachment, and the
//! use-list discipline.

use vstd::prelude::*;
use crate::attributes::attr_term_denotes;
use crate::attributes::AttributeRef;
use crate::attributes::AttrTerm;
use crate::context::views;
use crate::block::BlockRef;
use crate::context::Context;
use crate::location::LocationRef;
use crate::operation::OperationRef;
use crate::types::term_denotes;
use crate::types::TypeRef;
use crate::types::TypeTerm;
use crate::opoperand::spec_next_use_pos;
use crate::value::scan_operands_pos;
use crate::value::scan_ops_pos;
use crate::value::spec_first_use_pos;
use crate::value::ValueRef;

verus! {

/// Law: types are interned.  Two type handles of one context are equal
/// exactly when the types they stand for are equal, so independently
/// obtained handles for one type compare equal, and handles for
/// distinct types compare unequal.
pub proof fn lemma_type_interning(ctx: &Context, a: TypeRef, b: TypeRef)
    requires
        ctx.wf(),
        a.valid(ctx),
        b.valid(ctx),
    ensures
        a == b <==> a.data(ctx) == b.data(ctx),
{
    if a.data(ctx) == b.data(ctx) && a != b {
        if a.id < b.id {
            assert(ctx.types@[a.id as int] != ctx.types@[b.id as int]);
        } else {
            assert(ctx.types@[b.id as int] != ctx.types@[a.id as int]);
        }
    }
}

/// Law: attributes are interned.  Two attribute handles of one context
/// are equal exactly when the attributes they stand for are equal.
pub proof fn lemma_attribute_interning(ctx: &Context, a: AttributeRef, b: AttributeRef)
    requires
        ctx.wf(),
        a.valid(ctx),
        b.valid(ctx),
    ensures
        a == b <==> a.data(ctx) == b.data(ctx),
{
    if a.data(ctx) == b.data(ctx) && a != b {
        if a.id < b.id {
            assert(ctx.attrs@[a.id as int] != ctx.attrs@[b.id as int]);
        } else {
            assert(ctx.attrs@[b.id as int] != ctx.attrs@[a.id as int]);
        }
    }
}

/// Law: attaching keeps the tree consistent.  Whenever an operation
/// sits in a block's list, its parent pointer names that block, and
/// whenever its parent pointer names a block, the block's list holds it
/// exactly once — so an appended operation is reachable from the
/// block's first operation by following successors in insertion order.
pub proof fn lemma_tree_invariant(ctx: &Context, b: BlockRef, k: int)
    requires
        ctx.wf(),
        b.valid(ctx),
        0 <= k < ctx.blocks@[b.id as int].ops@.len(),
    ensures
        ({
            let op = ctx.blocks@[b.id as int].ops@[k];
            &&& op.valid(ctx)
            &&& ctx.ops@[op.id as int].parent == Some(b)
            &&& forall|m: int|
                0 <= m < ctx.blocks@[b.id as int].ops@.len() && m != k ==> ctx.blocks@[b.id
                    as int].ops@[m] != op
        }),
{
    let op = ctx.blocks@[b.id as int].ops@[k];
    assert((ctx.ops@[op.id as int].parent->0).id as int == b.id as int);
    assert(ctx.ops@[op.id as int].parent == Some(b));
    assert forall|m: int|
        0 <= m < ctx.blocks@[b.id as int].ops@.len() && m != k implies ctx.blocks@[b.id
        as int].ops@[m] != op by {
        if m < k {
            assert(ctx.blocks@[b.id as int].ops@[m] != ctx.blocks@[b.id as int].ops@[k]);
        } else {
            assert(ctx.blocks@[b.id as int].ops@[k] != ctx.blocks@[b.id as int].ops@[m]);
        }
    }
}

/// A use below position `k` of operation `o` makes the scan of that
/// operation succeed, reporting `o` as the owner.
pub proof fn lemma_scan_operands_finds(ctx: &Context, v: ValueRef, o: int, k: int, j: int)
    requires
        0 <= o < ctx.ops@.len(),
        0 <= j < k <= ctx.ops@[o].operands@.len(),
        ctx.ops@[o].operands@[j] == v,
    ensures
        scan_operands_pos(ctx, v, o, k) matches Some(p) && p.0 == o && ctx.ops@[o].operands@[p.1]
            == v,
    decreases k,
{
    if ctx.ops@[o].operands@[k - 1] == v {
    } else {
        lemma_scan_operands_finds(ctx, v, o, k - 1, j);
    }
}

/// Law: uses form a newest-first chain.  After constructing an
/// operation that consumes a value, the value's first use is owned by
/// the newest operation that references it — in particular, by the
/// operation just constructed, which appears once per operand position
/// that names the value.
pub proof fn lemma_first_use_newest(ctx: &Context, v: ValueRef, j: int)
    requires
        ctx.wf(),
        ctx.ops@.len() > 0,
        0 <= j < ctx.ops@[ctx.ops@.len() - 1].operands@.len(),
        ctx.ops@[ctx.ops@.len() - 1].operands@[j] == v,
    ensures
        spec_first_use_pos(ctx, v) matches Some(p) && p.0 == ctx.ops@.len() - 1,
{
    let n = ctx.ops@.len() as int;
    lemma_scan_operands_finds(ctx, v, n - 1, ctx.ops@[n - 1].operands@.len() as int, j);
    assert(scan_ops_pos(ctx, v, n) matches Some(p) && p.0 == n - 1);
}

/// Law: the attribute namespaces are independent.  The contracts of
/// [`OperationRef::set_discardable_attribute`] and
/// [`OperationRef::set_inherent_attribute`] state it directly: setting
/// in one namespace changes no lookup in the other, and changes no
/// other name in its own.  This lemma records the underlying fact that
/// the two dictionaries are disjoint state: any operation whose
/// inherent dictionary is unchanged answers every inherent lookup as
/// before, whatever happened to its discardable dictionary.
pub proof fn lemma_attribute_namespace_independence(c0: &Context, c1: &Context, op: OperationRef)
    requires
        op.id < c0.ops@.len(),
        op.id < c1.ops@.len(),
        c1.ops@[op.id as int].inherent@ == c0.ops@[op.id as int].inherent@,
        c1.idents@ == c0.idents@,
    ensures
        forall|name: Seq<char>|
            crate::operation::dict_get(
                crate::context::views(c1.idents@),
                op.inherent_dict(c1),
                name,
            ) == crate::operation::dict_get(
                crate::context::views(c0.idents@),
                op.inherent_dict(c0),
                name,
            ),
{
}


/// Law: printing is pinned by its specification down to the characters.
/// Every module operation owning exactly one region with one empty
/// block prints as the canonical empty-body form, whatever else the
/// context holds.
pub proof fn lemma_empty_module_text(ctx: &Context, op: OperationRef)
    requires
        ctx.wf(),
        op.valid(ctx),
        ctx.ops@[op.id as int].name < ctx.idents@.len(),
        views(ctx.idents@)[ctx.ops@[op.id as int].name as int] == "builtin.module"@,
        ctx.ops@[op.id as int].regions@.len() == 1,
        ctx.regions@[ctx.ops@[op.id as int].regions@[0].id as int].blocks@.len() == 1,
        ctx.blocks@[ctx.regions@[ctx.ops@[op.id as int].regions@[0].id
            as int].blocks@[0].id as int].ops@.len() == 0,
    ensures
        crate::text::spec_operation_text(ctx, op) == "module {\n}\n"@,
{
    let fuel = crate::text::sat_add_nat(1, ctx.ops@.len()) as nat;
    assert(fuel >= 1);
    crate::text::lemma_pr_op_module(ctx, op, 0, Seq::empty(), 0, fuel);
    let od = ctx.ops@[op.id as int];
    let blocks = ctx.regions@[od.regions@[0].id as int].blocks@;
    assert(ctx.op_entry_wf(od));
    assert(od.regions@[0].id < ctx.regions@.len());
    let inner = crate::text::pr_block_list(
        ctx,
        blocks,
        crate::text::spec_sat_add(0, 2),
        Seq::empty(),
        0,
        (fuel - 1) as nat,
    );
    assert(blocks.drop_last() =~= Seq::<crate::block::BlockRef>::empty());
    let first = crate::text::pr_block_list(
        ctx,
        blocks.drop_last(),
        crate::text::spec_sat_add(0, 2),
        Seq::empty(),
        0,
        (fuel - 1) as nat,
    );
    assert(first.0 == Seq::<char>::empty());
    let b = blocks.last();
    assert(b.id < ctx.blocks@.len());
    let ops_part = crate::text::pr_op_list(
        ctx,
        ctx.blocks@[b.id as int].ops@,
        crate::text::spec_sat_add(0, 2),
        first.1,
        first.2,
        (fuel - 1) as nat,
    );
    assert(ops_part.0 == Seq::<char>::empty());
    assert(inner.0 =~= Seq::<char>::empty());
    assert(crate::text::spaces(0) == Seq::<char>::empty());
    reveal_strlit("module {\n");
    reveal_strlit("}\n");
    reveal_strlit("module {\n}\n");
    assert(crate::text::spec_operation_text(ctx, op) =~= "module {\n}\n"@);
}


/// Law: parsing interns.  When a piece of type text is parsed twice
/// (the context having meanwhile only grown its interning tables), the
/// two returned handles are equal: each parse's contract ties its
/// result to the term the text denotes, denotation survives table
/// growth, and in one well-formed context at most one handle stands for
/// a term.  With [`lemma_type_interning`], texts denoting distinct
/// types likewise yield unequal handles.
pub proof fn lemma_type_parse_interning(
    c1: &Context,
    c2: &Context,
    t1: TypeRef,
    t2: TypeRef,
    term: TypeTerm,
)
    requires
        c2.wf(),
        c2.grew_interned_only(c1),
        term_denotes(c1, t1, term),
        term_denotes(c2, t2, term),
    ensures
        t1 == t2,
{
    crate::types::lemma_term_denotes_monotone(c1, c2, t1, term);
    crate::types::lemma_term_denotes_injective(c2, t1, t2, term);
}


/// Every position a use scan reports is a genuine use of the value.
pub proof fn lemma_scan_operands_is_use(ctx: &Context, v: ValueRef, o: int, k: int)
    ensures
        scan_operands_pos(ctx, v, o, k) matches Some(p) ==> p.0 == o && 0 <= p.1 < k
            && 0 <= o < ctx.ops@.len() && p.1 < ctx.ops@[o].operands@.len()
            && ctx.ops@[o].operands@[p.1] == v,
    decreases k,
{
    if k > 0 {
        if !(0 <= o < ctx.ops@.len() && k <= ctx.ops@[o].operands@.len() && ctx.ops@[o].operands@[
        k - 1] == v) {
            lemma_scan_operands_is_use(ctx, v, o, k - 1);
        }
    }
}

/// Every position the operation scan reports is a genuine use below
/// the scan's start.
pub proof fn lemma_scan_ops_is_use(ctx: &Context, v: ValueRef, o: int)
    ensures
        scan_ops_pos(ctx, v, o) matches Some(p) ==> 0 <= p.0 < o && p.0 < ctx.ops@.len() && 0
            <= p.1 < ctx.ops@[p.0].operands@.len() && ctx.ops@[p.0].operands@[p.1] == v,
    decreases o,
{
    if o > 0 {
        if o - 1 < ctx.ops@.len() {
            lemma_scan_operands_is_use(ctx, v, o - 1, ctx.ops@[o - 1].operands@.len() as int);
        }
        lemma_scan_ops_is_use(ctx, v, o - 1);
    }
}

/// Law: the use chain never repeats an edge.  The first use is a
/// genuine use, and each following link sits strictly earlier — an
/// older operand position of the same operation, or an older operation
/// — so every operand position referencing a value appears exactly once
/// along the chain.
pub proof fn lemma_use_chain_strictly_earlier(ctx: &Context, v: ValueRef, o: int, k: int)
    ensures
        spec_first_use_pos(ctx, v) matches Some(p) ==> 0 <= p.0 < ctx.ops@.len() && 0 <= p.1
            < ctx.ops@[p.0].operands@.len() && ctx.ops@[p.0].operands@[p.1] == v,
        spec_next_use_pos(ctx, v, o, k) matches Some(p) ==> (p.0 < o || (p.0 == o && p.1 < k))
            && 0 <= p.0 < ctx.ops@.len() && 0 <= p.1 < ctx.ops@[p.0].operands@.len()
            && ctx.ops@[p.0].operands@[p.1] == v,
{
    lemma_scan_ops_is_use(ctx, v, ctx.ops@.len() as int);
    lemma_scan_operands_is_use(ctx, v, o, k);
    lemma_scan_ops_is_use(ctx, v, o);
}


/// Law: the generic printed form is pinned to the character.  Every
/// operation with two results, no operands, no regions, no discardable
/// attributes and a non-empty inherent dictionary — the shape the
/// builder yields for a two-result operation with attributes — prints
/// as the numbered assignment of its quoted name, its dictionary and
/// its functional type.
pub proof fn lemma_built_two_result_text(ctx: &Context, op: OperationRef)
    requires
        ctx.wf(),
        op.id < ctx.ops@.len(),
        ctx.ops@[op.id as int].name < ctx.idents@.len(),
        crate::context::views(ctx.idents@)[ctx.ops@[op.id as int].name as int]
            != "builtin.module"@,
        ctx.ops@[op.id as int].operands@.len() == 0,
        ctx.ops@[op.id as int].regions@.len() == 0,
        ctx.ops@[op.id as int].discardable@.len() == 0,
        ctx.ops@[op.id as int].inherent@.len() > 0,
        ctx.ops@[op.id as int].result_types@.len() == 2,
    ensures
        crate::text::spec_operation_text(ctx, op) == "%0:2 = \""@ + crate::context::views(
            ctx.idents@,
        )[ctx.ops@[op.id as int].name as int] + "\"() {"@ + crate::text::spec_dict_entries_text(
            ctx,
            ctx.ops@[op.id as int].inherent@,
        ) + "} : () -> ("@ + crate::text::spec_types_text(
            ctx,
            ctx.ops@[op.id as int].result_types@,
        ) + ")\n"@,
{
    let fuel = crate::text::sat_add_nat(1, ctx.ops@.len()) as nat;
    assert(fuel >= 1);
    crate::text::lemma_pr_op_generic(ctx, op, 0, Seq::empty(), 0, fuel);
    let od = ctx.ops@[op.id as int];
    let name = crate::context::views(ctx.idents@)[od.name as int];
    assert(crate::text::spaces(0) == Seq::<char>::empty());
    reveal_strlit("%");
    reveal_strlit(":");
    reveal_strlit(" = ");
    reveal_strlit("0");
    reveal_strlit("2");
    reveal_strlit("\"");
    reveal_strlit("\"(");
    reveal_strlit(")");
    reveal_strlit(" {");
    reveal_strlit("}");
    reveal_strlit(" : (");
    reveal_strlit(") -> ");
    reveal_strlit("(");
    reveal_strlit("\n");
    reveal_strlit("%0:2 = \"");
    reveal_strlit("\"() {");
    reveal_strlit("} : () -> (");
    reveal_strlit(")\n");
    assert(crate::text::dec_digits(0) == "0"@);
    assert(crate::text::dec_digits(2) == "2"@);
    let num1 = Seq::<(usize, usize)>::empty().push((op.id, 0));
    assert(crate::text::spec_operands_text(ctx, num1, od.operands@) == Seq::<char>::empty());
    assert(crate::text::spec_operand_types_text(ctx, od.operands@) == Seq::<char>::empty());
    assert(od.inherent@ + od.discardable@ =~= od.inherent@);
    assert(crate::text::spec_operation_text(ctx, op) =~= "%0:2 = \""@ + name + "\"() {"@
        + crate::text::spec_dict_entries_text(ctx, od.inherent@) + "} : () -> ("@
        + crate::text::spec_types_text(ctx, od.result_types@) + ")\n"@);
}


/// Law: attribute parsing interns, like type parsing.  When a piece of
/// attribute text is parsed twice (the context having meanwhile only
/// grown its interning tables), the two returned handles are equal;
/// with [`lemma_attribute_interning`], texts denoting distinct
/// attributes yield unequal handles.
pub proof fn lemma_attr_parse_interning(
    c1: &Context,
    c2: &Context,
    a1: AttributeRef,
    a2: AttributeRef,
    term: AttrTerm,
)
    requires
        c2.wf(),
        c2.grew_interned_only(c1),
        attr_term_denotes(c1, a1, term),
        attr_term_denotes(c2, a2, term),
    ensures
        a1 == a2,
{
    crate::attributes::lemma_attr_term_denotes_monotone(c1, c2, a1, term);
    crate::attributes::lemma_attr_term_denotes_injective(c2, a1, a2, term);
}


/// Law: locations are interned.  Two location handles of one context
/// are equal exactly when the locations they stand for are equal — so
/// a parsed operation's location compares equal to an independently
/// constructed location of the same file, line and column.
pub proof fn lemma_location_interning(ctx: &Context, a: LocationRef, b: LocationRef)
    requires
        ctx.wf(),
        a.valid(ctx),
        b.valid(ctx),
    ensures
        a == b <==> a.data(ctx) == b.data(ctx),
{
    if a.data(ctx) == b.data(ctx) && a != b {
        if a.id < b.id {
            assert(ctx.locs@[a.id as int] != ctx.locs@[b.id as int]);
        } else {
            assert(ctx.locs@[b.id as int] != ctx.locs@[a.id as int]);
        }
    }
}

} // verus!
