//! Textual form of the IR: reading operation trees.  The grammar is the
//! foreign format's; reading yields absence on malformed input, never a
//! failure, and everything read is built through the verified
//! construction path.

use vstd::prelude::*;
use crate::attributes::parse_attr_at;
use crate::attributes::parse_quoted;
use crate::attributes::NamedAttribute;
use crate::block::BlockRef;
use crate::context::Context;
use crate::location::LocationData;
use crate::location::LocationRef;
use crate::operation::OperationBuilder;
use crate::operation::OperationRef;
use crate::region::RegionRef;
use crate::types::expect_lit;
use crate::types::is_ident_byte;
use crate::types::parse_digits;
use crate::types::parse_type_at;
use crate::types::TypeRef;
use crate::value::ValueRef;
use vstd::string::StrSliceExecFns;

verus! {

broadcast use vstd::string::is_ascii_spec_bytes;

/// ASCII codes the operation grammar needs beyond the shared ones.
pub const B_SPACE: u8 = 32;

pub const B_NEWLINE: u8 = 10;

pub const B_TAB: u8 = 9;

pub const B_CR: u8 = 13;

pub const B_PERCENT: u8 = 37;

pub const B_COLON: u8 = 58;

pub const B_HASH: u8 = 35;

pub const B_LPAREN: u8 = 40;

pub const B_RPAREN: u8 = 41;

pub const B_LBRACE: u8 = 123;

pub const B_RBRACE: u8 = 125;

pub const B_QUOTE: u8 = 34;

/// Whether a character is horizontal or vertical whitespace, compared
/// through its byte.
pub open spec fn char_is_ws(c: char) -> bool {
    c as u8 == B_SPACE || c as u8 == B_NEWLINE || c as u8 == B_TAB || c as u8 == B_CR
}

/// The first position at or after `pos` that carries no whitespace, or
/// the end of the text.
pub open spec fn spec_skip_ws(s: Seq<char>, pos: int) -> int
    decreases s.len() - pos,
{
    if 0 <= pos < s.len() && char_is_ws(s[pos]) {
        spec_skip_ws(s, pos + 1)
    } else {
        pos
    }
}

/// Skips whitespace from `pos`.
pub fn skip_ws(s: &str, pos: usize) -> (r: usize)
    requires
        s.is_ascii(),
        pos <= s@.len(),
    ensures
        pos <= r <= s@.len(),
        r as int == spec_skip_ws(s@, pos as int),
{
    let n = s.unicode_len();
    let mut p: usize = pos;
    while p < n && (s.get_ascii(p) == B_SPACE || s.get_ascii(p) == B_NEWLINE || s.get_ascii(p)
        == B_TAB || s.get_ascii(p) == B_CR)
        invariant
            s.is_ascii(),
            n == s@.len(),
            pos <= p <= n,
            spec_skip_ws(s@, pos as int) == spec_skip_ws(s@, p as int),
        decreases n - p,
    {
        p = p + 1;
    }
    proof {
        assert(spec_skip_ws(s@, p as int) == p as int);
    }
    p
}

/// Computes the one-based line and column of a position.
pub fn line_col(s: &str, pos: usize) -> (r: (u32, u32))
    requires
        s.is_ascii(),
        pos <= s@.len(),
    ensures
        r.0 >= 1,
        r.1 >= 1,
        pos == 0 ==> r == (1u32, 1u32),
{
    let mut line: u32 = 1;
    let mut col: u32 = 1;
    let mut p: usize = 0;
    while p < pos
        invariant
            s.is_ascii(),
            pos <= s@.len(),
            p <= pos,
            line >= 1,
            col >= 1,
            pos == 0 ==> line == 1 && col == 1,
        decreases pos - p,
    {
        if s.get_ascii(p) == B_NEWLINE {
            if line < 4_000_000_000 {
                line = line + 1;
            }
            col = 1;
        } else {
            if col < 4_000_000_000 {
                col = col + 1;
            }
        }
        p = p + 1;
    }
    (line, col)
}

/// A value numbering read from the source: the declared number and the
/// producing operation.
pub struct ParsedDef {
    pub number: u64,
    pub op: OperationRef,
}

/// Looks a declared value number up.
fn find_def(defs: &Vec<ParsedDef>, number: u64) -> (r: Option<usize>)
    ensures
        match r {
            Some(i) => i < defs@.len(),
            None => true,
        },
{
    let mut i: usize = 0;
    while i < defs.len()
        invariant
            i <= defs@.len(),
        decreases defs@.len() - i,
    {
        if defs[i].number == number {
            return Some(i);
        }
        i = i + 1;
    }
    None
}

/// Reads an operand reference `%N` or `%N#K`.
fn parse_operand_ref(ctx: &Context, s: &str, pos: usize, defs: &Vec<ParsedDef>) -> (r: Option<
    (ValueRef, usize),
>)
    requires
        ctx.wf(),
        s.is_ascii(),
        pos <= s@.len(),
        forall|i: int| 0 <= i < defs@.len() ==> (#[trigger] defs@[i]).op.valid(ctx),
    ensures
        match r {
            Some(v_p) => v_p.0.valid(ctx) && pos <= v_p.1 <= s@.len(),
            None => true,
        },
{
    let n = s.unicode_len();
    if pos >= n || s.get_ascii(pos) != B_PERCENT {
        return None;
    }
    match parse_digits(s, pos + 1) {
        Some((number, p1)) => {
            let def_idx = match find_def(defs, number) {
                Some(i) => i,
                None => {
                    return None;
                },
            };
            let op = defs[def_idx].op;
            let mut index: u64 = 0;
            let mut p: usize = p1;
            if p < n && s.get_ascii(p) == B_HASH {
                match parse_digits(s, p + 1) {
                    Some((idx, p2)) => {
                        index = idx;
                        p = p2;
                    },
                    None => {
                        return None;
                    },
                }
            }
            if index >= 1_000_000 {
                return None;
            }
            let idx_usize = index as usize;
            if idx_usize >= ctx.ops[op.id].result_types.len() {
                return None;
            }
            Some((ValueRef::Result { op, index: idx_usize }, p))
        },
        None => None,
    }
}

/// Reads a comma-separated list of types between parentheses, or a
/// single bare type.
fn parse_type_list(ctx: &mut Context, s: &str, pos: usize) -> (r: Option<(Vec<TypeRef>, usize)>)
    requires
        old(ctx).wf(),
        s.is_ascii(),
        pos <= s@.len(),
    ensures
        final(ctx).wf(),
        final(ctx).grew_interned_only(old(ctx)),
        match r {
            Some(v_p) => pos <= v_p.1 <= s@.len() && (forall|i: int|
                0 <= i < v_p.0@.len() ==> (#[trigger] v_p.0@[i]).id < final(ctx).types@.len()),
            None => true,
        },
{
    proof {
        crate::context::lemma_grew_interned_refl(ctx);
    }
    let n = s.unicode_len();
    if pos >= n {
        return None;
    }
    let mut tys: Vec<TypeRef> = Vec::new();
    if s.get_ascii(pos) != B_LPAREN {
        match parse_type_at(ctx, s, pos) {
            Some((t, p)) => {
                tys.push(t);
                return Some((tys, p));
            },
            None => {
                return None;
            },
        }
    }
    let mut p: usize = pos + 1;
    if p < n && s.get_ascii(p) == B_RPAREN {
        return Some((tys, p + 1));
    }
    loop
        invariant
            old(ctx).wf(),
            ctx.wf(),
            ctx.grew_interned_only(old(ctx)),
            s.is_ascii(),
            n == s@.len(),
            pos < p <= n,
            forall|i: int| 0 <= i < tys@.len() ==> (#[trigger] tys@[i]).id < ctx.types@.len(),
        decreases n - p,
    {
        let ghost mid = *ctx;
        match parse_type_at(ctx, s, p) {
            Some((t, p1)) => {
                proof {
                    crate::context::lemma_grew_interned_trans(ctx, &mid, old(ctx));
                }
                tys.push(t);
                if p1 <= p {
                    return None;
                }
                p = p1;
            },
            None => {
                proof {
                    crate::context::lemma_grew_interned_trans(ctx, &mid, old(ctx));
                }
                return None;
            },
        }
        if p < n && s.get_ascii(p) == B_RPAREN {
            return Some((tys, p + 1));
        }
        match expect_lit(s, p, ", ") {
            Some(p1) => {
                if p1 <= p {
                    return None;
                }
                p = p1;
            },
            None => {
                return None;
            },
        }
    }
}

/// Reads an attribute dictionary `{name = attr, ...}`.
fn parse_attr_dict(ctx: &mut Context, s: &str, pos: usize) -> (r: Option<
    (Vec<NamedAttribute>, usize),
>)
    requires
        old(ctx).wf(),
        s.is_ascii(),
        pos <= s@.len(),
    ensures
        final(ctx).wf(),
        final(ctx).grew_interned_only(old(ctx)),
        match r {
            Some(v_p) => {
                &&& pos <= v_p.1 <= s@.len()
                &&& forall|i: int|
                    0 <= i < v_p.0@.len() ==> (#[trigger] v_p.0@[i]).name.id < final(ctx).idents@.len()
                        && v_p.0@[i].attribute.id < final(ctx).attrs@.len()
                &&& forall|i: int, j: int|
                    0 <= i < j < v_p.0@.len() ==> v_p.0@[i].name.id != v_p.0@[j].name.id
            },
            None => true,
        },
{
    proof {
        crate::context::lemma_grew_interned_refl(ctx);
    }
    let n = s.unicode_len();
    if pos >= n || s.get_ascii(pos) != B_LBRACE {
        return None;
    }
    let mut attrs: Vec<NamedAttribute> = Vec::new();
    let mut p: usize = pos + 1;
    if p < n && s.get_ascii(p) == B_RBRACE {
        return Some((attrs, p + 1));
    }
    loop
        invariant
            old(ctx).wf(),
            ctx.wf(),
            ctx.grew_interned_only(old(ctx)),
            s.is_ascii(),
            n == s@.len(),
            pos < p <= n,
            forall|i: int|
                0 <= i < attrs@.len() ==> (#[trigger] attrs@[i]).name.id < ctx.idents@.len()
                    && attrs@[i].attribute.id < ctx.attrs@.len(),
            forall|i: int, j: int|
                0 <= i < j < attrs@.len() ==> attrs@[i].name.id != attrs@[j].name.id,
        decreases n - p,
    {
        if p >= n {
            return None;
        }
        let name_owned: String;
        let p_after_name: usize;
        if s.get_ascii(p) == B_QUOTE {
            match parse_quoted(s, p) {
                Some((b, e)) => {
                    name_owned = s.substring_ascii(b, e).to_owned();
                    p_after_name = e + 1;
                },
                None => {
                    return None;
                },
            }
        } else {
            let mut q: usize = p;
            while q < n && is_ident_byte(s.get_ascii(q))
                invariant
                    s.is_ascii(),
                    n == s@.len(),
                    p <= q <= n,
                decreases n - q,
            {
                q = q + 1;
            }
            if q == p {
                return None;
            }
            name_owned = s.substring_ascii(p, q).to_owned();
            p_after_name = q;
        }
        let p1 = match expect_lit(s, p_after_name, " = ") {
            Some(p1) => p1,
            None => {
                return None;
            },
        };
        let ghost mid0 = *ctx;
        let ident = ctx.intern_ident(name_owned.as_str());
        proof {
            crate::context::lemma_grew_idents_implies_interned(ctx, &mid0);
            crate::context::lemma_grew_interned_trans(ctx, &mid0, old(ctx));
        }
        let mut dup: usize = 0;
        let mut found_dup = false;
        while dup < attrs.len()
            invariant_except_break
                !found_dup,
            invariant
                dup <= attrs@.len(),
                forall|i: int| 0 <= i < dup ==> (#[trigger] attrs@[i]).name.id != ident.id,
            ensures
                found_dup ==> (exists|i: int|
                    0 <= i < attrs@.len() && (#[trigger] attrs@[i]).name.id == ident.id),
                !found_dup ==> (forall|i: int|
                    0 <= i < attrs@.len() ==> (#[trigger] attrs@[i]).name.id != ident.id),
            decreases attrs@.len() - dup,
        {
            if attrs[dup].name.id == ident.id {
                found_dup = true;
                proof {
                    assert(attrs@[dup as int].name.id == ident.id);
                }
                break;
            }
            dup = dup + 1;
        }
        if found_dup {
            return None;
        }
        let ghost mid1 = *ctx;
        match parse_attr_at(ctx, s, p1) {
            Some((a, p2)) => {
                proof {
                    crate::context::lemma_grew_interned_trans(ctx, &mid1, old(ctx));
                }
                attrs.push(NamedAttribute { name: ident, attribute: a });
                if p2 <= p {
                    return None;
                }
                p = p2;
            },
            None => {
                proof {
                    crate::context::lemma_grew_interned_trans(ctx, &mid1, old(ctx));
                }
                return None;
            },
        }
        if p < n && s.get_ascii(p) == B_RBRACE {
            return Some((attrs, p + 1));
        }
        match expect_lit(s, p, ", ") {
            Some(p1b) => {
                if p1b <= p {
                    return None;
                }
                p = p1b;
            },
            None => {
                return None;
            },
        }
    }
}


/// Reads one operation at `pos`: the `module { ... }` sugar or the
/// generic quoted form.  Operations existing beforehand keep their
/// parents; the operation read is standalone.
#[verifier::rlimit(100)]
#[verifier::spinoff_prover]
pub fn parse_op_at(
    ctx: &mut Context,
    s: &str,
    source_filename: &str,
    pos: usize,
    defs: &mut Vec<ParsedDef>,
) -> (r: Option<(OperationRef, usize)>)
    requires
        old(ctx).wf(),
        s.is_ascii(),
        pos <= s@.len(),
        forall|i: int| 0 <= i < old(defs)@.len() ==> (#[trigger] old(defs)@[i]).op.valid(old(ctx)),
    ensures
        final(ctx).wf(),
        old(ctx).ops@.len() <= final(ctx).ops@.len(),
        forall|j: int|
            0 <= j < old(ctx).ops@.len() ==> final(ctx).ops@[j].parent == old(ctx).ops@[j].parent,
        forall|i: int| 0 <= i < final(defs)@.len() ==> (#[trigger] final(defs)@[i]).op.valid(
            final(ctx),
        ),
        match r {
            Some(op_p) => op_p.0.valid(final(ctx)) && final(ctx).ops@[op_p.0.id
                as int].parent is None && pos < op_p.1 <= s@.len() && op_p.0.id >= old(
                ctx,
            ).ops@.len(),
            None => true,
        },
        ({
            let pw = spec_skip_ws(s@, pos as int);
            let mhead = crate::types::spec_expect_lit(s@, pw, "module {"@);
            (mhead matches Some(pb) && spec_skip_ws(s@, pb) < s@.len() && s@[spec_skip_ws(
                s@,
                pb,
            ) as int] as u8 == B_RBRACE) ==> (r matches Some(op_p) && {
                &&& crate::module::spec_is_module(final(ctx), op_p.0)
                &&& op_p.1 as int == spec_skip_ws(s@, mhead->0) + 1
                &&& final(ctx).ops@[op_p.0.id as int].regions@.len() == 1
                &&& final(ctx).regions@[final(ctx).ops@[op_p.0.id as int].regions@[0].id
                    as int].blocks@.len() == 1
                &&& final(ctx).blocks@[final(ctx).regions@[final(ctx).ops@[op_p.0.id
                    as int].regions@[0].id as int].blocks@[0].id as int].ops@.len() == 0
                &&& (final(ctx).locs@[final(ctx).ops@[op_p.0.id as int].location.id
                    as int] matches LocationData::FileLineCol { filename: f, line, col } && f
                    < final(ctx).idents@.len() && crate::context::views(final(ctx).idents@)[f
                    as int] == source_filename@ && (pw == 0 ==> line == 1 && col == 1))
            })
        }),
    decreases s@.len() - pos, 0int,
{
    let ghost sps = spec_skip_ws(s@, pos as int);
    let n = s.unicode_len();
    let p0 = skip_ws(s, pos);
    if p0 >= n {
        return None;
    }
    let (line, col) = line_col(s, p0);
    match expect_lit(s, p0, "module {") {
        Some(pbody) => {
            proof {
                reveal_strlit("module {");
            }
            if pbody <= p0 {
                return None;
            }
            let children = match parse_op_list(ctx, s, source_filename, pbody, defs) {
                Some(c) => c,
                None => {
                    return None;
                },
            };
            let (child_ops, pend) = children;
            let loc = LocationRef::new_file_line_col(ctx, source_filename, line, col);
            let region = RegionRef::new(ctx);
            let no_args: Vec<(TypeRef, LocationRef)> = Vec::new();
            let block = BlockRef::new(ctx, &no_args);
            let mut k: usize = 0;
            while k < child_ops.len()
                invariant
                    ctx.wf(),
                    old(ctx).ops@.len() <= ctx.ops@.len(),
                    forall|j: int|
                        0 <= j < old(ctx).ops@.len() ==> ctx.ops@[j].parent == old(
                            ctx,
                        ).ops@[j].parent,
                    k <= child_ops@.len(),
                    block.id < ctx.blocks@.len(),
                    region.id < ctx.regions@.len(),
                    ctx.regions@[region.id as int].parent is None,
                    ctx.regions@[region.id as int].blocks@.len() == 0,
                    ctx.blocks@[block.id as int].parent is None,
                    ctx.blocks@[block.id as int].ops@.len() == k,
                    ctx.locs@[loc.id as int] matches LocationData::FileLineCol {
                        filename: lf,
                        line: ll,
                        col: lc,
                    } && lf < ctx.idents@.len() && crate::context::views(ctx.idents@)[lf as int]
                        == source_filename@ && ll == line && lc == col,
                    forall|i: int, j: int|
                        0 <= i < j < child_ops@.len() ==> (#[trigger] child_ops@[i]).id < (
                        #[trigger] child_ops@[j]).id,
                    forall|i: int|
                        0 <= i < child_ops@.len() ==> (#[trigger] child_ops@[i]).valid(ctx)
                            && child_ops@[i].id >= old(ctx).ops@.len(),
                    forall|i: int|
                        k <= i < child_ops@.len() ==> ctx.ops@[(#[trigger] child_ops@[i]).id
                            as int].parent is None,
                    forall|i: int|
                        0 <= i < defs@.len() ==> (#[trigger] defs@[i]).op.valid(ctx),
                    loc.valid(ctx),
                decreases child_ops@.len() - k,
            {
                let ghost cb = *ctx;
                block.append_operation(ctx, child_ops[k]);
                proof {
                    assert forall|i: int|
                        k + 1 <= i < child_ops@.len() implies ctx.ops@[(
                    #[trigger] child_ops@[i]).id as int].parent is None by {
                        assert(child_ops@[k as int].id < child_ops@[i].id);
                        assert(ctx.ops@[child_ops@[i].id as int] == cb.ops@[child_ops@[i].id
                            as int]);
                    }
                }
                k = k + 1;
            }
            region.append_block(ctx, block);
            let builder = OperationBuilder::new("builtin.module", loc);
            let mut regions: Vec<RegionRef> = Vec::new();
            regions.push(region);
            let ghost pre = *ctx;
            let built = builder.add_regions(regions).build(ctx);
            proof {
                reveal_strlit("builtin.module");
                reveal_strlit("builtin");
                assert(crate::context::is_first_dot("builtin.module"@, 7));
                assert("builtin.module"@.take(7) =~= "builtin"@);
                assert(crate::context::spec_dialect_ops("builtin"@)[0] == "builtin.module"@);
                crate::context::lemma_name_in_index(
                    crate::context::spec_dialect_ops("builtin"@),
                    0,
                );
                assert(crate::context::spec_operation_registered(&pre, "builtin.module"@));
            }
            match built {
                Some(op) => {
                    proof {
                        let mh = crate::types::spec_expect_lit(s@, sps, "module {"@);
                        let pb = mh->0;
                        if mh is Some && spec_skip_ws(s@, pb) < s@.len() && s@[spec_skip_ws(
                            s@,
                            pb,
                        ) as int] as u8 == B_RBRACE {
                            assert(child_ops@.len() == 0);
                            assert(pend as int == spec_skip_ws(s@, pb) + 1);
                            assert(ctx.ops@[op.id as int].regions@.len() == 1);
                            assert(ctx.ops@[op.id as int].regions@[0] == region);
                            assert(ctx.regions@[region.id as int].blocks@.len() == 1);
                            assert(ctx.regions@[region.id as int].blocks@[0] == block);
                            assert(ctx.blocks@[block.id as int].ops@.len() == 0);
                            assert(ctx.ops@[op.id as int].location == loc);
                            assert(ctx.locs@[loc.id as int] matches LocationData::FileLineCol {
                                filename: lf,
                                line: ll,
                                col: lc,
                            } && lf < ctx.idents@.len() && crate::context::views(ctx.idents@)[lf
                                as int] == source_filename@ && ll == line && lc == col);
                            assert(crate::module::spec_is_module(ctx, op));
                        }
                    }
                    Some((op, pend))
                },
                None => {
                    proof {
                        assert(false);
                    }
                    None
                },
            }
        },
        None => {
            let mut had_results = false;
            let mut number: u64 = 0;
            let mut declared: u64 = 1;
            let mut p: usize = p0;
            if s.get_ascii(p) == B_PERCENT {
                had_results = true;
                match parse_digits(s, p + 1) {
                    Some((nn, p1)) => {
                        number = nn;
                        p = p1;
                    },
                    None => {
                        return None;
                    },
                }
                if p < n && s.get_ascii(p) == B_COLON {
                    match parse_digits(s, p + 1) {
                        Some((m, p1)) => {
                            declared = m;
                            p = p1;
                        },
                        None => {
                            return None;
                        },
                    }
                }
                match expect_lit(s, p, " = ") {
                    Some(p1) => {
                        p = p1;
                    },
                    None => {
                        return None;
                    },
                }
            }
            let (nb, ne) = match parse_quoted(s, p) {
                Some(be) => be,
                None => {
                    return None;
                },
            };
            let name = s.substring_ascii(nb, ne).to_owned();
            p = ne + 1;
            if p >= n || s.get_ascii(p) != B_LPAREN {
                return None;
            }
            p = p + 1;
            let mut operands: Vec<ValueRef> = Vec::new();
            if p < n && s.get_ascii(p) == B_RPAREN {
                p = p + 1;
            } else {
                loop
                    invariant
                        *ctx == *old(ctx),
                        old(ctx).wf(),
                        ctx.wf(),
                        s.is_ascii(),
                        n == s@.len(),
                        p0 < p <= n,
                        crate::types::spec_expect_lit(
                            s@,
                            spec_skip_ws(s@, pos as int),
                            "module {"@,
                        ) is None,
                        forall|i: int|
                            0 <= i < operands@.len() ==> (#[trigger] operands@[i]).valid(ctx),
                        forall|i: int|
                            0 <= i < defs@.len() ==> (#[trigger] defs@[i]).op.valid(ctx),
                    decreases n - p,
                {
                    match parse_operand_ref(ctx, s, p, defs) {
                        Some((v, p1)) => {
                            operands.push(v);
                            if p1 <= p {
                                return None;
                            }
                            p = p1;
                        },
                        None => {
                            return None;
                        },
                    }
                    if p < n && s.get_ascii(p) == B_RPAREN {
                        p = p + 1;
                        break;
                    }
                    match expect_lit(s, p, ", ") {
                        Some(p1) => {
                            if p1 <= p {
                                return None;
                            }
                            p = p1;
                        },
                        None => {
                            return None;
                        },
                    }
                }
            }
            let mut attrs: Vec<NamedAttribute> = Vec::new();
            if p < n && s.get_ascii(p) == B_SPACE && p + 1 < n && s.get_ascii(p + 1)
                == B_LBRACE {
                match parse_attr_dict(ctx, s, p + 1) {
                    Some((a, p1)) => {
                        attrs = a;
                        p = p1;
                    },
                    None => {
                        return None;
                    },
                }
            }
            let p1 = match expect_lit(s, p, " : ") {
                Some(p1) => p1,
                None => {
                    return None;
                },
            };
            let (operand_tys, p2) = match parse_type_list(ctx, s, p1) {
                Some(tp) => tp,
                None => {
                    return None;
                },
            };
            if operand_tys.len() != operands.len() {
                return None;
            }
            let p3 = match expect_lit(s, p2, " -> ") {
                Some(p3) => p3,
                None => {
                    return None;
                },
            };
            let (result_tys, p4) = match parse_type_list(ctx, s, p3) {
                Some(tp) => tp,
                None => {
                    return None;
                },
            };
            if had_results {
                if declared >= 1_000_000 {
                    return None;
                }
                if result_tys.len() != declared as usize {
                    return None;
                }
            } else {
                if result_tys.len() != 0 {
                    return None;
                }
            }
            if p4 <= p0 {
                return None;
            }
            let loc = LocationRef::new_file_line_col(ctx, source_filename, line, col);
            let builder = OperationBuilder::new(name.as_str(), loc).add_operands(
                &operands,
            ).add_results(&result_tys).add_attributes(&attrs);
            match builder.build(ctx) {
                Some(op) => {
                    if had_results {
                        defs.push(ParsedDef { number, op });
                    }
                    Some((op, p4))
                },
                None => None,
            }
        },
    }
}

/// Reads the operations of a block body up to and including the closing
/// brace, yielding them standalone in source order.
pub fn parse_op_list(
    ctx: &mut Context,
    s: &str,
    source_filename: &str,
    pos: usize,
    defs: &mut Vec<ParsedDef>,
) -> (r: Option<(Vec<OperationRef>, usize)>)
    requires
        old(ctx).wf(),
        s.is_ascii(),
        pos <= s@.len(),
        forall|i: int| 0 <= i < old(defs)@.len() ==> (#[trigger] old(defs)@[i]).op.valid(old(ctx)),
    ensures
        final(ctx).wf(),
        old(ctx).ops@.len() <= final(ctx).ops@.len(),
        forall|j: int|
            0 <= j < old(ctx).ops@.len() ==> final(ctx).ops@[j].parent == old(ctx).ops@[j].parent,
        forall|i: int| 0 <= i < final(defs)@.len() ==> (#[trigger] final(defs)@[i]).op.valid(
            final(ctx),
        ),
        match r {
            Some(v_p) => pos <= v_p.1 <= s@.len() && (forall|i: int|
                0 <= i < v_p.0@.len() ==> (#[trigger] v_p.0@[i]).valid(final(ctx))
                    && final(ctx).ops@[v_p.0@[i].id as int].parent is None && v_p.0@[i].id >= old(
                    ctx,
                ).ops@.len()) && (forall|i: int, j: int|
                0 <= i < j < v_p.0@.len() ==> (#[trigger] v_p.0@[i]).id < (
                #[trigger] v_p.0@[j]).id),
            None => true,
        },
        ({
            let pw = spec_skip_ws(s@, pos as int);
            (pw < s@.len() && s@[pw as int] as u8 == B_RBRACE) ==> (r matches Some(v_p)
                && v_p.0@.len() == 0 && v_p.1 as int == pw + 1 && *final(ctx) == *old(ctx)
                && final(defs)@ == old(defs)@)
        }),
    decreases s@.len() - pos, 1int,
{
    let n = s.unicode_len();
    let mut ops: Vec<OperationRef> = Vec::new();
    let mut p: usize = pos;
    loop
        invariant
            ({
                let pw0 = spec_skip_ws(s@, pos as int);
                (pw0 < s@.len() && s@[pw0 as int] as u8 == B_RBRACE) ==> (ops@.len() == 0 && p
                    == pos && *ctx == *old(ctx) && defs@ == old(defs)@)
            }),
            ctx.wf(),
            old(ctx).ops@.len() <= ctx.ops@.len(),
            forall|j: int|
                0 <= j < old(ctx).ops@.len() ==> ctx.ops@[j].parent == old(ctx).ops@[j].parent,
            s.is_ascii(),
            n == s@.len(),
            pos <= p <= n,
            forall|i: int|
                0 <= i < ops@.len() ==> (#[trigger] ops@[i]).valid(ctx) && ctx.ops@[ops@[i].id
                    as int].parent is None && ops@[i].id >= old(ctx).ops@.len(),
            forall|i: int, j: int|
                0 <= i < j < ops@.len() ==> (#[trigger] ops@[i]).id < (#[trigger] ops@[j]).id,
            forall|i: int| 0 <= i < defs@.len() ==> (#[trigger] defs@[i]).op.valid(ctx),
        decreases n - p,
    {
        let pw = skip_ws(s, p);
        if pw >= n {
            return None;
        }
        if s.get_ascii(pw) == B_RBRACE {
            return Some((ops, pw + 1));
        }
        if pw < p {
            return None;
        }
        let ghost cpre = *ctx;
        match parse_op_at(ctx, s, source_filename, pw, defs) {
            Some((op, p1)) => {
                proof {
                    assert forall|i: int|
                        0 <= i < ops@.len() implies (#[trigger] ops@[i]).valid(ctx)
                        && ctx.ops@[ops@[i].id as int].parent is None by {
                        assert(cpre.ops@[ops@[i].id as int].parent is None);
                        assert(ctx.ops@[ops@[i].id as int].parent == cpre.ops@[ops@[i].id
                            as int].parent);
                    }
                    assert(op.id >= cpre.ops@.len());
                    assert forall|i: int| 0 <= i < ops@.len() implies (#[trigger] ops@[i]).id
                        < op.id by {
                        assert(ops@[i].valid(&cpre));
                    }
                }
                ops.push(op);
                if p1 <= p {
                    return None;
                }
                p = p1;
            },
            None => {
                return None;
            },
        }
    }
}

impl OperationRef {
    /// Attempts to parse an operation tree from the provided source
    /// text; absence on malformed input, never a failure.  The
    /// `source_filename` names the locations of what is read.  The
    /// contract pins context well-formedness, that the result is a
    /// valid standalone operation built through the verified
    /// constructors, and the canonical empty-module form in full: a
    /// source that is an empty module body yields a module operation
    /// owning one empty block, located at the file position of its
    /// first token.  The rest of the operation grammar is the foreign
    /// format's and is pinned by the test suite, not restated here.
    pub fn parse(ctx: &mut Context, source: &str, source_filename: &str) -> (r: Option<
        OperationRef,
    >)
        requires
            old(ctx).wf(),
        ensures
            final(ctx).wf(),
            match r {
                Some(op) => op.valid(final(ctx)) && final(ctx).ops@[op.id
                    as int].parent is None,
                None => true,
            },
            ({
                let pw = spec_skip_ws(source@, 0);
                let mhead = crate::types::spec_expect_lit(source@, pw, "module {"@);
                let pb = mhead->0;
                (vstd::string::is_ascii(source) && mhead is Some && spec_skip_ws(source@, pb)
                    < source@.len() && source@[spec_skip_ws(source@, pb) as int] as u8 == B_RBRACE
                    && spec_skip_ws(source@, spec_skip_ws(source@, pb) + 1) == source@.len()) ==> (
                r matches Some(op) && {
                    &&& crate::module::spec_is_module(final(ctx), op)
                    &&& final(ctx).ops@[op.id as int].regions@.len() == 1
                    &&& final(ctx).regions@[final(ctx).ops@[op.id as int].regions@[0].id
                        as int].blocks@.len() == 1
                    &&& final(ctx).blocks@[final(ctx).regions@[final(ctx).ops@[op.id
                        as int].regions@[0].id as int].blocks@[0].id as int].ops@.len() == 0
                    &&& (final(ctx).locs@[final(ctx).ops@[op.id as int].location.id
                        as int] matches LocationData::FileLineCol { filename: f, line, col } && f
                        < final(ctx).idents@.len() && crate::context::views(final(ctx).idents@)[f
                        as int] == source_filename@ && (pw == 0 ==> line == 1 && col == 1))
                })
            }),
    {
        if !source.is_ascii() {
            return None;
        }
        let mut defs: Vec<ParsedDef> = Vec::new();
        match parse_op_at(ctx, source, source_filename, 0, &mut defs) {
            Some((op, p)) => {
                let p2 = skip_ws(source, p);
                if p2 == source.unicode_len() {
                    Some(op)
                } else {
                    None
                }
            },
            None => None,
        }
    }
}

} // verus!
