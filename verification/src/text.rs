//! Textual form of the IR: shared printing helpers.  Every printer is
//! specified exactly: the executable code produces precisely the
//! character sequence the specification functions describe.

use vstd::prelude::*;
use crate::attributes::spec_attr_text;
use crate::attributes::AttributeRef;
use crate::block::BlockRef;
use crate::context::views;
use crate::context::Context;
use crate::operation::OperationRef;
use crate::region::RegionRef;
use crate::types::spec_type_text;
use crate::value::spec_value_type;
use crate::value::ValueRef;

verus! {

/// The single decimal digit character sequence for `d` (`d < 10`).
pub open spec fn digit_str(d: nat) -> Seq<char> {
    if d == 0 {
        "0"@
    } else if d == 1 {
        "1"@
    } else if d == 2 {
        "2"@
    } else if d == 3 {
        "3"@
    } else if d == 4 {
        "4"@
    } else if d == 5 {
        "5"@
    } else if d == 6 {
        "6"@
    } else if d == 7 {
        "7"@
    } else if d == 8 {
        "8"@
    } else {
        "9"@
    }
}

/// The decimal notation of `n`, most significant digit first.
pub open spec fn dec_digits(n: nat) -> Seq<char>
    decreases n,
{
    if n < 10 {
        digit_str(n)
    } else {
        dec_digits(n / 10) + digit_str(n % 10)
    }
}

/// The decimal notation of a possibly negative number.
pub open spec fn dec_int(v: int) -> Seq<char> {
    if v < 0 {
        "-"@ + dec_digits((-v) as nat)
    } else {
        dec_digits(v as nat)
    }
}

/// Appends one decimal digit to `out`.
pub fn append_digit(out: &mut String, d: u64)
    requires
        d < 10,
    ensures
        final(out)@ == old(out)@ + digit_str(d as nat),
{
    if d == 0 {
        out.append("0");
    } else if d == 1 {
        out.append("1");
    } else if d == 2 {
        out.append("2");
    } else if d == 3 {
        out.append("3");
    } else if d == 4 {
        out.append("4");
    } else if d == 5 {
        out.append("5");
    } else if d == 6 {
        out.append("6");
    } else if d == 7 {
        out.append("7");
    } else if d == 8 {
        out.append("8");
    } else {
        out.append("9");
    }
}

/// Appends the decimal notation of `n` to `out`.
pub fn append_dec_u64(out: &mut String, n: u64)
    ensures
        final(out)@ == old(out)@ + dec_digits(n as nat),
    decreases n,
{
    if n < 10 {
        append_digit(out, n);
    } else {
        append_dec_u64(out, n / 10);
        append_digit(out, n % 10);
        proof {
            assert((*out)@ =~= old(out)@ + dec_digits(n as nat));
        }
    }
}

/// Appends the decimal notation of `v` to `out`.
pub fn append_dec_i64(out: &mut String, v: i64)
    ensures
        final(out)@ == old(out)@ + dec_int(v as int),
{
    if v < 0 {
        out.append("-");
        let m: u64 = (-(v as i128)) as u64;
        proof {
            assert(m as nat == (-(v as int)) as nat);
        }
        append_dec_u64(out, m);
        proof {
            assert((*out)@ =~= old(out)@ + dec_int(v as int));
        }
    } else {
        let m: u64 = v as u64;
        append_dec_u64(out, m);
    }
}


/// Saturating addition on machine indices.
pub open spec fn spec_sat_add(a: usize, b: usize) -> usize {
    if a + b > usize::MAX {
        usize::MAX
    } else {
        (a + b) as usize
    }
}

/// Adds two indices, saturating instead of overflowing.
pub fn sat_add(a: usize, b: usize) -> (r: usize)
    ensures
        r == spec_sat_add(a, b),
{
    if a > usize::MAX - b {
        usize::MAX
    } else {
        a + b
    }
}

/// A run of `n` spaces.
pub open spec fn spaces(n: int) -> Seq<char>
    decreases n,
{
    if n <= 0 {
        Seq::empty()
    } else {
        spaces(n - 1) + " "@
    }
}

/// Appends `n` spaces to `out`.
pub fn append_spaces(out: &mut String, n: usize)
    ensures
        final(out)@ == old(out)@ + spaces(n as int),
{
    let mut i: usize = 0;
    while i < n
        invariant
            i <= n,
            out@ == old(out)@ + spaces(i as int),
        decreases n - i,
    {
        out.append(" ");
        i = i + 1;
    }
}

/// Looks an operation up in a numbering table: the value number base
/// assigned to its first result.
pub open spec fn num_get(num: Seq<(usize, usize)>, o: usize) -> Option<usize>
    decreases num.len(),
{
    if num.len() == 0 {
        None
    } else if num[0].0 == o {
        Some(num[0].1)
    } else {
        num_get(num.drop_first(), o)
    }
}

/// Looks an operation up in the numbering table.
pub fn num_lookup(num: &Vec<(usize, usize)>, o: usize) -> (r: Option<usize>)
    ensures
        r == num_get(num@, o),
{
    let mut j: usize = 0;
    proof {
        assert(num@.skip(0) =~= num@);
    }
    while j < num.len()
        invariant
            j <= num@.len(),
            num_get(num@, o) == num_get(num@.skip(j as int), o),
        decreases num@.len() - j,
    {
        proof {
            assert(num@.skip(j as int)[0] == num@[j as int]);
            assert(num@.skip(j as int).drop_first() =~= num@.skip(j as int + 1));
        }
        if num[j].0 == o {
            return Some(num[j].1);
        }
        j = j + 1;
    }
    proof {
        assert(num@.skip(num@.len() as int) =~= Seq::<(usize, usize)>::empty());
    }
    None
}

/// The printed reference to a value: a numbered result such as `%0` or
/// `%0#1`, or a block argument such as `%arg0`.
pub open spec fn spec_operand_text(ctx: &Context, num: Seq<(usize, usize)>, v: ValueRef) -> Seq<
    char,
> {
    match v {
        ValueRef::Result { op, index } => match num_get(num, op.id) {
            Some(base) => "%"@ + dec_digits(base as nat) + if op.id < ctx.ops@.len()
                && ctx.ops@[op.id as int].result_types@.len() > 1 {
                "#"@ + dec_digits(index as nat)
            } else {
                Seq::empty()
            },
            None => "%?"@,
        },
        ValueRef::Argument { block, index } => "%arg"@ + dec_digits(index as nat),
    }
}

/// Appends the printed reference to `v`.
pub fn append_operand_text(ctx: &Context, num: &Vec<(usize, usize)>, v: ValueRef,
    out: &mut String)
    requires
        ctx.wf(),
    ensures
        final(out)@ == old(out)@ + spec_operand_text(ctx, num@, v),
{
    let ghost goal = spec_operand_text(ctx, num@, v);
    match v {
        ValueRef::Result { op, index } => {
            match num_lookup(num, op.id) {
                Some(base) => {
                    out.append("%");
                    append_dec_u64(out, base as u64);
                    if op.id < ctx.ops.len() && ctx.ops[op.id].result_types.len() > 1 {
                        out.append("#");
                        append_dec_u64(out, index as u64);
                    }
                    proof {
                        assert(out@ =~= old(out)@ + goal);
                    }
                },
                None => {
                    out.append("%?");
                },
            }
        },
        ValueRef::Argument { block, index } => {
            out.append("%arg");
            append_dec_u64(out, index as u64);
            proof {
                assert(out@ =~= old(out)@ + goal);
            }
        },
    }
}

/// The comma-separated printed references of an operand list.
pub open spec fn spec_operands_text(ctx: &Context, num: Seq<(usize, usize)>, v: Seq<ValueRef>)
    -> Seq<char>
    decreases v.len(),
{
    if v.len() == 0 {
        Seq::empty()
    } else if v.len() == 1 {
        spec_operand_text(ctx, num, v[0])
    } else {
        spec_operands_text(ctx, num, v.drop_last()) + ", "@ + spec_operand_text(ctx, num, v.last())
    }
}

/// Appends the comma-separated printed references of an operand list.
pub fn append_operands_text(ctx: &Context, num: &Vec<(usize, usize)>, v: &Vec<ValueRef>,
    out: &mut String)
    requires
        ctx.wf(),
    ensures
        final(out)@ == old(out)@ + spec_operands_text(ctx, num@, v@),
{
    let mut i: usize = 0;
    while i < v.len()
        invariant
            ctx.wf(),
            i <= v@.len(),
            out@ == old(out)@ + spec_operands_text(ctx, num@, v@.take(i as int)),
        decreases v@.len() - i,
    {
        if i > 0 {
            out.append(", ");
        }
        append_operand_text(ctx, num, v[i], out);
        proof {
            assert(v@.take(i + 1).drop_last() =~= v@.take(i as int));
            assert(v@.take(i + 1).last() == v@[i as int]);
            assert(out@ =~= old(out)@ + spec_operands_text(ctx, num@, v@.take(i + 1)));
        }
        i = i + 1;
    }
    proof {
        assert(v@.take(v@.len() as int) =~= v@);
    }
}

/// The printed type of a value, guarded by validity.
pub open spec fn spec_value_type_text(ctx: &Context, v: ValueRef) -> Seq<char> {
    if v.valid(ctx) {
        spec_type_text(ctx.types@, views(ctx.idents@), spec_value_type(ctx, v).id as int)
    } else {
        Seq::empty()
    }
}

/// The comma-separated printed types of an operand list.
pub open spec fn spec_operand_types_text(ctx: &Context, v: Seq<ValueRef>) -> Seq<char>
    decreases v.len(),
{
    if v.len() == 0 {
        Seq::empty()
    } else if v.len() == 1 {
        spec_value_type_text(ctx, v[0])
    } else {
        spec_operand_types_text(ctx, v.drop_last()) + ", "@ + spec_value_type_text(ctx, v.last())
    }
}

/// Appends the comma-separated printed types of an operand list.
pub fn append_operand_types_text(ctx: &Context, v: &Vec<ValueRef>, out: &mut String)
    requires
        ctx.wf(),
        forall|k: int| 0 <= k < v@.len() ==> (#[trigger] v@[k]).valid(ctx),
    ensures
        final(out)@ == old(out)@ + spec_operand_types_text(ctx, v@),
{
    let mut i: usize = 0;
    while i < v.len()
        invariant
            ctx.wf(),
            forall|k: int| 0 <= k < v@.len() ==> (#[trigger] v@[k]).valid(ctx),
            i <= v@.len(),
            out@ == old(out)@ + spec_operand_types_text(ctx, v@.take(i as int)),
        decreases v@.len() - i,
    {
        if i > 0 {
            out.append(", ");
        }
        let t = v[i].get_type(ctx);
        crate::types::append_type_text(ctx, t, out);
        proof {
            assert(v@.take(i + 1).drop_last() =~= v@.take(i as int));
            assert(v@.take(i + 1).last() == v@[i as int]);
            assert(out@ =~= old(out)@ + spec_operand_types_text(ctx, v@.take(i + 1)));
        }
        i = i + 1;
    }
    proof {
        assert(v@.take(v@.len() as int) =~= v@);
    }
}

/// The comma-separated printed forms of a type list.
pub open spec fn spec_types_text(ctx: &Context, v: Seq<crate::types::TypeRef>) -> Seq<char>
    decreases v.len(),
{
    if v.len() == 0 {
        Seq::empty()
    } else if v.len() == 1 {
        spec_type_text(ctx.types@, views(ctx.idents@), v[0].id as int)
    } else {
        spec_types_text(ctx, v.drop_last()) + ", "@ + spec_type_text(
            ctx.types@,
            views(ctx.idents@),
            v.last().id as int,
        )
    }
}

/// Appends the comma-separated printed forms of a type list.
pub fn append_types_text(ctx: &Context, v: &Vec<crate::types::TypeRef>, out: &mut String)
    requires
        ctx.wf(),
        forall|k: int| 0 <= k < v@.len() ==> (#[trigger] v@[k]).id < ctx.types@.len(),
    ensures
        final(out)@ == old(out)@ + spec_types_text(ctx, v@),
{
    let mut i: usize = 0;
    while i < v.len()
        invariant
            ctx.wf(),
            forall|k: int| 0 <= k < v@.len() ==> (#[trigger] v@[k]).id < ctx.types@.len(),
            i <= v@.len(),
            out@ == old(out)@ + spec_types_text(ctx, v@.take(i as int)),
        decreases v@.len() - i,
    {
        if i > 0 {
            out.append(", ");
        }
        crate::types::append_type_text(ctx, v[i], out);
        proof {
            assert(v@.take(i + 1).drop_last() =~= v@.take(i as int));
            assert(v@.take(i + 1).last() == v@[i as int]);
            assert(out@ =~= old(out)@ + spec_types_text(ctx, v@.take(i + 1)));
        }
        i = i + 1;
    }
    proof {
        assert(v@.take(v@.len() as int) =~= v@);
    }
}

/// Whether `s` prints as a bare identifier in an attribute dictionary:
/// a letter, underscore or dollar first, then letters, digits,
/// underscores, dollars and dots.
pub open spec fn is_bare_ident(s: Seq<char>) -> bool {
    s.len() > 0 && ('a' <= s[0] <= 'z' || 'A' <= s[0] <= 'Z' || s[0] == '_' || s[0] == '$') && (
    forall|i: int|
        0 < i < s.len() ==> ('a' <= #[trigger] s[i] <= 'z' || 'A' <= s[i] <= 'Z' || '0' <= s[i]
            <= '9' || s[i] == '_' || s[i] == '$' || s[i] == '.'))
}

/// Checks whether `s` prints as a bare identifier.
pub fn check_bare_ident(s: &str) -> (r: bool)
    ensures
        r == is_bare_ident(s@),
{
    let n = s.unicode_len();
    if n == 0 {
        return false;
    }
    let c0 = s.get_char(0);
    if !(('a' <= c0 && c0 <= 'z') || ('A' <= c0 && c0 <= 'Z') || c0 == '_' || c0 == '$') {
        return false;
    }
    let mut i: usize = 1;
    while i < n
        invariant
            n == s@.len(),
            1 <= i <= n,
            forall|j: int|
                0 < j < i ==> ('a' <= #[trigger] s@[j] <= 'z' || 'A' <= s@[j] <= 'Z' || '0'
                    <= s@[j] <= '9' || s@[j] == '_' || s@[j] == '$' || s@[j] == '.'),
        decreases n - i,
    {
        let c = s.get_char(i);
        if !(('a' <= c && c <= 'z') || ('A' <= c && c <= 'Z') || ('0' <= c && c <= '9') || c == '_'
            || c == '$' || c == '.') {
            return false;
        }
        i = i + 1;
    }
    true
}

/// The printed name part of one dictionary entry: bare or quoted.
pub open spec fn spec_attr_name_text(ctx: &Context, nid: usize) -> Seq<char> {
    let name = if nid < views(ctx.idents@).len() {
        views(ctx.idents@)[nid as int]
    } else {
        Seq::empty()
    };
    if is_bare_ident(name) {
        name
    } else {
        "\""@ + name + "\""@
    }
}

/// The printed form of an attribute dictionary's entries, comma
/// separated.
pub open spec fn spec_dict_entries_text(ctx: &Context, d: Seq<(usize, AttributeRef)>) -> Seq<char>
    decreases d.len(),
{
    if d.len() == 0 {
        Seq::empty()
    } else if d.len() == 1 {
        spec_attr_name_text(ctx, d[0].0) + " = "@ + spec_attr_text(ctx, d[0].1.id as int)
    } else {
        spec_dict_entries_text(ctx, d.drop_last()) + ", "@ + spec_attr_name_text(ctx, d.last().0)
            + " = "@ + spec_attr_text(ctx, d.last().1.id as int)
    }
}

/// Appends the printed entries of an attribute dictionary.
pub fn append_dict_entries_text(ctx: &Context, d: &Vec<(usize, AttributeRef)>, out: &mut String)
    requires
        ctx.wf(),
        forall|k: int|
            0 <= k < d@.len() ==> (#[trigger] d@[k]).0 < ctx.idents@.len() && d@[k].1.id
                < ctx.attrs@.len(),
    ensures
        final(out)@ == old(out)@ + spec_dict_entries_text(ctx, d@),
{
    let mut i: usize = 0;
    while i < d.len()
        invariant
            ctx.wf(),
            forall|k: int|
                0 <= k < d@.len() ==> (#[trigger] d@[k]).0 < ctx.idents@.len() && d@[k].1.id
                    < ctx.attrs@.len(),
            i <= d@.len(),
            out@ == old(out)@ + spec_dict_entries_text(ctx, d@.take(i as int)),
        decreases d@.len() - i,
    {
        if i > 0 {
            out.append(", ");
        }
        let name = ctx.idents[d[i].0].clone();
        if check_bare_ident(name.as_str()) {
            out.append(name.as_str());
        } else {
            out.append("\"");
            out.append(name.as_str());
            out.append("\"");
        }
        out.append(" = ");
        crate::attributes::append_attr_text(ctx, d[i].1, out);
        proof {
            assert(d@.take(i + 1).drop_last() =~= d@.take(i as int));
            assert(d@.take(i + 1).last() == d@[i as int]);
            assert(out@ =~= old(out)@ + spec_dict_entries_text(ctx, d@.take(i + 1)));
        }
        i = i + 1;
    }
    proof {
        assert(d@.take(d@.len() as int) =~= d@);
    }
}


/// Saturating addition of a mathematical count to an index.
pub open spec fn sat_add_nat(a: usize, n: nat) -> usize {
    if a + n > usize::MAX {
        usize::MAX
    } else {
        (a + n) as usize
    }
}

/// The printed form of one operation at the given indentation, together
/// with the value-numbering table and counter after printing it.  The
/// fuel bounds the nesting depth; any fuel beyond the depth of the tree
/// gives the same text.
pub open spec fn pr_op(
    ctx: &Context,
    op: OperationRef,
    indent: usize,
    num: Seq<(usize, usize)>,
    counter: usize,
    fuel: nat,
) -> (Seq<char>, Seq<(usize, usize)>, usize)
    decreases fuel, 0int, 0int,
{
    if fuel == 0 || op.id >= ctx.ops@.len() {
        (Seq::empty(), num, counter)
    } else {
        let od = ctx.ops@[op.id as int];
        let name = if od.name < views(ctx.idents@).len() {
            views(ctx.idents@)[od.name as int]
        } else {
            Seq::empty()
        };
        if name == "builtin.module"@ {
            let inner = if od.regions@.len() > 0 && (od.regions@[0].id as int)
                < ctx.regions@.len() {
                pr_block_list(
                    ctx,
                    ctx.regions@[od.regions@[0].id as int].blocks@,
                    spec_sat_add(indent, 2),
                    num,
                    counter,
                    (fuel - 1) as nat,
                )
            } else {
                (Seq::empty(), num, counter)
            };
            (
                spaces(indent as int) + "module {\n"@ + inner.0 + spaces(indent as int) + "}\n"@,
                inner.1,
                inner.2,
            )
        } else {
            let nres = od.result_types@.len();
            let prefix = if nres == 0 {
                Seq::empty()
            } else if nres == 1 {
                "%"@ + dec_digits(counter as nat) + " = "@
            } else {
                "%"@ + dec_digits(counter as nat) + ":"@ + dec_digits(nres) + " = "@
            };
            let num1 = if nres > 0 {
                num.push((op.id, counter))
            } else {
                num
            };
            let counter1 = sat_add_nat(counter, nres);
            let regions = if od.regions@.len() > 0 {
                let rr = pr_region_list(
                    ctx,
                    od.regions@,
                    indent,
                    num1,
                    counter1,
                    (fuel - 1) as nat,
                );
                (" ("@ + rr.0 + ")"@, rr.1, rr.2)
            } else {
                (Seq::empty(), num1, counter1)
            };
            let dict = od.inherent@ + od.discardable@;
            let attrs = if dict.len() > 0 {
                " {"@ + spec_dict_entries_text(ctx, dict) + "}"@
            } else {
                Seq::empty()
            };
            let rtypes = if nres == 1 {
                spec_type_text(ctx.types@, views(ctx.idents@), od.result_types@[0].id as int)
            } else {
                "("@ + spec_types_text(ctx, od.result_types@) + ")"@
            };
            (
                spaces(indent as int) + prefix + "\""@ + name + "\"("@ + spec_operands_text(
                    ctx,
                    num1,
                    od.operands@,
                ) + ")"@ + regions.0 + attrs + " : ("@ + spec_operand_types_text(ctx, od.operands@)
                    + ") -> "@ + rtypes + "\n"@,
                regions.1,
                regions.2,
            )
        }
    }
}

/// The printed forms of a list of sibling operations, left to right.
pub open spec fn pr_op_list(
    ctx: &Context,
    list: Seq<OperationRef>,
    indent: usize,
    num: Seq<(usize, usize)>,
    counter: usize,
    fuel: nat,
) -> (Seq<char>, Seq<(usize, usize)>, usize)
    decreases fuel, 1int, list.len(),
{
    if list.len() == 0 {
        (Seq::empty(), num, counter)
    } else {
        let first = pr_op_list(ctx, list.drop_last(), indent, num, counter, fuel);
        let last = pr_op(ctx, list.last(), indent, first.1, first.2, fuel);
        (first.0 + last.0, last.1, last.2)
    }
}

/// The printed bodies of a list of blocks, in order; block labels and
/// arguments are left implicit.
pub open spec fn pr_block_list(
    ctx: &Context,
    list: Seq<BlockRef>,
    indent: usize,
    num: Seq<(usize, usize)>,
    counter: usize,
    fuel: nat,
) -> (Seq<char>, Seq<(usize, usize)>, usize)
    decreases fuel, 2int, list.len(),
{
    if list.len() == 0 {
        (Seq::empty(), num, counter)
    } else {
        let first = pr_block_list(ctx, list.drop_last(), indent, num, counter, fuel);
        let ops = if (list.last().id as int) < ctx.blocks@.len() {
            pr_op_list(
                ctx,
                ctx.blocks@[list.last().id as int].ops@,
                indent,
                first.1,
                first.2,
                fuel,
            )
        } else {
            (Seq::empty(), first.1, first.2)
        };
        (first.0 + ops.0, ops.1, ops.2)
    }
}

/// The printed forms of a list of regions, comma separated, each in
/// braces.
pub open spec fn pr_region_list(
    ctx: &Context,
    list: Seq<RegionRef>,
    indent: usize,
    num: Seq<(usize, usize)>,
    counter: usize,
    fuel: nat,
) -> (Seq<char>, Seq<(usize, usize)>, usize)
    decreases fuel, 3int, list.len(),
{
    if list.len() == 0 {
        (Seq::empty(), num, counter)
    } else {
        let first = pr_region_list(ctx, list.drop_last(), indent, num, counter, fuel);
        let body = if (list.last().id as int) < ctx.regions@.len() {
            pr_block_list(
                ctx,
                ctx.regions@[list.last().id as int].blocks@,
                spec_sat_add(indent, 2),
                first.1,
                first.2,
                fuel,
            )
        } else {
            (Seq::empty(), first.1, first.2)
        };
        (
            first.0 + (if list.len() > 1 {
                ", "@
            } else {
                Seq::empty()
            }) + "{\n"@ + body.0 + spaces(indent as int) + "}"@,
            body.1,
            body.2,
        )
    }
}

/// Builds the combined attribute dictionary of an operation: inherent
/// entries first, discardable entries after.
pub fn combined_dict(ctx: &Context, op: OperationRef) -> (r: Vec<(usize, AttributeRef)>)
    requires
        ctx.wf(),
        op.id < ctx.ops@.len(),
    ensures
        r@ == ctx.ops@[op.id as int].inherent@ + ctx.ops@[op.id as int].discardable@,
{
    let mut dict: Vec<(usize, AttributeRef)> = Vec::new();
    let mut i: usize = 0;
    let ni = ctx.ops[op.id].inherent.len();
    while i < ni
        invariant
            op.id < ctx.ops@.len(),
            ni == ctx.ops@[op.id as int].inherent@.len(),
            i <= ni,
            dict@ == ctx.ops@[op.id as int].inherent@.take(i as int),
        decreases ni - i,
    {
        dict.push(ctx.ops[op.id].inherent[i]);
        proof {
            assert(dict@ =~= ctx.ops@[op.id as int].inherent@.take(i + 1));
        }
        i = i + 1;
    }
    let nd = ctx.ops[op.id].discardable.len();
    let mut j: usize = 0;
    proof {
        assert(ctx.ops@[op.id as int].inherent@.take(ni as int) =~= ctx.ops@[op.id
            as int].inherent@);
        assert(dict@ =~= ctx.ops@[op.id as int].inherent@ + ctx.ops@[op.id
            as int].discardable@.take(0));
    }
    while j < nd
        invariant
            op.id < ctx.ops@.len(),
            nd == ctx.ops@[op.id as int].discardable@.len(),
            j <= nd,
            dict@ == ctx.ops@[op.id as int].inherent@ + ctx.ops@[op.id
                as int].discardable@.take(j as int),
        decreases nd - j,
    {
        dict.push(ctx.ops[op.id].discardable[j]);
        proof {
            assert(dict@ =~= ctx.ops@[op.id as int].inherent@ + ctx.ops@[op.id
                as int].discardable@.take(j + 1));
        }
        j = j + 1;
    }
    proof {
        assert(ctx.ops@[op.id as int].discardable@.take(nd as int) =~= ctx.ops@[op.id
            as int].discardable@);
        assert(dict@ =~= ctx.ops@[op.id as int].inherent@ + ctx.ops@[op.id as int].discardable@);
    }
    dict
}


/// Unfolds the printing of an operation when the fuel is exhausted or
/// the handle is out of range.
pub proof fn lemma_pr_op_trivial(
    ctx: &Context,
    op: OperationRef,
    indent: usize,
    num: Seq<(usize, usize)>,
    counter: usize,
    fuel: nat,
)
    requires
        fuel == 0 || op.id >= ctx.ops@.len(),
    ensures
        pr_op(ctx, op, indent, num, counter, fuel) == (Seq::<char>::empty(), num, counter),
{
    reveal_with_fuel(pr_op, 1);
}

/// Unfolds the printing of a module operation.
pub proof fn lemma_pr_op_module(
    ctx: &Context,
    op: OperationRef,
    indent: usize,
    num: Seq<(usize, usize)>,
    counter: usize,
    fuel: nat,
)
    requires
        fuel >= 1,
        op.id < ctx.ops@.len(),
        ctx.ops@[op.id as int].name < ctx.idents@.len(),
        views(ctx.idents@)[ctx.ops@[op.id as int].name as int] == "builtin.module"@,
    ensures
        ({
            let od = ctx.ops@[op.id as int];
            let inner = if od.regions@.len() > 0 && (od.regions@[0].id as int)
                < ctx.regions@.len() {
                pr_block_list(
                    ctx,
                    ctx.regions@[od.regions@[0].id as int].blocks@,
                    spec_sat_add(indent, 2),
                    num,
                    counter,
                    (fuel - 1) as nat,
                )
            } else {
                (Seq::<char>::empty(), num, counter)
            };
            pr_op(ctx, op, indent, num, counter, fuel) == (
                spaces(indent as int) + "module {\n"@ + inner.0 + spaces(indent as int) + "}\n"@,
                inner.1,
                inner.2,
            )
        }),
{
    reveal_with_fuel(pr_op, 1);
}

/// Unfolds the printing of a non-module operation in generic form.
pub proof fn lemma_pr_op_generic(
    ctx: &Context,
    op: OperationRef,
    indent: usize,
    num: Seq<(usize, usize)>,
    counter: usize,
    fuel: nat,
)
    requires
        fuel >= 1,
        op.id < ctx.ops@.len(),
        ctx.ops@[op.id as int].name < ctx.idents@.len(),
        views(ctx.idents@)[ctx.ops@[op.id as int].name as int] != "builtin.module"@,
    ensures
        ({
            let od = ctx.ops@[op.id as int];
            let name = views(ctx.idents@)[od.name as int];
            let nres = od.result_types@.len();
            let prefix: Seq<char> = if nres == 0 {
                Seq::<char>::empty()
            } else if nres == 1 {
                "%"@ + dec_digits(counter as nat) + " = "@
            } else {
                "%"@ + dec_digits(counter as nat) + ":"@ + dec_digits(nres) + " = "@
            };
            let num1 = if nres > 0 {
                num.push((op.id, counter))
            } else {
                num
            };
            let counter1 = sat_add_nat(counter, nres);
            let regions = if od.regions@.len() > 0 {
                let rr = pr_region_list(ctx, od.regions@, indent, num1, counter1, (fuel - 1) as nat);
                (" ("@ + rr.0 + ")"@, rr.1, rr.2)
            } else {
                (Seq::<char>::empty(), num1, counter1)
            };
            let dict = od.inherent@ + od.discardable@;
            let attrs: Seq<char> = if dict.len() > 0 {
                " {"@ + spec_dict_entries_text(ctx, dict) + "}"@
            } else {
                Seq::<char>::empty()
            };
            let rtypes: Seq<char> = if nres == 1 {
                spec_type_text(ctx.types@, views(ctx.idents@), od.result_types@[0].id as int)
            } else {
                "("@ + spec_types_text(ctx, od.result_types@) + ")"@
            };
            pr_op(ctx, op, indent, num, counter, fuel) == (
                spaces(indent as int) + prefix + "\""@ + name + "\"("@ + spec_operands_text(
                    ctx,
                    num1,
                    od.operands@,
                ) + ")"@ + regions.0 + attrs + " : ("@ + spec_operand_types_text(ctx, od.operands@)
                    + ") -> "@ + rtypes + "\n"@,
                regions.1,
                regions.2,
            )
        }),
{
    reveal_with_fuel(pr_op, 1);
}

/// Appends the printed form of one operation.
pub fn print_op(
    ctx: &Context,
    op: OperationRef,
    indent: usize,
    num: &mut Vec<(usize, usize)>,
    counter: usize,
    fuel: usize,
    out: &mut String,
) -> (rc: usize)
    requires
        ctx.wf(),
    ensures
        ({
            let t = pr_op(ctx, op, indent, old(num)@, counter, fuel as nat);
            final(out)@ == old(out)@ + t.0 && final(num)@ == t.1 && rc == t.2
        }),
    decreases fuel, 0int, 2int,
{
    if fuel == 0 || op.id >= ctx.ops.len() {
        proof {
            lemma_pr_op_trivial(ctx, op, indent, num@, counter, fuel as nat);
        }
        return counter;
    }
    proof {
        assert(ctx.op_entry_wf(ctx.ops@[op.id as int]));
    }
    let name = ctx.idents[ctx.ops[op.id].name].clone();
    if crate::context::str_eq(name.as_str(), "builtin.module") {
        print_module_op(ctx, op, indent, num, counter, fuel, out)
    } else {
        print_generic_op(ctx, op, indent, num, counter, fuel, out)
    }
}

/// Appends the pretty form of a module operation.
#[verifier::rlimit(100)]
#[verifier::spinoff_prover]
fn print_module_op(
    ctx: &Context,
    op: OperationRef,
    indent: usize,
    num: &mut Vec<(usize, usize)>,
    counter: usize,
    fuel: usize,
    out: &mut String,
) -> (rc: usize)
    requires
        ctx.wf(),
        1 <= fuel,
        op.id < ctx.ops@.len(),
        ctx.ops@[op.id as int].name < ctx.idents@.len(),
        views(ctx.idents@)[ctx.ops@[op.id as int].name as int] == "builtin.module"@,
    ensures
        ({
            let t = pr_op(ctx, op, indent, old(num)@, counter, fuel as nat);
            final(out)@ == old(out)@ + t.0 && final(num)@ == t.1 && rc == t.2
        }),
    decreases fuel, 0int, 0int,
{
    let ghost goal = pr_op(ctx, op, indent, num@, counter, fuel as nat);
    proof {
        lemma_pr_op_module(ctx, op, indent, num@, counter, fuel as nat);
    }
    append_spaces(out, indent);
    out.append("module {\n");
    let nregions = ctx.ops[op.id].regions.len();
    let mut rc: usize = counter;
    if nregions > 0 {
        let r0 = ctx.ops[op.id].regions[0];
        if r0.id < ctx.regions.len() {
            rc = print_block_list(
                ctx,
                &ctx.regions[r0.id].blocks,
                sat_add(indent, 2),
                num,
                counter,
                fuel - 1,
                out,
            );
        }
    }
    append_spaces(out, indent);
    out.append("}\n");
    proof {
        assert(out@ =~= old(out)@ + goal.0);
    }
    rc
}

/// The leading text of a generic-form operation: indentation, result
/// numbering, quoted name, operand references and regions.
pub open spec fn spec_generic_head(
    ctx: &Context,
    op: OperationRef,
    indent: usize,
    num: Seq<(usize, usize)>,
    counter: usize,
    fuel: nat,
) -> Seq<char> {
    let od = ctx.ops@[op.id as int];
    let name = views(ctx.idents@)[od.name as int];
    let nres = od.result_types@.len();
    let prefix: Seq<char> = if nres == 0 {
        Seq::<char>::empty()
    } else if nres == 1 {
        "%"@ + dec_digits(counter as nat) + " = "@
    } else {
        "%"@ + dec_digits(counter as nat) + ":"@ + dec_digits(nres) + " = "@
    };
    let num1 = if nres > 0 {
        num.push((op.id, counter))
    } else {
        num
    };
    let counter1 = sat_add_nat(counter, nres);
    let regions: Seq<char> = if od.regions@.len() > 0 {
        " ("@ + pr_region_list(ctx, od.regions@, indent, num1, counter1, (fuel - 1) as nat).0
            + ")"@
    } else {
        Seq::<char>::empty()
    };
    spaces(indent as int) + prefix + "\""@ + name + "\"("@ + spec_operands_text(
        ctx,
        num1,
        od.operands@,
    ) + ")"@ + regions
}

/// The trailing text of a generic-form operation: the attribute
/// dictionary and the functional type.
pub open spec fn spec_generic_tail(ctx: &Context, op: OperationRef) -> Seq<char> {
    let od = ctx.ops@[op.id as int];
    let nres = od.result_types@.len();
    let dict = od.inherent@ + od.discardable@;
    let attrs: Seq<char> = if dict.len() > 0 {
        " {"@ + spec_dict_entries_text(ctx, dict) + "}"@
    } else {
        Seq::<char>::empty()
    };
    let rtypes: Seq<char> = if nres == 1 {
        spec_type_text(ctx.types@, views(ctx.idents@), od.result_types@[0].id as int)
    } else {
        "("@ + spec_types_text(ctx, od.result_types@) + ")"@
    };
    attrs + " : ("@ + spec_operand_types_text(ctx, od.operands@) + ") -> "@ + rtypes + "\n"@
}

/// Appends the leading text of a generic-form operation.
#[verifier::rlimit(100)]
#[verifier::spinoff_prover]
fn print_generic_head(
    ctx: &Context,
    op: OperationRef,
    indent: usize,
    num: &mut Vec<(usize, usize)>,
    counter: usize,
    fuel: usize,
    out: &mut String,
) -> (rc: usize)
    requires
        ctx.wf(),
        1 <= fuel,
        op.id < ctx.ops@.len(),
        ctx.ops@[op.id as int].name < ctx.idents@.len(),
    ensures
        final(out)@ == old(out)@ + spec_generic_head(ctx, op, indent, old(num)@, counter,
        fuel as nat),
        ({
            let od = ctx.ops@[op.id as int];
            let nres = od.result_types@.len();
            let num1 = if nres > 0 {
                old(num)@.push((op.id, counter))
            } else {
                old(num)@
            };
            let counter1 = sat_add_nat(counter, nres);
            if od.regions@.len() > 0 {
                let rr = pr_region_list(ctx, od.regions@, indent, num1, counter1, (fuel - 1) as nat);
                final(num)@ == rr.1 && rc == rr.2
            } else {
                final(num)@ == num1 && rc == counter1
            }
        }),
    decreases fuel, 0int, 0int,
{
    proof {
        assert(ctx.op_entry_wf(ctx.ops@[op.id as int]));
    }
    let name = ctx.idents[ctx.ops[op.id].name].clone();
    append_spaces(out, indent);
    let nres = ctx.ops[op.id].result_types.len();
    if nres > 0 {
        out.append("%");
        append_dec_u64(out, counter as u64);
        if nres > 1 {
            out.append(":");
            append_dec_u64(out, nres as u64);
        }
        out.append(" = ");
        num.push((op.id, counter));
    }
    let counter1 = sat_add(counter, nres);
    out.append("\"");
    out.append(name.as_str());
    out.append("\"(");
    append_operands_text(ctx, num, &ctx.ops[op.id].operands, out);
    out.append(")");
    let mut rc: usize = counter1;
    if ctx.ops[op.id].regions.len() > 0 {
        out.append(" (");
        rc = print_region_list(ctx, &ctx.ops[op.id].regions, indent, num, counter1, fuel - 1, out);
        out.append(")");
    }
    proof {
        assert(out@ =~= old(out)@ + spec_generic_head(ctx, op, indent, old(num)@, counter,
        fuel as nat));
    }
    rc
}

/// Appends the trailing text of a generic-form operation.
#[verifier::rlimit(100)]
#[verifier::spinoff_prover]
fn print_generic_tail(ctx: &Context, op: OperationRef, out: &mut String)
    requires
        ctx.wf(),
        op.id < ctx.ops@.len(),
    ensures
        final(out)@ == old(out)@ + spec_generic_tail(ctx, op),
{
    proof {
        assert(ctx.op_entry_wf(ctx.ops@[op.id as int]));
    }
    let dict = combined_dict(ctx, op);
    if dict.len() > 0 {
        out.append(" {");
        append_dict_entries_text(ctx, &dict, out);
        out.append("}");
    }
    out.append(" : (");
    append_operand_types_text(ctx, &ctx.ops[op.id].operands, out);
    out.append(") -> ");
    let nres = ctx.ops[op.id].result_types.len();
    if nres == 1 {
        let t0 = ctx.ops[op.id].result_types[0];
        crate::types::append_type_text(ctx, t0, out);
    } else {
        out.append("(");
        append_types_text(ctx, &ctx.ops[op.id].result_types, out);
        out.append(")");
    }
    out.append("\n");
    proof {
        assert(out@ =~= old(out)@ + spec_generic_tail(ctx, op));
    }
}

/// Appends the generic form of an operation.
#[verifier::rlimit(100)]
#[verifier::spinoff_prover]
fn print_generic_op(
    ctx: &Context,
    op: OperationRef,
    indent: usize,
    num: &mut Vec<(usize, usize)>,
    counter: usize,
    fuel: usize,
    out: &mut String,
) -> (rc: usize)
    requires
        ctx.wf(),
        1 <= fuel,
        op.id < ctx.ops@.len(),
        ctx.ops@[op.id as int].name < ctx.idents@.len(),
        views(ctx.idents@)[ctx.ops@[op.id as int].name as int] != "builtin.module"@,
    ensures
        ({
            let t = pr_op(ctx, op, indent, old(num)@, counter, fuel as nat);
            final(out)@ == old(out)@ + t.0 && final(num)@ == t.1 && rc == t.2
        }),
    decreases fuel, 0int, 1int,
{
    let rc = print_generic_head(ctx, op, indent, num, counter, fuel, out);
    print_generic_tail(ctx, op, out);
    proof {
        lemma_pr_op_generic(ctx, op, indent, old(num)@, counter, fuel as nat);
        let t = pr_op(ctx, op, indent, old(num)@, counter, fuel as nat);
        assert(t.0 =~= spec_generic_head(ctx, op, indent, old(num)@, counter, fuel as nat)
            + spec_generic_tail(ctx, op));
        assert(out@ =~= old(out)@ + t.0);
    }
    rc
}

/// Appends the printed forms of a list of sibling operations.
pub fn print_op_list(
    ctx: &Context,
    list: &Vec<OperationRef>,
    indent: usize,
    num: &mut Vec<(usize, usize)>,
    counter: usize,
    fuel: usize,
    out: &mut String,
) -> (rc: usize)
    requires
        ctx.wf(),
    ensures
        ({
            let t = pr_op_list(ctx, list@, indent, old(num)@, counter, fuel as nat);
            final(out)@ == old(out)@ + t.0 && final(num)@ == t.1 && rc == t.2
        }),
    decreases fuel, 1int, 0int,
{
    let mut rc: usize = counter;
    let mut i: usize = 0;
    proof {
        assert(list@.take(0) =~= Seq::<OperationRef>::empty());
        assert(pr_op_list(ctx, list@.take(0), indent, old(num)@, counter, fuel as nat) == (
        Seq::<char>::empty(),
        old(num)@,
        counter,
        ));
        assert(out@ =~= old(out)@ + Seq::<char>::empty());
    }
    while i < list.len()
        invariant
            ctx.wf(),
            i <= list@.len(),
            ({
                let t = pr_op_list(ctx, list@.take(i as int), indent, old(num)@, counter,
                fuel as nat);
                out@ == old(out)@ + t.0 && num@ == t.1 && rc == t.2
            }),
        decreases list@.len() - i,
    {
        rc = print_op(ctx, list[i], indent, num, rc, fuel, out);
        proof {
            assert(list@.take(i + 1).drop_last() =~= list@.take(i as int));
            assert(list@.take(i + 1).last() == list@[i as int]);
            reveal_with_fuel(pr_op_list, 2);
            let first = pr_op_list(ctx, list@.take(i as int), indent, old(num)@, counter,
            fuel as nat);
            let last = pr_op(ctx, list@[i as int], indent, first.1, first.2, fuel as nat);
            assert(list@.take(i + 1).len() == i + 1);
            let first2 = pr_op_list(ctx, list@.take(i + 1).drop_last(), indent, old(num)@,
            counter, fuel as nat);
            assert(first2 == first);
            let last2 = pr_op(ctx, list@.take(i + 1).last(), indent, first2.1, first2.2,
            fuel as nat);
            assert(last2 == last);
            assert(pr_op_list(ctx, list@.take(i + 1), indent, old(num)@, counter, fuel as nat)
                == (first2.0 + last2.0, last2.1, last2.2));
            assert(out@ =~= old(out)@ + (first.0 + last.0));
        }
        i = i + 1;
    }
    proof {
        assert(list@.take(list@.len() as int) =~= list@);
    }
    rc
}

/// Appends the printed bodies of a list of blocks.
pub fn print_block_list(
    ctx: &Context,
    list: &Vec<BlockRef>,
    indent: usize,
    num: &mut Vec<(usize, usize)>,
    counter: usize,
    fuel: usize,
    out: &mut String,
) -> (rc: usize)
    requires
        ctx.wf(),
    ensures
        ({
            let t = pr_block_list(ctx, list@, indent, old(num)@, counter, fuel as nat);
            final(out)@ == old(out)@ + t.0 && final(num)@ == t.1 && rc == t.2
        }),
    decreases fuel, 2int, 0int,
{
    let mut rc: usize = counter;
    let mut i: usize = 0;
    proof {
        assert(list@.take(0) =~= Seq::<BlockRef>::empty());
        assert(pr_block_list(ctx, list@.take(0), indent, old(num)@, counter, fuel as nat) == (
        Seq::<char>::empty(),
        old(num)@,
        counter,
        ));
        assert(out@ =~= old(out)@ + Seq::<char>::empty());
    }
    while i < list.len()
        invariant
            ctx.wf(),
            i <= list@.len(),
            ({
                let t = pr_block_list(ctx, list@.take(i as int), indent, old(num)@, counter,
                fuel as nat);
                out@ == old(out)@ + t.0 && num@ == t.1 && rc == t.2
            }),
        decreases list@.len() - i,
    {
        let b = list[i];
        if b.id < ctx.blocks.len() {
            rc = print_op_list(ctx, &ctx.blocks[b.id].ops, indent, num, rc, fuel, out);
        }
        proof {
            assert(list@.take(i + 1).drop_last() =~= list@.take(i as int));
            assert(list@.take(i + 1).last() == list@[i as int]);
            let first = pr_block_list(ctx, list@.take(i as int), indent, old(num)@, counter,
            fuel as nat);
            let ops = if (list@[i as int].id as int) < ctx.blocks@.len() {
                pr_op_list(
                    ctx,
                    ctx.blocks@[list@[i as int].id as int].ops@,
                    indent,
                    first.1,
                    first.2,
                    fuel as nat,
                )
            } else {
                (Seq::<char>::empty(), first.1, first.2)
            };
            assert(pr_block_list(ctx, list@.take(i + 1), indent, old(num)@, counter, fuel as nat)
                == (first.0 + ops.0, ops.1, ops.2));
            assert(out@ =~= old(out)@ + (first.0 + ops.0));
        }
        i = i + 1;
    }
    proof {
        assert(list@.take(list@.len() as int) =~= list@);
    }
    rc
}

/// Appends the printed forms of a list of regions.
pub fn print_region_list(
    ctx: &Context,
    list: &Vec<RegionRef>,
    indent: usize,
    num: &mut Vec<(usize, usize)>,
    counter: usize,
    fuel: usize,
    out: &mut String,
) -> (rc: usize)
    requires
        ctx.wf(),
    ensures
        ({
            let t = pr_region_list(ctx, list@, indent, old(num)@, counter, fuel as nat);
            final(out)@ == old(out)@ + t.0 && final(num)@ == t.1 && rc == t.2
        }),
    decreases fuel, 3int, 0int,
{
    let mut rc: usize = counter;
    let mut i: usize = 0;
    proof {
        assert(list@.take(0) =~= Seq::<RegionRef>::empty());
        assert(pr_region_list(ctx, list@.take(0), indent, old(num)@, counter, fuel as nat) == (
        Seq::<char>::empty(),
        old(num)@,
        counter,
        ));
        assert(out@ =~= old(out)@ + Seq::<char>::empty());
    }
    while i < list.len()
        invariant
            ctx.wf(),
            i <= list@.len(),
            ({
                let t = pr_region_list(ctx, list@.take(i as int), indent, old(num)@, counter,
                fuel as nat);
                out@ == old(out)@ + t.0 && num@ == t.1 && rc == t.2
            }),
        decreases list@.len() - i,
    {
        if i > 0 {
            out.append(", ");
        }
        out.append("{\n");
        let r = list[i];
        if r.id < ctx.regions.len() {
            rc = print_block_list(
                ctx,
                &ctx.regions[r.id].blocks,
                sat_add(indent, 2),
                num,
                rc,
                fuel,
                out,
            );
        }
        append_spaces(out, indent);
        out.append("}");
        proof {
            assert(list@.take(i + 1).drop_last() =~= list@.take(i as int));
            assert(list@.take(i + 1).last() == list@[i as int]);
            let first = pr_region_list(ctx, list@.take(i as int), indent, old(num)@, counter,
            fuel as nat);
            let body = if (list@[i as int].id as int) < ctx.regions@.len() {
                pr_block_list(
                    ctx,
                    ctx.regions@[list@[i as int].id as int].blocks@,
                    spec_sat_add(indent, 2),
                    first.1,
                    first.2,
                    fuel as nat,
                )
            } else {
                (Seq::<char>::empty(), first.1, first.2)
            };
            let sep: Seq<char> = if list@.take(i + 1).len() > 1 {
                ", "@
            } else {
                Seq::<char>::empty()
            };
            assert(pr_region_list(ctx, list@.take(i + 1), indent, old(num)@, counter, fuel as nat)
                == (first.0 + sep + "{\n"@ + body.0 + spaces(indent as int) + "}"@, body.1,
            body.2));
            assert(out@ =~= old(out)@ + (first.0 + sep + "{\n"@ + body.0 + spaces(indent as int)
                + "}"@));
        }
        i = i + 1;
    }
    proof {
        assert(list@.take(list@.len() as int) =~= list@);
    }
    rc
}

/// The complete printed form of an operation tree, rooted at `op`.
pub open spec fn spec_operation_text(ctx: &Context, op: OperationRef) -> Seq<char> {
    pr_op(ctx, op, 0, Seq::empty(), 0, sat_add_nat(1, ctx.ops@.len()) as nat).0
}

impl OperationRef {
    /// Returns the complete printed form of the operation tree rooted
    /// here, exactly as the printing specification describes it.
    pub fn to_text(&self, ctx: &Context) -> (r: String)
        requires
            ctx.wf(),
            self.valid(ctx),
        ensures
            r@ == spec_operation_text(ctx, *self),
    {
        let mut out = String::new();
        let mut num: Vec<(usize, usize)> = Vec::new();
        let fuel = sat_add(1, ctx.ops.len());
        print_op(ctx, *self, 0, &mut num, 0, fuel, &mut out);
        out
    }
}

} // verus!
