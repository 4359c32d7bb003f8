//! Modules: the top-level container operation, wrapped so that module
//! values can be created, recognized and handed around as such.

use vstd::prelude::*;
use crate::block::BlockRef;
use crate::context::views;
use crate::context::Context;
use crate::location::LocationRef;
use crate::operation::OperationBuilder;
use crate::operation::OperationRef;
use crate::region::RegionRef;

verus! {

/// A reference to a module: an operation whose name is the builtin
/// module name, owning one region of blocks.
#[derive(Clone, Copy, Debug, PartialEq, Eq, Structural)]
pub struct ModuleRef {
    pub op: OperationRef,
}

/// Whether an operation bears the builtin module name.
pub open spec fn spec_is_module(ctx: &Context, op: OperationRef) -> bool {
    op.id < ctx.ops@.len() && ctx.ops@[op.id as int].name < ctx.idents@.len() && views(
        ctx.idents@,
    )[ctx.ops@[op.id as int].name as int] == "builtin.module"@
}

impl ModuleRef {
    /// Whether this handle names a module operation of `ctx`.
    pub open spec fn valid(&self, ctx: &Context) -> bool {
        spec_is_module(ctx, self.op)
    }

    /// Creates an empty module at the given location: a module
    /// operation owning one region with one empty block.
    pub fn new(ctx: &mut Context, location: LocationRef) -> (r: ModuleRef)
        requires
            old(ctx).wf(),
            location.valid(old(ctx)),
        ensures
            final(ctx).wf(),
            r.valid(final(ctx)),
            final(ctx).ops@[r.op.id as int].location == location,
            final(ctx).ops@[r.op.id as int].parent is None,
            final(ctx).ops@[r.op.id as int].regions@.len() == 1,
            final(ctx).regions@[final(ctx).ops@[r.op.id as int].regions@[0].id
                as int].blocks@.len() == 1,
            final(ctx).blocks@[final(ctx).regions@[final(ctx).ops@[r.op.id
                as int].regions@[0].id as int].blocks@[0].id as int].ops@.len() == 0,
    {
        let region = RegionRef::new(ctx);
        let no_args: Vec<(crate::types::TypeRef, LocationRef)> = Vec::new();
        let block = BlockRef::new(ctx, &no_args);
        region.append_block(ctx, block);
        let mut regions: Vec<RegionRef> = Vec::new();
        regions.push(region);
        let ghost pre = *ctx;
        let built = OperationBuilder::new("builtin.module", location).add_regions(regions).build(
            ctx,
        );
        proof {
            reveal_strlit("builtin.module");
            reveal_strlit("builtin");
            assert(crate::context::is_first_dot("builtin.module"@, 7));
            assert("builtin.module"@.take(7) =~= "builtin"@);
            assert(crate::context::spec_dialect_ops("builtin"@)[0] == "builtin.module"@);
            crate::context::lemma_name_in_index(crate::context::spec_dialect_ops("builtin"@), 0);
            assert(crate::context::spec_operation_registered(&pre, "builtin.module"@));
        }
        match built {
            Some(op) => ModuleRef { op },
            None => {
                proof {
                    assert(false);
                }
                ModuleRef { op: OperationRef { id: 0 } }
            },
        }
    }

    /// Attempts to parse a module from the provided source text;
    /// absence when the text does not read as an operation or the
    /// operation read is not a module.  A source that is an empty
    /// module body provably yields an empty module.
    pub fn parse(ctx: &mut Context, source: &str) -> (r: Option<ModuleRef>)
        requires
            old(ctx).wf(),
        ensures
            final(ctx).wf(),
            match r {
                Some(m) => m.valid(final(ctx)) && final(ctx).ops@[m.op.id
                    as int].parent is None,
                None => true,
            },
            ({
                let pw = crate::parser::spec_skip_ws(source@, 0);
                let mhead = crate::types::spec_expect_lit(source@, pw, "module {"@);
                let pb = mhead->0;
                (vstd::string::is_ascii(source) && mhead is Some && crate::parser::spec_skip_ws(
                    source@,
                    pb,
                ) < source@.len() && source@[crate::parser::spec_skip_ws(source@, pb) as int] as u8
                    == crate::parser::B_RBRACE && crate::parser::spec_skip_ws(
                    source@,
                    crate::parser::spec_skip_ws(source@, pb) + 1,
                ) == source@.len()) ==> (r matches Some(m) && {
                    &&& final(ctx).ops@[m.op.id as int].regions@.len() == 1
                    &&& final(ctx).regions@[final(ctx).ops@[m.op.id as int].regions@[0].id
                        as int].blocks@.len() == 1
                    &&& final(ctx).blocks@[final(ctx).regions@[final(ctx).ops@[m.op.id
                        as int].regions@[0].id as int].blocks@[0].id as int].ops@.len() == 0
                })
            }),
    {
        let op = match OperationRef::parse(ctx, source, "") {
            Some(op) => op,
            None => {
                return None;
            },
        };
        Self::from_operation(ctx, op)
    }

    /// Wraps an operation as a module exactly when it bears the builtin
    /// module name.
    pub fn from_operation(ctx: &Context, operation: OperationRef) -> (r: Option<ModuleRef>)
        requires
            ctx.wf(),
            operation.valid(ctx),
        ensures
            r matches Some(m) <==> spec_is_module(ctx, operation),
            match r {
                Some(m) => m.op == operation && m.valid(ctx)
                    && ctx.ops@[m.op.id as int].parent == ctx.ops@[operation.id as int].parent,
                None => true,
            },
    {
        proof {
            assert(ctx.op_entry_wf(ctx.ops@[operation.id as int]));
        }
        let name = ctx.idents[ctx.ops[operation.id].name].clone();
        if crate::context::str_eq(name.as_str(), "builtin.module") {
            Some(ModuleRef { op: operation })
        } else {
            None
        }
    }

    /// Returns the operation this module is.
    pub fn as_operation(&self) -> (r: OperationRef)
        ensures
            r == self.op,
    {
        self.op
    }
}

} // verus!
