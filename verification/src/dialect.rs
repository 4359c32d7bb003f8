//! Dialects: named extension namespaces owned by a context.  A dialect
//! reference is valid exactly as long as its context; equality is by
//! identity of the underlying namespace entry.

use vstd::prelude::*;
use crate::context::Context;
use crate::context::views;

verus! {

/// A reference to a dialect loaded in a context, as an index into the
/// context's loaded-dialect table.
#[derive(Clone, Copy, Debug, PartialEq, Eq, Structural)]
pub struct DialectRef {
    pub id: usize,
}

impl DialectRef {
    /// Whether this handle points into the loaded-dialect table of `ctx`.
    pub open spec fn valid(&self, ctx: &Context) -> bool {
        self.id < ctx.loaded@.len()
    }

    /// The namespace this dialect was loaded under.
    pub open spec fn spec_namespace(&self, ctx: &Context) -> Seq<char> {
        views(ctx.loaded@)[self.id as int]
    }

    /// Returns the namespace of the dialect.
    pub fn namespace(&self, ctx: &Context) -> (r: String)
        requires
            self.valid(ctx),
        ensures
            r@ == self.spec_namespace(ctx),
    {
        ctx.loaded[self.id].clone()
    }
}

} // verus!
