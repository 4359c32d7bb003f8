//! Identifiers: name strings interned in a context.

use vstd::prelude::*;
use crate::context::Context;

verus! {

/// A reference to a name string interned in a context.  Distinct from
/// types and attributes but follows the same interning and equality rules:
/// equal strings interned into one context yield equal handles.
#[derive(Clone, Copy, Debug, PartialEq, Eq, Structural)]
pub struct IdentifierRef {
    pub id: usize,
}

impl IdentifierRef {
    /// Whether this handle points into the identifier table of `ctx`.
    pub open spec fn valid(&self, ctx: &Context) -> bool {
        self.id < ctx.idents@.len()
    }

    /// The character sequence this handle stands for.
    pub open spec fn chars(&self, ctx: &Context) -> Seq<char> {
        ctx.idents@[self.id as int]@
    }

    /// Constructs (interns) an identifier from the provided string.
    pub fn new(ctx: &mut Context, string: &str) -> (r: IdentifierRef)
        requires
            old(ctx).wf(),
        ensures
            final(ctx).wf(),
            r.valid(final(ctx)),
            r.chars(final(ctx)) == string@,
            final(ctx).grew_idents_only(old(ctx)),
    {
        ctx.intern_ident(string)
    }

    /// Returns the string value of the identifier.
    pub fn value(&self, ctx: &Context) -> (r: String)
        requires
            self.valid(ctx),
        ensures
            r@ == self.chars(ctx),
    {
        ctx.ident_string(*self)
    }
}

} // verus!
