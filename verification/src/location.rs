//! Source locations interned in a context.

use vstd::prelude::*;
use crate::attributes::spec_attr_text;
use crate::attributes::AttributeRef;
use crate::context::loc_entry_wf;
use crate::context::views;
use crate::context::Context;
use crate::text::append_dec_u64;
use crate::text::dec_digits;

verus! {

/// The interned representation of a location.  Child locations always
/// point at strictly earlier table entries, so the structure is acyclic
/// and equality is structural.
#[derive(Clone, Copy, Debug, PartialEq, Eq, Structural)]
pub enum LocationData {
    /// A file/line/column position; `filename` indexes the identifier
    /// table.
    FileLineCol { filename: usize, line: u32, col: u32 },
    /// A call site: where the callee sits and where it was called from.
    CallSite { callee: LocationRef, caller: LocationRef },
    /// A set of fused locations with a metadata attribute; `locs` indexes
    /// the location list table.
    Fused { locs: usize, metadata: AttributeRef },
    /// A named label without a child location; `name` indexes the
    /// identifier table.
    NameBare { name: usize },
    /// A named label wrapping a child location.
    NameChild { name: usize, child: LocationRef },
    /// An unknown location.
    Unknown,
}

/// A reference to a location interned in a context.  Copyable; never
/// separately destroyed; valid exactly as long as its context.
#[derive(Clone, Copy, Debug, PartialEq, Eq, Structural)]
pub struct LocationRef {
    pub id: usize,
}

impl LocationRef {
    /// Whether this handle points into the location table of `ctx`.
    pub open spec fn valid(&self, ctx: &Context) -> bool {
        self.id < ctx.locs@.len()
    }

    /// The interned data this handle stands for.
    pub open spec fn data(&self, ctx: &Context) -> LocationData {
        ctx.locs@[self.id as int]
    }
}


/// The printed form of the location at table index `i`, without the
/// surrounding `loc(...)`.
pub open spec fn spec_loc_inner(ctx: &Context, i: int) -> Seq<char>
    decreases i, 1int, 0int,
{
    if 0 <= i < ctx.locs@.len() {
        match ctx.locs@[i] {
            LocationData::FileLineCol { filename, line, col } => "\""@ + (if filename < views(
                ctx.idents@,
            ).len() {
                views(ctx.idents@)[filename as int]
            } else {
                Seq::empty()
            }) + "\":"@ + dec_digits(line as nat) + ":"@ + dec_digits(col as nat),
            LocationData::CallSite { callee, caller } => "callsite("@ + (if (callee.id as int)
                < i {
                spec_loc_inner(ctx, callee.id as int)
            } else {
                Seq::empty()
            }) + " at "@ + (if (caller.id as int) < i {
                spec_loc_inner(ctx, caller.id as int)
            } else {
                Seq::empty()
            }) + ")"@,
            LocationData::Fused { locs, metadata } => "fused<"@ + spec_attr_text(
                ctx,
                metadata.id as int,
            ) + ">["@ + (if locs < ctx.loc_lists@.len() {
                spec_fused_elems(ctx, views(ctx.loc_lists@)[locs as int], i)
            } else {
                Seq::empty()
            }) + "]"@,
            LocationData::NameBare { name } => "\""@ + (if name < views(ctx.idents@).len() {
                views(ctx.idents@)[name as int]
            } else {
                Seq::empty()
            }) + "\""@,
            LocationData::NameChild { name, child } => "\""@ + (if name < views(
                ctx.idents@,
            ).len() {
                views(ctx.idents@)[name as int]
            } else {
                Seq::empty()
            }) + "\"("@ + (if (child.id as int) < i {
                spec_loc_inner(ctx, child.id as int)
            } else {
                Seq::empty()
            }) + ")"@,
            LocationData::Unknown => "unknown"@,
        }
    } else {
        Seq::empty()
    }
}

/// The comma-separated printed forms of fused child locations, all of
/// which sit strictly below `bound` in the table.
pub open spec fn spec_fused_elems(ctx: &Context, v: Seq<LocationRef>, bound: int) -> Seq<char>
    decreases bound, 0int, v.len(),
{
    if v.len() == 0 {
        Seq::empty()
    } else {
        let last = if (v.last().id as int) < bound && 0 <= bound {
            spec_loc_inner(ctx, v.last().id as int)
        } else {
            Seq::empty()
        };
        if v.len() == 1 {
            last
        } else {
            spec_fused_elems(ctx, v.drop_last(), bound) + ", "@ + last
        }
    }
}

/// The printed form of the location at table index `i`.
pub open spec fn spec_loc_text(ctx: &Context, i: int) -> Seq<char> {
    "loc("@ + spec_loc_inner(ctx, i) + ")"@
}

/// Appends the printed form of `l`, without the surrounding `loc(...)`.
pub fn append_loc_inner(ctx: &Context, l: LocationRef, out: &mut String)
    requires
        ctx.wf(),
        l.valid(ctx),
    ensures
        final(out)@ == old(out)@ + spec_loc_inner(ctx, l.id as int),
    decreases l.id,
{
    let ghost goal = spec_loc_inner(ctx, l.id as int);
    proof {
        assert(loc_entry_wf(
            ctx.locs@[l.id as int],
            ctx.idents@.len() as int,
            ctx.attrs@.len() as int,
            views(ctx.loc_lists@),
            l.id as int,
        ));
    }
    match ctx.locs[l.id] {
        LocationData::FileLineCol { filename, line, col } => {
            out.append("\"");
            let body = ctx.idents[filename].clone();
            out.append(body.as_str());
            out.append("\":");
            append_dec_u64(out, line as u64);
            out.append(":");
            append_dec_u64(out, col as u64);
            proof {
                assert(out@ =~= old(out)@ + goal);
            }
        },
        LocationData::CallSite { callee, caller } => {
            out.append("callsite(");
            append_loc_inner(ctx, callee, out);
            out.append(" at ");
            append_loc_inner(ctx, caller, out);
            out.append(")");
            proof {
                assert(out@ =~= old(out)@ + goal);
            }
        },
        LocationData::Fused { locs, metadata } => {
            out.append("fused<");
            crate::attributes::append_attr_text(ctx, metadata, out);
            out.append(">[");
            let ghost base = out@;
            let list = &ctx.loc_lists[locs];
            let mut m: usize = 0;
            while m < list.len()
                invariant
                    ctx.wf(),
                    l.valid(ctx),
                    ctx.locs@[l.id as int] == (LocationData::Fused { locs, metadata }),
                    locs < ctx.loc_lists@.len(),
                    list@ == views(ctx.loc_lists@)[locs as int],
                    forall|k: int| 0 <= k < list@.len() ==> (#[trigger] list@[k]).id < l.id,
                    m <= list@.len(),
                    out@ == base + spec_fused_elems(ctx, list@.take(m as int), l.id as int),
                decreases list@.len() - m,
            {
                if m > 0 {
                    out.append(", ");
                }
                append_loc_inner(ctx, list[m], out);
                proof {
                    assert(list@.take(m + 1).drop_last() =~= list@.take(m as int));
                    assert(list@.take(m + 1).last() == list@[m as int]);
                    assert(out@ =~= base + spec_fused_elems(ctx, list@.take(m + 1), l.id as int));
                }
                m = m + 1;
            }
            out.append("]");
            proof {
                assert(list@.take(list@.len() as int) =~= list@);
                assert(out@ =~= old(out)@ + goal);
            }
        },
        LocationData::NameBare { name } => {
            out.append("\"");
            let body = ctx.idents[name].clone();
            out.append(body.as_str());
            out.append("\"");
            proof {
                assert(out@ =~= old(out)@ + goal);
            }
        },
        LocationData::NameChild { name, child } => {
            out.append("\"");
            let body = ctx.idents[name].clone();
            out.append(body.as_str());
            out.append("\"(");
            append_loc_inner(ctx, child, out);
            out.append(")");
            proof {
                assert(out@ =~= old(out)@ + goal);
            }
        },
        LocationData::Unknown => {
            out.append("unknown");
        },
    }
}

impl LocationRef {
    /// The printed form of this location.
    pub open spec fn text(&self, ctx: &Context) -> Seq<char> {
        spec_loc_text(ctx, self.id as int)
    }

    /// Returns the printed form of the location.
    pub fn to_text(&self, ctx: &Context) -> (r: String)
        requires
            ctx.wf(),
            self.valid(ctx),
        ensures
            r@ == self.text(ctx),
    {
        let mut out = String::new();
        out.append("loc(");
        append_loc_inner(ctx, *self, &mut out);
        out.append(")");
        out
    }

    /// Constructs (interns) a location naming a file, line and column.
    pub fn new_file_line_col(ctx: &mut Context, filename: &str, line: u32, col: u32) -> (r:
        LocationRef)
        requires
            old(ctx).wf(),
        ensures
            final(ctx).wf(),
            final(ctx).grew_interned_only(old(ctx)),
            r.valid(final(ctx)),
            final(ctx).locs@[r.id as int] matches LocationData::FileLineCol {
                filename: f,
                line: ln,
                col: c,
            } && views(final(ctx).idents@)[f as int] == filename@ && ln == line && c == col,
    {
        let ident = ctx.intern_ident(filename);
        let ghost mid = *ctx;
        proof {
            crate::context::lemma_grew_idents_implies_interned(&mid, old(ctx));
        }
        let r = ctx.intern_loc(
            LocationData::FileLineCol { filename: ident.id, line, col },
        );
        proof {
            crate::context::lemma_grew_interned_trans(ctx, &mid, old(ctx));
        }
        r
    }

    /// Constructs (interns) a call-site location.
    pub fn new_call_site(ctx: &mut Context, callee: LocationRef, caller: LocationRef) -> (r:
        LocationRef)
        requires
            old(ctx).wf(),
            callee.valid(old(ctx)),
            caller.valid(old(ctx)),
        ensures
            final(ctx).wf(),
            final(ctx).grew_interned_only(old(ctx)),
            r.valid(final(ctx)),
            final(ctx).locs@[r.id as int] == (LocationData::CallSite { callee, caller }),
    {
        ctx.intern_loc(LocationData::CallSite { callee, caller })
    }

    /// Constructs (interns) a fused location with metadata.
    pub fn new_fused(ctx: &mut Context, locations: &Vec<LocationRef>, metadata: AttributeRef) -> (r:
        LocationRef)
        requires
            old(ctx).wf(),
            forall|m: int|
                0 <= m < locations@.len() ==> (#[trigger] locations@[m]).valid(old(ctx)),
            metadata.valid(old(ctx)),
        ensures
            final(ctx).wf(),
            final(ctx).grew_interned_only(old(ctx)),
            r.valid(final(ctx)),
            final(ctx).locs@[r.id as int] matches LocationData::Fused { locs, metadata: md }
                && md == metadata && views(final(ctx).loc_lists@)[locs as int] == locations@,
    {
        let mut v: Vec<LocationRef> = Vec::new();
        let mut i: usize = 0;
        while i < locations.len()
            invariant
                i <= locations@.len(),
                v@ == locations@.take(i as int),
            decreases locations@.len() - i,
        {
            v.push(locations[i]);
            proof {
                assert(v@ =~= locations@.take(i + 1));
            }
            i = i + 1;
        }
        proof {
            assert(locations@.take(locations@.len() as int) =~= locations@);
        }
        let list = ctx.intern_loc_list(v);
        let ghost mid = *ctx;
        let r = ctx.intern_loc(LocationData::Fused { locs: list, metadata });
        proof {
            crate::context::lemma_grew_interned_trans(ctx, &mid, old(ctx));
        }
        r
    }

    /// Constructs (interns) a named location with an optional child.
    pub fn new_name(ctx: &mut Context, name: &str, child_location: Option<LocationRef>) -> (r:
        LocationRef)
        requires
            old(ctx).wf(),
            match child_location {
                Some(c) => c.valid(old(ctx)),
                None => true,
            },
        ensures
            final(ctx).wf(),
            final(ctx).grew_interned_only(old(ctx)),
            r.valid(final(ctx)),
            match child_location {
                Some(c) => final(ctx).locs@[r.id as int] matches LocationData::NameChild {
                    name: nm,
                    child,
                } && views(final(ctx).idents@)[nm as int] == name@ && child == c,
                None => final(ctx).locs@[r.id as int] matches LocationData::NameBare { name: nm }
                    && views(final(ctx).idents@)[nm as int] == name@,
            },
    {
        let ident = ctx.intern_ident(name);
        let ghost mid = *ctx;
        proof {
            crate::context::lemma_grew_idents_implies_interned(&mid, old(ctx));
        }
        let r = match child_location {
            Some(c) => ctx.intern_loc(LocationData::NameChild { name: ident.id, child: c }),
            None => ctx.intern_loc(LocationData::NameBare { name: ident.id }),
        };
        proof {
            crate::context::lemma_grew_interned_trans(ctx, &mid, old(ctx));
        }
        r
    }

    /// Constructs (interns) the unknown location.
    pub fn new_unknown(ctx: &mut Context) -> (r: LocationRef)
        requires
            old(ctx).wf(),
        ensures
            final(ctx).wf(),
            final(ctx).grew_interned_only(old(ctx)),
            r.valid(final(ctx)),
            final(ctx).locs@[r.id as int] == LocationData::Unknown,
    {
        ctx.intern_loc(LocationData::Unknown)
    }
}

} // verus!
