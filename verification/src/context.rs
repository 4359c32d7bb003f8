//! The context: the root arena owning every interned value (types,
//! attributes, identifiers, locations), the dialect tables, and the
//! operation/region/block tree.  Destroying a context reclaims all of it;
//! handles are plain indices whose validity the contracts track.

use vstd::prelude::*;
use crate::attributes::AttrData;
use crate::block::BlockData;
use crate::identifier::IdentifierRef;
use crate::location::LocationData;
use crate::location::LocationRef;
use crate::operation::OpData;
use crate::region::RegionData;
use crate::types::TypeData;
use crate::types::TypeRef;

verus! {

/// The element-wise view of a sequence of viewable values.
pub open spec fn views<T: View>(v: Seq<T>) -> Seq<T::V> {
    Seq::new(v.len(), |i: int| v[i]@)
}

/// Whether `x` occurs in `ns`.
pub open spec fn name_in(ns: Seq<Seq<char>>, x: Seq<char>) -> bool {
    exists|i: int| 0 <= i < ns.len() && ns[i] == x
}

/// Whether all entries of `ns` are pairwise distinct.
pub open spec fn names_unique(ns: Seq<Seq<char>>) -> bool {
    forall|i: int, j: int| 0 <= i < j < ns.len() ==> ns[i] != ns[j]
}

/// Appends to `a` every entry of `b` not already present, left to right.
pub open spec fn merge_names(a: Seq<Seq<char>>, b: Seq<Seq<char>>) -> Seq<Seq<char>>
    decreases b.len(),
{
    if b.len() == 0 {
        a
    } else {
        merge_names(
            if name_in(a, b[0]) {
                a
            } else {
                a.push(b[0])
            },
            b.drop_first(),
        )
    }
}

/// Peeling a merge from the right: merging `b.push(y)` merges `b` first
/// and then appends `y` exactly when it is still absent.
pub proof fn lemma_merge_names_push(a: Seq<Seq<char>>, b: Seq<Seq<char>>, y: Seq<char>)
    ensures
        merge_names(a, b.push(y)) == if name_in(merge_names(a, b), y) {
            merge_names(a, b)
        } else {
            merge_names(a, b).push(y)
        },
    decreases b.len(),
{
    if b.len() == 0 {
        let bb = b.push(y);
        assert(bb[0] == y);
        assert(bb.drop_first() =~= Seq::<Seq<char>>::empty());
        let a2 = if name_in(a, y) {
            a
        } else {
            a.push(y)
        };
        assert(merge_names(a, bb) == merge_names(a2, bb.drop_first()));
        assert(merge_names(a2, bb.drop_first()) == a2);
        assert(merge_names(a, b) == a);
    } else {
        let a2 = if name_in(a, b[0]) {
            a
        } else {
            a.push(b[0])
        };
        let bb = b.push(y);
        assert(bb[0] == b[0]);
        assert(bb.drop_first() =~= b.drop_first().push(y));
        assert(merge_names(a, bb) == merge_names(a2, b.drop_first().push(y)));
        assert(merge_names(a, b) == merge_names(a2, b.drop_first()));
        lemma_merge_names_push(a2, b.drop_first(), y);
    }
}

/// Every entry of a table occurs in it.
pub proof fn lemma_name_in_index(ns: Seq<Seq<char>>, i: int)
    requires
        0 <= i < ns.len(),
    ensures
        name_in(ns, ns[i]),
{
}

/// Appending a fresh entry keeps a table duplicate-free.
pub proof fn lemma_push_unique(ns: Seq<Seq<char>>, x: Seq<char>)
    requires
        names_unique(ns),
        !name_in(ns, x),
    ensures
        names_unique(ns.push(x)),
{
    assert forall|i: int, j: int| 0 <= i < j < ns.push(x).len() implies ns.push(x)[i] != ns.push(
        x,
    )[j] by {
        if j == ns.len() {
            if ns[i] == x {
                lemma_name_in_index(ns, i);
            }
        }
    }
}

/// Merging never loses entries and never introduces entries from nowhere.
pub proof fn lemma_merge_names_in(a: Seq<Seq<char>>, b: Seq<Seq<char>>, x: Seq<char>)
    ensures
        name_in(merge_names(a, b), x) <==> name_in(a, x) || name_in(b, x),
    decreases b.len(),
{
    if b.len() > 0 {
        let a2 = if name_in(a, b[0]) {
            a
        } else {
            a.push(b[0])
        };
        lemma_merge_names_in(a2, b.drop_first(), x);
        assert(name_in(a2, x) <==> name_in(a, x) || b[0] == x) by {
            if name_in(a2, x) {
                let i = choose|i: int| 0 <= i < a2.len() && a2[i] == x;
                if i < a.len() {
                    lemma_name_in_index(a, i);
                }
            }
            if name_in(a, x) {
                let i = choose|i: int| 0 <= i < a.len() && a[i] == x;
                assert(a2[i] == x);
                lemma_name_in_index(a2, i);
            }
            if b[0] == x && !name_in(a, x) {
                assert(a2[a.len() as int] == x);
                lemma_name_in_index(a2, a.len() as int);
            }
        }
        assert(name_in(b, x) <==> b[0] == x || name_in(b.drop_first(), x)) by {
            if name_in(b, x) {
                let i = choose|i: int| 0 <= i < b.len() && b[i] == x;
                if i > 0 {
                    assert(b.drop_first()[i - 1] == x);
                    lemma_name_in_index(b.drop_first(), i - 1);
                }
            }
            if b[0] == x {
                lemma_name_in_index(b, 0);
            }
            if name_in(b.drop_first(), x) {
                let i = choose|i: int| 0 <= i < b.drop_first().len() && b.drop_first()[i] == x;
                assert(b[i + 1] == x);
                lemma_name_in_index(b, i + 1);
            }
        }
    }
}

/// Merging into a duplicate-free table keeps it duplicate-free.
pub proof fn lemma_merge_names_unique(a: Seq<Seq<char>>, b: Seq<Seq<char>>)
    requires
        names_unique(a),
    ensures
        names_unique(merge_names(a, b)),
    decreases b.len(),
{
    if b.len() > 0 {
        let a2 = if name_in(a, b[0]) {
            a
        } else {
            a.push(b[0])
        };
        if !name_in(a, b[0]) {
            lemma_push_unique(a, b[0]);
        }
        lemma_merge_names_unique(a2, b.drop_first());
    }
}

/// String equality by content.
pub fn str_eq(a: &str, b: &str) -> (r: bool)
    ensures
        r == (a@ == b@),
{
    let sa: String = a.to_owned();
    let sb: String = b.to_owned();
    sa == sb
}

/// Finds the first entry of `v` equal to `s`, if any.
pub fn find_name(v: &Vec<String>, s: &str) -> (r: Option<usize>)
    ensures
        match r {
            Some(i) => i < v@.len() && v@[i as int]@ == s@ && (forall|j: int|
                0 <= j < i ==> v@[j]@ != s@),
            None => forall|j: int| 0 <= j < v@.len() ==> v@[j]@ != s@,
        },
{
    let mut i: usize = 0;
    while i < v.len()
        invariant
            i <= v@.len(),
            forall|j: int| 0 <= j < i ==> v@[j]@ != s@,
        decreases v@.len() - i,
    {
        if str_eq(v[i].as_str(), s) {
            return Some(i);
        }
        i = i + 1;
    }
    None
}

/// Appends to `dst` every entry of `src` not already present.
pub fn merge_into(dst: &mut Vec<String>, src: &Vec<String>)
    ensures
        views(final(dst)@) == merge_names(views(old(dst)@), views(src@)),
{
    let mut i: usize = 0;
    while i < src.len()
        invariant
            i <= src@.len(),
            views(dst@) == merge_names(views(old(dst)@), views(src@).take(i as int)),
        decreases src@.len() - i,
    {
        proof {
            lemma_merge_names_push(
                views(old(dst)@),
                views(src@).take(i as int),
                views(src@)[i as int],
            );
            assert(views(src@).take(i as int + 1) =~= views(src@).take(i as int).push(
                views(src@)[i as int],
            ));
        }
        let present = find_name(dst, src[i].as_str());
        match present {
            Some(j) => {
                proof {
                    assert(views(dst@)[j as int] == src@[i as int]@);
                    lemma_name_in_index(views(dst@), j as int);
                }
            },
            None => {
                let ghost before = views(dst@);
                dst.push(src[i].clone());
                proof {
                    assert(views(dst@) =~= before.push(src@[i as int]@));
                }
            },
        }
        i = i + 1;
    }
    proof {
        assert(views(src@).take(src@.len() as int) =~= views(src@));
    }
}

/// The root arena.  Fields are public so that the model state is fully
/// transparent to specifications; the well-formedness predicate
/// [`Context::wf`] is what every operation requires and preserves.
pub struct Context {
    /// Whether operations of unregistered dialects are tolerated.
    pub allow_unregistered: bool,
    /// Whether the multithreading mode is enabled.
    pub threading: bool,
    /// Namespaces of registered dialects, unique, `builtin` present.
    pub registered: Vec<String>,
    /// Namespaces of loaded dialects, unique, `builtin` present.
    pub loaded: Vec<String>,
    /// Interned identifier strings, unique.
    pub idents: Vec<String>,
    /// Interned types, unique.
    pub types: Vec<TypeData>,
    /// Interned attributes, unique.
    pub attrs: Vec<AttrData>,
    /// Interned locations, unique.
    pub locs: Vec<LocationData>,
    /// Interned boolean element lists, unique.
    pub bool_lists: Vec<Vec<bool>>,
    /// Interned 32-bit integer element lists, unique.
    pub i32_lists: Vec<Vec<i32>>,
    /// Interned string element lists (identifier indices), unique.
    pub str_lists: Vec<Vec<usize>>,
    /// Interned location lists for fused locations, unique.
    pub loc_lists: Vec<Vec<LocationRef>>,
    /// The operation arena.
    pub ops: Vec<OpData>,
    /// The region arena.
    pub regions: Vec<RegionData>,
    /// The block arena.
    pub blocks: Vec<BlockData>,
}

/// Well-formedness of one type-table entry at index `i`: payload indices
/// in range, nested types strictly earlier.
pub open spec fn type_entry_wf(t: TypeData, n_idents: int, i: int) -> bool {
    match t {
        TypeData::Opaque { text } => text < n_idents,
        TypeData::Tensor { dim, elem } => elem.id < i,
        _ => true,
    }
}

/// Well-formedness of one location-table entry at index `i`.
pub open spec fn loc_entry_wf(
    l: LocationData,
    n_idents: int,
    n_attrs: int,
    loc_lists: Seq<Seq<LocationRef>>,
    i: int,
) -> bool {
    match l {
        LocationData::FileLineCol { filename, line, col } => filename < n_idents,
        LocationData::CallSite { callee, caller } => callee.id < i && caller.id < i,
        LocationData::Fused { locs, metadata } => locs < loc_lists.len() && metadata.id < n_attrs
            && (forall|m: int|
            0 <= m < loc_lists[locs as int].len() ==> loc_lists[locs as int][m].id < i),
        LocationData::NameBare { name } => name < n_idents,
        LocationData::NameChild { name, child } => name < n_idents && child.id < i,
        LocationData::Unknown => true,
    }
}

impl Context {
    /// Well-formedness of the name tables.
    pub open spec fn wf_names(&self) -> bool {
        &&& names_unique(views(self.registered@))
        &&& names_unique(views(self.loaded@))
        &&& name_in(views(self.registered@), "builtin"@)
        &&& name_in(views(self.loaded@), "builtin"@)
        &&& names_unique(views(self.idents@))
    }

    /// Well-formedness of one attribute-table entry.
    pub open spec fn attr_entry_wf(&self, a: AttrData) -> bool {
        match a {
            AttrData::IntegerAttr { value, ty } => ty.id < self.types@.len() && self.types@[ty.id
                as int] is Integer,
            AttrData::FloatAttr { text, ty } => text < self.idents@.len() && ty.id
                < self.types@.len() && self.types@[ty.id as int] is Float,
            AttrData::StringAttr { value } => value < self.idents@.len(),
            AttrData::UnitAttr => true,
            AttrData::TypeAttr { ty } => ty.id < self.types@.len(),
            AttrData::DenseBool { elems } => elems < self.bool_lists@.len(),
            AttrData::DenseI32 { elems } => elems < self.i32_lists@.len(),
            AttrData::DenseStrings { elems, ty } => elems < self.str_lists@.len() && ty.id
                < self.types@.len(),
        }
    }

    /// Well-formedness of the interning tables: all cross-references in
    /// range, all tables free of duplicates (the interning property).
    pub open spec fn wf_interned(&self) -> bool {
        &&& forall|i: int|
            0 <= i < self.types@.len() ==> type_entry_wf(
                #[trigger] self.types@[i],
                self.idents@.len() as int,
                i,
            )
        &&& forall|i: int, j: int|
            0 <= i < j < self.types@.len() ==> self.types@[i] != self.types@[j]
        &&& forall|i: int| 0 <= i < self.attrs@.len() ==> self.attr_entry_wf(
            #[trigger] self.attrs@[i],
        )
        &&& forall|i: int, j: int|
            0 <= i < j < self.attrs@.len() ==> self.attrs@[i] != self.attrs@[j]
        &&& forall|i: int|
            0 <= i < self.locs@.len() ==> loc_entry_wf(
                #[trigger] self.locs@[i],
                self.idents@.len() as int,
                self.attrs@.len() as int,
                views(self.loc_lists@),
                i,
            )
        &&& forall|i: int, j: int| 0 <= i < j < self.locs@.len() ==> self.locs@[i] != self.locs@[j]
        &&& forall|i: int, j: int|
            0 <= i < j < self.bool_lists@.len() ==> views(self.bool_lists@)[i] != views(
                self.bool_lists@,
            )[j]
        &&& forall|i: int, j: int|
            0 <= i < j < self.i32_lists@.len() ==> views(self.i32_lists@)[i] != views(
                self.i32_lists@,
            )[j]
        &&& forall|i: int, j: int|
            0 <= i < j < self.str_lists@.len() ==> views(self.str_lists@)[i] != views(
                self.str_lists@,
            )[j]
        &&& forall|k: int, m: int|
            0 <= k < self.str_lists@.len() && 0 <= m < views(self.str_lists@)[k].len() ==> views(
                self.str_lists@,
            )[k][m] < self.idents@.len()
        &&& forall|i: int, j: int|
            0 <= i < j < self.loc_lists@.len() ==> views(self.loc_lists@)[i] != views(
                self.loc_lists@,
            )[j]
        &&& forall|k: int, m: int|
            0 <= k < self.loc_lists@.len() && 0 <= m < views(self.loc_lists@)[k].len() ==> (views(
                self.loc_lists@,
            )[k][m]).id < self.locs@.len()
    }

    /// Well-formedness of an attribute dictionary: names in range and
    /// unique, attribute handles in range.
    pub open spec fn dict_wf(&self, d: Seq<(usize, crate::attributes::AttributeRef)>) -> bool {
        &&& forall|k: int|
            0 <= k < d.len() ==> (#[trigger] d[k]).0 < self.idents@.len() && d[k].1.id
                < self.attrs@.len()
        &&& forall|k: int, m: int| 0 <= k < m < d.len() ==> d[k].0 != d[m].0
    }

    /// Well-formedness of one operation-arena entry.
    pub open spec fn op_entry_wf(&self, o: OpData) -> bool {
        &&& o.name < self.idents@.len()
        &&& o.location.id < self.locs@.len()
        &&& forall|k: int|
            0 <= k < o.operands@.len() ==> (#[trigger] o.operands@[k]).valid(self)
        &&& forall|k: int|
            0 <= k < o.result_types@.len() ==> (#[trigger] o.result_types@[k]).id
                < self.types@.len()
        &&& forall|k: int|
            0 <= k < o.regions@.len() ==> (#[trigger] o.regions@[k]).id < self.regions@.len()
        &&& forall|k: int, m: int| 0 <= k < m < o.regions@.len() ==> o.regions@[k] != o.regions@[m]
        &&& self.dict_wf(o.inherent@)
        &&& self.dict_wf(o.discardable@)
        &&& match o.parent {
            Some(b) => b.id < self.blocks@.len(),
            None => true,
        }
    }

    /// Containment consistency between operations and the blocks that
    /// hold them: lists point at children whose parent pointer points
    /// back, lists hold no duplicates, and a parent pointer means the
    /// child sits in its parent's list.
    pub open spec fn wf_tree_links(&self) -> bool {
        &&& forall|b: int, k: int|
            0 <= b < self.blocks@.len() && 0 <= k < self.blocks@[b].ops@.len() ==> {
                let o = #[trigger] self.blocks@[b].ops@[k];
                &&& o.id < self.ops@.len()
                &&& self.ops@[o.id as int].parent is Some
                &&& (self.ops@[o.id as int].parent->0).id as int == b
            }
        &&& forall|b: int, k: int, m: int|
            0 <= b < self.blocks@.len() && 0 <= k < m < self.blocks@[b].ops@.len()
                ==> self.blocks@[b].ops@[k] != self.blocks@[b].ops@[m]
        &&& forall|o: usize|
            o < self.ops@.len() && (#[trigger] self.ops@[o as int]).parent is Some ==> {
                let b = self.ops@[o as int].parent->0;
                b.id < self.blocks@.len() && self.blocks@[b.id as int].ops@.contains(
                    crate::operation::OperationRef { id: o },
                )
            }
        &&& forall|r: int, k: int|
            0 <= r < self.regions@.len() && 0 <= k < self.regions@[r].blocks@.len() ==> {
                let b = #[trigger] self.regions@[r].blocks@[k];
                &&& b.id < self.blocks@.len()
                &&& self.blocks@[b.id as int].parent is Some
                &&& (self.blocks@[b.id as int].parent->0).id as int == r
            }
        &&& forall|r: int, k: int, m: int|
            0 <= r < self.regions@.len() && 0 <= k < m < self.regions@[r].blocks@.len()
                ==> self.regions@[r].blocks@[k] != self.regions@[r].blocks@[m]
        &&& forall|b: usize|
            b < self.blocks@.len() && (#[trigger] self.blocks@[b as int]).parent is Some ==> {
                let r = self.blocks@[b as int].parent->0;
                r.id < self.regions@.len() && self.regions@[r.id as int].blocks@.contains(
                    crate::block::BlockRef { id: b },
                )
            }
        &&& forall|o: int, k: int|
            0 <= o < self.ops@.len() && 0 <= k < self.ops@[o].regions@.len() ==> {
                let r = #[trigger] self.ops@[o].regions@[k];
                &&& self.regions@[r.id as int].parent is Some
                &&& (self.regions@[r.id as int].parent->0).id as int == o
            }
        &&& forall|r: usize|
            r < self.regions@.len() && (#[trigger] self.regions@[r as int]).parent is Some ==> {
                let o = self.regions@[r as int].parent->0;
                o.id < self.ops@.len() && self.ops@[o.id as int].regions@.contains(
                    crate::region::RegionRef { id: r },
                )
            }
    }

    /// Well-formedness of the tree arenas.
    pub open spec fn wf_tree(&self) -> bool {
        &&& forall|o: int| 0 <= o < self.ops@.len() ==> self.op_entry_wf(#[trigger] self.ops@[o])
        &&& forall|b: int|
            0 <= b < self.blocks@.len() ==> {
                let bd = #[trigger] self.blocks@[b];
                &&& bd.arg_types@.len() == bd.arg_locs@.len()
                &&& forall|k: int|
                    0 <= k < bd.arg_types@.len() ==> (#[trigger] bd.arg_types@[k]).id
                        < self.types@.len()
                &&& forall|k: int|
                    0 <= k < bd.arg_locs@.len() ==> (#[trigger] bd.arg_locs@[k]).id
                        < self.locs@.len()
            }
        &&& self.wf_tree_links()
    }

    /// The whole context invariant.
    pub open spec fn wf(&self) -> bool {
        &&& self.wf_names()
        &&& self.wf_interned()
        &&& self.wf_tree()
    }

    /// Frame: only the identifier table may have grown; it kept its
    /// prefix, and everything else is unchanged.
    pub open spec fn grew_idents_only(&self, prev: &Context) -> bool {
        &&& prev.idents@.len() <= self.idents@.len()
        &&& forall|j: int| 0 <= j < prev.idents@.len() ==> self.idents@[j]@ == prev.idents@[j]@
        &&& self.allow_unregistered == prev.allow_unregistered
        &&& self.threading == prev.threading
        &&& views(self.registered@) == views(prev.registered@)
        &&& views(self.loaded@) == views(prev.loaded@)
        &&& self.types@ == prev.types@
        &&& self.attrs@ == prev.attrs@
        &&& self.locs@ == prev.locs@
        &&& views(self.bool_lists@) == views(prev.bool_lists@)
        &&& views(self.i32_lists@) == views(prev.i32_lists@)
        &&& views(self.str_lists@) == views(prev.str_lists@)
        &&& views(self.loc_lists@) == views(prev.loc_lists@)
        &&& self.ops@ == prev.ops@
        &&& self.regions@ == prev.regions@
        &&& self.blocks@ == prev.blocks@
    }

    /// Frame: identifiers, types, attributes, locations and element
    /// lists may have grown (keeping their prefixes); the dialect tables,
    /// flags and the tree are unchanged.
    pub open spec fn grew_interned_only(&self, prev: &Context) -> bool {
        &&& prev.idents@.len() <= self.idents@.len()
        &&& forall|j: int| 0 <= j < prev.idents@.len() ==> self.idents@[j]@ == prev.idents@[j]@
        &&& prev.types@.len() <= self.types@.len()
        &&& forall|j: int| 0 <= j < prev.types@.len() ==> self.types@[j] == prev.types@[j]
        &&& prev.attrs@.len() <= self.attrs@.len()
        &&& forall|j: int| 0 <= j < prev.attrs@.len() ==> self.attrs@[j] == prev.attrs@[j]
        &&& prev.locs@.len() <= self.locs@.len()
        &&& forall|j: int| 0 <= j < prev.locs@.len() ==> self.locs@[j] == prev.locs@[j]
        &&& prev.bool_lists@.len() <= self.bool_lists@.len()
        &&& forall|j: int|
            0 <= j < prev.bool_lists@.len() ==> views(self.bool_lists@)[j] == views(
                prev.bool_lists@,
            )[j]
        &&& prev.i32_lists@.len() <= self.i32_lists@.len()
        &&& forall|j: int|
            0 <= j < prev.i32_lists@.len() ==> views(self.i32_lists@)[j] == views(
                prev.i32_lists@,
            )[j]
        &&& prev.str_lists@.len() <= self.str_lists@.len()
        &&& forall|j: int|
            0 <= j < prev.str_lists@.len() ==> views(self.str_lists@)[j] == views(
                prev.str_lists@,
            )[j]
        &&& prev.loc_lists@.len() <= self.loc_lists@.len()
        &&& forall|j: int|
            0 <= j < prev.loc_lists@.len() ==> views(self.loc_lists@)[j] == views(
                prev.loc_lists@,
            )[j]
        &&& self.allow_unregistered == prev.allow_unregistered
        &&& self.threading == prev.threading
        &&& views(self.registered@) == views(prev.registered@)
        &&& views(self.loaded@) == views(prev.loaded@)
        &&& self.ops@ == prev.ops@
        &&& self.regions@ == prev.regions@
        &&& self.blocks@ == prev.blocks@
    }

    /// Interns an identifier string, returning the handle of its first
    /// (and only) table entry.
    pub fn intern_ident(&mut self, s: &str) -> (r: IdentifierRef)
        requires
            old(self).wf(),
        ensures
            final(self).wf(),
            r.id < final(self).idents@.len(),
            final(self).idents@[r.id as int]@ == s@,
            forall|j: int| 0 <= j < r.id ==> final(self).idents@[j]@ != s@,
            final(self).grew_idents_only(old(self)),
            name_in(views(old(self).idents@), s@) ==> final(self).idents@ == old(self).idents@,
            !name_in(views(old(self).idents@), s@) ==> views(final(self).idents@) =~= views(
                old(self).idents@,
            ).push(s@) && r.id == old(self).idents@.len(),
    {
        match find_name(&self.idents, s) {
            Some(i) => {
                proof {
                    assert(views(self.idents@)[i as int] == s@);
                    lemma_name_in_index(views(self.idents@), i as int);
                }
                IdentifierRef { id: i }
            },
            None => {
                let id = self.idents.len();
                let ghost before = views(self.idents@);
                self.idents.push(s.to_owned());
                proof {
                    assert(views(self.idents@) =~= before.push(s@));
                    lemma_push_unique(before, s@);
                }
                IdentifierRef { id }
            },
        }
    }

    /// Returns the string an identifier handle stands for.
    pub fn ident_string(&self, r: IdentifierRef) -> (s: String)
        requires
            r.id < self.idents@.len(),
        ensures
            s@ == self.idents@[r.id as int]@,
    {
        self.idents[r.id].clone()
    }

    /// Finds the first type-table entry equal to `d`, if any.
    pub fn find_type(&self, d: TypeData) -> (r: Option<usize>)
        ensures
            match r {
                Some(i) => i < self.types@.len() && self.types@[i as int] == d && (forall|j: int|
                    0 <= j < i ==> self.types@[j] != d),
                None => forall|j: int| 0 <= j < self.types@.len() ==> self.types@[j] != d,
            },
    {
        let mut i: usize = 0;
        while i < self.types.len()
            invariant
                i <= self.types@.len(),
                forall|j: int| 0 <= j < i ==> self.types@[j] != d,
            decreases self.types@.len() - i,
        {
            if self.types[i] == d {
                return Some(i);
            }
            i = i + 1;
        }
        None
    }

    /// Interns a type, returning the handle of its first (and only)
    /// table entry.
    pub fn intern_type(&mut self, d: TypeData) -> (r: TypeRef)
        requires
            old(self).wf(),
            type_entry_wf(d, old(self).idents@.len() as int, old(self).types@.len() as int),
        ensures
            final(self).wf(),
            r.id < final(self).types@.len(),
            final(self).types@[r.id as int] == d,
            forall|j: int| 0 <= j < r.id ==> final(self).types@[j] != d,
            final(self).grew_interned_only(old(self)),
            final(self).idents@ == old(self).idents@,
            final(self).attrs@ == old(self).attrs@,
            final(self).locs@ == old(self).locs@,
            (exists|j: int| 0 <= j < old(self).types@.len() && old(self).types@[j] == d)
                ==> final(self).types@ == old(self).types@,
            !(exists|j: int| 0 <= j < old(self).types@.len() && old(self).types@[j] == d)
                ==> final(self).types@ =~= old(self).types@.push(d) && r.id == old(
                self,
            ).types@.len(),
    {
        match self.find_type(d) {
            Some(i) => TypeRef { id: i },
            None => {
                let id = self.types.len();
                self.types.push(d);
                TypeRef { id }
            },
        }
    }
}

impl Context {
    /// Creates a new context, optionally pre-registering the dialects of
    /// a registry.  Only the builtin dialect is registered and loaded
    /// beyond what the registry brings; unregistered dialects are not
    /// tolerated until enabled.
    pub fn new(dialect_registry: Option<&crate::dialect_registry::DialectRegistry>,
        threading_enabled: bool) -> (r: Context)
        ensures
            r.wf(),
            r.allow_unregistered == false,
            r.threading == threading_enabled,
            views(r.loaded@) =~= seq!["builtin"@],
            match dialect_registry {
                Some(reg) => views(r.registered@) == merge_names(
                    seq!["builtin"@],
                    views(reg.namespaces@),
                ),
                None => views(r.registered@) =~= seq!["builtin"@],
            },
            r.idents@.len() == 0,
            r.types@.len() == 0,
            r.attrs@.len() == 0,
            r.locs@.len() == 0,
            r.bool_lists@.len() == 0,
            r.i32_lists@.len() == 0,
            r.str_lists@.len() == 0,
            r.loc_lists@.len() == 0,
            r.ops@.len() == 0,
            r.regions@.len() == 0,
            r.blocks@.len() == 0,
    {
        let mut registered: Vec<String> = Vec::new();
        registered.push("builtin".to_owned());
        let ghost base = views(registered@);
        proof {
            assert(base =~= seq!["builtin"@]);
            assert(base[0] == "builtin"@);
            lemma_name_in_index(base, 0);
        }
        match dialect_registry {
            Some(reg) => {
                proof {
                    lemma_merge_names_unique(views(registered@), views(reg.namespaces@));
                    lemma_merge_names_in(views(registered@), views(reg.namespaces@), "builtin"@);
                }
                merge_into(&mut registered, &reg.namespaces);
            },
            None => {},
        }
        let mut loaded: Vec<String> = Vec::new();
        loaded.push("builtin".to_owned());
        proof {
            assert(views(loaded@) =~= seq!["builtin"@]);
            assert(views(loaded@)[0] == "builtin"@);
            lemma_name_in_index(views(loaded@), 0);
        }
        Context {
            allow_unregistered: false,
            threading: threading_enabled,
            registered,
            loaded,
            idents: Vec::new(),
            types: Vec::new(),
            attrs: Vec::new(),
            locs: Vec::new(),
            bool_lists: Vec::new(),
            i32_lists: Vec::new(),
            str_lists: Vec::new(),
            loc_lists: Vec::new(),
            ops: Vec::new(),
            regions: Vec::new(),
            blocks: Vec::new(),
        }
    }

    /// Returns whether the context tolerates unregistered dialects.
    pub fn allows_unregistered_dialects(&self) -> (r: bool)
        ensures
            r == self.allow_unregistered,
    {
        self.allow_unregistered
    }

    /// Sets whether the context tolerates unregistered dialects.
    pub fn set_allow_unregistered_dialects(&mut self, allow: bool)
        requires
            old(self).wf(),
        ensures
            final(self).wf(),
            *final(self) == (Context { allow_unregistered: allow, ..*old(self) }),
    {
        self.allow_unregistered = allow;
    }

    /// Sets the threading mode, enabling or disabling multithreading.
    pub fn set_threading_enabled(&mut self, threading_enabled: bool)
        requires
            old(self).wf(),
        ensures
            final(self).wf(),
            *final(self) == (Context { threading: threading_enabled, ..*old(self) }),
    {
        self.threading = threading_enabled;
    }

    /// Returns the number of dialects registered with the context.
    pub fn num_registered_dialects(&self) -> (r: usize)
        ensures
            r == self.registered@.len(),
    {
        self.registered.len()
    }

    /// Returns the number of dialects loaded by the context.
    pub fn num_loaded_dialects(&self) -> (r: usize)
        ensures
            r == self.loaded@.len(),
    {
        self.loaded.len()
    }

    /// Appends the contents of a dialect registry to the registry tables
    /// of the context.
    pub fn append_dialect_registry(&mut self,
        dialect_registry: &crate::dialect_registry::DialectRegistry)
        requires
            old(self).wf(),
        ensures
            final(self).wf(),
            views(final(self).registered@) == merge_names(
                views(old(self).registered@),
                views(dialect_registry.namespaces@),
            ),
            *final(self) == (Context { registered: final(self).registered, ..*old(self) }),
    {
        proof {
            lemma_merge_names_unique(
                views(self.registered@),
                views(dialect_registry.namespaces@),
            );
            lemma_merge_names_in(
                views(self.registered@),
                views(dialect_registry.namespaces@),
                "builtin"@,
            );
        }
        merge_into(&mut self.registered, &dialect_registry.namespaces);
    }

    /// Loads every dialect registered with the context.
    pub fn load_all_available_dialects(&mut self)
        requires
            old(self).wf(),
        ensures
            final(self).wf(),
            views(final(self).loaded@) == merge_names(
                views(old(self).loaded@),
                views(old(self).registered@),
            ),
            *final(self) == (Context { loaded: final(self).loaded, ..*old(self) }),
    {
        proof {
            lemma_merge_names_unique(views(self.loaded@), views(self.registered@));
            lemma_merge_names_in(views(self.loaded@), views(self.registered@), "builtin"@);
        }
        merge_into(&mut self.loaded, &self.registered);
    }

    /// Gets the dialect with the given name, loading it if it is
    /// registered but not loaded yet.  Absence (the dialect is not
    /// registered) is an empty result, never a failure.
    pub fn get_or_load_dialect(&mut self, dialect_name: &str) -> (r: Option<
        crate::dialect::DialectRef,
    >)
        requires
            old(self).wf(),
        ensures
            final(self).wf(),
            *final(self) == (Context { loaded: final(self).loaded, ..*old(self) }),
            match r {
                Some(d) => d.id < final(self).loaded@.len() && views(final(self).loaded@)[d.id
                    as int] == dialect_name@ && (name_in(views(old(self).loaded@), dialect_name@)
                    || name_in(views(old(self).registered@), dialect_name@)) && (name_in(
                    views(old(self).loaded@),
                    dialect_name@,
                ) ==> views(final(self).loaded@) == views(old(self).loaded@)) && (!name_in(
                    views(old(self).loaded@),
                    dialect_name@,
                ) ==> views(final(self).loaded@) =~= views(old(self).loaded@).push(dialect_name@)),
                None => views(final(self).loaded@) == views(old(self).loaded@) && !name_in(
                    views(old(self).loaded@),
                    dialect_name@,
                ) && !name_in(views(old(self).registered@), dialect_name@),
            },
    {
        match find_name(&self.loaded, dialect_name) {
            Some(i) => {
                proof {
                    assert(views(self.loaded@)[i as int] == dialect_name@);
                    lemma_name_in_index(views(self.loaded@), i as int);
                }
                Some(crate::dialect::DialectRef { id: i })
            },
            None => {
                match find_name(&self.registered, dialect_name) {
                    Some(ri) => {
                        proof {
                            assert(views(self.registered@)[ri as int] == dialect_name@);
                            lemma_name_in_index(views(self.registered@), ri as int);
                        }
                        let id = self.loaded.len();
                        let ghost before = views(self.loaded@);
                        self.loaded.push(dialect_name.to_owned());
                        proof {
                            assert(views(self.loaded@) =~= before.push(dialect_name@));
                            lemma_push_unique(before, dialect_name@);
                            let bi = choose|bi: int|
                                0 <= bi < before.len() && before[bi] == "builtin"@;
                            assert(views(self.loaded@)[bi] == "builtin"@);
                            lemma_name_in_index(views(self.loaded@), bi);
                        }
                        Some(crate::dialect::DialectRef { id })
                    },
                    None => None,
                }
            },
        }
    }

    /// Checks that `operation_name` names an operation of a loaded
    /// dialect that the library knows to be registered.
    pub fn is_operation_registered(&self, operation_name: &str) -> (r: bool)
        requires
            self.wf(),
        ensures
            r == spec_operation_registered(self, operation_name@),
    {
        let found_dot = first_dot_index(operation_name);
        let k = match found_dot {
            Some(k) => k,
            None => {
                return false;
            },
        };
        let prefix = operation_name.substring_char(0, k);
        proof {
            assert(prefix@ == operation_name@.take(k as int));
            assert forall|k2: int| is_first_dot(operation_name@, k2) implies k2 == k as int by {
                if k2 < k as int {
                    assert(operation_name@[k2] != '.');
                }
                if k2 > k as int {
                    assert(operation_name@[k as int] != '.');
                }
            }
        }
        let in_loaded = find_name(&self.loaded, prefix);
        match in_loaded {
            Some(i) => {
                proof {
                    assert(views(self.loaded@)[i as int] == prefix@);
                    lemma_name_in_index(views(self.loaded@), i as int);
                }
            },
            None => {
                return false;
            },
        }
        let is_builtin = str_eq(prefix, "builtin");
        let is_func = str_eq(prefix, "func");
        let r = if is_builtin {
            str_eq(operation_name, "builtin.module") || str_eq(
                operation_name,
                "builtin.unrealized_conversion_cast",
            )
        } else if is_func {
            str_eq(operation_name, "func.func") || str_eq(operation_name, "func.call") || str_eq(
                operation_name,
                "func.return",
            )
        } else {
            false
        };
        proof {
            let ops = spec_dialect_ops(prefix@);
            if is_builtin {
                assert(ops[0] == "builtin.module"@);
                assert(ops[1] == "builtin.unrealized_conversion_cast"@);
                assert(name_in(ops, operation_name@) <==> (operation_name@ == "builtin.module"@
                    || operation_name@ == "builtin.unrealized_conversion_cast"@)) by {
                    if name_in(ops, operation_name@) {
                        let i = choose|i: int| 0 <= i < ops.len() && ops[i] == operation_name@;
                        assert(i == 0 || i == 1);
                    }
                    if operation_name@ == "builtin.module"@ {
                        lemma_name_in_index(ops, 0);
                    }
                    if operation_name@ == "builtin.unrealized_conversion_cast"@ {
                        lemma_name_in_index(ops, 1);
                    }
                }
            } else if is_func {
                assert(ops[0] == "func.func"@);
                assert(ops[1] == "func.call"@);
                assert(ops[2] == "func.return"@);
                assert(name_in(ops, operation_name@) <==> (operation_name@ == "func.func"@
                    || operation_name@ == "func.call"@ || operation_name@ == "func.return"@)) by {
                    if name_in(ops, operation_name@) {
                        let i = choose|i: int| 0 <= i < ops.len() && ops[i] == operation_name@;
                        assert(i == 0 || i == 1 || i == 2);
                    }
                    if operation_name@ == "func.func"@ {
                        lemma_name_in_index(ops, 0);
                    }
                    if operation_name@ == "func.call"@ {
                        lemma_name_in_index(ops, 1);
                    }
                    if operation_name@ == "func.return"@ {
                        lemma_name_in_index(ops, 2);
                    }
                }
            } else {
                assert(ops =~= Seq::<Seq<char>>::empty());
            }
            assert(is_first_dot(operation_name@, k as int));
        }
        r
    }
}

/// Whether `k` is the index of the first `.` in `s`.
pub open spec fn is_first_dot(s: Seq<char>, k: int) -> bool {
    0 <= k < s.len() && s[k] == '.' && (forall|j: int| 0 <= j < k ==> s[j] != '.')
}

/// The operation names of the dialects whose contents the library knows.
pub open spec fn spec_dialect_ops(ns: Seq<char>) -> Seq<Seq<char>> {
    if ns == "builtin"@ {
        seq!["builtin.module"@, "builtin.unrealized_conversion_cast"@]
    } else if ns == "func"@ {
        seq!["func.func"@, "func.call"@, "func.return"@]
    } else {
        Seq::empty()
    }
}

/// Whether `name` is a fully-qualified operation name whose dialect is
/// loaded in `c` and which that dialect is known to register.
pub open spec fn spec_operation_registered(c: &Context, name: Seq<char>) -> bool {
    exists|k: int|
        is_first_dot(name, k) && name_in(views(c.loaded@), name.take(k)) && name_in(
            spec_dialect_ops(name.take(k)),
            name,
        )
}

/// Finds the index of the first `.` in `s`, if any.
pub fn first_dot_index(s: &str) -> (r: Option<usize>)
    ensures
        match r {
            Some(k) => is_first_dot(s@, k as int),
            None => forall|j: int| 0 <= j < s@.len() ==> s@[j] != '.',
        },
{
    let n = s.unicode_len();
    let mut i: usize = 0;
    while i < n
        invariant
            i <= n,
            n == s@.len(),
            forall|j: int| 0 <= j < i ==> s@[j] != '.',
        decreases n - i,
    {
        if s.get_char(i) == '.' {
            return Some(i);
        }
        i = i + 1;
    }
    None
}


/// Growing the interned tables is reflexive.
pub proof fn lemma_grew_interned_refl(c: &Context)
    ensures
        c.grew_interned_only(c),
{
}

/// Growing the interned tables composes.
pub proof fn lemma_grew_interned_trans(c2: &Context, c1: &Context, c0: &Context)
    requires
        c2.grew_interned_only(c1),
        c1.grew_interned_only(c0),
    ensures
        c2.grew_interned_only(c0),
{
}

/// Growing only the identifier table grows only interned tables.
pub proof fn lemma_grew_idents_implies_interned(c1: &Context, c0: &Context)
    requires
        c1.grew_idents_only(c0),
    ensures
        c1.grew_interned_only(c0),
{
    assert(c0.types@.len() <= c1.types@.len());
    assert(c0.attrs@.len() <= c1.attrs@.len());
    assert(c0.locs@.len() <= c1.locs@.len());
    assert(views(c1.bool_lists@).len() == c1.bool_lists@.len());
    assert(views(c0.bool_lists@).len() == c0.bool_lists@.len());
    assert(c0.bool_lists@.len() <= c1.bool_lists@.len());
    assert(views(c1.i32_lists@).len() == c1.i32_lists@.len());
    assert(views(c0.i32_lists@).len() == c0.i32_lists@.len());
    assert(c0.i32_lists@.len() <= c1.i32_lists@.len());
    assert(views(c1.str_lists@).len() == c1.str_lists@.len());
    assert(views(c0.str_lists@).len() == c0.str_lists@.len());
    assert(c0.str_lists@.len() <= c1.str_lists@.len());
    assert(views(c1.loc_lists@).len() == c1.loc_lists@.len());
    assert(views(c0.loc_lists@).len() == c0.loc_lists@.len());
    assert(c0.loc_lists@.len() <= c1.loc_lists@.len());
}


impl Context {
    /// Finds the first attribute-table entry equal to `d`, if any.
    pub fn find_attr(&self, d: AttrData) -> (r: Option<usize>)
        ensures
            match r {
                Some(i) => i < self.attrs@.len() && self.attrs@[i as int] == d && (forall|j: int|
                    0 <= j < i ==> self.attrs@[j] != d),
                None => forall|j: int| 0 <= j < self.attrs@.len() ==> self.attrs@[j] != d,
            },
    {
        let mut i: usize = 0;
        while i < self.attrs.len()
            invariant
                i <= self.attrs@.len(),
                forall|j: int| 0 <= j < i ==> self.attrs@[j] != d,
            decreases self.attrs@.len() - i,
        {
            if self.attrs[i] == d {
                return Some(i);
            }
            i = i + 1;
        }
        None
    }

    /// Interns an attribute, returning the handle of its first (and
    /// only) table entry.
    pub fn intern_attr(&mut self, d: AttrData) -> (r: crate::attributes::AttributeRef)
        requires
            old(self).wf(),
            old(self).attr_entry_wf(d),
        ensures
            final(self).wf(),
            r.id < final(self).attrs@.len(),
            final(self).attrs@[r.id as int] == d,
            forall|j: int| 0 <= j < r.id ==> final(self).attrs@[j] != d,
            final(self).grew_interned_only(old(self)),
            final(self).idents@ == old(self).idents@,
            final(self).types@ == old(self).types@,
            final(self).locs@ == old(self).locs@,
            (exists|j: int| 0 <= j < old(self).attrs@.len() && old(self).attrs@[j] == d)
                ==> final(self).attrs@ == old(self).attrs@,
            !(exists|j: int| 0 <= j < old(self).attrs@.len() && old(self).attrs@[j] == d)
                ==> final(self).attrs@ =~= old(self).attrs@.push(d) && r.id == old(
                self,
            ).attrs@.len(),
    {
        match self.find_attr(d) {
            Some(i) => crate::attributes::AttributeRef { id: i },
            None => {
                let id = self.attrs.len();
                self.attrs.push(d);
                crate::attributes::AttributeRef { id }
            },
        }
    }

    /// Finds the first location-table entry equal to `d`, if any.
    pub fn find_loc(&self, d: LocationData) -> (r: Option<usize>)
        ensures
            match r {
                Some(i) => i < self.locs@.len() && self.locs@[i as int] == d && (forall|j: int|
                    0 <= j < i ==> self.locs@[j] != d),
                None => forall|j: int| 0 <= j < self.locs@.len() ==> self.locs@[j] != d,
            },
    {
        let mut i: usize = 0;
        while i < self.locs.len()
            invariant
                i <= self.locs@.len(),
                forall|j: int| 0 <= j < i ==> self.locs@[j] != d,
            decreases self.locs@.len() - i,
        {
            if self.locs[i] == d {
                return Some(i);
            }
            i = i + 1;
        }
        None
    }

    /// Interns a location, returning the handle of its first (and only)
    /// table entry.
    pub fn intern_loc(&mut self, d: LocationData) -> (r: LocationRef)
        requires
            old(self).wf(),
            loc_entry_wf(
                d,
                old(self).idents@.len() as int,
                old(self).attrs@.len() as int,
                views(old(self).loc_lists@),
                old(self).locs@.len() as int,
            ),
        ensures
            final(self).wf(),
            r.id < final(self).locs@.len(),
            final(self).locs@[r.id as int] == d,
            forall|j: int| 0 <= j < r.id ==> final(self).locs@[j] != d,
            final(self).grew_interned_only(old(self)),
            final(self).idents@ == old(self).idents@,
            final(self).types@ == old(self).types@,
            final(self).attrs@ == old(self).attrs@,
            (exists|j: int| 0 <= j < old(self).locs@.len() && old(self).locs@[j] == d)
                ==> final(self).locs@ == old(self).locs@,
            !(exists|j: int| 0 <= j < old(self).locs@.len() && old(self).locs@[j] == d)
                ==> final(self).locs@ =~= old(self).locs@.push(d) && r.id == old(
                self,
            ).locs@.len(),
    {
        match self.find_loc(d) {
            Some(i) => LocationRef { id: i },
            None => {
                let id = self.locs.len();
                self.locs.push(d);
                proof {
                    assert forall|i: int|
                        0 <= i < self.locs@.len() implies loc_entry_wf(
                        #[trigger] self.locs@[i],
                        self.idents@.len() as int,
                        self.attrs@.len() as int,
                        views(self.loc_lists@),
                        i,
                    ) by {
                        if i < old(self).locs@.len() {
                            assert(loc_entry_wf(
                                old(self).locs@[i],
                                old(self).idents@.len() as int,
                                old(self).attrs@.len() as int,
                                views(old(self).loc_lists@),
                                i,
                            ));
                        }
                    }
                }
                LocationRef { id }
            },
        }
    }

    /// Interns a boolean element list, returning its table index.
    pub fn intern_bool_list(&mut self, v: Vec<bool>) -> (r: usize)
        requires
            old(self).wf(),
        ensures
            final(self).wf(),
            r < final(self).bool_lists@.len(),
            views(final(self).bool_lists@)[r as int] == v@,
            final(self).grew_interned_only(old(self)),
            final(self).idents@ == old(self).idents@,
            final(self).types@ == old(self).types@,
            final(self).attrs@ == old(self).attrs@,
            final(self).locs@ == old(self).locs@,
    {
        let mut i: usize = 0;
        while i < self.bool_lists.len()
            invariant
                *self == *old(self),
                old(self).wf(),
                i <= self.bool_lists@.len(),
                forall|j: int| 0 <= j < i ==> views(self.bool_lists@)[j] != v@,
            decreases self.bool_lists@.len() - i,
        {
            if vec_bool_eq(&self.bool_lists[i], &v) {
                proof {
                    assert(views(self.bool_lists@)[i as int] == v@);
                }
                return i;
            }
            i = i + 1;
        }
        let id = self.bool_lists.len();
        let ghost before = views(self.bool_lists@);
        self.bool_lists.push(v);
        proof {
            assert(views(self.bool_lists@) =~= before.push(self.bool_lists@[id as int]@));
        }
        id
    }

    /// Interns a 32-bit integer element list, returning its table index.
    pub fn intern_i32_list(&mut self, v: Vec<i32>) -> (r: usize)
        requires
            old(self).wf(),
        ensures
            final(self).wf(),
            r < final(self).i32_lists@.len(),
            views(final(self).i32_lists@)[r as int] == v@,
            final(self).grew_interned_only(old(self)),
            final(self).idents@ == old(self).idents@,
            final(self).types@ == old(self).types@,
            final(self).attrs@ == old(self).attrs@,
            final(self).locs@ == old(self).locs@,
    {
        let mut i: usize = 0;
        while i < self.i32_lists.len()
            invariant
                *self == *old(self),
                old(self).wf(),
                i <= self.i32_lists@.len(),
                forall|j: int| 0 <= j < i ==> views(self.i32_lists@)[j] != v@,
            decreases self.i32_lists@.len() - i,
        {
            if vec_i32_eq(&self.i32_lists[i], &v) {
                proof {
                    assert(views(self.i32_lists@)[i as int] == v@);
                }
                return i;
            }
            i = i + 1;
        }
        let id = self.i32_lists.len();
        let ghost before = views(self.i32_lists@);
        self.i32_lists.push(v);
        proof {
            assert(views(self.i32_lists@) =~= before.push(self.i32_lists@[id as int]@));
        }
        id
    }

    /// Interns a string element list (identifier indices), returning its
    /// table index.
    pub fn intern_str_list(&mut self, v: Vec<usize>) -> (r: usize)
        requires
            old(self).wf(),
            forall|m: int| 0 <= m < v@.len() ==> v@[m] < old(self).idents@.len(),
        ensures
            final(self).wf(),
            r < final(self).str_lists@.len(),
            views(final(self).str_lists@)[r as int] == v@,
            final(self).grew_interned_only(old(self)),
            final(self).idents@ == old(self).idents@,
            final(self).types@ == old(self).types@,
            final(self).attrs@ == old(self).attrs@,
            final(self).locs@ == old(self).locs@,
    {
        let mut i: usize = 0;
        while i < self.str_lists.len()
            invariant
                *self == *old(self),
                old(self).wf(),
                i <= self.str_lists@.len(),
                forall|j: int| 0 <= j < i ==> views(self.str_lists@)[j] != v@,
            decreases self.str_lists@.len() - i,
        {
            if vec_usize_eq(&self.str_lists[i], &v) {
                proof {
                    assert(views(self.str_lists@)[i as int] == v@);
                }
                return i;
            }
            i = i + 1;
        }
        let id = self.str_lists.len();
        let ghost before = views(self.str_lists@);
        self.str_lists.push(v);
        proof {
            assert(views(self.str_lists@) =~= before.push(self.str_lists@[id as int]@));
        }
        id
    }
}

/// Element-wise equality of boolean vectors.
pub fn vec_bool_eq(a: &Vec<bool>, b: &Vec<bool>) -> (r: bool)
    ensures
        r == (a@ == b@),
{
    if a.len() != b.len() {
        return false;
    }
    let mut i: usize = 0;
    while i < a.len()
        invariant
            a@.len() == b@.len(),
            i <= a@.len(),
            forall|j: int| 0 <= j < i ==> a@[j] == b@[j],
        decreases a@.len() - i,
    {
        if a[i] != b[i] {
            return false;
        }
        i = i + 1;
    }
    proof {
        assert(a@ =~= b@);
    }
    true
}

/// Element-wise equality of 32-bit integer vectors.
pub fn vec_i32_eq(a: &Vec<i32>, b: &Vec<i32>) -> (r: bool)
    ensures
        r == (a@ == b@),
{
    if a.len() != b.len() {
        return false;
    }
    let mut i: usize = 0;
    while i < a.len()
        invariant
            a@.len() == b@.len(),
            i <= a@.len(),
            forall|j: int| 0 <= j < i ==> a@[j] == b@[j],
        decreases a@.len() - i,
    {
        if a[i] != b[i] {
            return false;
        }
        i = i + 1;
    }
    proof {
        assert(a@ =~= b@);
    }
    true
}

/// Element-wise equality of index vectors.
pub fn vec_usize_eq(a: &Vec<usize>, b: &Vec<usize>) -> (r: bool)
    ensures
        r == (a@ == b@),
{
    if a.len() != b.len() {
        return false;
    }
    let mut i: usize = 0;
    while i < a.len()
        invariant
            a@.len() == b@.len(),
            i <= a@.len(),
            forall|j: int| 0 <= j < i ==> a@[j] == b@[j],
        decreases a@.len() - i,
    {
        if a[i] != b[i] {
            return false;
        }
        i = i + 1;
    }
    proof {
        assert(a@ =~= b@);
    }
    true
}


impl Context {
    /// Interns a location list for fused locations, returning its table
    /// index.
    pub fn intern_loc_list(&mut self, v: Vec<LocationRef>) -> (r: usize)
        requires
            old(self).wf(),
            forall|m: int| 0 <= m < v@.len() ==> (#[trigger] v@[m]).id < old(self).locs@.len(),
        ensures
            final(self).wf(),
            r < final(self).loc_lists@.len(),
            views(final(self).loc_lists@)[r as int] == v@,
            final(self).grew_interned_only(old(self)),
            final(self).idents@ == old(self).idents@,
            final(self).types@ == old(self).types@,
            final(self).attrs@ == old(self).attrs@,
            final(self).locs@ == old(self).locs@,
    {
        let mut i: usize = 0;
        while i < self.loc_lists.len()
            invariant
                *self == *old(self),
                old(self).wf(),
                i <= self.loc_lists@.len(),
                forall|j: int| 0 <= j < i ==> views(self.loc_lists@)[j] != v@,
            decreases self.loc_lists@.len() - i,
        {
            if vec_locref_eq(&self.loc_lists[i], &v) {
                proof {
                    assert(views(self.loc_lists@)[i as int] == v@);
                }
                return i;
            }
            i = i + 1;
        }
        let id = self.loc_lists.len();
        let ghost before = views(self.loc_lists@);
        self.loc_lists.push(v);
        proof {
            assert(views(self.loc_lists@) =~= before.push(self.loc_lists@[id as int]@));
        }
        id
    }
}

/// Element-wise equality of location reference vectors.
pub fn vec_locref_eq(a: &Vec<LocationRef>, b: &Vec<LocationRef>) -> (r: bool)
    ensures
        r == (a@ == b@),
{
    if a.len() != b.len() {
        return false;
    }
    let mut i: usize = 0;
    while i < a.len()
        invariant
            a@.len() == b@.len(),
            i <= a@.len(),
            forall|j: int| 0 <= j < i ==> a@[j] == b@[j],
        decreases a@.len() - i,
    {
        if a[i] != b[i] {
            return false;
        }
        i = i + 1;
    }
    proof {
        assert(a@ =~= b@);
    }
    true
}


impl Context {
    /// Frame: the interning tables, dialect tables and flags are
    /// unchanged; only the tree arenas may differ.
    pub open spec fn same_interned(&self, prev: &Context) -> bool {
        &&& self.allow_unregistered == prev.allow_unregistered
        &&& self.threading == prev.threading
        &&& views(self.registered@) == views(prev.registered@)
        &&& views(self.loaded@) == views(prev.loaded@)
        &&& self.idents@ == prev.idents@
        &&& self.types@ == prev.types@
        &&& self.attrs@ == prev.attrs@
        &&& self.locs@ == prev.locs@
        &&& views(self.bool_lists@) == views(prev.bool_lists@)
        &&& views(self.i32_lists@) == views(prev.i32_lists@)
        &&& views(self.str_lists@) == views(prev.str_lists@)
        &&& views(self.loc_lists@) == views(prev.loc_lists@)
    }
}


impl Context {
    /// Frame: the identifier table may have grown (keeping its prefix);
    /// every other interning table, the dialect tables and the flags are
    /// unchanged.  The tree arenas are unconstrained.
    pub open spec fn idents_extended(&self, prev: &Context) -> bool {
        &&& prev.idents@.len() <= self.idents@.len()
        &&& forall|j: int| 0 <= j < prev.idents@.len() ==> self.idents@[j]@ == prev.idents@[j]@
        &&& self.allow_unregistered == prev.allow_unregistered
        &&& self.threading == prev.threading
        &&& views(self.registered@) == views(prev.registered@)
        &&& views(self.loaded@) == views(prev.loaded@)
        &&& self.types@ == prev.types@
        &&& self.attrs@ == prev.attrs@
        &&& self.locs@ == prev.locs@
        &&& views(self.bool_lists@) == views(prev.bool_lists@)
        &&& views(self.i32_lists@) == views(prev.i32_lists@)
        &&& views(self.str_lists@) == views(prev.str_lists@)
        &&& views(self.loc_lists@) == views(prev.loc_lists@)
    }
}

} // verus!
